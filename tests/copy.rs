use limcode::{fast_copy, fast_copy_with, select_copy_tier, CopyTier, VectorWidth};

#[test]
fn test_simd_detection() {
    // Every width of the fallback chain gives the same bytes.
    let src: Vec<u8> = (0..70_001u32).map(|i| (i % 253) as u8).collect();
    let mut width = Some(VectorWidth::W64);
    while let Some(w) = width {
        println!("block loop laid out for {}-byte vectors", w.bytes());
        let mut dst = vec![1u8, 2, 3];
        fast_copy_with(&mut dst, &src, w);
        assert_eq!(&dst[..3], &[1, 2, 3]);
        assert_eq!(&dst[3..], &src[..]);
        width = w.narrower();
    }
}

#[test]
fn copy_tiers_by_length() {
    assert_eq!(select_copy_tier(65536), CopyTier::Cached);
    assert_eq!(select_copy_tier(65537), CopyTier::Streaming);
    assert_eq!(select_copy_tier(16_777_216), CopyTier::Streaming);
    assert_eq!(select_copy_tier(16_777_217), CopyTier::Prefaulted);
    for n in [0usize, 5, 65536, 65537, 100_000] {
        let src: Vec<u8> = (0..n).map(|i| (i * 7) as u8).collect();
        let mut dst = vec![42u8; 5];
        fast_copy(&mut dst, &src);
        assert_eq!(dst.len(), 5 + n);
        assert_eq!(&dst[5..], &src[..]);
    }
}

#[test]
fn prefault_touches_one_byte_per_page() {
    let mut buf = vec![7u8; 10_000];
    limcode::copy::prefault_pages(&mut buf, 100, 9_000);
    for (i, b) in buf.iter().enumerate() {
        let expected = if i >= 100 && i < 9_100 && (i - 100) % 4096 == 0 { 0 } else { 7 };
        assert_eq!(*b, expected, "byte {}", i);
    }
}
