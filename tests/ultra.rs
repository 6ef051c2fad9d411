use limcode::ultra_fast::{
    serialize_direct_write, serialize_maybe_uninit, serialize_simd_64, serialize_stack_small,
};
use limcode::{return_to_pool, serialize_hybrid, serialize_pooled, BufferPool};

#[test]
fn every_strategy_gives_the_reference_bytes() {
    for n in [0usize, 1, 64, 119, 120, 121, 5000] {
        let data: Vec<u8> = (0..n).map(|i| (i ^ 0x5a) as u8).collect();
        let reference = bincode::serialize(&data).unwrap();
        assert_eq!(serialize_hybrid(&data), reference);
        assert_eq!(serialize_maybe_uninit(&data), reference);
        assert_eq!(serialize_direct_write(&data), reference);
        if n == 64 {
            assert_eq!(serialize_simd_64(&data), reference);
        }
        if n + 8 <= 256 {
            assert_eq!(serialize_stack_small::<256>(&data), reference);
        }
    }
}

#[test]
fn pool_reuses_and_caps() {
    let mut pool = BufferPool::new();
    let a = serialize_pooled(&mut pool, b"hi");
    assert_eq!(a, vec![2, 0, 0, 0, 0, 0, 0, 0, b'h', b'i']);
    return_to_pool(&mut pool, a);
    assert_eq!(pool.len(), 1);
    let b = serialize_pooled(&mut pool, b"x");
    assert_eq!(b, vec![1, 0, 0, 0, 0, 0, 0, 0, b'x']);
    assert_eq!(pool.len(), 0);
    for _ in 0..20 {
        return_to_pool(&mut pool, Vec::new());
    }
    assert_eq!(pool.len(), 16);
}
