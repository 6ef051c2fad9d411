use limcode::{
    chunk_size_for, deserialize_bincode, deserialize_bincode_unchecked, select_strategy,
    serialize_bincode, Decoder, Encoder, Strategy,
};

#[test]
fn test_basic_encoding() {
    let mut enc = Encoder::new();
    enc.write_u8(42);
    enc.write_u16(1234);
    enc.write_u32(567890);
    enc.write_u64(9876543210);
    let bytes = enc.finish();

    let mut dec = Decoder::new(&bytes);
    assert_eq!(dec.read_u8().unwrap(), 42);
    assert_eq!(dec.read_u16().unwrap(), 1234);
    assert_eq!(dec.read_u32().unwrap(), 567890);
    assert_eq!(dec.read_u64().unwrap(), 9876543210);
}

#[test]
fn test_bytes() {
    let mut enc = Encoder::new();
    enc.write_bytes(b"hello world");
    let bytes = enc.finish();

    let mut dec = Decoder::new(&bytes);
    let mut buf = vec![0u8; 11];
    dec.read_bytes(&mut buf).unwrap();
    assert_eq!(&buf, b"hello world");
}

#[test]
fn test_varint() {
    let mut enc = Encoder::new();
    enc.write_varint(127);
    enc.write_varint(16383);
    enc.write_varint(1048575);
    let bytes = enc.finish();

    let mut dec = Decoder::new(&bytes);
    assert_eq!(dec.read_varint().unwrap(), 127);
    assert_eq!(dec.read_varint().unwrap(), 16383);
    assert_eq!(dec.read_varint().unwrap(), 1048575);
}

#[test]
fn varint_bytes_and_limits() {
    let mut enc = Encoder::new();
    enc.write_varint(300);
    enc.write_varint(u64::MAX);
    let bytes = enc.finish();
    assert_eq!(&bytes[0..2], &[0xac, 0x02]);
    assert_eq!(bytes.len(), 2 + 10);
    let mut dec = Decoder::new(&bytes);
    assert_eq!(dec.read_varint().unwrap(), 300);
    assert_eq!(dec.read_varint().unwrap(), u64::MAX);
    assert!(dec.read_varint().is_err());
    let mut cut = Decoder::new(&[0x80, 0x80]);
    assert!(cut.read_varint().is_err());
}

const SIZES: [usize; 14] = [0, 1, 10, 127, 128, 255, 256, 1000, 4096, 4097, 16384, 65536, 65537, 1048576];

fn pattern(n: usize) -> Vec<u8> {
    (0..n).map(|i| (i * 31 % 251) as u8).collect()
}

#[test]
fn length_prefixed_matches_reference_at_every_size() {
    for n in SIZES {
        let data = pattern(n);
        let reference = bincode::serialize(&data).unwrap();
        let mut enc = Encoder::new();
        enc.write_vec_bincode(&data);
        assert_eq!(enc.finish(), reference, "encoder, {} bytes", n);
        assert_eq!(serialize_bincode(&data), reference, "serialize_bincode, {} bytes", n);
        assert_eq!(limcode::serialize_hybrid(&data), reference, "hybrid, {} bytes", n);
        let mut dec = Decoder::new(&reference);
        assert_eq!(dec.read_vec_bincode().unwrap(), data);
        assert_eq!(dec.remaining(), 0);
    }
}

#[test]
fn large_copy_tiers_match_reference() {
    let data = pattern(16_777_216 + 4099);
    assert_eq!(serialize_bincode(&data), bincode::serialize(&data).unwrap());
}

#[test]
fn empty_buffer_is_eight_zero_bytes() {
    assert_eq!(serialize_bincode(&[]), vec![0u8; 8]);
    let mut enc = Encoder::new();
    enc.write_vec_bincode(&[]);
    assert_eq!(enc.finish(), vec![0u8; 8]);
}

#[test]
fn mixed_paths_keep_write_order() {
    let big = pattern(5000);
    let mut enc = Encoder::new();
    enc.write_vec_bincode(b"ab");
    enc.write_u8(7);
    enc.write_vec_bincode(&big);
    enc.write_vec_bincode(b"c");
    assert_eq!(enc.size(), 10 + 1 + 5008 + 9);
    let bytes = enc.finish();
    let mut expected = bincode::serialize(&b"ab".to_vec()).unwrap();
    expected.push(7);
    expected.extend(bincode::serialize(&big).unwrap());
    expected.extend(bincode::serialize(&b"c".to_vec()).unwrap());
    assert_eq!(bytes, expected);
}

#[test]
fn chunk_sizes_by_span() {
    assert_eq!(chunk_size_for(100), 100);
    assert_eq!(chunk_size_for(4096), 4096);
    assert_eq!(chunk_size_for(4097), 16384);
    assert_eq!(chunk_size_for(65536), 16384);
    assert_eq!(chunk_size_for(65537), 32768);
    assert_eq!(chunk_size_for(1048576), 32768);
    assert_eq!(chunk_size_for(1048577), 49152);
    assert_eq!(select_strategy(4096), Strategy::InProcess);
    assert_eq!(select_strategy(4097), Strategy::Accelerated);
}

#[test]
fn decoder_reads_large_spans_and_reports_short_input() {
    let data = pattern(200_000);
    let mut dec = Decoder::new(&data);
    let mut out = vec![0u8; 150_000];
    dec.read_bytes(&mut out).unwrap();
    assert_eq!(&out[..], &data[..150_000]);
    assert_eq!(dec.remaining(), 50_000);
    let mut too_much = vec![0u8; 50_001];
    assert!(dec.read_bytes(&mut too_much).is_err());
    assert_eq!(dec.remaining(), 50_000);
    let mut empty = Decoder::new(&[]);
    assert!(empty.read_u8().is_err());
    assert!(empty.read_u64().is_err());
}

#[test]
fn bincode_zero_copy_checked_and_unchecked() {
    let encoded = serialize_bincode(&[1, 2, 3, 4, 5, 6, 7, 8]);
    assert_eq!(deserialize_bincode(&encoded).unwrap(), &[1, 2, 3, 4, 5, 6, 7, 8]);
    assert_eq!(deserialize_bincode_unchecked(&encoded), deserialize_bincode(&encoded).unwrap());
    assert!(deserialize_bincode(&encoded[..10]).is_err());
    assert!(deserialize_bincode(&[1, 2]).is_err());
}
