use limcode::{
    deserialize_pod, deserialize_pod_borrowed, serialize_pod, serialize_pod_into,
    serialize_pod_parallel, serialize_vec_parallel, DeError,
};

#[test]
fn test_pod_round_trip() {
    let u64_data: Vec<u64> = (0..500).collect();
    let u64_bytes = serialize_pod(&u64_data).unwrap();
    let u64_decoded = deserialize_pod::<u64>(&u64_bytes).unwrap();
    assert_eq!(u64_data, u64_decoded);

    let u32_data: Vec<u32> = (0..500).map(|i| i as u32).collect();
    let u32_bytes = serialize_pod(&u32_data).unwrap();
    let u32_decoded = deserialize_pod::<u32>(&u32_bytes).unwrap();
    assert_eq!(u32_data, u32_decoded);

    // Floats travel as their IEEE-754 bit patterns.
    let f64_data: Vec<f64> = (0..500).map(|i| i as f64 * 1.5).collect();
    let f64_bits: Vec<u64> = f64_data.iter().map(|x| x.to_bits()).collect();
    let f64_bytes = serialize_pod(&f64_bits).unwrap();
    let f64_decoded: Vec<f64> = deserialize_pod::<u64>(&f64_bytes)
        .unwrap()
        .into_iter()
        .map(f64::from_bits)
        .collect();
    assert_eq!(f64_data, f64_decoded);
}

#[test]
fn test_pod_serialization() {
    let data: Vec<u64> = (0..1000).collect();
    let pod_bytes = serialize_pod(&data).unwrap();
    let bincode_bytes = bincode::serialize(&data).unwrap();
    assert_eq!(pod_bytes, bincode_bytes, "POD must match bincode format");
}

#[test]
fn test_serialize_vec() {
    let data = vec![1u8, 2, 3, 4, 5];
    let our_bytes = serialize_pod(&data).unwrap();
    let bincode_bytes = bincode::serialize(&data).unwrap();
    assert_eq!(our_bytes, bincode_bytes);
}

#[test]
fn test_deserialize_vec() {
    let data = vec![1u8, 2, 3, 4, 5];
    let bytes = bincode::serialize(&data).unwrap();
    let decoded: Vec<u8> = deserialize_pod(&bytes).unwrap();
    assert_eq!(data, decoded);
}

#[test]
fn test_parallel_serialization() {
    let data: Vec<u64> = (0..2000).collect();
    let serial_bytes = serialize_pod(&data).unwrap();
    let parallel_bytes = serialize_vec_parallel(&data).unwrap();
    let bincode_bytes = bincode::serialize(&data).unwrap();
    assert_eq!(serial_bytes, parallel_bytes, "Parallel must match serial");
    assert_eq!(serial_bytes, bincode_bytes, "Must match bincode");
}

#[test]
fn parallel_matches_sequential_above_threshold() {
    let data: Vec<u64> = (0..1_250_007u64).map(|i| i.wrapping_mul(0x9E37_79B9_7F4A_7C15)).collect();
    let serial = serialize_pod(&data).unwrap();
    assert_eq!(serialize_vec_parallel(&data).unwrap(), serial);
    assert_eq!(serialize_pod_parallel(&data).unwrap(), serial);
    let small: Vec<u32> = (0..999_999u32).collect();
    assert_eq!(serialize_pod_parallel(&small).unwrap(), serialize_pod(&small).unwrap());
}

#[test]
fn sequence_scenario_thousand_u64() {
    let data: Vec<u64> = (0..1000).collect();
    let bytes = serialize_pod(&data).unwrap();
    assert_eq!(bytes.len(), 8008);
    assert_eq!(&bytes[0..8], &[0xe8, 0x03, 0, 0, 0, 0, 0, 0]);
    assert_eq!(&bytes[8..16], &[0u8; 8]);
    assert_eq!(&bytes[16..24], &[1, 0, 0, 0, 0, 0, 0, 0]);
}

#[test]
fn pod_into_reuses_buffer() {
    let mut buf = vec![9u8; 100];
    serialize_pod_into(&[6u64, 7, 8], &mut buf).unwrap();
    assert_eq!(buf, bincode::serialize(&vec![6u64, 7, 8]).unwrap());
}

#[test]
fn borrowed_and_owned_agree() {
    let data: Vec<i16> = vec![-32768, -1, 0, 1, 32767];
    let bytes = serialize_pod(&data).unwrap();
    let view = deserialize_pod_borrowed::<i16>(&bytes).unwrap();
    assert_eq!(view.len(), 5);
    assert_eq!(view.get(0), -32768);
    assert_eq!(view.as_bytes(), &bytes[8..]);
    assert_eq!(view.to_vec(), deserialize_pod::<i16>(&bytes).unwrap());
}

#[test]
fn pod_decode_errors() {
    assert!(matches!(deserialize_pod::<u64>(&[1, 0, 0]), Err(DeError::Eof)));
    let mut bytes = serialize_pod(&[1u32, 2, 3]).unwrap();
    bytes.pop();
    assert!(matches!(deserialize_pod::<u32>(&bytes), Err(DeError::BufferTooSmall)));
    let huge = [0xff; 8];
    assert!(matches!(deserialize_pod::<u64>(&huge), Err(DeError::BufferTooSmall)));
}

#[test]
fn test_pod_u64_matches_wincode_bincode() {
    let sizes = [100, 1000, 10000, 100000];
    for size in sizes {
        let data: Vec<u64> = (0..size).collect();
        let limcode_bytes = serialize_pod(&data).unwrap();
        let bincode_bytes = bincode::serialize(&data).unwrap();
        assert_eq!(limcode_bytes, bincode_bytes, "Limcode POD output doesn't match bincode for {} elements", size);
        let limcode_decoded: Vec<u64> = deserialize_pod(&limcode_bytes).unwrap();
        let bincode_decoded: Vec<u64> = bincode::deserialize(&bincode_bytes).unwrap();
        assert_eq!(data, limcode_decoded);
        assert_eq!(data, bincode_decoded);
    }
}

#[test]
fn test_vec_u8_matches() {
    let sizes = [1000, 10000, 100000, 1000000];
    for size in sizes {
        let data: Vec<u8> = (0..size).map(|i| (i % 256) as u8).collect();
        let limcode_bytes = serialize_pod(&data).unwrap();
        let bincode_bytes = bincode::serialize(&data).unwrap();
        assert_eq!(limcode_bytes, bincode_bytes, "Vec<u8>[{}]: limcode != bincode", size);
        let limcode_decoded: Vec<u8> = deserialize_pod(&limcode_bytes).unwrap();
        assert_eq!(data, limcode_decoded);
    }
}

#[test]
fn test_mixed_types_match() {
    let u32_data: Vec<u32> = (0..1000).collect();
    let i64_data: Vec<i64> = (-500..500).collect();
    let f64_data: Vec<f64> = (0..1000).map(|i| i as f64 * 1.5).collect();
    assert_eq!(serialize_pod(&u32_data).unwrap(), bincode::serialize(&u32_data).unwrap(), "u32 mismatch");
    assert_eq!(serialize_pod(&i64_data).unwrap(), bincode::serialize(&i64_data).unwrap(), "i64 mismatch");
    let f64_bits: Vec<u64> = f64_data.iter().map(|x| x.to_bits()).collect();
    assert_eq!(serialize_pod(&f64_bits).unwrap(), bincode::serialize(&f64_data).unwrap(), "f64 mismatch");
}

#[test]
fn test_u64_vec_1kb() {
    let data: Vec<u64> = vec![0xABCDEF0123456789; 128];
    assert_eq!(bincode::serialize(&data).unwrap(), serialize_pod(&data).unwrap());
}

#[test]
fn test_u64_vec_8kb() {
    let data: Vec<u64> = vec![0xABCDEF0123456789; 1024];
    assert_eq!(bincode::serialize(&data).unwrap(), serialize_pod(&data).unwrap());
}

#[test]
fn test_u64_vec_128kb() {
    let data: Vec<u64> = vec![0xABCDEF0123456789; 16384];
    assert_eq!(bincode::serialize(&data).unwrap(), serialize_pod(&data).unwrap());
}

#[test]
fn test_u8_vec() {
    let data: Vec<u8> = vec![0xAB; 10000];
    assert_eq!(bincode::serialize(&data).unwrap(), serialize_pod(&data).unwrap());
}

#[test]
fn test_u32_vec() {
    let data: Vec<u32> = vec![0x12345678; 1000];
    assert_eq!(bincode::serialize(&data).unwrap(), serialize_pod(&data).unwrap());
}

#[test]
fn test_i64_vec_negative() {
    let data: Vec<i64> = vec![-1; 1000];
    assert_eq!(bincode::serialize(&data).unwrap(), serialize_pod(&data).unwrap());
}

#[test]
fn test_sequential_data() {
    let data: Vec<u64> = (0..1000).collect();
    assert_eq!(bincode::serialize(&data).unwrap(), serialize_pod(&data).unwrap());
}

#[test]
fn test_empty_vec() {
    let data: Vec<u64> = vec![];
    assert_eq!(bincode::serialize(&data).unwrap(), serialize_pod(&data).unwrap());
}

#[test]
fn test_single_element() {
    let data: Vec<u64> = vec![42];
    assert_eq!(bincode::serialize(&data).unwrap(), serialize_pod(&data).unwrap());
}
