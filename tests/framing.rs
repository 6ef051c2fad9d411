use limcode::{
    deserialize_pod_compressed, deserialize_pod_safe, deserialize_pod_with_checksum,
    serialize_pod, serialize_pod_compressed, serialize_pod_safe, serialize_pod_with_checksum,
    SerError,
};

#[test]
fn checksum_round_trip_and_mismatch() {
    let data: Vec<u64> = vec![1, 2, 3, 4, 5];
    let framed = serialize_pod_with_checksum(&data).unwrap();
    let plain = serialize_pod(&data).unwrap();
    assert_eq!(&framed[4..], &plain[..]);
    assert_eq!(&framed[..4], &crc32fast::hash(&plain).to_le_bytes());
    assert_eq!(deserialize_pod_with_checksum::<u64>(&framed).unwrap(), data);

    let mut corrupt = framed.clone();
    corrupt[10] ^= 1;
    assert!(matches!(deserialize_pod_with_checksum::<u64>(&corrupt), Err(SerError::ChecksumMismatch { .. })));
    assert!(matches!(deserialize_pod_with_checksum::<u64>(&[1, 2, 3]), Err(SerError::TooShort)));
}

#[test]
fn compression_round_trip() {
    let data: Vec<u32> = (0..10_000).map(|i| i % 17).collect();
    let compressed = serialize_pod_compressed(&data, 3).unwrap();
    assert!(compressed.len() < serialize_pod(&data).unwrap().len());
    assert_eq!(deserialize_pod_compressed::<u32>(&compressed).unwrap(), data);
    assert!(matches!(deserialize_pod_compressed::<u32>(&[1, 2, 3, 4]), Err(SerError::Compression(_))));

    let safe = serialize_pod_safe(&data, 3).unwrap();
    assert_eq!(&safe[4..], &compressed[..]);
    assert_eq!(deserialize_pod_safe::<u32>(&safe).unwrap(), data);
    let mut corrupt = safe.clone();
    corrupt[0] ^= 0xff;
    assert!(matches!(deserialize_pod_safe::<u32>(&corrupt), Err(SerError::ChecksumMismatch { .. })));
}
