use limcode::{DeError, Deserializer, Serializer};

#[test]
fn test_serialize_struct() {
    // struct { a: u64, b: String } is its fields back to back.
    let mut ser = Serializer::new(128);
    ser.serialize_u64(42);
    ser.serialize_str("hello");
    let our_bytes = ser.into_vec();
    let bincode_bytes = bincode::serialize(&(42u64, "hello".to_string())).unwrap();
    assert_eq!(our_bytes, bincode_bytes, "Must match bincode format!");
}

#[test]
fn test_deserialize_struct() {
    let bytes = bincode::serialize(&(42u64, "hello".to_string())).unwrap();
    let mut de = Deserializer::new(&bytes);
    assert_eq!(de.read_u64().unwrap(), 42);
    assert_eq!(de.read_str().unwrap(), "hello");
    assert_eq!(de.remaining(), 0);
}

#[test]
fn option_scenarios() {
    let mut none = Serializer::new(0);
    none.serialize_none();
    assert_eq!(none.into_vec(), vec![0x00]);
    let mut some = Serializer::new(0);
    some.serialize_some();
    some.serialize_u8(42);
    assert_eq!(some.into_vec(), vec![0x01, 0x2A]);
    assert_eq!(bincode::serialize(&Some(42u8)).unwrap(), vec![0x01, 0x2A]);
    assert_eq!(bincode::serialize(&None::<u8>).unwrap(), vec![0x00]);

    let mut de = Deserializer::new(&[0x01, 0x2A, 0x00, 0x02]);
    assert!(de.read_option_tag().unwrap());
    assert_eq!(de.read_u8().unwrap(), 42);
    assert!(!de.read_option_tag().unwrap());
    assert!(matches!(de.read_option_tag(), Err(DeError::InvalidOptionTag(2))));
}

#[test]
fn enum_variants_and_sequences() {
    // Result::<u32, u8>::Err(7): variant 1, then the payload.
    let mut ser = Serializer::new(0);
    ser.serialize_variant(1);
    ser.serialize_u8(7);
    assert_eq!(ser.into_vec(), bincode::serialize(&Err::<u32, u8>(7)).unwrap());

    let mut ser = Serializer::new(0);
    ser.serialize_seq(Some(3)).unwrap();
    for x in [10u16, 20, 30] {
        ser.serialize_u16(x);
    }
    assert_eq!(ser.into_vec(), bincode::serialize(&vec![10u16, 20, 30]).unwrap());

    let mut ser = Serializer::new(0);
    assert!(ser.serialize_seq(None).is_err());
    assert!(ser.serialize_map(None).is_err());
    assert!(ser.into_vec().is_empty());

    let bytes = bincode::serialize(&Err::<u32, u8>(7)).unwrap();
    let mut de = Deserializer::new(&bytes);
    assert_eq!(de.read_variant_index(2).unwrap(), 1);
    let mut de = Deserializer::new(&bytes);
    assert!(matches!(de.read_variant_index(1), Err(DeError::InvalidEnumDiscriminant(1))));
}

#[test]
fn primitives_at_their_extremes() {
    let mut ser = Serializer::new(0);
    ser.serialize_i8(i8::MIN);
    ser.serialize_i16(i16::MIN);
    ser.serialize_i32(i32::MIN);
    ser.serialize_i64(i64::MIN);
    ser.serialize_i64(i64::MAX);
    ser.serialize_u64(u64::MAX);
    ser.serialize_bool(true);
    ser.serialize_u32(f32::NAN.to_bits());
    ser.serialize_u64(f64::NEG_INFINITY.to_bits());
    let bytes = ser.into_vec();
    let reference = bincode::serialize(&(
        i8::MIN,
        i16::MIN,
        i32::MIN,
        i64::MIN,
        i64::MAX,
        u64::MAX,
        true,
        f32::NAN,
        f64::NEG_INFINITY,
    ))
    .unwrap();
    assert_eq!(bytes, reference);

    let mut de = Deserializer::new(&bytes);
    assert_eq!(de.read_i8().unwrap(), i8::MIN);
    assert_eq!(de.read_i16().unwrap(), i16::MIN);
    assert_eq!(de.read_i32().unwrap(), i32::MIN);
    assert_eq!(de.read_i64().unwrap(), i64::MIN);
    assert_eq!(de.read_i64().unwrap(), i64::MAX);
    assert_eq!(de.read_u64().unwrap(), u64::MAX);
    assert!(de.read_bool().unwrap());
    assert_eq!(de.read_u32().unwrap(), f32::NAN.to_bits());
    assert_eq!(f64::from_bits(de.read_u64().unwrap()), f64::NEG_INFINITY);
    assert!(matches!(de.read_u8(), Err(DeError::Eof)));
}

#[test]
fn strings_and_bytes() {
    let text = "Hello, 世界! 🌍";
    let mut ser = Serializer::new(0);
    ser.serialize_str(text);
    ser.serialize_bytes(&[9, 8, 7]);
    let bytes = ser.into_vec();
    assert_eq!(
        bytes,
        bincode::serialize(&(text.to_string(), serde_bytes_like(vec![9u8, 8, 7]))).unwrap()
    );
    let mut de = Deserializer::new(&bytes);
    assert_eq!(de.read_str().unwrap(), text);
    assert_eq!(de.read_byte_buf().unwrap(), &[9, 8, 7]);

    let bad = [2, 0, 0, 0, 0, 0, 0, 0, 0xff, 0xfe];
    let mut de = Deserializer::new(&bad);
    assert!(matches!(de.read_str(), Err(DeError::Utf8Error(_))));
    let mut de = Deserializer::new(&[2]);
    assert!(matches!(de.read_bool(), Err(DeError::InvalidBool(2))));
    let cut = [5, 0, 0, 0, 0, 0, 0, 0, 1];
    let mut de = Deserializer::new(&cut);
    assert!(matches!(de.read_byte_buf(), Err(DeError::Eof)));
}

fn serde_bytes_like(v: Vec<u8>) -> Vec<u8> {
    v
}
