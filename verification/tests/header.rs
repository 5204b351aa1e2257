use rusty_ratchet::header::HEADER;

#[test]
fn serialize_is_key_then_little_endian_counters() {
    let header = HEADER::new([7u8; 32], 258, 65535).unwrap();
    let bytes = header.serialize().unwrap();
    assert_eq!(bytes.len(), 36);
    assert_eq!(&bytes[..32], &[7u8; 32]);
    assert_eq!(&bytes[32..], &[2, 1, 255, 255]);
}

#[test]
fn deserialize_reverses_serialize() {
    let mut key = [0u8; 32];
    for (i, b) in key.iter_mut().enumerate() {
        *b = i as u8;
    }
    let header = HEADER::new(key, 12345, 0).unwrap();
    let back = HEADER::deserialize(&header.serialize().unwrap()).unwrap();
    assert_eq!(back.dh, key);
    assert_eq!(back.pn, 12345);
    assert_eq!(back.n, 0);
}

#[test]
fn deserialize_ignores_trailing_bytes() {
    let mut data = vec![9u8; 32];
    data.extend([1, 0, 0, 1]);
    data.extend([0xff; 5]);
    let header = HEADER::deserialize(&data).unwrap();
    assert_eq!(header.dh, [9u8; 32]);
    assert_eq!(header.pn, 1);
    assert_eq!(header.n, 256);
}
