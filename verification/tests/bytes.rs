use butabuti::bytes::ByteReader;

#[test]
fn test_read_magic_success() {
    let data = b"DST\x1a";
    let mut reader = ByteReader::new(&data[..]);
    let result = reader.read_magic(b"DST\x1a");
    assert_eq!(result.unwrap(), b"DST\x1a".to_vec());
}

#[test]
fn test_read_magic_mismatch() {
    let data = b"PES\x00";
    let mut reader = ByteReader::new(&data[..]);
    let result = reader.read_magic(b"DST\x1a");
    assert!(result.is_err());
}

#[test]
fn test_read_bytes_success() {
    let data = vec![1, 2, 3, 4, 5];
    let mut reader = ByteReader::new(&data);
    let result = reader.read_bytes(5).unwrap();
    assert_eq!(result, vec![1, 2, 3, 4, 5]);
}

#[test]
fn test_read_bytes_eof() {
    let data = vec![1, 2, 3];
    let mut reader = ByteReader::new(&data);
    let result = reader.read_bytes(5);
    assert!(result.is_err());
}

#[test]
fn test_read_bytes_with_context() {
    let data = vec![1, 2, 3, 4];
    let mut reader = ByteReader::new(&data);
    let result = reader.read_bytes_with_context(4, "test context").unwrap();
    assert_eq!(result, vec![1, 2, 3, 4]);
}

#[test]
fn test_i24_le_positive() {
    let data = vec![0x34, 0x12, 0x00];
    let mut reader = ByteReader::new(&data);
    let value = reader.read_i24_le().expect("Failed to read i24");
    assert_eq!(value, 0x1234);
}

#[test]
fn test_i24_le_negative() {
    let data = vec![0xFF, 0xFF, 0xFF];
    let mut reader = ByteReader::new(&data);
    let value = reader.read_i24_le().expect("Failed to read i24");
    assert_eq!(value, -1);
}

#[test]
fn test_i24_le_signed() {
    let data = vec![0x34, 0x12, 0x00];
    let mut reader = ByteReader::new(&data);
    assert_eq!(reader.read_i24_le().expect("Failed to read"), 0x1234);

    let data = vec![0xFF, 0xFF, 0xFF];
    let mut reader = ByteReader::new(&data);
    assert_eq!(reader.read_i24_le().expect("Failed to read"), -1);
}

#[test]
fn test_i24_be_signed() {
    let data = vec![0x00, 0x12, 0x34];
    let mut reader = ByteReader::new(&data);
    assert_eq!(reader.read_i24_be().expect("Failed to read"), 0x1234);

    let data = vec![0xFF, 0xFF, 0xFF];
    let mut reader = ByteReader::new(&data);
    assert_eq!(reader.read_i24_be().expect("Failed to read"), -1);
}

#[test]
fn integer_reads_follow_byte_order() {
    let data = vec![0x01, 0x02, 0x03, 0x04, 0x80, 0x00];
    let mut r = ByteReader::new(&data);
    assert_eq!(r.read_u16_le().unwrap(), 0x0201);
    assert_eq!(r.read_u16_be().unwrap(), 0x0304);
    assert_eq!(r.read_i16_be().unwrap(), -32768);
    assert!(r.read_u8().is_err());
    let mut r = ByteReader::new(&data);
    assert_eq!(r.read_u32_le().unwrap(), 0x0403_0201);
    assert_eq!(r.position(), 4);
    assert_eq!(r.remaining(), 2);
    let mut r = ByteReader::new(&data);
    assert_eq!(r.read_u32_be().unwrap(), 0x0102_0304);
    assert_eq!(r.read_i8().unwrap(), -128);
}

#[test]
fn failed_read_moves_to_end() {
    let data = vec![9, 8, 7];
    let mut r = ByteReader::new(&data);
    assert!(r.read_bytes(4).is_err());
    assert_eq!(r.position(), 3);
    r.seek(1);
    assert_eq!(r.read_bytes(2).unwrap(), vec![8, 7]);
}
