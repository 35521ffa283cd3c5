use stackvm::byte_reader::ByteReader;

#[test]
fn module_reader_read_bytes() {
    let source = vec![0x01, 0x02, 0x03, 0x04];
    let mut reader = ByteReader::new(&source);

    assert_eq!(reader.read_byte(), Some(0x01));
    assert_eq!(reader.read_byte(), Some(0x02));
    assert_eq!(reader.read_bytes(2), Some(vec![0x03, 0x04]));
    assert_eq!(reader.read_byte(), None);
}

#[test]
fn module_reader_read_bytes_out_of_bounds() {
    let source = vec![0x01, 0x02, 0x03, 0x04];
    let mut reader = ByteReader::new(&source);

    assert_eq!(reader.read_bytes(5), None);
}

#[test]
fn module_reader_read_string() {
    let source = vec![0, 0, 0, 4, b't', b'e', b's', b't'];
    let mut reader = ByteReader::new(&source);

    assert_eq!(reader.read_string(), Some("test".to_string()));
}

#[test]
fn module_reader_read_string_out_of_bounds() {
    let source = vec![0, 0, 0, 5, b't', b'e', b's', b't'];
    let mut reader = ByteReader::new(&source);

    assert_eq!(reader.read_string(), None);
}

#[test]
fn module_reader_read_u32() {
    let source = vec![0x89, 0xAB, 0xCD, 0xEF];
    let mut reader = ByteReader::new(&source);

    assert_eq!(reader.read_u32(), Some(0x89ABCDEF));
}

#[test]
fn module_reader_read_u32_out_of_bounds() {
    let source = vec![0x89, 0xAB, 0xCD];
    let mut reader = ByteReader::new(&source);

    assert_eq!(reader.read_u32(), None);
}

#[test]
fn reader_read_i32_and_bool() {
    let source = vec![0xFF, 0xFF, 0xFF, 0xFF, 0x00, 0x02];
    let mut reader = ByteReader::new(&source);

    assert_eq!(reader.read_i32(), Some(-1));
    assert_eq!(reader.read_bool(), Some(false));
    assert_eq!(reader.read_bool(), Some(true));
}
