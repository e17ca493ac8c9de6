use gma::binary::{BinaryReader, BinaryWriter, ByteReader};
use gma::Error;

#[test]
fn write_u8() {
    let mut buffer: Vec<u8> = Vec::new();
    buffer.write_u8(5).unwrap();

    assert_eq!(buffer.len(), 1);
    assert_eq!(buffer[0], 5);
}

#[test]
fn write_u32() {
    let mut buffer: Vec<u8> = Vec::new();
    buffer.write_u32(278).unwrap();

    assert_eq!(buffer.len(), 4);
    assert_eq!(&buffer, &[22, 1, 0, 0]);
}

#[test]
fn write_u64() {
    let mut buffer: Vec<u8> = Vec::new();
    buffer.write_u64(278).unwrap();

    assert_eq!(buffer.len(), 8);
    assert_eq!(&buffer, &[22, 1, 0, 0, 0, 0, 0, 0]);
}

#[test]
fn write_c_string() {
    let mut buffer: Vec<u8> = Vec::new();
    buffer.write_c_string("Hello").unwrap();

    assert_eq!(buffer.len(), 6);
    assert_eq!(&buffer, &[b'H', b'e', b'l', b'l', b'o', 0]);
}

#[test]
fn read_u8() {
    let mut memory = ByteReader::new(vec![22, 12]);
    let (len, val) = memory.read_u8().unwrap();
    assert_eq!(len, 1);
    assert_eq!(val, 22);
}

#[test]
fn read_u32() {
    let mut memory = ByteReader::new(vec![22, 1, 0, 0]);
    let (len, val) = memory.read_u32().unwrap();
    assert_eq!(len, 4);
    assert_eq!(val, 278);
}

#[test]
fn read_u64() {
    let mut memory = ByteReader::new(vec![22, 1, 0, 0, 0, 0, 0, 0]);
    let (len, val) = memory.read_u64().unwrap();
    assert_eq!(len, 8);
    assert_eq!(val, 278);
}

#[test]
fn read_c_string() {
    let mut memory = ByteReader::new(b"Hello\0".to_vec());
    let (len, val) = memory.read_c_string().unwrap();
    assert_eq!(len, 6);
    assert_eq!(val, "Hello");
}

#[test]
fn write_c_string_rejects_null_byte() {
    let mut buffer: Vec<u8> = vec![1];
    assert_eq!(buffer.write_c_string("a\0b"), Err(Error::InvalidString));
    assert_eq!(buffer, vec![1]);
}

#[test]
fn write_c_string_utf8() {
    let mut buffer: Vec<u8> = Vec::new();
    assert_eq!(buffer.write_c_string("é").unwrap(), 3);
    assert_eq!(buffer, vec![0xC3, 0xA9, 0]);
}

#[test]
fn read_past_end_is_io_error() {
    let mut memory = ByteReader::new(vec![1, 2, 3]);
    assert_eq!(memory.read_u32(), Err(Error::IOError));
    assert_eq!(memory.position(), 0);
    let (_, v) = memory.read_u8().unwrap();
    assert_eq!(v, 1);
    assert_eq!(memory.read_u64(), Err(Error::IOError));
}

#[test]
fn read_c_string_at_end_of_stream() {
    let mut memory = ByteReader::new(b"ab".to_vec());
    let (len, val) = memory.read_c_string().unwrap();
    assert_eq!(len, 2);
    assert_eq!(val, "ab");
    let (len, val) = memory.read_c_string().unwrap();
    assert_eq!(len, 0);
    assert_eq!(val, "");
}

#[test]
fn read_c_string_invalid_utf8() {
    let mut memory = ByteReader::new(vec![0xFF, 0xFE, 0]);
    assert_eq!(memory.read_c_string(), Err(Error::UTF8Error));
    assert_eq!(memory.position(), 0);
}
