use klickhouse::protocol::MAX_STRING_SIZE;
use klickhouse::{ByteReader, ClickhouseRead, ClickhouseWrite, KlickhouseError};

fn read_var_uint_from(data: &[u8]) -> Result<u64, KlickhouseError> {
    let mut cursor = ByteReader::new(data.to_vec());
    cursor.read_var_uint()
}

fn read_string_from(data: &[u8]) -> Result<Vec<u8>, KlickhouseError> {
    let mut cursor = ByteReader::new(data.to_vec());
    cursor.read_string()
}

fn write_var_uint_to(value: u64) -> Vec<u8> {
    let mut buf: Vec<u8> = vec![];
    buf.write_var_uint(value).unwrap();
    buf
}

fn write_string_to(value: &[u8]) -> Vec<u8> {
    let mut buf: Vec<u8> = vec![];
    buf.write_string(value).unwrap();
    buf
}

#[test]
fn test_read_string_empty() {
    let result = read_string_from(&[0u8]).unwrap();
    assert!(result.is_empty());
}

#[test]
fn test_read_string_normal() {
    let payload = b"hello";
    let mut buf = vec![payload.len() as u8];
    buf.extend_from_slice(payload);
    let result = read_string_from(&buf).unwrap();
    assert_eq!(result, b"hello");
}

#[test]
fn test_read_string_too_large() {
    let mut buf: Vec<u8> = vec![];
    let mut value: u64 = MAX_STRING_SIZE as u64 + 1;
    for _ in 0..9 {
        let mut byte = value & 0x7F;
        if value > 0x7F {
            byte |= 0x80;
        }
        buf.push(byte as u8);
        value >>= 7;
        if value == 0 {
            break;
        }
    }
    let result = read_string_from(&buf);
    assert!(result.is_err());
    assert!(matches!(result.unwrap_err(), KlickhouseError::ProtocolError(_)));
}

#[test]
fn test_var_uint_roundtrip() {
    let test_values: Vec<u64> = vec![0, 1, 127, 128, 255, 256, 16383, 16384, u64::MAX >> 1];
    for &value in &test_values {
        let encoded = write_var_uint_to(value);
        let read_back = read_var_uint_from(&encoded).unwrap();
        assert_eq!(value, read_back, "var_uint roundtrip failed for {value}");
    }
}

#[test]
fn test_write_string_roundtrip() {
    let test_strings: Vec<&[u8]> = vec![b"", b"a", b"hello world", &[0xFF; 300]];
    for original in &test_strings {
        let encoded = write_string_to(original);
        let read_back = read_string_from(&encoded).unwrap();
        assert_eq!(*original, &read_back[..]);
    }
}

#[test]
fn var_uint_bytes_are_exact() {
    assert_eq!(write_var_uint_to(0), vec![0]);
    assert_eq!(write_var_uint_to(127), vec![0x7f]);
    assert_eq!(write_var_uint_to(128), vec![0x80, 0x01]);
    assert_eq!(write_var_uint_to(300), vec![0xac, 0x02]);
    assert_eq!(write_var_uint_to(u64::MAX >> 1), vec![0xff; 8].into_iter().chain([0x7f]).collect::<Vec<u8>>());
    assert_eq!(write_var_uint_to(u64::MAX).len(), 9);
}

#[test]
fn var_uint_longer_than_nine_bytes_is_a_protocol_error() {
    assert!(matches!(read_var_uint_from(&[0x80; 9]), Err(KlickhouseError::ProtocolError(_))));
    assert!(matches!(read_var_uint_from(&[0xff; 12]), Err(KlickhouseError::ProtocolError(_))));
    assert!(matches!(read_var_uint_from(&[0x80; 8]), Err(KlickhouseError::Io(_))));
    assert!(matches!(read_var_uint_from(&[]), Err(KlickhouseError::Io(_))));
    assert_eq!(read_var_uint_from(&[0x80, 0x80, 0x00, 0x55]).unwrap(), 0);
}

#[test]
fn failed_reads_consume_nothing() {
    let mut reader = ByteReader::new(vec![5, b'a', b'b']);
    assert!(matches!(reader.read_string(), Err(KlickhouseError::Io(_))));
    assert_eq!(reader.remaining(), 3);
    assert_eq!(reader.read_var_uint().unwrap(), 5);
    assert_eq!(reader.remaining(), 2);
    assert!(reader.read_exact(3).is_err());
    assert_eq!(reader.read_exact(2).unwrap(), b"ab".to_vec());
    assert!(reader.read_u8().is_err());
}

#[test]
fn utf8_strings_are_decoded_or_rejected() {
    let mut reader = ByteReader::new(write_string_to("日本語".as_bytes()));
    assert_eq!(reader.read_utf8_string().unwrap(), "日本語");
    let mut reader = ByteReader::new(vec![2, 0xff, 0xfe, 7]);
    assert!(matches!(reader.read_utf8_string(), Err(KlickhouseError::Utf8(_))));
    assert_eq!(reader.remaining(), 4);
}

#[test]
fn string_of_exactly_the_limit_is_not_too_large() {
    let mut header = vec![];
    header.write_var_uint(MAX_STRING_SIZE as u64).unwrap();
    assert!(matches!(read_string_from(&header), Err(KlickhouseError::Io(_))));
}
