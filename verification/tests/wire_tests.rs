use mcping::wire::ByteReader;
use mcping::wire::ProtocolError;
use mcping::wire::read_long;
use mcping::wire::read_string;
use mcping::wire::read_var_int;
use mcping::wire::write_long;
use mcping::wire::write_string;
use mcping::wire::write_unsigned_short;
use mcping::wire::write_var_int;

#[test]
fn test_write_var_int_0() {
    const WRITE_VALUE: i32 = 0;
    const EXPECTED_VALUE: &[u8] = &[0x0];

    let mut buffer: Vec<u8> = Vec::with_capacity(10);
    write_var_int(&mut buffer, WRITE_VALUE).unwrap();
    assert_eq!(buffer.len(), EXPECTED_VALUE.len());
    assert_eq!(buffer.as_slice(), EXPECTED_VALUE);
}

#[test]
fn test_read_var_int_0() {
    let mut bytes = ByteReader::new(vec![0x0]);
    const EXPECTED_VALUE: i32 = 0;
    let read_value = read_var_int(&mut bytes).unwrap();
    assert_eq!(read_value, EXPECTED_VALUE);
}

#[test]
fn test_write_var_int_1() {
    const WRITE_VALUE: i32 = 1;
    const EXPECTED_VALUE: &[u8] = &[0x1];

    let mut buffer: Vec<u8> = Vec::with_capacity(10);
    write_var_int(&mut buffer, WRITE_VALUE).unwrap();
    assert_eq!(buffer.len(), EXPECTED_VALUE.len());
    assert_eq!(buffer.as_slice(), EXPECTED_VALUE);
}

#[test]
fn test_read_var_int_1() {
    let mut bytes = ByteReader::new(vec![0x1]);
    const EXPECTED_VALUE: i32 = 1;
    let read_value = read_var_int(&mut bytes).unwrap();
    assert_eq!(read_value, EXPECTED_VALUE);
}

#[test]
fn test_write_var_int_127() {
    const WRITE_VALUE: i32 = 127;
    const EXPECTED_VALUE: &[u8] = &[0x7F];

    let mut buffer: Vec<u8> = Vec::with_capacity(10);
    write_var_int(&mut buffer, WRITE_VALUE).unwrap();
    assert_eq!(buffer.len(), EXPECTED_VALUE.len());
    assert_eq!(buffer.as_slice(), EXPECTED_VALUE);
}

#[test]
fn test_read_var_int_127() {
    let mut bytes = ByteReader::new(vec![0x7F]);
    const EXPECTED_VALUE: i32 = 127;
    let read_value = read_var_int(&mut bytes).unwrap();
    assert_eq!(read_value, EXPECTED_VALUE);
}

#[test]
fn test_write_var_int_128() {
    const WRITE_VALUE: i32 = 128;
    const EXPECTED_VALUE: &[u8] = &[0x80, 0x01];

    let mut buffer: Vec<u8> = Vec::with_capacity(10);
    write_var_int(&mut buffer, WRITE_VALUE).unwrap();
    assert_eq!(buffer.len(), EXPECTED_VALUE.len());
    assert_eq!(buffer.as_slice(), EXPECTED_VALUE);
}

#[test]
fn test_read_var_int_128() {
    let mut bytes = ByteReader::new(vec![0x80, 0x01]);
    const EXPECTED_VALUE: i32 = 128;
    let read_value = read_var_int(&mut bytes).unwrap();
    assert_eq!(read_value, EXPECTED_VALUE);
}

#[test]
fn test_write_var_int_25565() {
    const WRITE_VALUE: i32 = 25565;
    const EXPECTED_VALUE: &[u8] = &[0xDD, 0xC7, 0x01];

    let mut buffer: Vec<u8> = Vec::with_capacity(10);
    write_var_int(&mut buffer, WRITE_VALUE).unwrap();
    assert_eq!(buffer.len(), EXPECTED_VALUE.len());
    assert_eq!(buffer.as_slice(), EXPECTED_VALUE);
}

#[test]
fn test_read_var_int_25565() {
    let mut bytes = ByteReader::new(vec![0xDD, 0xC7, 0x01]);
    const EXPECTED_VALUE: i32 = 25565;
    let read_value = read_var_int(&mut bytes).unwrap();
    assert_eq!(read_value, EXPECTED_VALUE);
}

#[test]
fn test_write_var_int_2147483647() {
    const WRITE_VALUE: i32 = 2147483647;
    const EXPECTED_VALUE: &[u8] = &[0xFF, 0xFF, 0xFF, 0xFF, 0x07];

    let mut buffer: Vec<u8> = Vec::with_capacity(10);
    write_var_int(&mut buffer, WRITE_VALUE).unwrap();
    assert_eq!(buffer.len(), EXPECTED_VALUE.len());
    assert_eq!(buffer.as_slice(), EXPECTED_VALUE);
}

#[test]
fn test_read_var_int_2147483647() {
    let mut bytes = ByteReader::new(vec![0xFF, 0xFF, 0xFF, 0xFF, 0x07]);
    const EXPECTED_VALUE: i32 = 2147483647;
    let read_value = read_var_int(&mut bytes).unwrap();
    assert_eq!(read_value, EXPECTED_VALUE);
}

#[test]
fn test_write_var_int_negative_1() {
    const WRITE_VALUE: i32 = -1;
    const EXPECTED_VALUE: &[u8] = &[0xFF, 0xFF, 0xFF, 0xFF, 0x0F];

    let mut buffer: Vec<u8> = Vec::with_capacity(10);
    write_var_int(&mut buffer, WRITE_VALUE).unwrap();
    assert_eq!(buffer.len(), EXPECTED_VALUE.len());
    assert_eq!(buffer.as_slice(), EXPECTED_VALUE);
}

#[test]
fn test_read_var_int_negative_1() {
    let mut bytes = ByteReader::new(vec![0xFF, 0xFF, 0xFF, 0xFF, 0x0F]);
    const EXPECTED_VALUE: i32 = -1;
    let read_value = read_var_int(&mut bytes).unwrap();
    assert_eq!(read_value, EXPECTED_VALUE);
}

#[test]
fn test_write_var_int_negative_2147483648() {
    const WRITE_VALUE: i32 = -2147483648;
    const EXPECTED_VALUE: &[u8] = &[0x80, 0x80, 0x80, 0x80, 0x08];

    let mut buffer: Vec<u8> = Vec::with_capacity(10);
    write_var_int(&mut buffer, WRITE_VALUE).unwrap();
    assert_eq!(buffer.len(), EXPECTED_VALUE.len());
    assert_eq!(buffer.as_slice(), EXPECTED_VALUE);
}

#[test]
fn test_read_var_int_negative_2147483648() {
    let mut bytes = ByteReader::new(vec![0x80, 0x80, 0x80, 0x80, 0x08]);
    const EXPECTED_VALUE: i32 = -2147483648;
    let read_value = read_var_int(&mut bytes).unwrap();
    assert_eq!(read_value, EXPECTED_VALUE);
}

#[test]
#[should_panic]
fn test_invalid_var_int_too_long() {
    let mut bytes = ByteReader::new(vec![0xFF, 0xFF, 0xFF, 0xFF, 0xFF, 0xFF, 0xFF]);
    read_var_int(&mut bytes).unwrap();
}

#[test]
#[should_panic]
fn test_invalid_var_int_insufficient_data() {
    let mut bytes = ByteReader::new(vec![0xFF]);
    read_var_int(&mut bytes).unwrap();
}

#[test]
fn test_write_empty_string() {
    let string = "";
    let expected: &[u8] = &[0x0];

    let mut buffer: Vec<u8> = vec![];
    write_string(&mut buffer, string).unwrap();
    assert_eq!(buffer.as_slice(), expected);
}

#[test]
#[allow(non_snake_case)]
fn test_write_some_ASCII_characters() {
    let string = "abcd";
    let expected: &[u8] = &[0x4, 0x61, 0x62, 0x63, 0x64];

    let mut buffer: Vec<u8> = vec![];
    write_string(&mut buffer, string).unwrap();
    assert_eq!(buffer.as_slice(), expected);
}

#[test]
fn test_var_int_round_trips() {
    for value in [0i32, 1, -1, 127, 128, 255, 25565, 1048576, i32::MAX, i32::MIN] {
        let mut buffer: Vec<u8> = vec![];
        write_var_int(&mut buffer, value).unwrap();
        assert!(buffer.len() <= 5);
        let mut reader = ByteReader::new(buffer);
        assert_eq!(read_var_int(&mut reader).unwrap(), value);
        assert_eq!(reader.remaining_len(), 0);
    }
}

#[test]
fn test_var_int_truncated() {
    let mut reader = ByteReader::new(vec![0x80, 0x80]);
    assert_eq!(read_var_int(&mut reader), Err(ProtocolError::Truncated));
}

#[test]
fn test_var_int_malformed_needs_sixth_byte() {
    let mut reader = ByteReader::new(vec![0x80, 0x80, 0x80, 0x80, 0x80, 0x01]);
    assert_eq!(read_var_int(&mut reader), Err(ProtocolError::Malformed));
}

#[test]
fn test_string_round_trip_multibyte() {
    let text = "caf\u{e9} \u{a7}c \u{20ac}5";
    let mut buffer: Vec<u8> = vec![];
    write_string(&mut buffer, text).unwrap();
    let mut reader = ByteReader::new(buffer);
    assert_eq!(read_string(&mut reader).unwrap(), text);
    assert_eq!(reader.remaining_len(), 0);
}

#[test]
fn test_string_truncated() {
    // declares five bytes, carries two
    let mut reader = ByteReader::new(vec![0x05, 0x61, 0x62]);
    assert_eq!(read_string(&mut reader), Err(ProtocolError::Truncated));
}

#[test]
fn test_string_negative_length_is_malformed() {
    // the VarInt FF FF FF FF 0F is -1
    let mut reader = ByteReader::new(vec![0xFF, 0xFF, 0xFF, 0xFF, 0x0F]);
    assert_eq!(read_string(&mut reader), Err(ProtocolError::Malformed));
}

#[test]
fn test_string_invalid_utf8() {
    let mut reader = ByteReader::new(vec![0x02, 0xC3, 0x28]);
    assert_eq!(read_string(&mut reader), Err(ProtocolError::InvalidEncoding));
}

#[test]
fn test_long_round_trip() {
    for value in [0i64, 1, -1, i64::MAX, i64::MIN, 1700000000] {
        let mut buffer: Vec<u8> = vec![];
        write_long(&mut buffer, value).unwrap();
        assert_eq!(buffer.len(), 8);
        let mut reader = ByteReader::new(buffer);
        assert_eq!(read_long(&mut reader).unwrap(), value);
    }
}

#[test]
fn test_long_big_endian_layout() {
    let mut buffer: Vec<u8> = vec![];
    write_long(&mut buffer, 0x0102030405060708).unwrap();
    assert_eq!(buffer.as_slice(), &[1, 2, 3, 4, 5, 6, 7, 8]);
}

#[test]
fn test_long_truncated() {
    let mut reader = ByteReader::new(vec![1, 2, 3]);
    assert_eq!(read_long(&mut reader), Err(ProtocolError::Truncated));
}

#[test]
fn test_unsigned_short_big_endian_layout() {
    let mut buffer: Vec<u8> = vec![];
    write_unsigned_short(&mut buffer, 25565).unwrap();
    assert_eq!(buffer.as_slice(), &[0x63, 0xDD]);
}
