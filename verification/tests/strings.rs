use mc_protocol::data::buffer::Buffer;
use mc_protocol::data::reader::{decode_string, Reader};
use mc_protocol::data::writer::{encode_string, Writer};
use mc_protocol::data::DataError;

#[test]
fn empty_string_is_one_zero_byte() {
    assert_eq!(encode_string(""), vec![0x00]);
    assert_eq!(decode_string(&[0x00]), Ok((String::new(), 1)));
}

#[test]
fn string_is_byte_length_then_utf8() {
    assert_eq!(encode_string("Bob"), vec![3, b'B', b'o', b'b']);
    assert_eq!(encode_string("é"), vec![2, 0xc3, 0xa9]);
}

#[test]
fn string_round_trips() {
    let samples = ["", "a", "localhost", "Версия игры отличается от 1.21.5", "日本語", "🦀 crab"];
    for text in samples {
        let bytes = encode_string(text);
        assert_eq!(decode_string(&bytes), Ok((text.to_string(), bytes.len())));
    }
}

#[test]
fn long_string_has_a_two_byte_length() {
    let text = "x".repeat(300);
    let bytes = encode_string(&text);
    assert_eq!(&bytes[..2], &[0xAC, 0x02]);
    assert_eq!(bytes.len(), 302);
    assert_eq!(decode_string(&bytes), Ok((text, 302)));
}

#[test]
fn string_through_a_buffer() {
    let mut buffer = Buffer::new(Vec::new());
    assert_eq!(buffer.write_string("hello"), Ok(()));
    assert_eq!(buffer.write_string("мир"), Ok(()));
    assert_eq!(buffer.read_string(), Ok("hello".to_string()));
    assert_eq!(buffer.read_string(), Ok("мир".to_string()));
    assert_eq!(buffer.read_string(), Err(DataError::ReadError));
}

#[test]
fn invalid_utf8_is_a_string_decode_error() {
    assert_eq!(decode_string(&[2, 0xff, 0xfe]), Err(DataError::StringDecodeError));
    assert_eq!(decode_string(&[1, 0x80]), Err(DataError::StringDecodeError));
    assert_eq!(decode_string(&[2, 0xc3]), Err(DataError::ReadError));
    let mut buffer = Buffer::new(vec![3, 0xed, 0xa0, 0x80, 7]);
    assert_eq!(buffer.read_string(), Err(DataError::StringDecodeError));
    assert_eq!(buffer.position(), 0);
}

#[test]
fn string_with_bad_length_is_a_read_error() {
    assert_eq!(decode_string(&[]), Err(DataError::ReadError));
    assert_eq!(decode_string(&[5, b'a']), Err(DataError::ReadError));
    assert_eq!(decode_string(&[0xff, 0xff, 0xff, 0xff, 0x0f]), Err(DataError::ReadError));
    assert_eq!(
        decode_string(&[0x80, 0x80, 0x80, 0x80, 0x80]),
        Err(DataError::VarIntIsSoBig)
    );
}
