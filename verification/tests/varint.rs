use mc_protocol::data::buffer::Buffer;
use mc_protocol::data::reader::Reader;
use mc_protocol::data::varint::{decode_varint, encode_varint};
use mc_protocol::data::writer::Writer;
use mc_protocol::data::DataError;

#[test]
fn varint_300_is_ac_02() {
    assert_eq!(encode_varint(300), vec![0xAC, 0x02]);
    assert_eq!(decode_varint(&[0xAC, 0x02]), Ok((300, 2)));
}

#[test]
fn varint_zero_is_one_zero_byte() {
    assert_eq!(encode_varint(0), vec![0x00]);
    assert_eq!(decode_varint(&[0x00]), Ok((0, 1)));
}

#[test]
fn varint_known_encodings() {
    assert_eq!(encode_varint(1), vec![0x01]);
    assert_eq!(encode_varint(127), vec![0x7f]);
    assert_eq!(encode_varint(128), vec![0x80, 0x01]);
    assert_eq!(encode_varint(255), vec![0xff, 0x01]);
    assert_eq!(encode_varint(25565), vec![0xdd, 0xc7, 0x01]);
    assert_eq!(encode_varint(2097151), vec![0xff, 0xff, 0x7f]);
    assert_eq!(encode_varint(2147483647), vec![0xff, 0xff, 0xff, 0xff, 0x07]);
    assert_eq!(encode_varint(-1), vec![0xff, 0xff, 0xff, 0xff, 0x0f]);
    assert_eq!(encode_varint(i32::MIN), vec![0x80, 0x80, 0x80, 0x80, 0x08]);
}

#[test]
fn varint_round_trips_with_one_to_five_bytes() {
    let samples = [
        0,
        1,
        -1,
        127,
        128,
        300,
        16383,
        16384,
        2097151,
        2097152,
        268435455,
        268435456,
        i32::MAX,
        i32::MIN,
        -2147483647,
        770,
    ];
    for value in samples {
        let bytes = encode_varint(value);
        assert!(bytes.len() >= 1 && bytes.len() <= 5);
        assert_eq!(decode_varint(&bytes), Ok((value, bytes.len())));
    }
}

#[test]
fn varint_decoding_ignores_what_follows() {
    assert_eq!(decode_varint(&[0xAC, 0x02, 0xff, 0xff]), Ok((300, 2)));
}

#[test]
fn varint_sixth_byte_is_too_large() {
    assert_eq!(
        decode_varint(&[0x80, 0x80, 0x80, 0x80, 0x80, 0x01]),
        Err(DataError::VarIntIsSoBig)
    );
    assert_eq!(decode_varint(&[0xff, 0xff, 0xff, 0xff, 0xff]), Err(DataError::VarIntIsSoBig));
}

#[test]
fn varint_cut_short_is_a_read_error() {
    assert_eq!(decode_varint(&[]), Err(DataError::ReadError));
    assert_eq!(decode_varint(&[0x80]), Err(DataError::ReadError));
    assert_eq!(decode_varint(&[0xff, 0xff, 0xff, 0xff]), Err(DataError::ReadError));
}

#[test]
fn varint_fifth_byte_keeps_its_low_four_bits() {
    assert_eq!(decode_varint(&[0xff, 0xff, 0xff, 0xff, 0x7f]), Ok((-1, 5)));
    assert_eq!(decode_varint(&[0x80, 0x80, 0x80, 0x80, 0x10]), Ok((0, 5)));
}

#[test]
fn varint_through_a_buffer() {
    let mut buffer = Buffer::new(Vec::new());
    assert_eq!(buffer.write_varint_size(300), Ok(2));
    assert_eq!(buffer.write_varint(-1), Ok(()));
    assert_eq!(buffer.get_ref(), &[0xAC, 0x02, 0xff, 0xff, 0xff, 0xff, 0x0f]);
    assert_eq!(buffer.read_varint_size(), Ok((300, 2)));
    assert_eq!(buffer.read_varint(), Ok(-1));
    assert_eq!(buffer.read_varint(), Err(DataError::ReadError));
}

#[test]
fn failed_varint_read_leaves_the_buffer_as_it_was() {
    let mut buffer = Buffer::new(vec![0x80, 0x80]);
    assert_eq!(buffer.read_varint(), Err(DataError::ReadError));
    assert_eq!(buffer.position(), 0);
    assert_eq!(buffer.read_byte(), Ok(0x80));
}
