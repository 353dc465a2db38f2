use mc_protocol::data::buffer::Buffer;
use mc_protocol::data::frame::{
    bytes_wanted, check_inflated, decode_frame, deflated_body, encode_body, encode_packet,
    frame_bytes, open_inner, open_packet, store_body,
};
use mc_protocol::data::packet::Packet;
use mc_protocol::data::reader::Reader;
use mc_protocol::data::varint::decode_varint;
use mc_protocol::data::writer::Writer;
use mc_protocol::data::{compress, decompress, DataError};

fn packet_with(id: u8, payload: &[u8]) -> Packet {
    Packet::new(id, Buffer::new(payload.to_vec()))
}

#[test]
fn frame_round_trip_without_threshold() {
    let mut wire = Buffer::new(Vec::new());
    assert_eq!(wire.write_packet(packet_with(5, &[1, 2, 3]), None), Ok(()));
    assert_eq!(wire.get_ref(), &[4, 5, 1, 2, 3]);
    let packet = wire.read_packet(None).unwrap();
    assert_eq!(packet.id(), 5);
    assert_eq!(packet.get_bytes(), &[1, 2, 3]);
    assert_eq!(packet.len(), 3);
    assert_eq!(wire.position(), 5);
}

#[test]
fn small_body_under_threshold_is_stored_behind_a_zero() {
    let mut wire = Buffer::new(Vec::new());
    assert_eq!(wire.write_packet(packet_with(5, &[1, 2, 3]), Some(5)), Ok(()));
    assert_eq!(wire.get_ref(), &[5, 0, 5, 1, 2, 3]);
    let packet = wire.read_packet(Some(5)).unwrap();
    assert_eq!(packet.id(), 5);
    assert_eq!(packet.get_bytes(), &[1, 2, 3]);
}

#[test]
fn body_of_threshold_length_is_still_stored() {
    let frame = encode_packet(&packet_with(5, &[1, 2, 3, 4]), Some(5)).unwrap();
    assert_eq!(frame, vec![6, 0, 5, 1, 2, 3, 4]);
    let frame = encode_packet(&packet_with(5, &[1, 2, 3, 4, 5]), Some(5)).unwrap();
    assert_eq!(frame[1], 6);
    assert_ne!(frame[1], 0);
}

#[test]
fn large_body_over_threshold_is_compressed_behind_its_size() {
    let payload: Vec<u8> = (0..49).collect();
    let mut wire = Buffer::new(Vec::new());
    assert_eq!(wire.write_packet(packet_with(5, &payload), Some(5)), Ok(()));
    let bytes = wire.get_ref().to_vec();
    let (length, k) = decode_varint(&bytes).unwrap();
    assert_eq!(length as usize + k, bytes.len());
    assert_eq!(decode_varint(&bytes[k..]), Ok((50, 1)));
    let mut body = vec![5u8];
    body.extend_from_slice(&payload);
    assert_eq!(decompress(&bytes[k + 1..]), Ok(body));
    let packet = wire.read_packet(Some(5)).unwrap();
    assert_eq!(packet.id(), 5);
    assert_eq!(packet.get_bytes(), &payload[..]);
    assert_eq!(wire.position(), bytes.len());
}

#[test]
fn fifty_byte_payload_round_trips_under_threshold() {
    let payload = vec![7u8; 50];
    let frame = encode_packet(&packet_with(5, &payload), Some(5)).unwrap();
    let (_, k) = decode_varint(&frame).unwrap();
    assert_eq!(decode_varint(&frame[k..]), Ok((51, 1)));
    let (packet, used) = decode_frame(&frame, true).unwrap();
    assert_eq!(used, frame.len());
    assert_eq!(packet.id(), 5);
    assert_eq!(packet.get_bytes(), &payload[..]);
}

#[test]
fn compression_changes_the_bytes_and_inflates_back() {
    let data = vec![42u8; 1000];
    let packed = compress(&data).unwrap();
    assert!(packed.len() < data.len());
    assert_eq!(packed[0], 0x78);
    assert_ne!(packed, data);
    assert_eq!(decompress(&packed), Ok(data));
    assert_eq!(decompress(&compress(&[]).unwrap()), Ok(vec![]));
}

#[test]
fn corrupt_stream_is_a_zlib_error() {
    assert_eq!(decompress(&[1, 2, 3, 4, 5]), Err(DataError::ZlibError));
    assert_eq!(decompress(&[]), Err(DataError::ZlibError));
    let mut packed = compress(&[1u8; 100]).unwrap();
    let cut = packed.len() / 2;
    packed.truncate(cut);
    assert_eq!(decompress(&packed), Err(DataError::ZlibError));
}

#[test]
fn declared_size_must_match_what_inflates() {
    let body = [5u8, 1, 2, 3];
    let packed = compress(&body).unwrap();
    let good = frame_bytes(&deflated_body(4, &packed));
    let (packet, _) = decode_frame(&good, true).unwrap();
    assert_eq!(packet.get_bytes(), &[1, 2, 3]);
    let bad = frame_bytes(&deflated_body(10, &packed));
    assert_eq!(decode_frame(&bad, true).err(), Some(DataError::ZlibError));
    assert_eq!(check_inflated(4, Ok(body.to_vec())), Ok(body.to_vec()));
    assert_eq!(check_inflated(3, Ok(body.to_vec())), Err(DataError::ZlibError));
    assert_eq!(check_inflated(-1, Ok(body.to_vec())), Err(DataError::ZlibError));
    assert_eq!(check_inflated(4, Err(DataError::ZlibError)), Err(DataError::ZlibError));
    assert_eq!(open_inner(&[0, 9, 8]), Ok(vec![9, 8]));
    assert_eq!(open_inner(&[3, 9, 8]), Err(DataError::ZlibError));
}

#[test]
fn frame_pieces_are_what_the_format_says() {
    assert_eq!(encode_body(&packet_with(5, &[1, 2, 3])), vec![5, 1, 2, 3]);
    assert_eq!(encode_body(&packet_with(200, &[])), vec![0xc8, 0x01]);
    assert_eq!(frame_bytes(&[9, 9]), vec![2, 9, 9]);
    assert_eq!(frame_bytes(&[]), vec![0]);
    assert_eq!(store_body(&[9, 9]), vec![0, 9, 9]);
    assert_eq!(deflated_body(300, &[7]), vec![0xAC, 0x02, 7]);
}

#[test]
fn write_packet_sends_the_whole_payload_even_when_partly_read() {
    let mut packet = packet_with(5, &[1, 2, 3]);
    assert_eq!(packet.read_byte(), Ok(1));
    assert_eq!(encode_packet(&packet, None), Ok(vec![4, 5, 1, 2, 3]));
}

#[test]
fn open_packet_splits_id_and_payload() {
    let packet = open_packet(&[5, 1, 2, 3]).unwrap();
    assert_eq!(packet.id(), 5);
    assert_eq!(packet.get_bytes(), &[1, 2, 3]);
    assert_eq!(packet.get_ref().position(), 0);
    let wide = open_packet(&[0xAC, 0x02, 9]).unwrap();
    assert_eq!(wide.id(), 44);
    assert_eq!(wide.get_bytes(), &[9]);
    assert_eq!(open_packet(&[]).err(), Some(DataError::ReadError));
    assert_eq!(
        open_packet(&[0x80, 0x80, 0x80, 0x80, 0x80]).err(),
        Some(DataError::VarIntIsSoBig)
    );
}

#[test]
fn malformed_frames_are_refused() {
    assert_eq!(decode_frame(&[], false).err(), Some(DataError::ReadError));
    assert_eq!(decode_frame(&[4, 5, 1], false).err(), Some(DataError::ReadError));
    assert_eq!(decode_frame(&[0], false).err(), Some(DataError::ReadError));
    assert_eq!(decode_frame(&[0], true).err(), Some(DataError::ReadError));
    assert_eq!(
        decode_frame(&[0xff, 0xff, 0xff, 0xff, 0x0f, 1], false).err(),
        Some(DataError::ReadError)
    );
    assert_eq!(
        decode_frame(&[0x80, 0x80, 0x80, 0x80, 0x80], false).err(),
        Some(DataError::VarIntIsSoBig)
    );
    assert_eq!(decode_frame(&[1, 0], true).err(), Some(DataError::ReadError));
}

#[test]
fn failed_read_packet_leaves_the_source_as_it_was() {
    let mut wire = Buffer::new(vec![4, 5, 1]);
    assert_eq!(wire.read_packet(None).err(), Some(DataError::ReadError));
    assert_eq!(wire.position(), 0);
}

#[test]
fn frames_are_read_one_after_the_other() {
    let mut wire = Buffer::new(Vec::new());
    assert_eq!(wire.write_packet(packet_with(1, &[10]), None), Ok(()));
    assert_eq!(wire.write_packet(packet_with(2, &[]), None), Ok(()));
    assert_eq!(wire.write_packet(packet_with(3, &[30, 31]), Some(256)), Ok(()));
    let first = wire.read_packet(None).unwrap();
    assert_eq!((first.id(), first.get_bytes().to_vec()), (1, vec![10]));
    let second = wire.read_packet(None).unwrap();
    assert_eq!((second.id(), second.get_bytes().to_vec()), (2, vec![]));
    let third = wire.read_packet(Some(256)).unwrap();
    assert_eq!((third.id(), third.get_bytes().to_vec()), (3, vec![30, 31]));
    assert_eq!(wire.read_packet(None).err(), Some(DataError::ReadError));
}

#[test]
fn bytes_wanted_counts_what_is_missing_of_a_frame() {
    assert_eq!(bytes_wanted(&[]), Ok(1));
    assert_eq!(bytes_wanted(&[0x80]), Ok(1));
    assert_eq!(bytes_wanted(&[4]), Ok(4));
    assert_eq!(bytes_wanted(&[4, 5, 1]), Ok(2));
    assert_eq!(bytes_wanted(&[4, 5, 1, 2, 3]), Ok(0));
    assert_eq!(bytes_wanted(&[4, 5, 1, 2, 3, 9]), Ok(0));
    assert_eq!(bytes_wanted(&[0]), Ok(0));
    assert_eq!(bytes_wanted(&[0xAC, 0x02]), Ok(300));
    assert_eq!(bytes_wanted(&[0xff, 0xff, 0xff, 0xff, 0x0f]), Err(DataError::ReadError));
    assert_eq!(
        bytes_wanted(&[0x80, 0x80, 0x80, 0x80, 0x80]),
        Err(DataError::VarIntIsSoBig)
    );
}
