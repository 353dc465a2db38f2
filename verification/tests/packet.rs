use mc_protocol::data::buffer::Buffer;
use mc_protocol::data::packet::Packet;
use mc_protocol::data::reader::{Reader, Source};
use mc_protocol::data::writer::Writer;
use mc_protocol::data::DataError;

#[test]
fn new_packet_keeps_id_and_cursor() {
    let mut cursor = Buffer::new(vec![1, 2, 3]);
    cursor.advance(1);
    let packet = Packet::new(7, cursor);
    assert_eq!(packet.id(), 7);
    assert_eq!(packet.get_bytes(), &[1, 2, 3]);
    assert_eq!(packet.len(), 2);
    assert!(!packet.is_empty());
    assert_eq!(packet.get_ref().position(), 1);
}

#[test]
fn empty_packet_has_no_payload() {
    let packet = Packet::empty(9);
    assert_eq!(packet.id(), 9);
    assert_eq!(packet.get_bytes(), &[] as &[u8]);
    assert_eq!(packet.len(), 0);
    assert!(packet.is_empty());
}

#[test]
fn build_hands_an_empty_packet_to_the_builder() {
    let built = Packet::build(3, |packet: &mut Packet| {
        assert_eq!(packet.id(), 3);
        assert!(packet.is_empty());
        packet.write_varint(300)?;
        packet.write_string("hi")
    });
    let packet = built.unwrap();
    assert_eq!(packet.id(), 3);
    assert_eq!(packet.get_bytes(), &[0xAC, 0x02, 2, b'h', b'i']);
}

#[test]
fn build_reports_the_fault_of_the_builder() {
    let built = Packet::build(3, |packet: &mut Packet| {
        packet.write_byte(1)?;
        Err(DataError::SerializationError)
    });
    assert_eq!(built.err(), Some(DataError::SerializationError));
}

#[test]
fn set_id_and_set_cursor_replace_one_part() {
    let mut packet = Packet::new(1, Buffer::new(vec![5, 6]));
    packet.set_id(2);
    assert_eq!(packet.id(), 2);
    assert_eq!(packet.get_bytes(), &[5, 6]);
    packet.set_cursor(Buffer::new(vec![7]));
    assert_eq!(packet.id(), 2);
    assert_eq!(packet.get_bytes(), &[7]);
    assert_eq!(packet.len(), 1);
}

#[test]
fn get_mut_changes_the_payload_in_place() {
    let mut packet = Packet::new(1, Buffer::new(vec![5, 6]));
    packet.get_mut().advance(1);
    assert_eq!(packet.len(), 1);
    assert_eq!(packet.get_mut().write_bytes(&[9]), Ok(()));
    assert_eq!(packet.get_bytes(), &[5, 6, 9]);
    assert_eq!(packet.id(), 1);
    assert_eq!(packet.len(), 2);
}

#[test]
fn into_inner_and_from_give_the_cursor() {
    let mut packet = Packet::new(1, Buffer::new(vec![5, 6]));
    assert_eq!(packet.read_byte(), Ok(5));
    let cursor = packet.clone().into_inner();
    assert_eq!(cursor.position(), 1);
    assert_eq!(cursor.get_ref(), &[5, 6]);
    let same: Buffer = Buffer::from(packet);
    assert_eq!(same.position(), 1);
    assert_eq!(same.into_inner(), vec![5, 6]);
}

#[test]
fn packet_reads_in_order_and_counts_what_is_left() {
    let mut packet = Packet::empty(0);
    assert_eq!(packet.write_varint(770), Ok(()));
    assert_eq!(packet.write_string("localhost"), Ok(()));
    assert_eq!(packet.write_short(25565), Ok(()));
    assert_eq!(packet.write_varint(2), Ok(()));
    assert_eq!(packet.len(), 15);
    assert_eq!(packet.read_varint(), Ok(770));
    assert_eq!(packet.read_string(), Ok("localhost".to_string()));
    assert_eq!(packet.read_short(), Ok(25565));
    assert_eq!(packet.len(), 1);
    assert_eq!(packet.read_varint(), Ok(2));
    assert!(packet.is_empty());
    assert_eq!(packet.read_byte(), Err(DataError::ReadError));
    assert_eq!(packet.id(), 0);
    assert_eq!(packet.peek(), &[] as &[u8]);
}
