use mc_protocol::cycle::{
    read_first_packet, the_configuration, the_login, the_status, Connection, ConnectionState,
    Outgoing, PacketError, COMPRESSION_THRESHOLD, PROTOCOL_VERSION,
};
use mc_protocol::data::buffer::Buffer;
use mc_protocol::data::frame::encode_packet;
use mc_protocol::data::packet::Packet;
use mc_protocol::data::packet_id::{clientbound, serverbound};
use mc_protocol::data::reader::Reader;
use mc_protocol::data::writer::{encode_string, Writer};
use mc_protocol::data::DataError;

const STATUS: &str = "{\"version\":{\"name\":\"1.21.5\",\"protocol\":770}}";
const REJECTION: &str = "{\"text\":\"Версия игры отличается от 1.21.5\",\"color\":\"red\"}";
const UUID: u128 = 0x0123456789abcdef0123456789abcdef;

fn handshake(version: i32, next: i32) -> Packet {
    let mut packet = Packet::empty(serverbound::handshake::HANDSHAKE);
    packet.write_varint(version).unwrap();
    packet.write_string("localhost").unwrap();
    packet.write_short(25565).unwrap();
    packet.write_varint(next).unwrap();
    packet
}

fn login_start(username: &str) -> Packet {
    let mut packet = Packet::empty(serverbound::login::START);
    packet.write_string(username).unwrap();
    packet.write_uuid(UUID).unwrap();
    packet
}

fn sent(out: &[Outgoing]) -> Vec<(u8, Vec<u8>, Option<usize>)> {
    out.iter().map(|o| (o.packet.id(), o.packet.get_bytes().to_vec(), o.threshold)).collect()
}

#[test]
fn new_connection_waits_for_the_handshake() {
    let conn = Connection::new();
    assert_eq!(conn.state, ConnectionState::Handshake);
    assert_eq!(conn.version, None);
    assert_eq!(conn.host, None);
    assert_eq!(conn.port, None);
    assert_eq!(conn.username, None);
    assert_eq!(conn.uuid, None);
    assert_eq!(conn.threshold, None);
    assert_eq!(PROTOCOL_VERSION, 770);
    assert_eq!(COMPRESSION_THRESHOLD, 512);
}

#[test]
fn login_with_another_version_is_answered_with_one_disconnect() {
    let mut conn = Connection::new();
    let out = conn.handle(handshake(769, 2), STATUS, REJECTION).unwrap();
    assert_eq!(sent(&out), vec![(clientbound::login::DISCONNECT, encode_string(REJECTION), None)]);
    assert_eq!(conn.state, ConnectionState::Disconnected);
    assert_eq!(conn.version, Some(769));
    assert_eq!(
        conn.handle(login_start("Bob"), STATUS, REJECTION).err(),
        Some(PacketError::WrongPacketID)
    );
    assert_eq!(conn.state, ConnectionState::Disconnected);
    assert_eq!(conn.username, None);
}

#[test]
fn full_login_sets_threshold_username_and_identity() {
    let mut conn = Connection::new();
    let out = conn.handle(handshake(770, 2), STATUS, REJECTION).unwrap();
    assert!(out.is_empty());
    assert_eq!(conn.state, ConnectionState::LoginStart);
    assert_eq!(conn.version, Some(770));
    assert_eq!(conn.host, Some("localhost".to_string()));
    assert_eq!(conn.port, Some(25565));

    let out = conn.handle(login_start("Bob"), STATUS, REJECTION).unwrap();
    let mut success = UUID.to_be_bytes().to_vec();
    success.extend_from_slice(&[3, b'B', b'o', b'b', 0]);
    assert_eq!(
        sent(&out),
        vec![
            (clientbound::login::SET_COMPRESSION, vec![0x80, 0x04], None),
            (clientbound::login::SUCCESS, success, Some(512)),
        ]
    );
    assert_eq!(conn.state, ConnectionState::LoginAcknowledged);
    assert_eq!(conn.threshold, Some(512));
    assert_eq!(conn.username, Some("Bob".to_string()));
    assert_eq!(conn.uuid, Some(UUID));

    let acknowledged = Packet::empty(serverbound::login::ACKNOWLEDGED);
    let out = conn.handle(acknowledged, STATUS, REJECTION).unwrap();
    assert_eq!(sent(&out), vec![(clientbound::configuration::FINISH, vec![], Some(512))]);
    assert_eq!(conn.state, ConnectionState::Configuration);
    assert_eq!(conn.threshold, Some(512));
    assert_eq!(conn.username, Some("Bob".to_string()));
    assert_eq!(conn.uuid, Some(UUID));

    let out = conn.handle(Packet::empty(0x42), STATUS, REJECTION).unwrap();
    assert!(out.is_empty());
    assert_eq!(conn.state, ConnectionState::Configuration);
}

#[test]
fn status_answers_the_request_and_echoes_the_ping() {
    let mut conn = Connection::new();
    let out = conn.handle(handshake(5, 1), STATUS, REJECTION).unwrap();
    assert!(out.is_empty());
    assert_eq!(conn.state, ConnectionState::StatusRequest);
    assert_eq!(conn.version, Some(5));

    let request = Packet::empty(serverbound::status::REQUEST);
    let out = conn.handle(request, STATUS, REJECTION).unwrap();
    assert_eq!(sent(&out), vec![(clientbound::status::RESPONSE, encode_string(STATUS), None)]);
    assert_eq!(conn.state, ConnectionState::StatusPing);

    let mut ping = Packet::empty(serverbound::status::PING_REQUEST);
    ping.write_long(0x1122334455667788).unwrap();
    let out = conn.handle(ping, STATUS, REJECTION).unwrap();
    assert_eq!(
        sent(&out),
        vec![(
            clientbound::status::PONG_RESPONSE,
            vec![0x11, 0x22, 0x33, 0x44, 0x55, 0x66, 0x77, 0x88],
            None
        )]
    );
    assert_eq!(conn.state, ConnectionState::Disconnected);
}

#[test]
fn any_other_next_state_is_a_fault() {
    for next in [0, 3, -1, 770] {
        let mut conn = Connection::new();
        assert_eq!(
            conn.handle(handshake(770, next), STATUS, REJECTION).err(),
            Some(PacketError::NextStateIncorrect)
        );
        assert_eq!(conn.state, ConnectionState::Disconnected);
        assert_eq!(conn.version, None);
    }
}

#[test]
fn a_packet_out_of_turn_ends_the_session() {
    let mut conn = Connection::new();
    let mut wrong = handshake(770, 2);
    wrong.set_id(1);
    assert_eq!(conn.handle(wrong, STATUS, REJECTION).err(), Some(PacketError::WrongPacketID));
    assert_eq!(conn.state, ConnectionState::Disconnected);

    let mut conn = Connection::new();
    conn.handle(handshake(770, 1), STATUS, REJECTION).unwrap();
    assert_eq!(
        conn.handle(Packet::empty(1), STATUS, REJECTION).err(),
        Some(PacketError::WrongPacketID)
    );
    assert_eq!(conn.state, ConnectionState::Disconnected);

    let mut conn = Connection::new();
    conn.handle(handshake(770, 1), STATUS, REJECTION).unwrap();
    conn.handle(Packet::empty(0), STATUS, REJECTION).unwrap();
    assert_eq!(
        conn.handle(Packet::empty(0), STATUS, REJECTION).err(),
        Some(PacketError::WrongPacketID)
    );

    let mut conn = Connection::new();
    conn.handle(handshake(770, 2), STATUS, REJECTION).unwrap();
    conn.handle(login_start("Bob"), STATUS, REJECTION).unwrap();
    assert_eq!(
        conn.handle(Packet::empty(0), STATUS, REJECTION).err(),
        Some(PacketError::WrongPacketID)
    );
    assert_eq!(conn.state, ConnectionState::Disconnected);
    assert_eq!(conn.username, Some("Bob".to_string()));
}

#[test]
fn a_packet_cut_short_ends_the_session_with_the_codec_fault() {
    let mut conn = Connection::new();
    let mut short = Packet::empty(0);
    short.write_varint(770).unwrap();
    assert_eq!(
        conn.handle(short, STATUS, REJECTION).err(),
        Some(PacketError::Data(DataError::ReadError))
    );
    assert_eq!(conn.state, ConnectionState::Disconnected);
    assert_eq!(conn.version, None);

    let mut conn = Connection::new();
    conn.handle(handshake(770, 1), STATUS, REJECTION).unwrap();
    conn.handle(Packet::empty(0), STATUS, REJECTION).unwrap();
    assert_eq!(
        conn.handle(Packet::empty(1), STATUS, REJECTION).err(),
        Some(PacketError::Data(DataError::ReadError))
    );

    let mut conn = Connection::new();
    conn.handle(handshake(770, 2), STATUS, REJECTION).unwrap();
    let mut bad = Packet::empty(0);
    bad.write_bytes(&[2, 0xff, 0xff]).unwrap();
    assert_eq!(
        conn.handle(bad, STATUS, REJECTION).err(),
        Some(PacketError::Data(DataError::StringDecodeError))
    );
    assert_eq!(conn.username, None);
    assert_eq!(conn.threshold, None);
}

#[test]
fn the_steps_refuse_a_session_that_stands_elsewhere() {
    let mut conn = Connection::new();
    assert_eq!(the_status(&mut conn, Packet::empty(0), STATUS).err(), Some(PacketError::WrongPacketID));
    let mut conn = Connection::new();
    assert_eq!(the_login(&mut conn, login_start("Bob")).err(), Some(PacketError::WrongPacketID));
    let mut conn = Connection::new();
    assert_eq!(the_configuration(&mut conn, Packet::empty(0)).err(), Some(PacketError::WrongPacketID));
    let mut conn = Connection::new();
    conn.state = ConnectionState::Configuration;
    assert_eq!(
        read_first_packet(&mut conn, handshake(770, 2), REJECTION).err(),
        Some(PacketError::WrongPacketID)
    );
    assert_eq!(conn.state, ConnectionState::Disconnected);
}

#[test]
fn packet_error_wraps_data_error() {
    assert_eq!(PacketError::from(DataError::ZlibError), PacketError::Data(DataError::ZlibError));
}

#[test]
fn login_over_the_wire_switches_to_the_threshold_after_set_compression() {
    let mut conn = Connection::new();
    let mut inbound = Buffer::new(Vec::new());
    inbound.write_packet(handshake(770, 2), None).unwrap();
    inbound.write_packet(login_start("Bob"), None).unwrap();
    inbound.write_packet(Packet::empty(serverbound::login::ACKNOWLEDGED), Some(512)).unwrap();
    let mut outbound = Buffer::new(Vec::new());
    let mut frames = Vec::new();
    for _ in 0..3 {
        let packet = conn.read_packet(&mut inbound).unwrap();
        for out in conn.handle(packet, STATUS, REJECTION).unwrap() {
            frames.push(encode_packet(&out.packet, out.threshold).unwrap());
            let sender = Connection { threshold: out.threshold, ..Connection::new() };
            sender.write_packet(&mut outbound, out.packet).unwrap();
        }
    }
    assert_eq!(conn.state, ConnectionState::Configuration);
    assert_eq!(frames.concat(), outbound.get_ref());
    assert_eq!(frames[0], vec![3, clientbound::login::SET_COMPRESSION, 0x80, 0x04]);
    assert_eq!(frames[1][..3], [23, 0, clientbound::login::SUCCESS]);
    assert_eq!(frames[2], vec![2, 0, clientbound::configuration::FINISH]);

    let first = outbound.read_packet(None).unwrap();
    assert_eq!(first.id(), clientbound::login::SET_COMPRESSION);
    let mut first = first;
    assert_eq!(first.read_varint(), Ok(512));
    let mut second = outbound.read_packet(Some(512)).unwrap();
    assert_eq!(second.id(), clientbound::login::SUCCESS);
    assert_eq!(second.read_uuid(), Ok(UUID));
    assert_eq!(second.read_string(), Ok("Bob".to_string()));
    assert_eq!(second.read_varint(), Ok(0));
    let third = outbound.read_packet(Some(512)).unwrap();
    assert_eq!(third.id(), clientbound::configuration::FINISH);
    assert!(third.is_empty());
}

#[test]
fn connection_reports_codec_faults_of_the_wire() {
    let conn = Connection::new();
    let mut inbound = Buffer::new(vec![4, 0]);
    assert_eq!(
        conn.read_packet(&mut inbound).err(),
        Some(PacketError::Data(DataError::ReadError))
    );
    assert_eq!(inbound.position(), 0);
}
