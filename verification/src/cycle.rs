//! The lifecycle of one connection: handshake, then status or login, then
//! configuration. Each packet that arrives moves the session one step and
//! says what to send; anything out of turn ends the session.

use vstd::prelude::*;
use crate::data::DataError;
use crate::data::endian::be_bytes;
use crate::data::frame::{frame_decoding, frame_encoding};
use crate::data::packet::{Packet, PacketView};
use crate::data::packet_id::{clientbound, serverbound};
use crate::data::reader::{
    consumed, long_decoding, short_decoding, string_decoding, uuid_decoding, Reader, Source,
};
use crate::data::varint::{varint_decoding, varint_encoding};
use crate::data::roundtrip::{lemma_string_roundtrip, lemma_unsigned_roundtrip};
use crate::data::writer::{appended, string_encoding, Writer};
use vstd::utf8::encode_utf8;

verus! {

/// The one protocol version that may log in.
pub const PROTOCOL_VERSION: i32 = 770;

/// The threshold that login sets: bodies longer than this are compressed.
pub const COMPRESSION_THRESHOLD: usize = 512;

/// What ends a connection's session.
#[derive(Debug, Clone, Copy, PartialEq, Eq, Structural)]
pub enum PacketError {
    /// A packet arrived whose id is not the one the current step expects.
    WrongPacketID,
    /// A codec fault.
    Data(DataError),
    /// The handshake asked for a next state other than status or login.
    NextStateIncorrect,
    /// Session data was read before the step that sets it.
    OptionIsNone,
}

impl From<DataError> for PacketError {
    fn from(err: DataError) -> (r: PacketError)
        ensures
            r == PacketError::Data(err),
    {
        PacketError::Data(err)
    }
}

impl vstd::std_specs::convert::FromSpecImpl<DataError> for PacketError {
    open spec fn obeys_from_spec() -> bool {
        true
    }

    open spec fn from_spec(err: DataError) -> PacketError {
        PacketError::Data(err)
    }
}

/// Where a session stands: which packet it waits for.
#[derive(Debug, Clone, Copy, PartialEq, Eq, Structural)]
pub enum ConnectionState {
    /// Waiting for the handshake.
    Handshake,
    /// Status: waiting for the status request.
    StatusRequest,
    /// Status: waiting for the ping.
    StatusPing,
    /// Login: waiting for the login start.
    LoginStart,
    /// Login: waiting for the acknowledgement of the login.
    LoginAcknowledged,
    /// Configuration: waiting for whatever the client sends next.
    Configuration,
    /// The session is over.
    Disconnected,
}

/// The data of one session. Each field is set by the step that learns it.
#[derive(Debug)]
pub struct Connection {
    pub version: Option<i32>,
    pub host: Option<String>,
    pub port: Option<u16>,
    pub username: Option<String>,
    pub uuid: Option<u128>,
    pub threshold: Option<usize>,
    pub state: ConnectionState,
}

/// What a [`Connection`] is.
pub struct ConnectionView {
    pub version: Option<i32>,
    pub host: Option<Seq<char>>,
    pub port: Option<u16>,
    pub username: Option<Seq<char>>,
    pub uuid: Option<u128>,
    pub threshold: Option<usize>,
    pub state: ConnectionState,
}

/// The text of a string that may be there.
pub open spec fn text_of(text: Option<String>) -> Option<Seq<char>> {
    match text {
        Some(t) => Some(t@),
        None => None,
    }
}

impl View for Connection {
    type V = ConnectionView;

    open spec fn view(&self) -> ConnectionView {
        ConnectionView {
            version: self.version,
            host: text_of(self.host),
            port: self.port,
            username: text_of(self.username),
            uuid: self.uuid,
            threshold: self.threshold,
            state: self.state,
        }
    }
}

/// A packet to send, and the threshold under which to frame it.
#[derive(Debug)]
pub struct Outgoing {
    pub packet: Packet,
    pub threshold: Option<usize>,
}

/// What an [`Outgoing`] is.
pub struct OutgoingView {
    pub packet: PacketView,
    pub threshold: Option<usize>,
}

impl View for Outgoing {
    type V = OutgoingView;

    open spec fn view(&self) -> OutgoingView {
        OutgoingView { packet: self.packet@, threshold: self.threshold }
    }
}

/// The views of a run of packets to send.
pub open spec fn outgoing_view(out: Seq<Outgoing>) -> Seq<OutgoingView> {
    Seq::new(out.len(), |i: int| out[i]@)
}

/// A packet to send that nobody has read from: `id`, then `data`.
pub open spec fn outgoing(id: u8, data: Seq<u8>, threshold: Option<usize>) -> OutgoingView {
    OutgoingView { packet: PacketView { id, data, pos: 0 }, threshold }
}

/// What one step comes to: the packets to send in their order, or the fault
/// that ends the session; and the session after it.
pub struct Step {
    pub result: Result<Seq<OutgoingView>, PacketError>,
    pub after: ConnectionView,
}

/// The step that ends the session with `fault` and sends nothing.
pub open spec fn failed(conn: ConnectionView, fault: PacketError) -> Step {
    Step {
        result: Err(fault),
        after: ConnectionView { state: ConnectionState::Disconnected, ..conn },
    }
}

/// The step that sends `out` and goes on in `state`.
pub open spec fn moved(conn: ConnectionView, state: ConnectionState, out: Seq<OutgoingView>) -> Step {
    Step { result: Ok(out), after: ConnectionView { state, ..conn } }
}

/// The fields of a handshake.
pub struct HandshakeFields {
    pub version: i32,
    pub host: Seq<char>,
    pub port: u16,
    pub next: i32,
}

/// The handshake that a payload holds: protocol version, server address,
/// server port, requested next state.
pub open spec fn handshake_decoding(s: Seq<u8>) -> Result<HandshakeFields, DataError> {
    match varint_decoding(s) {
        Err(e) => Err(e),
        Ok((version, a)) => match string_decoding(s.skip(a as int)) {
            Err(e) => Err(e),
            Ok((host, b)) => match short_decoding(s.skip(a as int).skip(b as int)) {
                Err(e) => Err(e),
                Ok((port, c)) => match varint_decoding(
                    s.skip(a as int).skip(b as int).skip(c as int),
                ) {
                    Err(e) => Err(e),
                    Ok((next, _)) => Ok(HandshakeFields { version, host, port, next }),
                },
            },
        },
    }
}

/// The step on the first packet, `id` with the unread payload `payload`.
/// It must be the handshake. A request for status goes on to status, whatever
/// the version. A request for login goes on to login where the version is
/// [`PROTOCOL_VERSION`]; otherwise the one packet sent is the disconnect that
/// carries `rejection`, and the session is over. Any other request is a fault.
pub open spec fn handshake_step(
    conn: ConnectionView,
    id: u8,
    payload: Seq<u8>,
    rejection: Seq<char>,
) -> Step {
    if conn.state != ConnectionState::Handshake || id != serverbound::handshake::HANDSHAKE {
        failed(conn, PacketError::WrongPacketID)
    } else {
        match handshake_decoding(payload) {
            Err(e) => failed(conn, PacketError::Data(e)),
            Ok(fields) => {
                let known = ConnectionView {
                    version: Some(fields.version),
                    host: Some(fields.host),
                    port: Some(fields.port),
                    ..conn
                };
                if fields.next == 1 {
                    moved(known, ConnectionState::StatusRequest, Seq::empty())
                } else if fields.next == 2 {
                    if fields.version != PROTOCOL_VERSION {
                        moved(
                            known,
                            ConnectionState::Disconnected,
                            seq![
                                outgoing(
                                    clientbound::login::DISCONNECT,
                                    string_encoding(rejection),
                                    conn.threshold,
                                ),
                            ],
                        )
                    } else {
                        moved(known, ConnectionState::LoginStart, Seq::empty())
                    }
                } else {
                    failed(conn, PacketError::NextStateIncorrect)
                }
            },
        }
    }
}

/// The step on a packet of the status exchange: the request is answered with
/// `status`, the ping with its own eight bytes, and then the session is over.
pub open spec fn status_step(conn: ConnectionView, id: u8, payload: Seq<u8>, status: Seq<char>) -> Step {
    if conn.state == ConnectionState::StatusRequest {
        if id != serverbound::status::REQUEST {
            failed(conn, PacketError::WrongPacketID)
        } else {
            moved(
                conn,
                ConnectionState::StatusPing,
                seq![outgoing(clientbound::status::RESPONSE, string_encoding(status), conn.threshold)],
            )
        }
    } else if conn.state == ConnectionState::StatusPing {
        if id != serverbound::status::PING_REQUEST {
            failed(conn, PacketError::WrongPacketID)
        } else {
            match long_decoding(payload) {
                Err(e) => failed(conn, PacketError::Data(e)),
                Ok((token, _)) => moved(
                    conn,
                    ConnectionState::Disconnected,
                    seq![
                        outgoing(
                            clientbound::status::PONG_RESPONSE,
                            be_bytes(token as nat, 8),
                            conn.threshold,
                        ),
                    ],
                ),
            }
        }
    } else {
        failed(conn, PacketError::WrongPacketID)
    }
}

/// The name and the identity that a login start holds.
pub open spec fn login_start_decoding(s: Seq<u8>) -> Result<(Seq<char>, u128), DataError> {
    match string_decoding(s) {
        Err(e) => Err(e),
        Ok((username, a)) => match uuid_decoding(s.skip(a as int)) {
            Err(e) => Err(e),
            Ok((uuid, _)) => Ok((username, uuid)),
        },
    }
}

/// The payload of the login success for `uuid` and `username`: the identity,
/// the name, and an empty list of properties.
pub open spec fn login_success_payload(uuid: u128, username: Seq<char>) -> Seq<u8> {
    be_bytes(uuid as nat, 16) + string_encoding(username) + varint_encoding(0)
}

/// The step on a packet of the login exchange. The login start is answered
/// with the set-compression packet, framed as before, and then the login
/// success, framed under the new threshold; the session keeps the name, the
/// identity and the threshold. The acknowledgement is answered with the
/// packet that finishes configuration.
pub open spec fn login_step(conn: ConnectionView, id: u8, payload: Seq<u8>) -> Step {
    if conn.state == ConnectionState::LoginStart {
        if id != serverbound::login::START {
            failed(conn, PacketError::WrongPacketID)
        } else {
            match login_start_decoding(payload) {
                Err(e) => failed(conn, PacketError::Data(e)),
                Ok((username, uuid)) => moved(
                    ConnectionView {
                        username: Some(username),
                        uuid: Some(uuid),
                        threshold: Some(COMPRESSION_THRESHOLD),
                        ..conn
                    },
                    ConnectionState::LoginAcknowledged,
                    seq![
                        outgoing(
                            clientbound::login::SET_COMPRESSION,
                            varint_encoding(COMPRESSION_THRESHOLD as i32),
                            conn.threshold,
                        ),
                        outgoing(
                            clientbound::login::SUCCESS,
                            login_success_payload(uuid, username),
                            Some(COMPRESSION_THRESHOLD),
                        ),
                    ],
                ),
            }
        }
    } else if conn.state == ConnectionState::LoginAcknowledged {
        if id != serverbound::login::ACKNOWLEDGED {
            failed(conn, PacketError::WrongPacketID)
        } else {
            moved(
                conn,
                ConnectionState::Configuration,
                seq![outgoing(clientbound::configuration::FINISH, Seq::empty(), conn.threshold)],
            )
        }
    } else {
        failed(conn, PacketError::WrongPacketID)
    }
}

/// The step on a packet during configuration: it is taken, nothing is sent,
/// and the session waits for the next.
pub open spec fn configuration_step(conn: ConnectionView) -> Step {
    if conn.state == ConnectionState::Configuration {
        moved(conn, ConnectionState::Configuration, Seq::empty())
    } else {
        failed(conn, PacketError::WrongPacketID)
    }
}

/// The step of a session on the packet `id` with the unread payload
/// `payload`, by where the session stands. A session that is over takes no
/// packet.
pub open spec fn session_step(
    conn: ConnectionView,
    id: u8,
    payload: Seq<u8>,
    status: Seq<char>,
    rejection: Seq<char>,
) -> Step {
    match conn.state {
        ConnectionState::Handshake => handshake_step(conn, id, payload, rejection),
        ConnectionState::StatusRequest | ConnectionState::StatusPing => status_step(
            conn,
            id,
            payload,
            status,
        ),
        ConnectionState::LoginStart | ConnectionState::LoginAcknowledged => login_step(
            conn,
            id,
            payload,
        ),
        ConnectionState::Configuration => configuration_step(conn),
        ConnectionState::Disconnected => failed(conn, PacketError::WrongPacketID),
    }
}

/// `r` and `after` are what `step` says.
pub open spec fn stepped(
    r: Result<Vec<Outgoing>, PacketError>,
    after: ConnectionView,
    step: Step,
) -> bool {
    &&& after == step.after
    &&& match step.result {
        Ok(out) => r matches Ok(v) && outgoing_view(v@) =~= out,
        Err(e) => r matches Err(f) && f == e,
    }
}

impl Connection {
    /// A session that waits for its handshake and knows nothing yet.
    pub fn new() -> (conn: Connection)
        ensures
            conn@ == (ConnectionView {
                version: None,
                host: None,
                port: None,
                username: None,
                uuid: None,
                threshold: None,
                state: ConnectionState::Handshake,
            }),
    {
        Connection {
            version: None,
            host: None,
            port: None,
            username: None,
            uuid: None,
            threshold: None,
            state: ConnectionState::Handshake,
        }
    }

    /// Reads the next packet from `source`, framed under the session's
    /// threshold.
    pub fn read_packet<R: Reader>(&self, source: &mut R) -> (r: Result<Packet, PacketError>)
        ensures
            match frame_decoding(
                old(source).unread(),
                self.threshold is Some,
            ) {
                Ok((packet, n)) => r matches Ok(p) && p@ == packet && consumed(
                    final(source),
                    old(source),
                    n,
                ),
                Err(e) => r matches Err(f) && f == PacketError::Data(e) && *final(source) == *old(
                    source,
                ),
            },
    {
        match source.read_packet(self.threshold) {
            Ok(packet) => Ok(packet),
            Err(e) => Err(PacketError::Data(e)),
        }
    }

    /// Writes `packet` to `sink`, framed under the session's threshold.
    pub fn write_packet<W: Writer>(&self, sink: &mut W, packet: Packet) -> (r: Result<
        (),
        PacketError,
    >)
        ensures
            match frame_encoding(packet@, self.threshold) {
                Some(frame) => r is Ok && appended(
                    final(sink),
                    old(sink),
                    frame,
                ),
                None => r == Err::<(), PacketError>(PacketError::Data(DataError::ZlibError))
                    && *final(sink) == *old(sink),
            },
    {
        match sink.write_packet(packet, self.threshold) {
            Ok(()) => Ok(()),
            Err(e) => Err(PacketError::Data(e)),
        }
    }

    /// Takes the packet that arrived, moves the session one step and says
    /// what to send: `status` answers a status request, `rejection` is the
    /// message for a client whose version may not log in.
    pub fn handle(&mut self, packet: Packet, status: &str, rejection: &str) -> (r: Result<
        Vec<Outgoing>,
        PacketError,
    >)
        ensures
            stepped(
                r,
                final(self)@,
                session_step(old(self)@, packet@.id, packet.unread(), status@, rejection@),
            ),
    {
        match self.state {
            ConnectionState::Handshake => read_first_packet(self, packet, rejection),
            ConnectionState::StatusRequest | ConnectionState::StatusPing => the_status(
                self,
                packet,
                status,
            ),
            ConnectionState::LoginStart | ConnectionState::LoginAcknowledged => the_login(
                self,
                packet,
            ),
            ConnectionState::Configuration => the_configuration(self, packet),
            ConnectionState::Disconnected => fail(self, PacketError::WrongPacketID),
        }
    }
}

/// Ends the session with `fault`.
fn fail(conn: &mut Connection, fault: PacketError) -> (r: Result<Vec<Outgoing>, PacketError>)
    ensures
        stepped(r, final(conn)@, failed(old(conn)@, fault)),
{
    conn.state = ConnectionState::Disconnected;
    Err(fault)
}

/// Goes on in `state` and sends `out`.
fn proceed(conn: &mut Connection, state: ConnectionState, out: Vec<Outgoing>) -> (r: Result<
    Vec<Outgoing>,
    PacketError,
>)
    ensures
        stepped(r, final(conn)@, moved(old(conn)@, state, outgoing_view(out@))),
{
    conn.state = state;
    Ok(out)
}

/// One packet to send, with the payload that `packet` holds.
fn single(packet: Packet, threshold: Option<usize>) -> (out: Vec<Outgoing>)
    requires
        packet@.pos == 0,
    ensures
        outgoing_view(out@) == seq![outgoing(packet@.id, packet@.data, threshold)],
{
    let mut out: Vec<Outgoing> = Vec::new();
    out.push(Outgoing { packet, threshold });
    assert(outgoing_view(out@) =~= seq![outgoing(packet@.id, packet@.data, threshold)]);
    out
}

/// The step on the first packet of a session: see [`handshake_step`].
pub fn read_first_packet(conn: &mut Connection, packet: Packet, rejection: &str) -> (r: Result<
    Vec<Outgoing>,
    PacketError,
>)
    ensures
        stepped(
            r,
            final(conn)@,
            handshake_step(old(conn)@, packet@.id, packet.unread(), rejection@),
        ),
{
    let mut packet = packet;
    if conn.state != ConnectionState::Handshake || packet.id()
        != serverbound::handshake::HANDSHAKE {
        return fail(conn, PacketError::WrongPacketID);
    }
    let version: i32 = match packet.read_varint() {
        Ok(v) => v,
        Err(e) => {
            return fail(conn, PacketError::Data(e));
        },
    };
    let host = match packet.read_string() {
        Ok(v) => v,
        Err(e) => {
            return fail(conn, PacketError::Data(e));
        },
    };
    let port: u16 = match packet.read_short() {
        Ok(v) => v,
        Err(e) => {
            return fail(conn, PacketError::Data(e));
        },
    };
    let ns: i32 = match packet.read_varint() {
        Ok(v) => v,
        Err(e) => {
            return fail(conn, PacketError::Data(e));
        },
    };
    if ns == 1 {
        conn.version = Some(version);
        conn.host = Some(host);
        conn.port = Some(port);
        proceed(conn, ConnectionState::StatusRequest, Vec::new())
    } else if ns == 2 {
        let threshold = conn.threshold;
        conn.version = Some(version);
        conn.host = Some(host);
        conn.port = Some(port);
        if version != PROTOCOL_VERSION {
            let mut reply = Packet::empty(clientbound::login::DISCONNECT);
            let _ = reply.write_string(rejection);
            assert(reply@.data =~= string_encoding(rejection@));
            proceed(conn, ConnectionState::Disconnected, single(reply, threshold))
        } else {
            proceed(conn, ConnectionState::LoginStart, Vec::new())
        }
    } else {
        fail(conn, PacketError::NextStateIncorrect)
    }
}

/// The step on a packet of the status exchange: see [`status_step`].
pub fn the_status(conn: &mut Connection, packet: Packet, status: &str) -> (r: Result<
    Vec<Outgoing>,
    PacketError,
>)
    ensures
        stepped(r, final(conn)@, status_step(old(conn)@, packet@.id, packet.unread(), status@)),
{
    let mut packet = packet;
    match conn.state {
        ConnectionState::StatusRequest => {
            if packet.id() != serverbound::status::REQUEST {
                return fail(conn, PacketError::WrongPacketID);
            }
            let mut reply = Packet::empty(clientbound::status::RESPONSE);
            let _ = reply.write_string(status);
            assert(reply@.data =~= string_encoding(status@));
            let out = single(reply, conn.threshold);
            proceed(conn, ConnectionState::StatusPing, out)
        },
        ConnectionState::StatusPing => {
            if packet.id() != serverbound::status::PING_REQUEST {
                return fail(conn, PacketError::WrongPacketID);
            }
            let token: u64 = match packet.read_long() {
                Ok(v) => v,
                Err(e) => {
                    return fail(conn, PacketError::Data(e));
                },
            };
            let mut reply = Packet::empty(clientbound::status::PONG_RESPONSE);
            let _ = reply.write_long(token);
            assert(reply@.data =~= be_bytes(token as nat, 8));
            let out = single(reply, conn.threshold);
            proceed(conn, ConnectionState::Disconnected, out)
        },
        _ => fail(conn, PacketError::WrongPacketID),
    }
}

/// The step on a packet of the login exchange: see [`login_step`].
pub fn the_login(conn: &mut Connection, packet: Packet) -> (r: Result<Vec<Outgoing>, PacketError>)
    ensures
        stepped(r, final(conn)@, login_step(old(conn)@, packet@.id, packet.unread())),
{
    let mut packet = packet;
    match conn.state {
        ConnectionState::LoginStart => {
            if packet.id() != serverbound::login::START {
                return fail(conn, PacketError::WrongPacketID);
            }
            let username = match packet.read_string() {
                Ok(v) => v,
                Err(e) => {
                    return fail(conn, PacketError::Data(e));
                },
            };
            let uuid: u128 = match packet.read_uuid() {
                Ok(v) => v,
                Err(e) => {
                    return fail(conn, PacketError::Data(e));
                },
            };
            let threshold: usize = COMPRESSION_THRESHOLD;
            let mut set_compression = Packet::empty(clientbound::login::SET_COMPRESSION);
            let _ = set_compression.write_varint(threshold as i32);
            assert(set_compression@.data =~= varint_encoding(COMPRESSION_THRESHOLD as i32));
            let mut success = Packet::empty(clientbound::login::SUCCESS);
            let _ = success.write_uuid(uuid);
            let _ = success.write_string(username.as_str());
            let _ = success.write_varint(0);
            assert(success@.data =~= login_success_payload(uuid, username@));
            let mut out: Vec<Outgoing> = Vec::new();
            out.push(Outgoing { packet: set_compression, threshold: conn.threshold });
            out.push(Outgoing { packet: success, threshold: Some(threshold) });
            assert(outgoing_view(out@) =~= seq![
                outgoing(
                    clientbound::login::SET_COMPRESSION,
                    varint_encoding(COMPRESSION_THRESHOLD as i32),
                    conn.threshold,
                ),
                outgoing(
                    clientbound::login::SUCCESS,
                    login_success_payload(uuid, username@),
                    Some(COMPRESSION_THRESHOLD),
                ),
            ]);
            conn.username = Some(username);
            conn.uuid = Some(uuid);
            conn.threshold = Some(threshold);
            proceed(conn, ConnectionState::LoginAcknowledged, out)
        },
        ConnectionState::LoginAcknowledged => {
            if packet.id() != serverbound::login::ACKNOWLEDGED {
                return fail(conn, PacketError::WrongPacketID);
            }
            let out = single(Packet::empty(clientbound::configuration::FINISH), conn.threshold);
            proceed(conn, ConnectionState::Configuration, out)
        },
        _ => fail(conn, PacketError::WrongPacketID),
    }
}

/// The step on a packet during configuration: see [`configuration_step`].
pub fn the_configuration(conn: &mut Connection, packet: Packet) -> (r: Result<
    Vec<Outgoing>,
    PacketError,
>)
    ensures
        stepped(r, final(conn)@, configuration_step(old(conn)@)),
{
    match conn.state {
        ConnectionState::Configuration => proceed(conn, ConnectionState::Configuration, Vec::new()),
        _ => fail(conn, PacketError::WrongPacketID),
    }
}

/// Whatever ends a step in a fault ends the session, sends nothing and
/// leaves the session's data as it was; and a session that is over takes no
/// packet.
pub proof fn lemma_faults_end_session(
    conn: ConnectionView,
    id: u8,
    payload: Seq<u8>,
    status: Seq<char>,
    rejection: Seq<char>,
)
    ensures
        session_step(conn, id, payload, status, rejection).result is Err ==> session_step(
            conn,
            id,
            payload,
            status,
            rejection,
        ).after == (ConnectionView { state: ConnectionState::Disconnected, ..conn }),
        conn.state == ConnectionState::Disconnected ==> session_step(
            conn,
            id,
            payload,
            status,
            rejection,
        ) == failed(conn, PacketError::WrongPacketID),
{
}

/// The session holds what the steps before its state have learned: past the
/// handshake the version, address and port, where it logs in the version that
/// may, and past the login start the name, the identity and the threshold as
/// well.
pub open spec fn consistent(conn: ConnectionView) -> bool {
    match conn.state {
        ConnectionState::Handshake | ConnectionState::Disconnected => true,
        ConnectionState::StatusRequest | ConnectionState::StatusPing => {
            conn.version is Some && conn.host is Some && conn.port is Some
        },
        ConnectionState::LoginStart => {
            conn.version == Some(PROTOCOL_VERSION) && conn.host is Some && conn.port is Some
        },
        ConnectionState::LoginAcknowledged | ConnectionState::Configuration => {
            &&& conn.version == Some(PROTOCOL_VERSION)
            &&& conn.host is Some
            &&& conn.port is Some
            &&& conn.username is Some
            &&& conn.uuid is Some
            &&& conn.threshold == Some(COMPRESSION_THRESHOLD)
        },
    }
}

/// Every step keeps the session consistent, so no step ever finds data
/// missing that an earlier one should have set: `OptionIsNone` is the fault of
/// no step. A session only logs in with the version that may.
pub proof fn lemma_steps_keep_consistency(
    conn: ConnectionView,
    id: u8,
    payload: Seq<u8>,
    status: Seq<char>,
    rejection: Seq<char>,
)
    requires
        consistent(conn),
    ensures
        consistent(session_step(conn, id, payload, status, rejection).after),
        session_step(conn, id, payload, status, rejection).result != Err::<
            Seq<OutgoingView>,
            PacketError,
        >(PacketError::OptionIsNone),
{
}

/// The id that the session waits for, where it waits for one id only.
pub open spec fn expected_id(state: ConnectionState) -> Option<u8> {
    match state {
        ConnectionState::Handshake => Some(serverbound::handshake::HANDSHAKE),
        ConnectionState::StatusRequest => Some(serverbound::status::REQUEST),
        ConnectionState::StatusPing => Some(serverbound::status::PING_REQUEST),
        ConnectionState::LoginStart => Some(serverbound::login::START),
        ConnectionState::LoginAcknowledged => Some(serverbound::login::ACKNOWLEDGED),
        ConnectionState::Configuration => None,
        ConnectionState::Disconnected => None,
    }
}

/// No step goes on before the id it waits for is confirmed: a packet with
/// another id ends the session with `WrongPacketID`, whatever it holds.
pub proof fn lemma_wrong_id_ends_session(
    conn: ConnectionView,
    id: u8,
    payload: Seq<u8>,
    status: Seq<char>,
    rejection: Seq<char>,
)
    requires
        expected_id(conn.state) matches Some(expected) && expected != id,
    ensures
        session_step(conn, id, payload, status, rejection) == failed(
            conn,
            PacketError::WrongPacketID,
        ),
{
}

/// A handshake that asks for login with a version that may not log in is
/// answered with exactly one packet, the disconnect that carries the
/// rejection; the session is over with it and takes no further packet.
pub proof fn lemma_version_mismatch_disconnects(
    conn: ConnectionView,
    payload: Seq<u8>,
    status: Seq<char>,
    rejection: Seq<char>,
    next_id: u8,
    next_payload: Seq<u8>,
)
    requires
        conn.state == ConnectionState::Handshake,
        handshake_decoding(payload) matches Ok(fields) && fields.next == 2 && fields.version
            != PROTOCOL_VERSION,
    ensures
        ({
            let step = session_step(
                conn,
                serverbound::handshake::HANDSHAKE,
                payload,
                status,
                rejection,
            );
            &&& step.result == Ok::<Seq<OutgoingView>, PacketError>(
                seq![
                    outgoing(
                        clientbound::login::DISCONNECT,
                        string_encoding(rejection),
                        conn.threshold,
                    ),
                ],
            )
            &&& step.after.state == ConnectionState::Disconnected
            &&& session_step(step.after, next_id, next_payload, status, rejection).result is Err
        }),
{
}

/// A whole login leaves the session with exactly what was sent: after the
/// login start that carries `username` and `uuid`, the session holds that
/// name, that identity and the threshold it announced, and has sent the
/// set-compression packet and the login success in this order; after the
/// acknowledgement it holds the same and is in configuration. This holds of
/// every name whose UTF-8 bytes can be counted in the signed 32 bits of a
/// length prefix.
pub proof fn lemma_login_sets_session(
    conn: ConnectionView,
    username: Seq<char>,
    uuid: u128,
    start_rest: Seq<u8>,
    acknowledged_payload: Seq<u8>,
)
    requires
        conn.state == ConnectionState::LoginStart,
        encode_utf8(username).len() <= i32::MAX,
    ensures
        ({
            let start = login_step(
                conn,
                serverbound::login::START,
                string_encoding(username) + be_bytes(uuid as nat, 16) + start_rest,
            );
            let acknowledged = login_step(
                start.after,
                serverbound::login::ACKNOWLEDGED,
                acknowledged_payload,
            );
            &&& start.result == Ok::<Seq<OutgoingView>, PacketError>(
                seq![
                    outgoing(
                        clientbound::login::SET_COMPRESSION,
                        varint_encoding(COMPRESSION_THRESHOLD as i32),
                        conn.threshold,
                    ),
                    outgoing(
                        clientbound::login::SUCCESS,
                        login_success_payload(uuid, username),
                        Some(COMPRESSION_THRESHOLD),
                    ),
                ],
            )
            &&& start.after == (ConnectionView {
                username: Some(username),
                uuid: Some(uuid),
                threshold: Some(COMPRESSION_THRESHOLD),
                state: ConnectionState::LoginAcknowledged,
                ..conn
            })
            &&& acknowledged.result == Ok::<Seq<OutgoingView>, PacketError>(
                seq![
                    outgoing(
                        clientbound::configuration::FINISH,
                        Seq::empty(),
                        Some(COMPRESSION_THRESHOLD),
                    ),
                ],
            )
            &&& acknowledged.after == (ConnectionView {
                state: ConnectionState::Configuration,
                ..start.after
            })
        }),
{
    let tail = be_bytes(uuid as nat, 16) + start_rest;
    let payload = string_encoding(username) + be_bytes(uuid as nat, 16) + start_rest;
    assert(payload =~= string_encoding(username) + tail);
    lemma_string_roundtrip(username, tail);
    assert(payload.skip(string_encoding(username).len() as int) =~= tail);
    lemma_unsigned_roundtrip(0, 0, 0, 0, uuid, start_rest);
}

} // verus!
