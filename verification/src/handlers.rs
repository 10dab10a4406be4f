//! The packet handlers: what each packet does to the connection state and
//! what it answers. A handler reads the fields of its packet in order. The
//! server gives up on a connection whose packet has no handler or cannot be
//! read as its handler expects; `Client::packet_fault` names those packets,
//! and the handlers are only called on the others.
use vstd::prelude::*;
use vstd::utf8::encode_utf8;

use crate::client::{
    handler_for, handler_table, moved_to, Client, ClientInfo, Handler, HandlerError, Reply,
    StateClient,
};
use crate::leb::sleb128;
use crate::mpacket::{
    frame_bytes, frame_bytes_without_data, lemma_byte_read, lemma_string_roundtrip,
    lemma_be_read_roundtrip, lemma_unread_after, lemma_varint_read_roundtrip, read_be_spec, read_exact_spec,
    read_string_spec, read_uuid_spec, read_varint_spec, unread, Packet, ReadError,
};
use crate::mserialize::{be_bytes, prefixed_string_bytes, MSerialize};
use crate::mstring::MString;
use crate::muuid::Muuid;
use crate::varint::VarInt;

verus! {

// ---------------------------------------------------------------- handshaking

/// The state a handshake's next-state field asks for.
pub open spec fn next_state(n: i64) -> Option<StateClient> {
    if n == 1 {
        Some(StateClient::Status)
    } else if n == 2 {
        Some(StateClient::Login)
    } else if n == 3 {
        Some(StateClient::Transfer)
    } else {
        None
    }
}

/// The fields of a handshake: protocol version, server address, server port
/// (two bytes, big-endian) and next state; with the cursor position after them.
pub open spec fn handshake_spec(d: Seq<u8>, pos: int) -> (
    Result<(i64, Seq<char>, int, StateClient), HandlerError>,
    int,
) {
    let (v, p1) = read_varint_spec(d, pos);
    match v {
        Err(e) => (Err(HandlerError::Read(e)), p1),
        Ok(prot) => {
            let (a, p2) = read_string_spec(d, p1);
            match a {
                Err(e) => (Err(HandlerError::Read(e)), p2),
                Ok(addr) => {
                    let (b, p3) = read_be_spec(d, p2, 2);
                    match b {
                        Err(e) => (Err(HandlerError::Read(e)), p3),
                        Ok(port) => {
                            let (n, p4) = read_varint_spec(d, p3);
                            match n {
                                Err(e) => (Err(HandlerError::Read(e)), p4),
                                Ok(nx) => match next_state(nx) {
                                    Some(st) => (Ok((prot, addr, port, st)), p4),
                                    None => (Err(HandlerError::UnknownNextState(nx)), p4),
                                },
                            }
                        },
                    }
                },
            }
        },
    }
}

/// Reads the fields of a handshake.
pub fn parse_handshake(packet: &mut Packet) -> (r: Result<(i64, String, u16, StateClient), HandlerError>)
    ensures
        ({
            let (h, q) = handshake_spec(old(packet).data@, old(packet).pos as int);
            &&& moved_to(*old(packet), *final(packet), q)
            &&& match h {
                Ok((prot, addr, port, st)) => r matches Ok((a, b, c, d)) && a == prot && b@ == addr
                    && c == port && d == st,
                Err(e) => r matches Err(f) && f == e,
            }
        }),
{
    let prot = match packet.read_varint() {
        Ok(v) => v,
        Err(e) => {
            return Err(HandlerError::Read(e));
        },
    };
    let address = match packet.read_string() {
        Ok(s) => s,
        Err(e) => {
            return Err(HandlerError::Read(e));
        },
    };
    let port = match packet.read_u16() {
        Ok(p) => p,
        Err(e) => {
            return Err(HandlerError::Read(e));
        },
    };
    let next = match packet.read_varint() {
        Ok(v) => v,
        Err(e) => {
            return Err(HandlerError::Read(e));
        },
    };
    let status = if next == 1 {
        StateClient::Status
    } else if next == 2 {
        StateClient::Login
    } else if next == 3 {
        StateClient::Transfer
    } else {
        return Err(HandlerError::UnknownNextState(next));
    };
    Ok((prot, address, port, status))
}

pub open spec fn set_protocol_post(c0: Client, c1: Client, p0: Packet, p1: Packet, r: Reply) -> bool {
    let (h, q) = handshake_spec(p0.data@, p0.pos as int);
    &&& moved_to(p0, p1, q)
    &&& r is Nothing
    &&& match h {
        Ok((prot, addr, port, st)) => {
            &&& c1 == Client {
                status: st,
                prot_version: VarInt(prot),
                server_address: c1.server_address,
                server_port: port as u16,
                ..c0
            }
            &&& c1.server_address@ == addr
        },
        Err(_) => false,
    }
}

/// The wire bytes of a handshake: protocol version, server address, server
/// port, next state.
pub open spec fn handshake_bytes(prot: i64, addr: Seq<char>, port: u16, next: i64) -> Seq<u8> {
    sleb128(prot as int) + prefixed_string_bytes(addr) + port.wire_bytes() + sleb128(next as int)
}

proof fn lemma_handshake_reads(
    d: Seq<u8>,
    pos: int,
    prot: i64,
    addr: Seq<char>,
    port: u16,
    next: i64,
    rest: Seq<u8>,
)
    requires
        0 <= pos,
        encode_utf8(addr).len() <= isize::MAX,
        unread(d, pos) == handshake_bytes(prot, addr, port, next) + rest,
    ensures
        ({
            let p1 = pos + sleb128(prot as int).len();
            let p2 = p1 + prefixed_string_bytes(addr).len();
            &&& read_varint_spec(d, pos) == (Ok::<i64, ReadError>(prot), p1)
            &&& read_string_spec(d, p1) == (Ok::<Seq<char>, ReadError>(addr), p2)
            &&& read_be_spec(d, p2, 2) == (Ok::<int, ReadError>(port as int), p2 + 2)
            &&& read_varint_spec(d, p2 + 2) == (Ok::<i64, ReadError>(next), pos
                + handshake_bytes(prot, addr, port, next).len())
        }),
{
    let pb = sleb128(prot as int);
    let sb = prefixed_string_bytes(addr);
    let ob = be_bytes(port as int, 2);
    let nb = sleb128(next as int);
    let t3 = nb + rest;
    let t2 = ob + t3;
    let t1 = sb + t2;
    assert(handshake_bytes(prot, addr, port, next) + rest =~= pb + t1);
    lemma_varint_read_roundtrip(d, pos, prot, t1);
    lemma_unread_after(d, pos, pb, t1);
    let p1 = pos + pb.len();
    lemma_string_roundtrip(d, p1, addr, t2);
    lemma_unread_after(d, p1, sb, t2);
    let p2 = p1 + sb.len();
    crate::mserialize::lemma_pow256_values();
    lemma_be_read_roundtrip(d, p2, port as int, 2, t3);
    crate::mserialize::lemma_be_bytes_len(port as int, 2);
    lemma_unread_after(d, p2, ob, t3);
    lemma_varint_read_roundtrip(d, p2 + 2, next, rest);
}

/// Reading a handshake body gives back the protocol version, server address
/// and port whose wire bytes it holds, whatever follows them; next state 1, 2
/// and 3 ask for status, login and transfer, and any other is refused.
pub proof fn lemma_handshake_roundtrip(
    d: Seq<u8>,
    pos: int,
    prot: i64,
    addr: Seq<char>,
    port: u16,
    next: i64,
    rest: Seq<u8>,
)
    requires
        0 <= pos,
        encode_utf8(addr).len() <= isize::MAX,
        unread(d, pos) == handshake_bytes(prot, addr, port, next) + rest,
    ensures
        handshake_spec(d, pos).1 == pos + handshake_bytes(prot, addr, port, next).len(),
        next == 1 ==> handshake_spec(d, pos).0 == Ok::<
            (i64, Seq<char>, int, StateClient),
            HandlerError,
        >((prot, addr, port as int, StateClient::Status)),
        next == 2 ==> handshake_spec(d, pos).0 == Ok::<
            (i64, Seq<char>, int, StateClient),
            HandlerError,
        >((prot, addr, port as int, StateClient::Login)),
        next == 3 ==> handshake_spec(d, pos).0 == Ok::<
            (i64, Seq<char>, int, StateClient),
            HandlerError,
        >((prot, addr, port as int, StateClient::Transfer)),
        !(1 <= next <= 3) ==> handshake_spec(d, pos).0 == Err::<
            (i64, Seq<char>, int, StateClient),
            HandlerError,
        >(HandlerError::UnknownNextState(next)),
{
    lemma_handshake_reads(d, pos, prot, addr, port, next, rest);
}

/// A handshake records exactly the protocol version, server address and port
/// whose wire bytes its body holds, moves to the state that its next-state
/// field asks for, changes nothing else and answers nothing.
pub proof fn lemma_handshake_recorded(
    c0: Client,
    c1: Client,
    p0: Packet,
    p1: Packet,
    r: Reply,
    prot: i64,
    addr: Seq<char>,
    port: u16,
    next: i64,
    rest: Seq<u8>,
)
    requires
        encode_utf8(addr).len() <= isize::MAX,
        unread(p0.data@, p0.pos as int) == handshake_bytes(prot, addr, port, next) + rest,
        set_protocol_post(c0, c1, p0, p1, r),
    ensures
        1 <= next <= 3,
        c1.prot_version == VarInt(prot),
        c1.server_address@ == addr,
        c1.server_port == port,
        next == 1 ==> c1.status == StateClient::Status,
        next == 2 ==> c1.status == StateClient::Login,
        next == 3 ==> c1.status == StateClient::Transfer,
        c1.username == c0.username,
        c1.client_info == c0.client_info,
        unread(p1.data@, p1.pos as int) == rest,
        r is Nothing,
{
    lemma_handshake_roundtrip(p0.data@, p0.pos as int, prot, addr, port, next, rest);
    crate::mpacket::lemma_unread_after(
        p0.data@,
        p0.pos as int,
        handshake_bytes(prot, addr, port, next),
        rest,
    );
}

/// Handshake: records protocol version, server address and port, and moves to
/// the requested state (status, login or transfer).
pub fn set_protocol(client: &mut Client, packet: &mut Packet) -> (r: Reply)
    requires
        handshake_spec(old(packet).data@, old(packet).pos as int).0 is Ok,
    ensures
        set_protocol_post(*old(client), *final(client), *old(packet), *final(packet), r),
{
    match parse_handshake(packet) {
        Ok((prot, address, port, status)) => {
            client.status = status;
            client.prot_version = VarInt(prot);
            client.server_address = address;
            client.server_port = port;
        },
        Err(_) => {},
    }
    Reply::Nothing
}

// ---------------------------------------------------------------- status

pub open spec fn status_request_post(c0: Client, c1: Client, p0: Packet, p1: Packet, r: Reply) -> bool {
    &&& r is StatusRequested
    &&& c1 == c0
    &&& p1 == p0
}

/// Status request: the caller is to answer with the server status.
pub fn status_request(client: &mut Client, packet: &mut Packet) -> (r: Reply)
    ensures
        status_request_post(*old(client), *final(client), *old(packet), *final(packet), r),
{
    Reply::StatusRequested
}

/// The bytes of a status response carrying the server status as JSON.
pub fn status_response(json: &MString) -> (r: Vec<u8>)
    requires
        encode_utf8(json.0@).len() <= isize::MAX,
    ensures
        r@ == frame_bytes(0x00, json.wire_bytes()),
{
    proof {
        crate::leb::lemma_sleb128_i64((encode_utf8(json.0@).len() as usize) as i64);
    }
    Packet::send_packet(0x00, json)
}

pub open spec fn ping_request_post(c0: Client, c1: Client, p0: Packet, p1: Packet, r: Reply) -> bool {
    let (v, q) = read_be_spec(p0.data@, p0.pos as int, 8);
    &&& moved_to(p0, p1, q)
    &&& c1 == c0
    &&& match v {
        Ok(x) => r matches Reply::Send(b) && b@ == frame_bytes(0x01, be_bytes(x, 8)),
        Err(_) => false,
    }
}

/// Ping: answers with the eight-byte payload it received.
pub fn ping_request(client: &mut Client, packet: &mut Packet) -> (r: Reply)
    requires
        read_be_spec(old(packet).data@, old(packet).pos as int, 8).0 is Ok,
    ensures
        ping_request_post(*old(client), *final(client), *old(packet), *final(packet), r),
{
    ping_response(packet)
}

/// A ping is answered with a packet 0x01 that carries back the very eight
/// bytes the ping's body starts with, whatever follows them; the connection
/// is left as it was.
pub proof fn lemma_ping_echoed(
    c0: Client,
    c1: Client,
    p0: Packet,
    p1: Packet,
    r: Reply,
    payload: Seq<u8>,
    rest: Seq<u8>,
)
    requires
        payload.len() == 8,
        unread(p0.data@, p0.pos as int) == payload + rest,
        ping_request_post(c0, c1, p0, p1, r),
    ensures
        r matches Reply::Send(b) && b@ == frame_bytes(0x01, payload),
        c1 == c0,
        unread(p1.data@, p1.pos as int) == rest,
{
    assert((payload + rest).take(8) =~= payload);
    crate::mserialize::lemma_be_bytes_of_value(payload);
    lemma_unread_after(p0.data@, p0.pos as int, payload, rest);
}

/// The answer to a ping: the payload read from the packet, sent back.
pub fn ping_response(packet: &mut Packet) -> (r: Reply)
    requires
        read_be_spec(old(packet).data@, old(packet).pos as int, 8).0 is Ok,
    ensures
        ({
            let (v, q) = read_be_spec(old(packet).data@, old(packet).pos as int, 8);
            &&& moved_to(*old(packet), *final(packet), q)
            &&& match v {
                Ok(x) => r matches Reply::Send(b) && b@ == frame_bytes(0x01, be_bytes(x, 8)),
                Err(_) => false,
            }
        }),
{
    let payload_id = match packet.read_u64() {
        Ok(x) => x,
        Err(_) => 0,
    };
    proof {
        crate::mserialize::lemma_be_bytes_len(payload_id as int, 8);
    }
    Reply::Send(Packet::send_packet(0x01, &payload_id))
}

// ---------------------------------------------------------------- login and configuration state changes

pub open spec fn login_ack_post(c0: Client, c1: Client, p0: Packet, p1: Packet, r: Reply) -> bool {
    &&& r is Nothing
    &&& c1 == Client { status: StateClient::Configuration, ..c0 }
    &&& p1 == p0
}

/// Login acknowledged: the connection moves to configuration.
pub fn login_ack(client: &mut Client, packet: &mut Packet) -> (r: Reply)
    ensures
        login_ack_post(*old(client), *final(client), *old(packet), *final(packet), r),
{
    client.status = StateClient::Configuration;
    Reply::Nothing
}

pub open spec fn finish_config_ack_post(c0: Client, c1: Client, p0: Packet, p1: Packet, r: Reply) -> bool {
    &&& r is Nothing
    &&& c1 == Client { status: StateClient::Play, ..c0 }
    &&& p1 == p0
}

/// Configuration finished: the connection moves to play.
pub fn finish_config_ack(client: &mut Client, packet: &mut Packet) -> (r: Reply)
    ensures
        finish_config_ack_post(*old(client), *final(client), *old(packet), *final(packet), r),
{
    client.status = StateClient::Play;
    Reply::Nothing
}

pub open spec fn cookie_request_post(c0: Client, c1: Client, p0: Packet, p1: Packet, r: Reply) -> bool {
    let (v, q) = read_string_spec(p0.data@, p0.pos as int);
    &&& moved_to(p0, p1, q)
    &&& c1 == c0
    &&& v is Ok
    &&& r is Nothing
}

/// Cookie request: reads the cookie identifier.
pub fn cookie_request(client: &mut Client, packet: &mut Packet) -> (r: Reply)
    requires
        read_string_spec(old(packet).data@, old(packet).pos as int).0 is Ok,
    ensures
        cookie_request_post(*old(client), *final(client), *old(packet), *final(packet), r),
{
    let _id = packet.read_string();
    Reply::Nothing
}

// ---------------------------------------------------------------- play

/// The teleport id sent with the initial position.
pub const TELEPORT_ID: i64 = 42;

pub open spec fn confirm_teleportation_post(
    c0: Client,
    c1: Client,
    p0: Packet,
    p1: Packet,
    r: Result<Reply, ReadError>,
) -> bool {
    let (v, q) = read_varint_spec(p0.data@, p0.pos as int);
    &&& moved_to(p0, p1, q)
    &&& c1 == c0
    &&& match v {
        Ok(x) => x == TELEPORT_ID && r matches Ok(Reply::Nothing),
        Err(e) => r matches Err(f) && f == e,
    }
}

/// Teleport confirmation: reads the id, which must be the one sent with the
/// position; a read failure is reported.
pub fn confirm_teleportation(client: &mut Client, packet: &mut Packet) -> (r: Result<Reply, ReadError>)
    requires
        !(read_varint_spec(old(packet).data@, old(packet).pos as int).0 matches Ok(x) && x
            != TELEPORT_ID),
    ensures
        confirm_teleportation_post(*old(client), *final(client), *old(packet), *final(packet), r),
{
    match packet.read_varint() {
        Ok(_x) => Ok(Reply::Nothing),
        Err(e) => Err(e),
    }
}

/// bincode's variable-length encoding of an unsigned integer (standard
/// configuration, big-endian): one byte up to 250, else a marker byte
/// (251, 252, 253) followed by the value in 2, 4 or 8 bytes.
pub open spec fn bincode_varint(v: nat) -> Seq<u8> {
    if v <= 250 {
        seq![v as u8]
    } else if v <= 0xffff {
        seq![251u8] + be_bytes(v as int, 2)
    } else if v <= 0xffff_ffff {
        seq![252u8] + be_bytes(v as int, 4)
    } else {
        seq![253u8] + be_bytes(v as int, 8)
    }
}

/// bincode's zigzag mapping of a signed integer onto an unsigned one.
pub open spec fn bincode_zigzag(v: int) -> nat {
    if v < 0 {
        (-2 * v - 1) as nat
    } else {
        (2 * v) as nat
    }
}

/// bincode's encoding of a string: its UTF-8 byte count, then the bytes.
pub open spec fn bincode_str(s: Seq<char>) -> Seq<u8> {
    bincode_varint(encode_utf8(s).len()) + encode_utf8(s)
}

/// The body of a login success: the UUID's sixteen bytes, the user name, the
/// number of properties, and the strict-error-handling flag, encoded by bincode.
pub open spec fn login_success_bytes(
    uuid: Seq<u8>,
    username: Seq<char>,
    nbr_props: i64,
    strict_error_handling: bool,
) -> Seq<u8> {
    uuid + bincode_str(username) + bincode_varint(bincode_zigzag(nbr_props as int)) + seq![
        if strict_error_handling {
            1u8
        } else {
            0u8
        },
    ]
}

/// Calls `bincode::encode_to_vec` (standard configuration, big-endian) on the
/// fields of a login success, in order. Claimed (its source): the encoding
/// succeeds (the encoder writes into a `Vec`, which never fails, and the
/// standard configuration sets no size limit), and the bytes are
/// `login_success_bytes` of the fields (a byte array is written as is, a string
/// as a varint length and its bytes, an `i64` zigzag-mapped to a varint, a
/// boolean as one byte).
#[verifier::external_body]
fn bincode_encode_login_success(
    uuid: &[u8; 16],
    username: &String,
    nbr_props: i64,
    strict_error_handling: bool,
) -> (r: Option<Vec<u8>>)
    ensures
        r is Some,
        r matches Some(v) ==> v@ == login_success_bytes(
            uuid@,
            username@,
            nbr_props,
            strict_error_handling,
        ),
{
    bincode::encode_to_vec(
        (uuid, username, nbr_props, strict_error_handling),
        bincode::config::standard().with_big_endian(),
    ).ok()
}

proof fn lemma_bincode_varint_len(v: nat)
    ensures
        bincode_varint(v).len() <= 9,
{
    crate::mserialize::lemma_be_bytes_len(v as int, 2);
    crate::mserialize::lemma_be_bytes_len(v as int, 4);
    crate::mserialize::lemma_be_bytes_len(v as int, 8);
}

pub open spec fn login_success_post(c0: Client, c1: Client, p0: Packet, p1: Packet, r: Reply) -> bool {
    &&& c1 == c0
    &&& p1 == p0
    &&& r matches Reply::Send(b) && b@ == frame_bytes(
        0x02,
        login_success_bytes(c0.uuid.bytes(), c0.username@, 0, true),
    )
}

/// Login success: answers with the player's UUID and name, no properties,
/// strict error handling.
pub fn login_success(client: &mut Client, packet: &mut Packet) -> (r: Reply)
    requires
        encode_utf8(old(client).username@).len() <= isize::MAX,
    ensures
        login_success_post(*old(client), *final(client), *old(packet), *final(packet), r),
{
    let uuid = client.uuid.into_bytes();
    let nbr_props = VarInt(0);
    let encoded = bincode_encode_login_success(&uuid, &client.username, nbr_props.0, true);
    let bytes = match encoded {
        Some(b) => b,
        None => Vec::new(),
    };
    proof {
        client.uuid.lemma_len();
        lemma_bincode_varint_len(encode_utf8(client.username@).len());
        lemma_bincode_varint_len(0);
        crate::mserialize::lemma_concat_wire_bytes(bytes@);
    }
    Reply::Send(Packet::send_packet(0x02, &bytes))
}

/// The fields of a login start: the player's name and UUID.
pub open spec fn login_start_spec(d: Seq<u8>, pos: int) -> (Result<(Seq<char>, Seq<u8>), ReadError>, int) {
    let (s, q1) = read_string_spec(d, pos);
    match s {
        Err(e) => (Err(e), q1),
        Ok(name) => {
            let (u, q2) = read_uuid_spec(d, q1);
            match u {
                Err(e) => (Err(e), q2),
                Ok(ub) => (Ok((name, ub)), q2),
            }
        },
    }
}

/// Reads the fields of a login start.
pub fn parse_login_start(packet: &mut Packet) -> (r: Result<(String, Muuid), ReadError>)
    ensures
        ({
            let (v, q) = login_start_spec(old(packet).data@, old(packet).pos as int);
            &&& moved_to(*old(packet), *final(packet), q)
            &&& match v {
                Ok((name, ub)) => r matches Ok((n, u)) && n@ == name && u.bytes() == ub,
                Err(e) => r matches Err(f) && f == e,
            }
        }),
{
    let username = match packet.read_string() {
        Ok(s) => s,
        Err(e) => {
            return Err(e);
        },
    };
    let uuid = match packet.read_uuid() {
        Ok(u) => u,
        Err(e) => {
            return Err(e);
        },
    };
    Ok((username, uuid))
}

pub open spec fn login_start_post(c0: Client, c1: Client, p0: Packet, p1: Packet, r: Reply) -> bool {
    let (v, q) = login_start_spec(p0.data@, p0.pos as int);
    &&& moved_to(p0, p1, q)
    &&& match v {
        Ok((name, ub)) => {
            &&& c1 == Client { username: c1.username, uuid: c1.uuid, ..c0 }
            &&& c1.username@ == name
            &&& c1.uuid.bytes() == ub
            &&& r matches Reply::Send(b) && b@ == frame_bytes(
                0x02,
                login_success_bytes(ub, name, 0, true),
            )
        },
        Err(_) => false,
    }
}

/// Reading a login-start body that holds the wire bytes of a name and a UUID
/// gives them back, whatever follows them.
pub proof fn lemma_login_start_roundtrip(d: Seq<u8>, pos: int, name: Seq<char>, u: Muuid, rest: Seq<u8>)
    requires
        0 <= pos,
        encode_utf8(name).len() <= isize::MAX,
        unread(d, pos) == prefixed_string_bytes(name) + u.wire_bytes() + rest,
    ensures
        login_start_spec(d, pos) == (
            Ok::<(Seq<char>, Seq<u8>), ReadError>((name, u.bytes())),
            pos + prefixed_string_bytes(name).len() + 16,
        ),
{
    let sb = prefixed_string_bytes(name);
    let t1 = u.wire_bytes() + rest;
    assert(prefixed_string_bytes(name) + u.wire_bytes() + rest =~= sb + t1);
    lemma_string_roundtrip(d, pos, name, t1);
    lemma_unread_after(d, pos, sb, t1);
    crate::mpacket::lemma_uuid_roundtrip(d, pos + sb.len(), u, rest);
}

/// A login start records exactly the name and UUID whose wire bytes its body
/// holds, changes nothing else of the connection, and answers with the login
/// success for them.
pub proof fn lemma_login_start_recorded(
    c0: Client,
    c1: Client,
    p0: Packet,
    p1: Packet,
    r: Reply,
    name: Seq<char>,
    u: Muuid,
    rest: Seq<u8>,
)
    requires
        encode_utf8(name).len() <= isize::MAX,
        unread(p0.data@, p0.pos as int) == prefixed_string_bytes(name) + u.wire_bytes() + rest,
        login_start_post(c0, c1, p0, p1, r),
    ensures
        c1.username@ == name,
        c1.uuid.bytes() == u.bytes(),
        c1.status == c0.status,
        c1.client_info == c0.client_info,
        unread(p1.data@, p1.pos as int) == rest,
        r matches Reply::Send(b) && b@ == frame_bytes(0x02, login_success_bytes(u.bytes(), name, 0, true)),
{
    lemma_login_start_roundtrip(p0.data@, p0.pos as int, name, u, rest);
    u.lemma_len();
    lemma_unread_after(p0.data@, p0.pos as int, prefixed_string_bytes(name) + u.wire_bytes(), rest);
}

/// Login start: records the player's name and UUID and answers with a login success.
pub fn login_start(client: &mut Client, packet: &mut Packet) -> (r: Reply)
    requires
        old(packet).data@.len() <= isize::MAX,
        login_start_spec(old(packet).data@, old(packet).pos as int).0 is Ok,
    ensures
        login_start_post(*old(client), *final(client), *old(packet), *final(packet), r),
{
    proof {
        lemma_read_string_len(packet.data@, packet.pos as int);
    }
    match parse_login_start(packet) {
        Ok((username, uuid)) => {
            client.username = username;
            client.uuid = uuid;
        },
        Err(_) => {},
    }
    login_success(client, packet)
}

/// A string read from a body has no more UTF-8 bytes than the body.
pub proof fn lemma_read_string_len(d: Seq<u8>, pos: int)
    requires
        0 <= pos,
    ensures
        read_string_spec(d, pos).0 matches Ok(s) ==> encode_utf8(s).len() <= d.len(),
{
    let (size, p) = read_varint_spec(d, pos);
    match size {
        Ok(n) => if n >= 0 {
            let (b, _q) = read_exact_spec(d, p, (n as usize) as int);
            assert(crate::mpacket::unread(d, p).len() <= d.len());
            match b {
                Some(x) => if vstd::utf8::valid_utf8(x) {
                    vstd::utf8::decode_utf8_encode_utf8(x);
                    assert(x.len() <= d.len());
                },
                None => {},
            }
        },
        Err(_) => {},
    }
}
// ---------------------------------------------------------------- configuration

/// The fields of a client-information packet.
pub struct ClientInfoFields {
    pub locale: Seq<char>,
    pub view_distance: int,
    pub chat_mode: i64,
    pub chat_color: bool,
    pub displayed_skin_parts: int,
    pub main_hand: i64,
    pub text_filtering: bool,
    pub server_listings: bool,
}

/// Reading a boolean: one byte, anything but zero is `true`.
pub open spec fn read_bool_spec(d: Seq<u8>, pos: int) -> (Result<bool, ReadError>, int) {
    let (v, p) = read_be_spec(d, pos, 1);
    match v {
        Ok(x) => (Ok(x != 0), p),
        Err(e) => (Err(e), p),
    }
}

/// The fields of a client-information packet, in order: locale (string), view
/// distance (byte), chat mode (varint), chat colours (boolean), displayed skin
/// parts (byte), main hand (varint), text filtering and server listings (booleans).
pub open spec fn client_info_spec(d: Seq<u8>, pos: int) -> (Result<ClientInfoFields, ReadError>, int) {
    let (locale, p1) = read_string_spec(d, pos);
    match locale {
        Err(e) => (Err(e), p1),
        Ok(locale) => {
            let (vd, p2) = read_be_spec(d, p1, 1);
            match vd {
                Err(e) => (Err(e), p2),
                Ok(vd) => {
                    let (cm, p3) = read_varint_spec(d, p2);
                    match cm {
                        Err(e) => (Err(e), p3),
                        Ok(cm) => {
                            let (cc, p4) = read_bool_spec(d, p3);
                            match cc {
                                Err(e) => (Err(e), p4),
                                Ok(cc) => {
                                    let (sp, p5) = read_be_spec(d, p4, 1);
                                    match sp {
                                        Err(e) => (Err(e), p5),
                                        Ok(sp) => {
                                            let (mh, p6) = read_varint_spec(d, p5);
                                            match mh {
                                                Err(e) => (Err(e), p6),
                                                Ok(mh) => {
                                                    let (tf, p7) = read_bool_spec(d, p6);
                                                    match tf {
                                                        Err(e) => (Err(e), p7),
                                                        Ok(tf) => {
                                                            let (sl, p8) = read_bool_spec(d, p7);
                                                            match sl {
                                                                Err(e) => (Err(e), p8),
                                                                Ok(sl) => (
                                                                    Ok(
                                                                        ClientInfoFields {
                                                                            locale,
                                                                            view_distance: vd,
                                                                            chat_mode: cm,
                                                                            chat_color: cc,
                                                                            displayed_skin_parts: sp,
                                                                            main_hand: mh,
                                                                            text_filtering: tf,
                                                                            server_listings: sl,
                                                                        },
                                                                    ),
                                                                    p8,
                                                                ),
                                                            }
                                                        },
                                                    }
                                                },
                                            }
                                        },
                                    }
                                },
                            }
                        },
                    }
                },
            }
        },
    }
}

/// `info` holds the fields `f`.
pub open spec fn holds_fields(info: ClientInfo, f: ClientInfoFields) -> bool {
    &&& info.locale@ == f.locale
    &&& info.view_distance == f.view_distance
    &&& info.chat_mode == VarInt(f.chat_mode)
    &&& info.chat_color == f.chat_color
    &&& info.displayed_skin_parts == f.displayed_skin_parts
    &&& info.main_hand == VarInt(f.main_hand)
    &&& info.text_filtering == f.text_filtering
    &&& info.server_listings == f.server_listings
}


/// Reads the fields of a client-information packet.
pub fn parse_client_info(packet: &mut Packet) -> (r: Result<ClientInfo, ReadError>)
    ensures
        ({
            let (v, q) = client_info_spec(old(packet).data@, old(packet).pos as int);
            &&& moved_to(*old(packet), *final(packet), q)
            &&& match v {
                Ok(f) => r matches Ok(info) && holds_fields(info, f),
                Err(e) => r matches Err(g) && g == e,
            }
        }),
{
    let locale = match packet.read_string() {
        Ok(x) => x,
        Err(e) => {
            return Err(e);
        },
    };
    let view_distance = match packet.read_u8() {
        Ok(x) => x,
        Err(e) => {
            return Err(e);
        },
    };
    let chat_mode = match packet.read_varint() {
        Ok(x) => x,
        Err(e) => {
            return Err(e);
        },
    };
    let chat_color = match packet.read_bool() {
        Ok(x) => x,
        Err(e) => {
            return Err(e);
        },
    };
    let displayed_skin_parts = match packet.read_u8() {
        Ok(x) => x,
        Err(e) => {
            return Err(e);
        },
    };
    let main_hand = match packet.read_varint() {
        Ok(x) => x,
        Err(e) => {
            return Err(e);
        },
    };
    let text_filtering = match packet.read_bool() {
        Ok(x) => x,
        Err(e) => {
            return Err(e);
        },
    };
    let server_listings = match packet.read_bool() {
        Ok(x) => x,
        Err(e) => {
            return Err(e);
        },
    };
    Ok(
        ClientInfo {
            locale,
            view_distance,
            chat_mode: VarInt(chat_mode),
            chat_color,
            displayed_skin_parts,
            main_hand: VarInt(main_hand),
            text_filtering,
            server_listings,
        },
    )
}

pub open spec fn client_info_post(c0: Client, c1: Client, p0: Packet, p1: Packet, r: Reply) -> bool {
    let (v, q) = client_info_spec(p0.data@, p0.pos as int);
    &&& moved_to(p0, p1, q)
    &&& match v {
        Ok(f) => {
            &&& c1 == Client { client_info: c1.client_info, ..c0 }
            &&& holds_fields(c1.client_info, f)
            &&& r matches Reply::Send(b) && b@ == frame_bytes_without_data(0x03)
        },
        Err(_) => false,
    }
}

/// The wire bytes of a client's settings, in the order the protocol sends
/// them: locale, view distance, chat mode, chat colours, displayed skin parts,
/// main hand, text filtering, server listings (booleans as one byte each).
pub open spec fn client_info_bytes(
    locale: Seq<char>,
    view_distance: u8,
    chat_mode: i64,
    chat_color: u8,
    skin_parts: u8,
    main_hand: i64,
    text_filtering: u8,
    server_listings: u8,
) -> Seq<u8> {
    prefixed_string_bytes(locale) + seq![view_distance] + sleb128(chat_mode as int) + seq![
        chat_color,
        skin_parts,
    ] + sleb128(main_hand as int) + seq![text_filtering, server_listings]
}

/// Reading a client-information body gives back, field by field, the settings
/// whose wire bytes it holds (a boolean is true when its byte is not zero),
/// whatever follows them, and the packet can be handled.
proof fn lemma_client_info_reads(
    d: Seq<u8>,
    pos: int,
    locale: Seq<char>,
    vd: u8,
    cm: i64,
    cc: u8,
    sp: u8,
    mh: i64,
    tf: u8,
    sl: u8,
    rest: Seq<u8>,
)
    requires
        0 <= pos,
        encode_utf8(locale).len() <= isize::MAX,
        unread(d, pos) == client_info_bytes(locale, vd, cm, cc, sp, mh, tf, sl) + rest,
    ensures
        ({
            let p1 = pos + prefixed_string_bytes(locale).len();
            let p3 = p1 + 1 + sleb128(cm as int).len();
            let p6 = p3 + 2 + sleb128(mh as int).len();
            &&& read_string_spec(d, pos) == (Ok::<Seq<char>, ReadError>(locale), p1)
            &&& read_be_spec(d, p1, 1) == (Ok::<int, ReadError>(vd as int), p1 + 1)
            &&& read_varint_spec(d, p1 + 1) == (Ok::<i64, ReadError>(cm), p3)
            &&& read_bool_spec(d, p3) == (Ok::<bool, ReadError>(cc != 0), p3 + 1)
            &&& read_be_spec(d, p3 + 1, 1) == (Ok::<int, ReadError>(sp as int), p3 + 2)
            &&& read_varint_spec(d, p3 + 2) == (Ok::<i64, ReadError>(mh), p6)
            &&& read_bool_spec(d, p6) == (Ok::<bool, ReadError>(tf != 0), p6 + 1)
            &&& read_bool_spec(d, p6 + 1) == (Ok::<bool, ReadError>(sl != 0), p6 + 2)
            &&& p6 + 2 == pos + client_info_bytes(locale, vd, cm, cc, sp, mh, tf, sl).len()
        }),
{
    let sb = prefixed_string_bytes(locale);
    let all = client_info_bytes(locale, vd, cm, cc, sp, mh, tf, sl);
    let cmb = sleb128(cm as int);
    let mhb = sleb128(mh as int);
    let t7 = seq![sl] + rest;
    let t6 = seq![tf] + t7;
    let t5 = mhb + t6;
    let t4 = seq![sp] + t5;
    let t3 = seq![cc] + t4;
    let t2 = cmb + t3;
    let t1 = seq![vd] + t2;
    assert(all + rest =~= sb + t1);
    lemma_string_roundtrip(d, pos, locale, t1);
    lemma_unread_after(d, pos, sb, t1);
    let p1 = pos + sb.len();
    lemma_byte_read(d, p1, vd, t2);
    let p2 = p1 + 1;
    lemma_varint_read_roundtrip(d, p2, cm, t3);
    lemma_unread_after(d, p2, cmb, t3);
    let p3 = p2 + cmb.len();
    lemma_byte_read(d, p3, cc, t4);
    lemma_byte_read(d, p3 + 1, sp, t5);
    let p5 = p3 + 2;
    lemma_varint_read_roundtrip(d, p5, mh, t6);
    lemma_unread_after(d, p5, mhb, t6);
    let p6 = p5 + mhb.len();
    lemma_byte_read(d, p6, tf, t7);
    lemma_byte_read(d, p6 + 1, sl, rest);
    assert(all.len() == sb.len() + cmb.len() + mhb.len() + 5);
}

pub proof fn lemma_client_info_roundtrip(
    d: Seq<u8>,
    pos: int,
    locale: Seq<char>,
    vd: u8,
    cm: i64,
    cc: u8,
    sp: u8,
    mh: i64,
    tf: u8,
    sl: u8,
    rest: Seq<u8>,
)
    requires
        0 <= pos,
        encode_utf8(locale).len() <= isize::MAX,
        unread(d, pos) == client_info_bytes(locale, vd, cm, cc, sp, mh, tf, sl) + rest,
    ensures
        client_info_spec(d, pos) == (
            Ok::<ClientInfoFields, ReadError>(
                ClientInfoFields {
                    locale,
                    view_distance: vd as int,
                    chat_mode: cm,
                    chat_color: cc != 0,
                    displayed_skin_parts: sp as int,
                    main_hand: mh,
                    text_filtering: tf != 0,
                    server_listings: sl != 0,
                },
            ),
            pos + client_info_bytes(locale, vd, cm, cc, sp, mh, tf, sl).len(),
        ),
        handler_fault(Handler::ClientInfo, d, pos) is None,
{
    lemma_client_info_reads(d, pos, locale, vd, cm, cc, sp, mh, tf, sl, rest);
}

/// Handling a client-information packet records exactly the settings whose
/// wire bytes its body holds, each in its own field, changes nothing else of
/// the connection, and answers that configuration is finished.
pub proof fn lemma_client_info_recorded(
    c0: Client,
    c1: Client,
    p0: Packet,
    p1: Packet,
    r: Reply,
    locale: Seq<char>,
    vd: u8,
    cm: i64,
    cc: u8,
    sp: u8,
    mh: i64,
    tf: u8,
    sl: u8,
    rest: Seq<u8>,
)
    requires
        encode_utf8(locale).len() <= isize::MAX,
        unread(p0.data@, p0.pos as int) == client_info_bytes(locale, vd, cm, cc, sp, mh, tf, sl)
            + rest,
        client_info_post(c0, c1, p0, p1, r),
    ensures
        c1.client_info.locale@ == locale,
        c1.client_info.view_distance == vd,
        c1.client_info.chat_mode == VarInt(cm),
        c1.client_info.chat_color == (cc != 0),
        c1.client_info.displayed_skin_parts == sp,
        c1.client_info.main_hand == VarInt(mh),
        c1.client_info.text_filtering == (tf != 0),
        c1.client_info.server_listings == (sl != 0),
        c1.status == c0.status,
        unread(p1.data@, p1.pos as int) == rest,
        r matches Reply::Send(b) && b@ == frame_bytes_without_data(0x03),
{
    lemma_client_info_roundtrip(p0.data@, p0.pos as int, locale, vd, cm, cc, sp, mh, tf, sl, rest);
    crate::mpacket::lemma_unread_after(
        p0.data@,
        p0.pos as int,
        client_info_bytes(locale, vd, cm, cc, sp, mh, tf, sl),
        rest,
    );
}

/// Client information: records the client's settings and answers that
/// configuration is finished.
pub fn client_info(client: &mut Client, packet: &mut Packet) -> (r: Reply)
    requires
        client_info_spec(old(packet).data@, old(packet).pos as int).0 is Ok,
    ensures
        client_info_post(*old(client), *final(client), *old(packet), *final(packet), r),
{
    match parse_client_info(packet) {
        Ok(info) => {
            client.client_info = info;
        },
        Err(_) => {},
    }
    Reply::Send(Packet::send_packet_without_data(0x03))
}

/// The fields of a plugin message: channel id and data, both strings.
pub open spec fn plugin_message_spec(d: Seq<u8>, pos: int) -> (
    Result<(Seq<char>, Seq<char>), ReadError>,
    int,
) {
    let (i, q1) = read_string_spec(d, pos);
    match i {
        Err(e) => (Err(e), q1),
        Ok(id) => {
            let (v, q2) = read_string_spec(d, q1);
            match v {
                Err(e) => (Err(e), q2),
                Ok(data) => (Ok((id, data)), q2),
            }
        },
    }
}

/// Reads the fields of a plugin message.
pub fn parse_plugin_message(packet: &mut Packet) -> (r: Result<(String, String), ReadError>)
    ensures
        ({
            let (v, q) = plugin_message_spec(old(packet).data@, old(packet).pos as int);
            &&& moved_to(*old(packet), *final(packet), q)
            &&& match v {
                Ok((id, data)) => r matches Ok((i, d)) && i@ == id && d@ == data,
                Err(e) => r matches Err(f) && f == e,
            }
        }),
{
    let id = match packet.read_string() {
        Ok(x) => x,
        Err(e) => {
            return Err(e);
        },
    };
    let data = match packet.read_string() {
        Ok(x) => x,
        Err(e) => {
            return Err(e);
        },
    };
    Ok((id, data))
}

pub open spec fn serv_plugin_message_post(c0: Client, c1: Client, p0: Packet, p1: Packet, r: Reply) -> bool {
    let (v, q) = plugin_message_spec(p0.data@, p0.pos as int);
    &&& moved_to(p0, p1, q)
    &&& r is Nothing
    &&& match v {
        Ok((id, data)) => {
            &&& c1 == Client { plugin_message: c1.plugin_message, ..c0 }
            &&& c1.plugin_message@ == c0.plugin_message@.insert(id, c1.plugin_message@[id])
            &&& c1.plugin_message@[id]@ == data
        },
        Err(_) => false,
    }
}

/// Reading a plugin-message body that holds the wire bytes of a channel id
/// and a text gives them back, in that order, whatever follows them.
pub proof fn lemma_plugin_message_roundtrip(
    d: Seq<u8>,
    pos: int,
    id: Seq<char>,
    data: Seq<char>,
    rest: Seq<u8>,
)
    requires
        0 <= pos,
        encode_utf8(id).len() <= isize::MAX,
        encode_utf8(data).len() <= isize::MAX,
        unread(d, pos) == prefixed_string_bytes(id) + prefixed_string_bytes(data) + rest,
    ensures
        plugin_message_spec(d, pos) == (
            Ok::<(Seq<char>, Seq<char>), ReadError>((id, data)),
            pos + prefixed_string_bytes(id).len() + prefixed_string_bytes(data).len(),
        ),
{
    let ib = prefixed_string_bytes(id);
    let t1 = prefixed_string_bytes(data) + rest;
    assert(prefixed_string_bytes(id) + prefixed_string_bytes(data) + rest =~= ib + t1);
    lemma_string_roundtrip(d, pos, id, t1);
    lemma_unread_after(d, pos, ib, t1);
    lemma_string_roundtrip(d, pos + ib.len(), data, rest);
}

/// A plugin message stores the text under its channel id, replacing what that
/// channel held, and leaves every other channel and the rest of the connection
/// as it was.
pub proof fn lemma_plugin_message_recorded(
    c0: Client,
    c1: Client,
    p0: Packet,
    p1: Packet,
    r: Reply,
    id: Seq<char>,
    data: Seq<char>,
    rest: Seq<u8>,
    other: Seq<char>,
)
    requires
        encode_utf8(id).len() <= isize::MAX,
        encode_utf8(data).len() <= isize::MAX,
        unread(p0.data@, p0.pos as int) == prefixed_string_bytes(id) + prefixed_string_bytes(data)
            + rest,
        serv_plugin_message_post(c0, c1, p0, p1, r),
    ensures
        c1.plugin_message@.contains_key(id),
        c1.plugin_message@[id]@ == data,
        other != id ==> c1.plugin_message@.contains_key(other) == c0.plugin_message@.contains_key(other),
        other != id && c0.plugin_message@.contains_key(other) ==> c1.plugin_message@[other]
            == c0.plugin_message@[other],
        c1.status == c0.status,
        r is Nothing,
{
    lemma_plugin_message_roundtrip(p0.data@, p0.pos as int, id, data, rest);
}

/// Plugin message: records the message under its channel id, replacing an
/// earlier one on the same channel.
pub fn serv_plugin_message(client: &mut Client, packet: &mut Packet) -> (r: Reply)
    requires
        plugin_message_spec(old(packet).data@, old(packet).pos as int).0 is Ok,
    ensures
        serv_plugin_message_post(*old(client), *final(client), *old(packet), *final(packet), r),
{
    match parse_plugin_message(packet) {
        Ok((id, data)) => {
            client.plugin_message.insert(id, data);
        },
        Err(_) => {},
    }
    Reply::Nothing
}

// ---------------------------------------------------------------- dispatch

/// Why handler `h` cannot handle a body whose unread part starts at `pos`:
/// a field it reads cannot be read, the handshake asks for an unknown next
/// state, or a teleport confirmation carries another id than the one sent.
pub open spec fn handler_fault(h: Handler, d: Seq<u8>, pos: int) -> Option<HandlerError> {
    match h {
        Handler::SetProtocol => match handshake_spec(d, pos).0 {
            Err(e) => Some(e),
            Ok(_) => None,
        },
        Handler::PingRequest => match read_be_spec(d, pos, 8).0 {
            Err(e) => Some(HandlerError::Read(e)),
            Ok(_) => None,
        },
        Handler::LoginStart => match login_start_spec(d, pos).0 {
            Err(e) => Some(HandlerError::Read(e)),
            Ok(_) => None,
        },
        Handler::CookieRequest => match read_string_spec(d, pos).0 {
            Err(e) => Some(HandlerError::Read(e)),
            Ok(_) => None,
        },
        Handler::ClientInfo => match client_info_spec(d, pos).0 {
            Err(e) => Some(HandlerError::Read(e)),
            Ok(_) => None,
        },
        Handler::ServPluginMessage => match plugin_message_spec(d, pos).0 {
            Err(e) => Some(HandlerError::Read(e)),
            Ok(_) => None,
        },
        Handler::ConfirmTeleportation => match read_varint_spec(d, pos).0 {
            Err(e) => Some(HandlerError::Read(e)),
            Ok(x) => if x == TELEPORT_ID {
                None
            } else {
                Some(HandlerError::UnexpectedTeleportId(x))
            },
        },
        Handler::StatusRequest => None,
        Handler::LoginAck => None,
        Handler::FinishConfigAck => None,
    }
}

/// Why packet `p` cannot be handled in state `status`, if it cannot.
pub open spec fn process_fault(status: StateClient, p: Packet) -> Option<HandlerError> {
    match handler_table(status, p.packet_id.0) {
        None => Some(HandlerError::NoHandler),
        Some(h) => handler_fault(h, p.data@, p.pos as int),
    }
}

/// What handling packet `p0` does in connection state `c0`, given the handler
/// that the table assigns.
pub open spec fn handled(h: Handler, c0: Client, c1: Client, p0: Packet, p1: Packet, r: Reply) -> bool {
    match h {
        Handler::SetProtocol => set_protocol_post(c0, c1, p0, p1, r),
        Handler::StatusRequest => status_request_post(c0, c1, p0, p1, r),
        Handler::PingRequest => ping_request_post(c0, c1, p0, p1, r),
        Handler::LoginStart => login_start_post(c0, c1, p0, p1, r),
        Handler::LoginAck => login_ack_post(c0, c1, p0, p1, r),
        Handler::CookieRequest => cookie_request_post(c0, c1, p0, p1, r),
        Handler::ClientInfo => client_info_post(c0, c1, p0, p1, r),
        Handler::ServPluginMessage => serv_plugin_message_post(c0, c1, p0, p1, r),
        Handler::FinishConfigAck => finish_config_ack_post(c0, c1, p0, p1, r),
        Handler::ConfirmTeleportation => confirm_teleportation_post(c0, c1, p0, p1, Ok(r)),
    }
}

/// A copy of a packet, body and read position included.
fn copy_packet(packet: &Packet) -> (r: Packet)
    ensures
        r.length == packet.length,
        r.packet_id == packet.packet_id,
        r.data@ == packet.data@,
        r.pos == packet.pos,
{
    Packet {
        length: packet.length,
        packet_id: packet.packet_id,
        data: vstd::slice::slice_to_vec(packet.data.as_slice()),
        pos: packet.pos,
    }
}

impl Client {
    /// Why `packet` cannot be handled in the current state, or `None` when it
    /// can: no handler, a field that cannot be read, an unknown next state, or
    /// an unexpected teleport id. Nothing is read from the packet itself.
    pub fn packet_fault(&self, packet: &Packet) -> (r: Option<HandlerError>)
        ensures
            r == process_fault(self.status, *packet),
            (r == Some(HandlerError::NoHandler)) <==> handler_table(
                self.status,
                packet.packet_id.0,
            ) is None,
            handler_table(self.status, packet.packet_id.0) matches Some(h) && (h
                == Handler::StatusRequest || h == Handler::LoginAck || h
                == Handler::FinishConfigAck) ==> r is None,
    {
        proof {
            lemma_fault_no_handler(self.status, *packet);
        }
        let mut p = copy_packet(packet);
        match handler_for(self.status, packet.packet_id.get_val()) {
            None => Some(HandlerError::NoHandler),
            Some(Handler::SetProtocol) => match parse_handshake(&mut p) {
                Ok(_) => None,
                Err(e) => Some(e),
            },
            Some(Handler::PingRequest) => match p.read_u64() {
                Ok(_) => None,
                Err(e) => Some(HandlerError::Read(e)),
            },
            Some(Handler::LoginStart) => match parse_login_start(&mut p) {
                Ok(_) => None,
                Err(e) => Some(HandlerError::Read(e)),
            },
            Some(Handler::CookieRequest) => match p.read_string() {
                Ok(_) => None,
                Err(e) => Some(HandlerError::Read(e)),
            },
            Some(Handler::ClientInfo) => match parse_client_info(&mut p) {
                Ok(_) => None,
                Err(e) => Some(HandlerError::Read(e)),
            },
            Some(Handler::ServPluginMessage) => match parse_plugin_message(&mut p) {
                Ok(_) => None,
                Err(e) => Some(HandlerError::Read(e)),
            },
            Some(Handler::ConfirmTeleportation) => match p.read_varint() {
                Ok(x) => if x == TELEPORT_ID {
                    None
                } else {
                    Some(HandlerError::UnexpectedTeleportId(x))
                },
                Err(e) => Some(HandlerError::Read(e)),
            },
            Some(Handler::StatusRequest) => None,
            Some(Handler::LoginAck) => None,
            Some(Handler::FinishConfigAck) => None,
        }
    }

    /// Handles a packet with the handler that the connection state and the
    /// packet id select. Only for packets that can be handled (see `packet_fault`).
    pub fn process_packet(&mut self, packet: &mut Packet) -> (r: Reply)
        requires
            process_fault(old(self).status, *old(packet)) is None,
            old(packet).data@.len() <= isize::MAX,
        ensures
            match handler_table(old(self).status, old(packet).packet_id.0) {
                Some(h) => handled(h, *old(self), *final(self), *old(packet), *final(packet), r),
                None => false,
            },
    {
        match handler_for(self.status, packet.packet_id.get_val()) {
            None => Reply::Nothing,
            Some(Handler::SetProtocol) => set_protocol(self, packet),
            Some(Handler::StatusRequest) => status_request(self, packet),
            Some(Handler::PingRequest) => ping_request(self, packet),
            Some(Handler::LoginStart) => login_start(self, packet),
            Some(Handler::LoginAck) => login_ack(self, packet),
            Some(Handler::CookieRequest) => cookie_request(self, packet),
            Some(Handler::ClientInfo) => client_info(self, packet),
            Some(Handler::ServPluginMessage) => serv_plugin_message(self, packet),
            Some(Handler::FinishConfigAck) => finish_config_ack(self, packet),
            Some(Handler::ConfirmTeleportation) => match confirm_teleportation(self, packet) {
                Ok(r) => r,
                Err(_) => Reply::Nothing,
            },
        }
    }
}

/// A packet is refused for want of a handler exactly when the table of its
/// connection state has no handler for its id; a packet whose handler reads
/// nothing from the body (status request, login acknowledgement, finished
/// configuration) is always handled, whatever its body holds.
pub proof fn lemma_fault_no_handler(status: StateClient, p: Packet)
    ensures
        (process_fault(status, p) == Some(HandlerError::NoHandler)) <==> handler_table(
            status,
            p.packet_id.0,
        ) is None,
        handler_table(status, p.packet_id.0) matches Some(h) && (h == Handler::StatusRequest || h
            == Handler::LoginAck || h == Handler::FinishConfigAck) ==> process_fault(status, p) is None,
{
}

/// A status request (packet 0x00 in state Status) is always handled: it is
/// answered with the server status and never refused.
pub proof fn lemma_status_request_handled(c0: Client, c1: Client, p0: Packet, p1: Packet, r: Reply)
    requires
        c0.status == StateClient::Status,
        p0.packet_id.0 == 0,
    ensures
        process_fault(c0.status, p0) is None,
        handler_table(c0.status, p0.packet_id.0) == Some(Handler::StatusRequest),
        handled(Handler::StatusRequest, c0, c1, p0, p1, r) ==> r is StatusRequested && c1 == c0,
{
}

/// The state changes the protocol allows: a handshake moves to status, login
/// or transfer; an acknowledged login moves to configuration; a finished
/// configuration moves to play; anything else keeps the state.
pub open spec fn allowed_transition(s0: StateClient, s1: StateClient) -> bool {
    ||| s1 == s0
    ||| s0 == StateClient::Handshaking && (s1 == StateClient::Status || s1 == StateClient::Login
        || s1 == StateClient::Transfer)
    ||| s0 == StateClient::Login && s1 == StateClient::Configuration
    ||| s0 == StateClient::Configuration && s1 == StateClient::Play
}


/// Every packet that can be handled moves the connection along an allowed
/// transition only, and handling never touches the bytes received but not
/// yet taken as packets.
pub proof fn lemma_process_packet_transitions(c0: Client, c1: Client, p0: Packet, p1: Packet, r: Reply)
    requires
        process_fault(c0.status, p0) is None,
        match handler_table(c0.status, p0.packet_id.0) {
            Some(h) => handled(h, c0, c1, p0, p1, r),
            None => false,
        },
    ensures
        allowed_transition(c0.status, c1.status),
        c1.bytes == c0.bytes,
{
}

} // verus!
