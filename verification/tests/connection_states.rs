use mserver::client::{handler_for, Client, Handler, HandlerError, Reply, StateClient};
use mserver::handlers::{
    client_info, confirm_teleportation, cookie_request, finish_config_ack, login_ack,
    login_start, login_success, ping_request, ping_response, serv_plugin_message, set_protocol,
    status_request, status_response,
};
use mserver::mpacket::{Packet, ReadError};
use mserver::mserialize::MSerialize;
use mserver::mstring::MString;
use mserver::muuid::Muuid;
use mserver::varint::VarInt;

fn packet(id: i64, body: Vec<u8>) -> Packet {
    Packet::from(VarInt(body.len() as i64 + 1), VarInt(id), body)
}

fn handshake_body(next: i64) -> Vec<u8> {
    let mut b = VarInt(766).to_bytes_representation();
    b.extend("localhost".to_string().to_bytes_representation());
    b.extend(25565u16.to_bytes_representation());
    b.extend(VarInt(next).to_bytes_representation());
    b
}

#[test]
fn new_client_starts_in_handshaking() {
    let c = Client::new();
    assert_eq!(c.status, StateClient::Handshaking);
    assert_eq!(c.prot_version.get_val(), 0);
    assert_eq!(c.server_port, 0);
    assert!(c.username.is_empty());
    assert!(c.bytes.is_empty());
    assert_eq!(c.client_info.view_distance, 0);
}

#[test]
fn handler_table_matches_states() {
    assert_eq!(handler_for(StateClient::Handshaking, 0), Some(Handler::SetProtocol));
    assert_eq!(handler_for(StateClient::Handshaking, 1), None);
    assert_eq!(handler_for(StateClient::Status, 0), Some(Handler::StatusRequest));
    assert_eq!(handler_for(StateClient::Status, 1), Some(Handler::PingRequest));
    assert_eq!(handler_for(StateClient::Login, 0), Some(Handler::LoginStart));
    assert_eq!(handler_for(StateClient::Login, 3), Some(Handler::LoginAck));
    assert_eq!(handler_for(StateClient::Login, 5), Some(Handler::CookieRequest));
    assert_eq!(handler_for(StateClient::Login, 1), None);
    assert_eq!(handler_for(StateClient::Configuration, 0), Some(Handler::ClientInfo));
    assert_eq!(handler_for(StateClient::Configuration, 2), Some(Handler::ServPluginMessage));
    assert_eq!(handler_for(StateClient::Configuration, 3), Some(Handler::FinishConfigAck));
    assert_eq!(handler_for(StateClient::Play, 0), None);
    assert_eq!(handler_for(StateClient::Target, 0), Some(Handler::ConfirmTeleportation));
    assert_eq!(handler_for(StateClient::Transfer, 0), None);
}

#[test]
fn handshake_moves_to_requested_state() {
    for (next, state) in [(1, StateClient::Status), (2, StateClient::Login), (3, StateClient::Transfer)] {
        let mut c = Client::new();
        let mut p = packet(0, handshake_body(next));
        assert_eq!(c.packet_fault(&p), None);
        assert!(matches!(set_protocol(&mut c, &mut p), Reply::Nothing));
        assert_eq!(c.status, state);
        assert_eq!(c.prot_version.get_val(), 766);
        assert_eq!(c.server_address, "localhost");
        assert_eq!(c.server_port, 25565);
    }
}

#[test]
fn handshake_faults_are_reported() {
    let c = Client::new();
    let p = packet(0, handshake_body(4));
    assert_eq!(c.packet_fault(&p), Some(HandlerError::UnknownNextState(4)));
    assert_eq!(p.pos, 0);
    let p = packet(0, vec![0x80]);
    assert_eq!(c.packet_fault(&p), Some(HandlerError::Read(ReadError::UnexpectedEof)));
}

#[test]
fn status_and_ping() {
    let mut c = Client::new();
    c.status = StateClient::Status;
    let mut p = packet(0, vec![]);
    assert!(matches!(status_request(&mut c, &mut p), Reply::StatusRequested));
    assert!(matches!(c.process_packet(&mut p), Reply::StatusRequested));
    let json = MString::from_str("{\"a\":1}");
    let r = status_response(&json);
    assert_eq!(r, vec![9, 0, 7, b'{', b'"', b'a', b'"', b':', b'1', b'}']);
    let mut p = packet(1, vec![0, 0, 0, 0, 0, 0, 1, 2]);
    match ping_request(&mut c, &mut p) {
        Reply::Send(b) => assert_eq!(b, vec![9, 1, 0, 0, 0, 0, 0, 0, 1, 2]),
        other => panic!("unexpected {:?}", other),
    }
    let mut p = packet(1, vec![8, 7, 6, 5, 4, 3, 2, 1]);
    match ping_response(&mut p) {
        Reply::Send(b) => assert_eq!(b, vec![9, 1, 8, 7, 6, 5, 4, 3, 2, 1]),
        other => panic!("unexpected {:?}", other),
    }
    let p = packet(1, vec![1, 2, 3]);
    assert_eq!(c.packet_fault(&p), Some(HandlerError::Read(ReadError::UnexpectedEof)));
}

#[test]
fn login_records_player_and_answers_success() {
    let mut c = Client::new();
    c.status = StateClient::Login;
    let mut body = "Steve".to_string().to_bytes_representation();
    let uuid: Vec<u8> = (1u8..=16).collect();
    body.extend(uuid.clone());
    let mut p = packet(0, body);
    assert_eq!(c.packet_fault(&p), None);
    let reply = login_start(&mut c, &mut p);
    assert_eq!(c.username, "Steve");
    assert_eq!(c.uuid.into_bytes().to_vec(), uuid);
    // body: uuid, name (bincode length + bytes), no properties, strict error handling
    let mut expected_body = uuid.clone();
    expected_body.push(5);
    expected_body.extend(b"Steve");
    expected_body.extend([0, 1]);
    let mut expected = vec![(expected_body.len() + 1) as u8, 0x02];
    expected.extend(expected_body);
    match reply {
        Reply::Send(b) => assert_eq!(b, expected),
        other => panic!("unexpected {:?}", other),
    }
    match login_success(&mut c, &mut p) {
        Reply::Send(b) => assert_eq!(b, expected),
        other => panic!("unexpected {:?}", other),
    }
    assert!(matches!(login_ack(&mut c, &mut p), Reply::Nothing));
    assert_eq!(c.status, StateClient::Configuration);
}

#[test]
fn login_start_without_uuid_fails() {
    let mut c = Client::new();
    c.status = StateClient::Login;
    let p = packet(0, "Alex".to_string().to_bytes_representation());
    assert_eq!(c.packet_fault(&p), Some(HandlerError::Read(ReadError::UnexpectedEof)));
}

#[test]
fn cookie_request_reads_identifier() {
    let mut c = Client::new();
    let mut p = packet(5, "minecraft:id".to_string().to_bytes_representation());
    assert!(matches!(cookie_request(&mut c, &mut p), Reply::Nothing));
    assert_eq!(p.pos, 13);
    c.status = StateClient::Login;
    let p = packet(5, vec![3, b'a']);
    assert_eq!(c.packet_fault(&p), Some(HandlerError::Read(ReadError::UnexpectedEof)));
}

#[test]
fn configuration_records_settings_and_finishes() {
    let mut c = Client::new();
    c.status = StateClient::Configuration;
    let mut body = "en_us".to_string().to_bytes_representation();
    body.extend([12]);
    body.extend(VarInt(0).to_bytes_representation());
    body.extend([1, 0x7f]);
    body.extend(VarInt(1).to_bytes_representation());
    body.extend([0, 1]);
    let mut p = packet(0, body);
    match client_info(&mut c, &mut p) {
        Reply::Send(b) => assert_eq!(b, vec![1, 3]),
        other => panic!("unexpected {:?}", other),
    }
    assert_eq!(c.client_info.locale, "en_us");
    assert_eq!(c.client_info.view_distance, 12);
    assert_eq!(c.client_info.chat_mode.get_val(), 0);
    assert!(c.client_info.chat_color);
    assert_eq!(c.client_info.displayed_skin_parts, 0x7f);
    assert_eq!(c.client_info.main_hand.get_val(), 1);
    assert!(!c.client_info.text_filtering);
    assert!(c.client_info.server_listings);

    let mut body = "minecraft:brand".to_string().to_bytes_representation();
    body.extend("vanilla".to_string().to_bytes_representation());
    let mut p = packet(2, body);
    assert!(matches!(serv_plugin_message(&mut c, &mut p), Reply::Nothing));
    assert_eq!(c.plugin_message.get("minecraft:brand").map(|s| s.as_str()), Some("vanilla"));
    let mut body = "minecraft:brand".to_string().to_bytes_representation();
    body.extend("other".to_string().to_bytes_representation());
    let mut p = packet(2, body);
    assert!(matches!(serv_plugin_message(&mut c, &mut p), Reply::Nothing));
    assert_eq!(c.plugin_message.get("minecraft:brand").map(|s| s.as_str()), Some("other"));
    assert_eq!(c.plugin_message.len(), 1);

    let mut p = packet(3, vec![]);
    assert!(matches!(finish_config_ack(&mut c, &mut p), Reply::Nothing));
    assert_eq!(c.status, StateClient::Play);
}

#[test]
fn configuration_faults_are_reported() {
    let mut c = Client::new();
    c.status = StateClient::Configuration;
    let p = packet(0, "en".to_string().to_bytes_representation());
    assert_eq!(c.packet_fault(&p), Some(HandlerError::Read(ReadError::UnexpectedEof)));
    let p = packet(2, "channel".to_string().to_bytes_representation());
    assert_eq!(c.packet_fault(&p), Some(HandlerError::Read(ReadError::UnexpectedEof)));
}

#[test]
fn teleport_confirmation_checks_id() {
    let mut c = Client::new();
    let mut p = packet(0, VarInt(42).to_bytes_representation());
    assert!(matches!(confirm_teleportation(&mut c, &mut p), Ok(Reply::Nothing)));
    let mut p = packet(0, vec![0x80]);
    assert_eq!(confirm_teleportation(&mut c, &mut p).unwrap_err(), ReadError::UnexpectedEof);
    c.status = StateClient::Target;
    let p = packet(0, VarInt(7).to_bytes_representation());
    assert_eq!(c.packet_fault(&p), Some(HandlerError::UnexpectedTeleportId(7)));
    let p = packet(0, vec![]);
    assert_eq!(c.packet_fault(&p), Some(HandlerError::Read(ReadError::UnexpectedEof)));
    let p = packet(0, VarInt(42).to_bytes_representation());
    assert_eq!(c.packet_fault(&p), None);
}

#[test]
fn process_packet_dispatches_and_refuses_unknown() {
    let mut c = Client::new();
    let mut bytes = Packet::send_packet(0x00, &VarInt(0)); // some frame
    bytes.clear();
    // handshake frame built by hand: length, id 0, handshake body
    let body = handshake_body(2);
    bytes.push((body.len() + 1) as u8);
    bytes.push(0);
    bytes.extend(body);
    let mut p = Packet::new(&mut bytes).unwrap();
    assert_eq!(c.packet_fault(&p), None);
    assert!(matches!(c.process_packet(&mut p), Reply::Nothing));
    assert_eq!(c.status, StateClient::Login);
    let p = packet(0x07, vec![]);
    assert_eq!(c.packet_fault(&p), Some(HandlerError::NoHandler));
    let mut p = packet(0x03, vec![]);
    assert_eq!(c.packet_fault(&p), None);
    assert!(matches!(c.process_packet(&mut p), Reply::Nothing));
    assert_eq!(c.status, StateClient::Configuration);
    let mut c2 = Client::new();
    c2.status = StateClient::Play;
    let p = packet(0, vec![]);
    assert_eq!(c2.packet_fault(&p), Some(HandlerError::NoHandler));
    let _ = Muuid::nil();
}
