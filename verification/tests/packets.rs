use mserver::mpacket::{Packet, PacketError, ReadError};
use mserver::mserialize::MSerialize;
use mserver::mstring::MString;
use mserver::varint::VarInt;

fn body(bytes: &[u8]) -> Packet {
    Packet::from(VarInt(0), VarInt(0), bytes.to_vec())
}

#[test]
fn send_packet_frames_length_id_and_body() {
    let json = MString::from_str("{}");
    let bytes = Packet::send_packet(0x00, &json);
    assert_eq!(bytes, vec![4, 0, 2, b'{', b'}']);
    let ping = Packet::send_packet(0x01, &0x0102_0304_0506_0708u64);
    assert_eq!(ping, vec![9, 1, 1, 2, 3, 4, 5, 6, 7, 8]);
    assert_eq!(Packet::send_packet_without_data(0x03), vec![1, 3]);
}

#[test]
fn send_packet_length_counts_id_as_unsigned() {
    // 0x40 takes one byte as unsigned LEB128 but two as signed: the declared
    // length counts one byte for it while two are written.
    let bytes = Packet::send_packet(0x40, &true);
    assert_eq!(bytes, vec![2, 0xc0, 0x00, 1]);
}

#[test]
fn new_takes_a_whole_packet_and_leaves_the_rest() {
    let mut bytes = Packet::send_packet(0x01, &0x0a0bu16);
    bytes.extend_from_slice(&[7, 7]);
    assert!(!Packet::is_malformed(&bytes));
    let p = Packet::new(&mut bytes).unwrap();
    assert_eq!(p.length.get_val(), 3);
    assert_eq!(p.packet_id.get_val(), 1);
    assert_eq!(p.data, vec![0x0a, 0x0b]);
    assert_eq!(p.pos, 0);
    assert_eq!(bytes, vec![7, 7]);
}

#[test]
fn new_waits_for_more_bytes() {
    let mut bytes = vec![5, 0, 1];
    assert_eq!(Packet::new(&mut bytes).unwrap_err(), PacketError::NotEnoughByteForPacket);
    assert_eq!(bytes, vec![5, 0, 1]);
    let mut empty: Vec<u8> = vec![];
    assert_eq!(Packet::new(&mut empty).unwrap_err(), PacketError::NotEnoughByteForPacket);
    // a length that does not end yet
    let mut partial = vec![0x80];
    assert_eq!(Packet::new(&mut partial).unwrap_err(), PacketError::NotEnoughByteForPacket);
    // a negative length never becomes a packet
    let mut negative = vec![0x7f, 0, 0, 0, 0, 0, 0, 0, 0, 0, 0];
    assert_eq!(Packet::new(&mut negative).unwrap_err(), PacketError::NotEnoughByteForPacket);
}

#[test]
fn malformed_frames_are_recognised() {
    // length zero with no packet id after it
    assert!(Packet::is_malformed(&vec![0]));
    // a negative length in fewer bytes than its unsigned size
    assert!(Packet::is_malformed(&vec![0x7f]));
    // a body that would start after its end
    assert!(Packet::is_malformed(&vec![0, 0]));
    assert!(!Packet::is_malformed(&vec![1, 0]));
}

#[test]
fn empty_body_packet() {
    let mut bytes = Packet::send_packet_without_data(0x03);
    let p = Packet::new(&mut bytes).unwrap();
    assert_eq!(p.packet_id.get_val(), 3);
    assert!(p.data.is_empty());
    assert!(bytes.is_empty());
}

#[test]
fn fixed_size_reads() {
    let mut p = body(&[1, 0x02, 0x03, 0, 0, 0, 4, 0, 0, 0, 0, 0, 0, 0, 5, 0, 2]);
    assert_eq!(p.read_u8(), Ok(1));
    assert_eq!(p.read_u16(), Ok(0x0203));
    assert_eq!(p.read_u32(), Ok(4));
    assert_eq!(p.read_u64(), Ok(5));
    assert_eq!(p.read_bool(), Ok(false));
    assert_eq!(p.read_bool(), Ok(true));
    assert_eq!(p.read_u8(), Err(ReadError::UnexpectedEof));
    let mut q = body(&[1, 2, 3]);
    assert_eq!(q.read_u32(), Err(ReadError::UnexpectedEof));
    assert_eq!(q.pos, 3);
}

#[test]
fn read_string_and_uuid() {
    let mut data = "hello".to_string().to_bytes_representation();
    data.extend((0u8..16).collect::<Vec<u8>>());
    let mut p = body(&data);
    assert_eq!(p.read_string().unwrap(), "hello");
    let u = p.read_uuid().unwrap();
    assert_eq!(u.into_bytes(), [0, 1, 2, 3, 4, 5, 6, 7, 8, 9, 10, 11, 12, 13, 14, 15]);
    assert_eq!(p.read_uuid().unwrap_err(), ReadError::UnexpectedEof);
}

#[test]
fn read_string_errors() {
    let mut p = body(&[5, b'a']);
    assert_eq!(p.read_string(), Err(ReadError::UnexpectedEof));
    assert_eq!(p.pos, 2);
    let mut p = body(&[1, 0xff]);
    assert_eq!(p.read_string(), Err(ReadError::InvalidUtf8));
    let mut p = body(&[0x7f, b'a']);
    assert_eq!(p.read_string(), Err(ReadError::NegativeLength));
    assert_eq!(p.pos, 1);
}
