use mserver::mpacket::{Packet, ReadError};
use mserver::mserialize::MSerialize;
use mserver::varint::VarInt;

fn body(bytes: &[u8]) -> Packet {
    Packet::from(VarInt(0), VarInt(0), bytes.to_vec())
}

#[test]
fn varint_get_val_and_from() {
    let v: VarInt = VarInt::from(300i64);
    assert_eq!(v.get_val(), 300);
    assert_eq!(VarInt::default().get_val(), 0);
    assert_eq!(VarInt(-1).to_usize(), usize::MAX);
    assert_eq!(VarInt(7).to_usize(), 7);
}

#[test]
fn varint_signed_leb128_bytes() {
    assert_eq!(VarInt(0).to_bytes_representation(), vec![0x00]);
    assert_eq!(VarInt(1).to_bytes_representation(), vec![0x01]);
    assert_eq!(VarInt(63).to_bytes_representation(), vec![0x3f]);
    assert_eq!(VarInt(64).to_bytes_representation(), vec![0xc0, 0x00]);
    assert_eq!(VarInt(127).to_bytes_representation(), vec![0xff, 0x00]);
    assert_eq!(VarInt(128).to_bytes_representation(), vec![0x80, 0x01]);
    assert_eq!(VarInt(-1).to_bytes_representation(), vec![0x7f]);
    assert_eq!(VarInt(-64).to_bytes_representation(), vec![0x40]);
    assert_eq!(VarInt(-65).to_bytes_representation(), vec![0xbf, 0x7f]);
    assert_eq!(VarInt(-12345).to_bytes_representation(), vec![0xc7, 0x9f, 0x7f]);
    assert_eq!(
        VarInt(i64::MIN).to_bytes_representation(),
        vec![0x80, 0x80, 0x80, 0x80, 0x80, 0x80, 0x80, 0x80, 0x80, 0x7f]
    );
    assert_eq!(
        VarInt(i64::MAX).to_bytes_representation(),
        vec![0xff, 0xff, 0xff, 0xff, 0xff, 0xff, 0xff, 0xff, 0xff, 0x00]
    );
    assert_eq!(VarInt(64).size_bytes(), 2);
}

#[test]
fn varint_read_gives_back_write() {
    for v in [0i64, 1, -1, 63, 64, -64, -65, 127, 128, 300, -300, 1 << 40, -(1 << 40), i64::MIN, i64::MAX] {
        let mut bytes = VarInt(v).to_bytes_representation();
        let n = bytes.len();
        bytes.extend_from_slice(&[0xaa, 0xbb]);
        let mut p = body(&bytes);
        assert_eq!(p.read_varint(), Ok(v));
        assert_eq!(p.pos, n);
        assert_eq!(p.read_u8(), Ok(0xaa));
    }
}

#[test]
fn varint_read_errors() {
    // the stream ends inside the number: the cursor goes to the end
    let mut p = body(&[0x80, 0x80]);
    assert_eq!(p.read_varint(), Err(ReadError::UnexpectedEof));
    assert_eq!(p.pos, 2);
    // empty body
    let mut p = body(&[]);
    assert_eq!(p.read_varlong(), Err(ReadError::UnexpectedEof));
    // a tenth byte other than 0x00 or 0x7f overflows; the rest of the run is skipped
    let mut p = body(&[0x80, 0x80, 0x80, 0x80, 0x80, 0x80, 0x80, 0x80, 0x80, 0x81, 0x80, 0x05, 0x09]);
    assert_eq!(p.read_varint(), Err(ReadError::Overflow));
    assert_eq!(p.pos, 12);
    assert_eq!(p.read_u8(), Ok(0x09));
    let mut p = body(&[0x80, 0x80, 0x80, 0x80, 0x80, 0x80, 0x80, 0x80, 0x80, 0x02]);
    assert_eq!(p.read_varint(), Err(ReadError::Overflow));
    assert_eq!(p.pos, 10);
    // overflow whose run never ends: end of input
    let mut p = body(&[0x80, 0x80, 0x80, 0x80, 0x80, 0x80, 0x80, 0x80, 0x80, 0x80, 0x80]);
    assert_eq!(p.read_varint(), Err(ReadError::UnexpectedEof));
    assert_eq!(p.pos, 11);
}

#[test]
fn varint_non_minimal_and_sign_extension() {
    // a redundant continuation byte is accepted
    let mut p = body(&[0x81, 0x00]);
    assert_eq!(p.read_varint(), Ok(1));
    // bit 6 of the last byte sign-extends
    let mut p = body(&[0x40]);
    assert_eq!(p.read_varint(), Ok(-64));
    let mut p = body(&[0xff, 0x7f]);
    assert_eq!(p.read_varint(), Ok(-1));
}
