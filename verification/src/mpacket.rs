//! Packets: framing on the wire, and reading fields from a packet body.
//!
//! A frame is `length ++ packet_id ++ data`, `length` and `packet_id` being
//! signed LEB128 numbers. The body is read through a cursor (`data`, `pos`)
//! that behaves as `std::io::Cursor<Vec<u8>>` does: a read that finds too few
//! bytes fails and leaves the cursor at the end of the data.
use byteorder::{BigEndian, ByteOrder};
use vstd::prelude::*;
use vstd::utf8::decode_utf8;

use crate::leb::{
    leb128_read_signed, leb128_write_signed, sleb128, sleb_scan, uleb128_len,
    varint_simd_encoded_len, LebRead, LebScan,
};
use crate::mserialize::{append_bytes, be_value, prefixed_string_bytes, MSerialize};
use crate::mstring::string_from_utf8;
use crate::muuid::{uuid_bytes_from_slice, Muuid};
use crate::varint::VarInt;

verus! {

/// Why a packet could not be taken from the received bytes yet.
#[derive(Debug, Clone, Copy, PartialEq, Eq, Structural)]
pub enum PacketError {
    NotEnoughByteForPacket,
}

/// Why reading a field from a packet body failed.
#[derive(Debug, Clone, Copy, PartialEq, Eq, Structural)]
pub enum ReadError {
    /// The body ended before the field did.
    UnexpectedEof,
    /// A variable-length integer does not fit in an `i64`.
    Overflow,
    /// A string's bytes are not UTF-8.
    InvalidUtf8,
    /// A string's length prefix is negative.
    NegativeLength,
}

/// A received packet: its declared length, its id, and its body with a read position.
#[derive(Debug)]
pub struct Packet {
    pub length: VarInt,
    pub packet_id: VarInt,
    pub data: Vec<u8>,
    pub pos: usize,
}

/// The unread part of `data` when the cursor stands at `pos`.
pub open spec fn unread(data: Seq<u8>, pos: int) -> Seq<u8> {
    if pos < data.len() {
        data.skip(pos)
    } else {
        Seq::empty()
    }
}

/// Reading exactly `n` bytes: the bytes (or `None` when too few are left) and the new position.
pub open spec fn read_exact_spec(data: Seq<u8>, pos: int, n: int) -> (Option<Seq<u8>>, int) {
    if n <= unread(data, pos).len() {
        (Some(unread(data, pos).take(n)), pos + n)
    } else {
        (None, data.len() as int)
    }
}

/// Reading a signed LEB128 number: the value or error, and the new position.
pub open spec fn read_varint_spec(data: Seq<u8>, pos: int) -> (Result<i64, ReadError>, int) {
    match sleb_scan(unread(data, pos)) {
        LebScan::Value(v, n) => (Ok(v as i64), pos + n),
        LebScan::Overflow(n) => (Err(ReadError::Overflow), pos + n),
        LebScan::Eof => (Err(ReadError::UnexpectedEof), data.len() as int),
    }
}

/// Reading a fixed-size big-endian unsigned number of `n` bytes.
pub open spec fn read_be_spec(data: Seq<u8>, pos: int, n: int) -> (Result<int, ReadError>, int) {
    let (b, p) = read_exact_spec(data, pos, n);
    match b {
        Some(s) => (Ok(be_value(s)), p),
        None => (Err(ReadError::UnexpectedEof), p),
    }
}

/// Reading a length-prefixed UTF-8 string.
pub open spec fn read_string_spec(data: Seq<u8>, pos: int) -> (Result<Seq<char>, ReadError>, int) {
    let (size, p) = read_varint_spec(data, pos);
    match size {
        Err(e) => (Err(e), p),
        Ok(n) => if n < 0 {
            (Err(ReadError::NegativeLength), p)
        } else {
            let (b, q) = read_exact_spec(data, p, (n as usize) as int);
            match b {
                None => (Err(ReadError::UnexpectedEof), q),
                Some(s) => if vstd::utf8::valid_utf8(s) {
                    (Ok(decode_utf8(s)), q)
                } else {
                    (Err(ReadError::InvalidUtf8), q)
                },
            }
        },
    }
}

/// Reading the sixteen bytes of a UUID.
pub open spec fn read_uuid_spec(data: Seq<u8>, pos: int) -> (Result<Seq<u8>, ReadError>, int) {
    let (b, p) = read_exact_spec(data, pos, 16);
    match b {
        Some(s) => (Ok(s), p),
        None => (Err(ReadError::UnexpectedEof), p),
    }
}

/// What the received bytes `b` hold at their front.
pub enum FrameParse {
    /// Not a whole packet yet (or a length that cannot be one).
    Incomplete,
    /// Bytes on which taking a packet fails outright.
    Malformed,
    /// A packet: declared length, packet id, and the body `b[start..end]`;
    /// the first `end` bytes are consumed.
    Frame(int, int, int, int),
}

/// How a packet is taken from the front of the received bytes. The size of the
/// length and packet-id fields is taken as the size of their *unsigned* LEB128
/// encodings, and the body ends at index `length` (inclusive) of the buffer.
pub open spec fn parse_frame(b: Seq<u8>) -> FrameParse {
    match sleb_scan(b) {
        LebScan::Value(len, n) => {
            let bll = uleb128_len((len as u64) as nat);
            if b.len() < bll {
                FrameParse::Malformed
            } else if len < 0 || b.len() - bll < len {
                FrameParse::Incomplete
            } else {
                match sleb_scan(b.skip(n as int)) {
                    LebScan::Value(id, _m) => {
                        let start = (uleb128_len((id as u64) as nat) + bll) as int;
                        if start > len + 1 {
                            FrameParse::Malformed
                        } else {
                            FrameParse::Frame(len, id, start, len + 1int)
                        }
                    },
                    _ => FrameParse::Malformed,
                }
            }
        },
        _ => FrameParse::Incomplete,
    }
}

/// The bytes that sending a packet writes: the length (size of the unsigned
/// LEB128 encoding of the id, plus the payload size), the id, the payload.
pub open spec fn frame_bytes(packet_id: i64, payload: Seq<u8>) -> Seq<u8> {
    sleb128(
        ((uleb128_len((packet_id as u64) as nat) + payload.len()) as usize as i64) as int,
    ) + sleb128(packet_id as int) + payload
}

/// The bytes that sending a packet without payload writes.
pub open spec fn frame_bytes_without_data(packet_id: i64) -> Seq<u8> {
    sleb128(uleb128_len((packet_id as u64) as nat) as int) + sleb128(packet_id as int)
}

/// Outcome of scanning the received bytes for a packet.
enum FrameScan {
    Incomplete,
    Malformed,
    Frame(i64, i64, usize, usize),
}

/// Calls `byteorder::BigEndian::read_u16`. Claimed: the big-endian number of the two bytes.
#[verifier::external_body]
fn byteorder_read_u16(buf: &[u8]) -> (r: u16)
    requires
        buf@.len() == 2,
    ensures
        r as int == be_value(buf@),
{
    BigEndian::read_u16(buf)
}

/// Calls `byteorder::BigEndian::read_u32`. Claimed: the big-endian number of the four bytes.
#[verifier::external_body]
fn byteorder_read_u32(buf: &[u8]) -> (r: u32)
    requires
        buf@.len() == 4,
    ensures
        r as int == be_value(buf@),
{
    BigEndian::read_u32(buf)
}

/// Calls `byteorder::BigEndian::read_u64`. Claimed: the big-endian number of the eight bytes.
#[verifier::external_body]
fn byteorder_read_u64(buf: &[u8]) -> (r: u64)
    requires
        buf@.len() == 8,
    ensures
        r as int == be_value(buf@),
{
    BigEndian::read_u64(buf)
}

/// The bytes of `b` from `start` on (empty when `start` is past the end).
fn tail(b: &[u8], start: usize) -> (r: &[u8])
    ensures
        r@ == unread(b@, start as int),
{
    if start < b.len() {
        let r = vstd::slice::slice_subrange(b, start, b.len());
        assert(r@ =~= b@.skip(start as int));
        r
    } else {
        vstd::slice::slice_subrange(b, 0, 0)
    }
}

/// Reads one signed LEB128 number from the front of `b`: the outcome and the
/// number of bytes it consumed.
fn scan_varint(b: &[u8]) -> (r: (LebRead, usize))
    ensures
        match sleb_scan(b@) {
            LebScan::Value(v, n) => r.0 matches LebRead::Value(x) && x == v && r.1 == n,
            LebScan::Overflow(n) => r.0 == LebRead::Overflow && r.1 == n,
            LebScan::Eof => r.0 == LebRead::Eof && r.1 == b@.len(),
        },
{
    let (k, left) = leb128_read_signed(b);
    proof {
        crate::leb::lemma_scan_bounds(b@);
    }
    (k, b.len() - left)
}

fn frame_scan(b: &[u8]) -> (r: FrameScan)
    ensures
        match parse_frame(b@) {
            FrameParse::Incomplete => r is Incomplete,
            FrameParse::Malformed => r is Malformed,
            FrameParse::Frame(len, id, start, end) => r matches FrameScan::Frame(
                l,
                i,
                s,
                e,
            ) && l == len && i == id && s == start && e == end,
        },
{
    let (k, n) = scan_varint(b);
    let length = match k {
        LebRead::Value(x) => x,
        _ => {
            return FrameScan::Incomplete;
        },
    };
    let bll = varint_simd_encoded_len(length as u64);
    if b.len() < bll as usize {
        return FrameScan::Malformed;
    }
    if length < 0 || ((b.len() - bll as usize) as u64) < (length as u64) {
        return FrameScan::Incomplete;
    }
    proof {
        crate::leb::lemma_scan_bounds(b@);
    }
    let (k2, _m) = scan_varint(tail(b, n));
    assert(unread(b@, n as int) == b@.skip(n as int));
    let packet_id = match k2 {
        LebRead::Value(x) => x,
        _ => {
            return FrameScan::Malformed;
        },
    };
    let bpil = varint_simd_encoded_len(packet_id as u64);
    let start = bpil as u64 + bll as u64;
    if start > (length as u64) + 1 {
        return FrameScan::Malformed;
    }
    FrameScan::Frame(length, packet_id, start as usize, (length as usize) + 1)
}

impl Packet {
    /// The unread part of the body.
    pub open spec fn rest(&self) -> Seq<u8> {
        unread(self.data@, self.pos as int)
    }

    /// Whether taking a packet from `bytes` fails outright (a packet id that
    /// cannot be read, a length field shorter than its own size, a body that
    /// would start after its end). `Packet::new` must not be called on such bytes.
    pub fn is_malformed(bytes: &Vec<u8>) -> (r: bool)
        ensures
            r == (parse_frame(bytes@) is Malformed),
            short_of_frame(bytes@) ==> !r,
    {
        proof {
            lemma_short_buffer_incomplete(bytes@);
        }
        match frame_scan(bytes.as_slice()) {
            FrameScan::Malformed => true,
            _ => false,
        }
    }

    /// Takes the packet at the front of the received bytes, removing its bytes;
    /// leaves them untouched when they do not hold a whole packet yet.
    pub fn new(bytes: &mut Vec<u8>) -> (r: Result<Packet, PacketError>)
        requires
            !(parse_frame(old(bytes)@) is Malformed),
        ensures
            match parse_frame(old(bytes)@) {
                FrameParse::Incomplete => r == Err::<Packet, PacketError>(
                    PacketError::NotEnoughByteForPacket,
                ) && final(bytes)@ == old(bytes)@,
                FrameParse::Frame(len, id, start, end) => r matches Ok(p) && p.length.0 == len
                    && p.packet_id.0 == id && p.data@ == old(bytes)@.subrange(start, end) && p.pos
                    == 0 && final(bytes)@ == old(bytes)@.skip(end),
                FrameParse::Malformed => false,
            },
            short_of_frame(old(bytes)@) ==> r == Err::<Packet, PacketError>(
                PacketError::NotEnoughByteForPacket,
            ) && final(bytes)@ == old(bytes)@,
    {
        proof {
            lemma_short_buffer_incomplete(bytes@);
        }
        match frame_scan(bytes.as_slice()) {
            FrameScan::Frame(length, packet_id, start, end) => {
                let data = vstd::slice::slice_to_vec(
                    vstd::slice::slice_subrange(bytes.as_slice(), start, end),
                );
                let rest = vstd::slice::slice_to_vec(
                    vstd::slice::slice_subrange(bytes.as_slice(), end, bytes.len()),
                );
                assert(rest@ =~= old(bytes)@.skip(end as int));
                *bytes = rest;
                Ok(Packet { length: VarInt(length), packet_id: VarInt(packet_id), data, pos: 0 })
            },
            _ => Err(PacketError::NotEnoughByteForPacket),
        }
    }

    /// A packet with the given fields and its body unread.
    pub fn from(length: VarInt, packet_id: VarInt, data: Vec<u8>) -> (r: Packet)
        ensures
            r.length == length,
            r.packet_id == packet_id,
            r.data@ == data@,
            r.pos == 0,
    {
        Packet { length, packet_id, data, pos: 0 }
    }

    /// Reads exactly `n` bytes; on too few, the cursor goes to the end.
    fn read_exact(&mut self, n: usize) -> (r: Option<Vec<u8>>)
        ensures
            final(self).data@ == old(self).data@,
            final(self).length == old(self).length,
            final(self).packet_id == old(self).packet_id,
            (r matches Some(v) ==> Some(v@) == read_exact_spec(
                old(self).data@,
                old(self).pos as int,
                n as int,
            ).0),
            (r is None ==> read_exact_spec(old(self).data@, old(self).pos as int, n as int).0 is None),
            final(self).pos == read_exact_spec(old(self).data@, old(self).pos as int, n as int).1,
    {
        if n == 0 {
            assert(unread(self.data@, self.pos as int).take(0) =~= Seq::<u8>::empty());
            return Some(Vec::new());
        }
        let len = self.data.len();
        let left = if self.pos < len {
            len - self.pos
        } else {
            0
        };
        if n <= left {
            let v = vstd::slice::slice_to_vec(
                vstd::slice::slice_subrange(self.data.as_slice(), self.pos, self.pos + n),
            );
            assert(v@ =~= unread(self.data@, self.pos as int).take(n as int));
            self.pos = self.pos + n;
            Some(v)
        } else {
            self.pos = len;
            None
        }
    }

    pub fn read_u8(&mut self) -> (r: Result<u8, ReadError>)
        ensures
            final(self).data@ == old(self).data@,
            final(self).length == old(self).length,
            final(self).packet_id == old(self).packet_id,
            ({
                let (v, p) = read_be_spec(old(self).data@, old(self).pos as int, 1);
                &&& final(self).pos == p
                &&& match v {
                    Ok(x) => r matches Ok(y) && y == x,
                    Err(e) => r == Err::<u8, ReadError>(e),
                }
            }),
    {
        match self.read_exact(1) {
            Some(b) => {
                let ghost s = b@;
                assert(be_value(s) == s[0]) by {
                    assert(s.drop_last().len() == 0);
                    assert(s.last() == s[0]);
                    assert(be_value(s.drop_last()) == 0);
                }
                Ok(b[0])
            },
            None => Err(ReadError::UnexpectedEof),
        }
    }

    pub fn read_u16(&mut self) -> (r: Result<u16, ReadError>)
        ensures
            final(self).data@ == old(self).data@,
            final(self).length == old(self).length,
            final(self).packet_id == old(self).packet_id,
            ({
                let (v, p) = read_be_spec(old(self).data@, old(self).pos as int, 2);
                &&& final(self).pos == p
                &&& match v {
                    Ok(x) => r matches Ok(y) && y == x,
                    Err(e) => r == Err::<u16, ReadError>(e),
                }
            }),
    {
        match self.read_exact(2) {
            Some(b) => Ok(byteorder_read_u16(b.as_slice())),
            None => Err(ReadError::UnexpectedEof),
        }
    }

    pub fn read_u32(&mut self) -> (r: Result<u32, ReadError>)
        ensures
            final(self).data@ == old(self).data@,
            final(self).length == old(self).length,
            final(self).packet_id == old(self).packet_id,
            ({
                let (v, p) = read_be_spec(old(self).data@, old(self).pos as int, 4);
                &&& final(self).pos == p
                &&& match v {
                    Ok(x) => r matches Ok(y) && y == x,
                    Err(e) => r == Err::<u32, ReadError>(e),
                }
            }),
    {
        match self.read_exact(4) {
            Some(b) => Ok(byteorder_read_u32(b.as_slice())),
            None => Err(ReadError::UnexpectedEof),
        }
    }

    pub fn read_u64(&mut self) -> (r: Result<u64, ReadError>)
        ensures
            final(self).data@ == old(self).data@,
            final(self).length == old(self).length,
            final(self).packet_id == old(self).packet_id,
            ({
                let (v, p) = read_be_spec(old(self).data@, old(self).pos as int, 8);
                &&& final(self).pos == p
                &&& match v {
                    Ok(x) => r matches Ok(y) && y == x,
                    Err(e) => r == Err::<u64, ReadError>(e),
                }
            }),
    {
        match self.read_exact(8) {
            Some(b) => Ok(byteorder_read_u64(b.as_slice())),
            None => Err(ReadError::UnexpectedEof),
        }
    }

    /// Reads a signed LEB128 number.
    pub fn read_varint(&mut self) -> (r: Result<i64, ReadError>)
        ensures
            final(self).data@ == old(self).data@,
            final(self).length == old(self).length,
            final(self).packet_id == old(self).packet_id,
            (r, final(self).pos as int) == read_varint_spec(old(self).data@, old(self).pos as int),
    {
        let ghost rest = unread(self.data@, self.pos as int);
        let len = self.data.len();
        proof {
            crate::leb::lemma_scan_bounds(rest);
        }
        let t = tail(self.data.as_slice(), self.pos);
        assert(t@ == rest);
        let (k, n) = scan_varint(t);
        assert(k !is Eof ==> n <= rest.len());
        proof {
            if self.pos >= self.data@.len() {
                assert(rest.len() == 0);
                assert(sleb_scan(rest) == LebScan::Eof);
            } else {
                assert(rest.len() + self.pos == self.data@.len());
            }
        }
        match k {
            LebRead::Value(v) => {
                self.pos = self.pos + n;
                Ok(v)
            },
            LebRead::Overflow => {
                self.pos = self.pos + n;
                Err(ReadError::Overflow)
            },
            LebRead::Eof => {
                self.pos = len;
                Err(ReadError::UnexpectedEof)
            },
        }
    }

    /// Reads a signed LEB128 number (the protocol's `VarLong`, read as `VarInt` is).
    pub fn read_varlong(&mut self) -> (r: Result<i64, ReadError>)
        ensures
            final(self).data@ == old(self).data@,
            final(self).length == old(self).length,
            final(self).packet_id == old(self).packet_id,
            (r, final(self).pos as int) == read_varint_spec(old(self).data@, old(self).pos as int),
    {
        self.read_varint()
    }

    /// Reads a byte as a boolean: anything but zero is `true`.
    pub fn read_bool(&mut self) -> (r: Result<bool, ReadError>)
        ensures
            final(self).data@ == old(self).data@,
            final(self).length == old(self).length,
            final(self).packet_id == old(self).packet_id,
            ({
                let (v, p) = read_be_spec(old(self).data@, old(self).pos as int, 1);
                &&& final(self).pos == p
                &&& match v {
                    Ok(x) => r == Ok::<bool, ReadError>(x != 0),
                    Err(e) => r == Err::<bool, ReadError>(e),
                }
            }),
    {
        match self.read_u8() {
            Ok(x) => Ok(x != 0),
            Err(e) => Err(e),
        }
    }

    /// Reads a string: its UTF-8 byte count as a signed LEB128 number, then the bytes.
    pub fn read_string(&mut self) -> (r: Result<String, ReadError>)
        ensures
            final(self).data@ == old(self).data@,
            final(self).length == old(self).length,
            final(self).packet_id == old(self).packet_id,
            ({
                let (v, p) = read_string_spec(old(self).data@, old(self).pos as int);
                &&& final(self).pos == p
                &&& match v {
                    Ok(s) => r matches Ok(t) && t@ == s,
                    Err(e) => r matches Err(f) && f == e,
                }
            }),
    {
        let size = match self.read_varint() {
            Ok(n) => n,
            Err(e) => {
                return Err(e);
            },
        };
        if size < 0 {
            return Err(ReadError::NegativeLength);
        }
        let bytes = match self.read_exact(size as usize) {
            Some(b) => b,
            None => {
                return Err(ReadError::UnexpectedEof);
            },
        };
        match string_from_utf8(bytes) {
            Some(s) => Ok(s),
            None => Err(ReadError::InvalidUtf8),
        }
    }

    /// Reads the sixteen bytes of a UUID.
    pub fn read_uuid(&mut self) -> (r: Result<Muuid, ReadError>)
        ensures
            final(self).data@ == old(self).data@,
            final(self).length == old(self).length,
            final(self).packet_id == old(self).packet_id,
            ({
                let (v, p) = read_uuid_spec(old(self).data@, old(self).pos as int);
                &&& final(self).pos == p
                &&& match v {
                    Ok(s) => r matches Ok(u) && u.bytes() == s,
                    Err(e) => r matches Err(f) && f == e,
                }
            }),
    {
        let bytes = match self.read_exact(16) {
            Some(b) => b,
            None => {
                return Err(ReadError::UnexpectedEof);
            },
        };
        match uuid_bytes_from_slice(bytes.as_slice()) {
            Some(a) => Ok(Muuid::from_bytes(a)),
            None => Err(ReadError::UnexpectedEof),
        }
    }

    /// The bytes that sending packet `packet_id` with body `data` writes.
    pub fn send_packet<T: MSerialize>(packet_id: i64, data: &T) -> (r: Vec<u8>)
        requires
            data.wire_bytes().len() + 16 <= usize::MAX,
        ensures
            r@ == frame_bytes(packet_id, data.wire_bytes()),
            declared_length(packet_id, data.wire_bytes().len()) <= i64::MAX ==> frame_reads_back(
                r@,
                packet_id,
                data.wire_bytes(),
            ),
    {
        let len = varint_simd_encoded_len(packet_id as u64);
        proof {
            crate::leb::lemma_uleb128_len_u64(packet_id as u64);
            if declared_length(packet_id, data.wire_bytes().len()) <= i64::MAX {
                lemma_frame_reads_back(packet_id, data.wire_bytes());
            }
        }
        let bytes = data.to_bytes_representation();
        let mut out = leb128_write_signed((len as usize + bytes.len()) as i64);
        let mut id = leb128_write_signed(packet_id);
        out.append(&mut id);
        append_bytes(&mut out, bytes.as_slice());
        out
    }

    /// The bytes that sending packet `packet_id` without a body writes.
    pub fn send_packet_without_data(packet_id: i64) -> (r: Vec<u8>)
        ensures
            r@ == frame_bytes_without_data(packet_id),
            frame_reads_back(r@, packet_id, Seq::empty()),
    {
        proof {
            lemma_frame_without_data(packet_id);
        }
        let len = varint_simd_encoded_len(packet_id as u64);
        let mut out = leb128_write_signed(len as i64);
        let mut id = leb128_write_signed(packet_id);
        out.append(&mut id);
        out
    }
}

/// Taking a packet from the bytes that sending it wrote, whatever follows them,
/// gives back the packet id and the payload and consumes exactly the frame —
/// provided the packet id takes as many bytes in signed as in unsigned LEB128
/// and the declared length stays below 64 (so that its field is one byte long).
pub proof fn lemma_frame_roundtrip(packet_id: i64, payload: Seq<u8>, rest: Seq<u8>)
    requires
        sleb128(packet_id as int).len() == uleb128_len((packet_id as u64) as nat),
        uleb128_len((packet_id as u64) as nat) + payload.len() < 64,
    ensures
        ({
            let b = frame_bytes(packet_id, payload) + rest;
            let l = (uleb128_len((packet_id as u64) as nat) + payload.len()) as int;
            &&& parse_frame(b) == FrameParse::Frame(l, packet_id as int, l + 1 - payload.len(), l + 1)
            &&& b.subrange(l + 1 - payload.len(), l + 1) == payload
            &&& b.skip(l + 1) == rest
        }),
{
    let lu = uleb128_len((packet_id as u64) as nat);
    let l = (lu + payload.len()) as int;
    let lb = sleb128(l);
    let idb = sleb128(packet_id as int);
    crate::leb::lemma_sleb128_small(l);
    assert(((l as usize) as i64) as int == l);
    assert(frame_bytes(packet_id, payload) == lb + idb + payload);
    let b = frame_bytes(packet_id, payload) + rest;
    assert(b =~= seq![l as u8] + (idb + payload + rest));
    assert(b =~= lb + (idb + payload + rest));
    crate::leb::lemma_sleb128_roundtrip(l as i64, idb + payload + rest);
    assert(sleb_scan(b) == LebScan::Value(l, 1));
    crate::leb::lemma_uleb128_len_small(l as nat);
    assert((l as u64) as nat == l);
    assert(b.skip(1) =~= idb + (payload + rest));
    crate::leb::lemma_sleb128_roundtrip(packet_id, payload + rest);
    assert(b.subrange(l + 1 - payload.len(), l + 1) =~= payload);
    assert(b.skip(l + 1) =~= rest);
}

/// Moving the cursor `k` bytes on drops `k` bytes from the unread part.
pub proof fn lemma_unread_skip(d: Seq<u8>, pos: int, k: int)
    requires
        0 <= pos,
        0 <= k <= unread(d, pos).len(),
    ensures
        unread(d, pos + k) == unread(d, pos).skip(k),
{
    if pos < d.len() {
        if pos + k < d.len() {
            assert(unread(d, pos + k) =~= unread(d, pos).skip(k));
        } else {
            assert(unread(d, pos).skip(k) =~= Seq::<u8>::empty());
        }
    } else {
        assert(unread(d, pos).skip(k) =~= Seq::<u8>::empty());
    }
}

/// Reading a string back from its wire bytes, at any position and whatever
/// follows them, gives the string and moves the cursor exactly past its bytes
/// (for strings of at most `isize::MAX` UTF-8 bytes, the most a `String` can hold).
pub proof fn lemma_string_roundtrip(d: Seq<u8>, pos: int, s: Seq<char>, rest: Seq<u8>)
    requires
        0 <= pos,
        unread(d, pos) == prefixed_string_bytes(s) + rest,
        vstd::utf8::encode_utf8(s).len() <= isize::MAX,
    ensures
        read_string_spec(d, pos) == (
            Ok::<Seq<char>, ReadError>(s),
            pos + prefixed_string_bytes(s).len(),
        ),
{
    let u = vstd::utf8::encode_utf8(s);
    let n = u.len();
    let lb = sleb128(((n as usize) as i64) as int);
    assert(((n as usize) as i64) as int == n);
    crate::leb::lemma_sleb128_roundtrip(n as i64, u + rest);
    crate::leb::lemma_sleb128_shape(n as int);
    assert(unread(d, pos) =~= lb + (u + rest));
    let k = lb.len() as int;
    lemma_unread_skip(d, pos, k);
    assert(unread(d, pos + k) =~= u + rest);
    assert(unread(d, pos + k).take(n as int) =~= u);
    vstd::utf8::encode_utf8_valid_utf8(s);
    vstd::utf8::encode_utf8_decode_utf8(s);
}

/// Reading an unsigned big-endian number back from its `n` bytes, at any
/// position and whatever follows them, gives the number and moves the cursor
/// exactly `n` bytes on.
pub proof fn lemma_be_read_roundtrip(d: Seq<u8>, pos: int, v: int, n: nat, rest: Seq<u8>)
    requires
        0 <= pos,
        unread(d, pos) == crate::mserialize::be_bytes(v, n) + rest,
        0 <= v < crate::mserialize::pow256(n),
    ensures
        read_be_spec(d, pos, n as int) == (Ok::<int, ReadError>(v), pos + n),
{
    crate::mserialize::lemma_be_roundtrip(v, n);
    assert(unread(d, pos).take(n as int) =~= crate::mserialize::be_bytes(v, n));
}

/// Reading a UUID back from its wire bytes, at any position, gives the same bytes.
pub proof fn lemma_uuid_roundtrip(d: Seq<u8>, pos: int, u: Muuid, rest: Seq<u8>)
    requires
        0 <= pos,
        unread(d, pos) == u.wire_bytes() + rest,
    ensures
        read_uuid_spec(d, pos) == (Ok::<Seq<u8>, ReadError>(u.bytes()), pos + 16),
{
    u.lemma_len();
    assert(unread(d, pos).take(16) =~= u.bytes());
}

/// The received bytes hold no whole packet yet: the length field itself has
/// not ended, or it has (taking as many bytes as the unsigned LEB128 encoding
/// of the length would) and fewer than `length` bytes follow it.
pub open spec fn short_of_frame(b: Seq<u8>) -> bool {
    ||| sleb_scan(b) is Eof
    ||| (sleb_scan(b) matches LebScan::Value(l, n) && 0 <= l && n == uleb128_len(l as nat) && b.len()
        < n + l)
}

/// Bytes that are short of a whole packet make the server wait: they are never
/// malformed, and taking a packet from them answers that more bytes are needed.
pub proof fn lemma_short_buffer_incomplete(b: Seq<u8>)
    ensures
        short_of_frame(b) ==> parse_frame(b) is Incomplete,
{
    crate::leb::lemma_scan_bounds(b);
    crate::leb::lemma_scan_value_in_i64(b);
}

/// The value of a frame's length field: the size of the unsigned LEB128
/// encoding of the packet id plus the payload size.
pub open spec fn declared_length(packet_id: i64, payload_len: nat) -> int {
    (uleb128_len((packet_id as u64) as nat) + payload_len) as int
}

/// Every proper prefix of the bytes sent for a packet is short of a whole
/// packet, hence incomplete and never malformed, whatever the payload's length:
/// the server waits for the rest. This holds where the length field takes as
/// many bytes in signed as in unsigned LEB128 and the packet id no more bytes
/// in signed than in unsigned LEB128 (the sizes the framing counts with).
pub proof fn lemma_frame_prefix_incomplete(packet_id: i64, payload: Seq<u8>, k: int)
    requires
        payload.len() + 16 <= usize::MAX,
        declared_length(packet_id, payload.len()) <= i64::MAX,
        sleb128(packet_id as int).len() <= uleb128_len((packet_id as u64) as nat),
        sleb128(declared_length(packet_id, payload.len())).len() == uleb128_len(
            declared_length(packet_id, payload.len()) as nat,
        ),
        0 <= k < frame_bytes(packet_id, payload).len(),
    ensures
        short_of_frame(frame_bytes(packet_id, payload).take(k)),
        parse_frame(frame_bytes(packet_id, payload).take(k)) is Incomplete,
{
    let l = declared_length(packet_id, payload.len());
    crate::leb::lemma_uleb128_len_u64(packet_id as u64);
    assert(((l as usize) as i64) as int == l);
    let lb = sleb128(l);
    let f = frame_bytes(packet_id, payload);
    assert(f == lb + sleb128(packet_id as int) + payload);
    let t = f.take(k);
    if k < lb.len() {
        assert(t =~= lb.take(k));
        crate::leb::lemma_sleb128_prefix_eof(l as i64, k);
    } else {
        let rest = (sleb128(packet_id as int) + payload).take(k - lb.len());
        assert(t =~= lb + rest);
        crate::leb::lemma_sleb128_roundtrip(l as i64, rest);
    }
    lemma_short_buffer_incomplete(t);
}

/// A frame reads back as its parts: the length field holds the size of the
/// unsigned LEB128 encoding of the id plus the payload size, the packet id
/// follows it, and the payload follows the id, whatever its length.
pub open spec fn frame_reads_back(f: Seq<u8>, packet_id: i64, payload: Seq<u8>) -> bool {
    sleb_scan(f) matches LebScan::Value(l, n) && l == declared_length(packet_id, payload.len())
        && (sleb_scan(f.skip(n as int)) matches LebScan::Value(i, m) && i == packet_id && f.skip(
        (n + m) as int,
    ) == payload)
}

/// The bytes sent for a packet read back as its length, id and payload.
pub proof fn lemma_frame_reads_back(packet_id: i64, payload: Seq<u8>)
    requires
        payload.len() + 16 <= usize::MAX,
        declared_length(packet_id, payload.len()) <= i64::MAX,
    ensures
        frame_reads_back(frame_bytes(packet_id, payload), packet_id, payload),
{
    let l = declared_length(packet_id, payload.len());
    crate::leb::lemma_uleb128_len_u64(packet_id as u64);
    assert(((l as usize) as i64) as int == l);
    let lb = sleb128(l);
    let ib = sleb128(packet_id as int);
    let f = frame_bytes(packet_id, payload);
    assert(f =~= lb + (ib + payload));
    crate::leb::lemma_sleb128_roundtrip(l as i64, ib + payload);
    assert(f.skip(lb.len() as int) =~= ib + payload);
    crate::leb::lemma_sleb128_roundtrip(packet_id, payload);
    assert(f.skip((lb.len() + ib.len()) as int) =~= payload);
}

/// Reading a signed LEB128 number back from its encoding, at any position and
/// whatever follows it, gives the number and moves the cursor past the encoding.
pub proof fn lemma_varint_read_roundtrip(d: Seq<u8>, pos: int, v: i64, rest: Seq<u8>)
    requires
        0 <= pos,
        unread(d, pos) == sleb128(v as int) + rest,
    ensures
        read_varint_spec(d, pos) == (Ok::<i64, ReadError>(v), pos + sleb128(v as int).len()),
{
    crate::leb::lemma_sleb128_roundtrip(v, rest);
}

/// Reading past bytes `a` at the front of the unread part leaves what follows them.
pub proof fn lemma_unread_after(d: Seq<u8>, pos: int, a: Seq<u8>, rest: Seq<u8>)
    requires
        0 <= pos,
        unread(d, pos) == a + rest,
    ensures
        unread(d, pos + a.len()) == rest,
{
    lemma_unread_skip(d, pos, a.len() as int);
    assert((a + rest).skip(a.len() as int) =~= rest);
}

/// Reading one byte gives that byte as a number and moves the cursor one byte on.
pub proof fn lemma_byte_read(d: Seq<u8>, pos: int, b: u8, rest: Seq<u8>)
    requires
        0 <= pos,
        unread(d, pos) == seq![b] + rest,
    ensures
        read_be_spec(d, pos, 1) == (Ok::<int, ReadError>(b as int), pos + 1),
        unread(d, pos + 1) == rest,
{
    assert(unread(d, pos).take(1) =~= seq![b]);
    assert(seq![b].drop_last() =~= Seq::<u8>::empty());
    assert(seq![b].last() == b);
    assert(be_value(Seq::<u8>::empty()) == 0);
    assert(be_value(seq![b]) == b as int);
    lemma_unread_after(d, pos, seq![b], rest);
}

/// Sending a packet without a body writes the frame of that packet with an
/// empty payload, which reads back as its length and id.
pub proof fn lemma_frame_without_data(packet_id: i64)
    ensures
        frame_bytes_without_data(packet_id) == frame_bytes(packet_id, Seq::empty()),
        frame_reads_back(frame_bytes_without_data(packet_id), packet_id, Seq::empty()),
{
    crate::leb::lemma_uleb128_len_u64(packet_id as u64);
    let l = uleb128_len((packet_id as u64) as nat);
    assert(((l as usize) as i64) as int == l);
    assert(frame_bytes_without_data(packet_id) =~= frame_bytes(packet_id, Seq::empty()));
    lemma_frame_reads_back(packet_id, Seq::empty());
}

} // verus!
