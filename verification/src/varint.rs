//! The protocol's `VarInt`: an `i64` carried as signed LEB128.
use vstd::prelude::*;
use vstd::std_specs::convert::FromSpecImpl;

use crate::leb::{leb128_write_signed, sleb128, sleb_scan, LebScan};
use crate::mserialize::MSerialize;

verus! {

/// A variable-length integer of the protocol.
#[derive(Debug, PartialEq, Eq, Structural, Clone, Copy)]
pub struct VarInt(pub i64);

impl VarInt {
    /// The integer carried.
    pub fn get_val(&self) -> (r: i64)
        ensures
            r == self.0,
    {
        self.0
    }

    /// The integer reinterpreted as a `usize` (as the `as` cast does).
    pub fn to_usize(self) -> (r: usize)
        ensures
            r == self.0 as usize,
    {
        self.0 as usize
    }
}

impl Default for VarInt {
    fn default() -> (r: Self)
        ensures
            r.0 == 0,
    {
        VarInt(0)
    }
}

impl From<i64> for VarInt {
    fn from(value: i64) -> (r: Self) {
        VarInt(value)
    }
}

impl FromSpecImpl<i64> for VarInt {
    open spec fn obeys_from_spec() -> bool {
        true
    }

    open spec fn from_spec(v: i64) -> VarInt {
        VarInt(v)
    }
}

impl MSerialize for VarInt {
    open spec fn wire_bytes(&self) -> Seq<u8> {
        sleb128(self.0 as int)
    }

    fn to_bytes_representation(&self) -> (r: Vec<u8>) {
        leb128_write_signed(self.0)
    }
}

/// A `VarInt` written and read back, whatever follows it, gives the same
/// integer and consumes exactly its bytes.
pub proof fn lemma_varint_wire_roundtrip(v: VarInt, rest: Seq<u8>)
    ensures
        sleb_scan(v.wire_bytes() + rest) == LebScan::Value(v.0 as int, v.wire_bytes().len()),
{
    crate::leb::lemma_sleb128_roundtrip(v.0, rest);
}

} // verus!
