//! `MString`: a string of the protocol, length-prefixed on the wire.
use vstd::prelude::*;
use vstd::std_specs::convert::FromSpecImpl;
use vstd::utf8::{decode_utf8, valid_utf8};

use crate::mpacket::{read_string_spec, unread, ReadError};
use crate::mserialize::{prefixed_string_bytes, prefixed_string_encode, MSerialize};

verus! {

/// A protocol string.
#[derive(Debug, Clone)]
pub struct MString(pub String);

impl MString {
    /// The empty string.
    pub fn new() -> (r: Self)
        ensures
            r.0@ == Seq::<char>::empty(),
    {
        MString(String::new())
    }

    /// A copy of `value`.
    pub fn from_str(value: &str) -> (r: Self)
        ensures
            r.0@ == value@,
    {
        MString(String::from_str(value))
    }

    /// The string decoded from UTF-8 bytes.
    pub fn from_utf8_bytes(value: Vec<u8>) -> (r: Self)
        requires
            valid_utf8(value@),
        ensures
            r.0@ == decode_utf8(value@),
    {
        match string_from_utf8(value) {
            Some(s) => MString(s),
            None => MString(String::new()),
        }
    }
}

impl From<String> for MString {
    fn from(value: String) -> (r: Self) {
        MString(value)
    }
}

impl FromSpecImpl<String> for MString {
    open spec fn obeys_from_spec() -> bool {
        true
    }

    open spec fn from_spec(v: String) -> MString {
        MString(v)
    }
}

impl MSerialize for MString {
    open spec fn wire_bytes(&self) -> Seq<u8> {
        prefixed_string_bytes(self.0@)
    }

    fn to_bytes_representation(&self) -> (r: Vec<u8>) {
        prefixed_string_encode(self.0.as_str())
    }
}

/// Calls `String::from_utf8`. Claimed (its documentation): the conversion
/// succeeds exactly when the bytes are valid UTF-8, and the string then holds
/// the characters those bytes encode.
#[verifier::external_body]
pub(crate) fn string_from_utf8(v: Vec<u8>) -> (r: Option<String>)
    ensures
        r is Some <==> valid_utf8(v@),
        r matches Some(s) ==> s@ == decode_utf8(v@),
{
    String::from_utf8(v).ok()
}

/// A protocol string written into a packet body and read back at any
/// position, whatever follows it, gives the same string and moves the cursor
/// exactly past its bytes.
pub proof fn lemma_mstring_wire_roundtrip(d: Seq<u8>, pos: int, s: MString, rest: Seq<u8>)
    requires
        0 <= pos,
        unread(d, pos) == s.wire_bytes() + rest,
        vstd::utf8::encode_utf8(s.0@).len() <= isize::MAX,
    ensures
        read_string_spec(d, pos) == (
            Ok::<Seq<char>, ReadError>(s.0@),
            pos + s.wire_bytes().len(),
        ),
{
    crate::mpacket::lemma_string_roundtrip(d, pos, s.0@, rest);
}

} // verus!
