//! `Muuid`: the sixteen bytes of a UUID as carried by the protocol.
use vstd::prelude::*;

use crate::mserialize::MSerialize;

verus! {

/// A UUID held as its sixteen bytes.
#[derive(Debug, Clone, Copy)]
pub struct Muuid([u8; 16]);

impl Muuid {
    /// The bytes of the UUID.
    pub closed spec fn bytes(&self) -> Seq<u8> {
        self.0@
    }

    /// A UUID always has sixteen bytes.
    pub proof fn lemma_len(&self)
        ensures
            self.bytes().len() == 16,
    {
    }

    /// The UUID with these bytes.
    pub fn from_bytes(value: [u8; 16]) -> (r: Self)
        ensures
            r.bytes() == value@,
    {
        Muuid(value)
    }

    /// The bytes of the UUID.
    pub fn into_bytes(&self) -> (r: [u8; 16])
        ensures
            r@ == self.bytes(),
    {
        self.0
    }

    /// The nil UUID (all bytes zero).
    pub fn nil() -> (r: Self)
        ensures
            r.bytes() == Seq::new(16, |_i: int| 0u8),
    {
        let r = Muuid([0u8; 16]);
        assert(r.bytes() =~= Seq::new(16, |_i: int| 0u8));
        r
    }
}

impl MSerialize for Muuid {
    open spec fn wire_bytes(&self) -> Seq<u8> {
        self.bytes()
    }

    fn to_bytes_representation(&self) -> (r: Vec<u8>) {
        vstd::slice::slice_to_vec(self.0.as_slice())
    }
}

/// Calls `uuid::Uuid::from_slice` and, on success, `Uuid::into_bytes`.
/// Claimed (its source): it succeeds exactly on sixteen bytes, and the UUID's
/// bytes are then the given ones, in order.
#[verifier::external_body]
pub(crate) fn uuid_bytes_from_slice(b: &[u8]) -> (r: Option<[u8; 16]>)
    ensures
        r is Some <==> b@.len() == 16,
        r matches Some(a) ==> a@ == b@,
{
    match uuid::Uuid::from_slice(b) {
        Ok(u) => Some(u.into_bytes()),
        Err(_) => None,
    }
}

} // verus!
