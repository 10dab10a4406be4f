//! Serialisation of values into the bytes of a packet body.
use vstd::prelude::*;

use crate::leb::{leb128_write_signed, sleb128};

verus! {

/// A value with a wire representation.
pub trait MSerialize {
    /// The bytes that represent the value.
    spec fn wire_bytes(&self) -> Seq<u8>;

    /// Produces the wire representation.
    fn to_bytes_representation(&self) -> (r: Vec<u8>)
        ensures
            r@ == self.wire_bytes(),
    ;

    /// The length of the wire representation.
    fn size_bytes(&self) -> (r: usize)
        ensures
            r == self.wire_bytes().len(),
    {
        self.to_bytes_representation().len()
    }
}

/// Big-endian bytes of the last `n` base-256 digits of `v` (two's complement for
/// negative `v`).
pub open spec fn be_bytes(v: int, n: nat) -> Seq<u8>
    decreases n,
{
    if n == 0 {
        Seq::empty()
    } else {
        be_bytes(v / 256, (n - 1) as nat).push((v % 256) as u8)
    }
}

/// The unsigned big-endian number written by `s`.
pub open spec fn be_value(s: Seq<u8>) -> int
    decreases s.len(),
{
    if s.len() == 0 {
        0
    } else {
        be_value(s.drop_last()) * 256 + s.last() as int
    }
}

/// `256^n`.
pub open spec fn pow256(n: nat) -> int
    decreases n,
{
    if n == 0 {
        1
    } else {
        256 * pow256((n - 1) as nat)
    }
}

/// The UTF-8 bytes of a string, prefixed by their count as a signed LEB128 number.
pub open spec fn prefixed_string_bytes(s: Seq<char>) -> Seq<u8> {
    sleb128((encode_utf8_len(s) as i64) as int) + vstd::utf8::encode_utf8(s)
}

/// Number of UTF-8 bytes of `s`, as a `usize` (what `str::len` returns).
pub open spec fn encode_utf8_len(s: Seq<char>) -> usize {
    vstd::utf8::encode_utf8(s).len() as usize
}

/// Big-endian encoding of the low `n` bytes of `v`.
pub fn be_encode(v: u64, n: usize) -> (r: Vec<u8>)
    requires
        n <= 8,
    ensures
        r@ == be_bytes(v as int, n as nat),
    decreases n,
{
    if n == 0 {
        Vec::new()
    } else {
        let mut r = be_encode(v / 256, n - 1);
        r.push((v % 256) as u8);
        r
    }
}

/// Appends the bytes of `s` to `out`.
pub fn append_bytes(out: &mut Vec<u8>, s: &[u8])
    ensures
        final(out)@ == old(out)@ + s@,
{
    let mut tail = vstd::slice::slice_to_vec(s);
    out.append(&mut tail);
}

/// A string's UTF-8 byte count as signed LEB128, then the bytes: the encoding
/// shared by `String` and `MString`.
pub fn prefixed_string_encode(s: &str) -> (r: Vec<u8>)
    ensures
        r@ == prefixed_string_bytes(s@),
{
    let bytes = s.as_bytes();
    let mut out = leb128_write_signed(bytes.len() as i64);
    append_bytes(&mut out, bytes);
    out
}

impl MSerialize for u8 {
    open spec fn wire_bytes(&self) -> Seq<u8> {
        be_bytes(*self as int, 1)
    }

    fn to_bytes_representation(&self) -> (r: Vec<u8>) {
        be_encode(*self as u64, 1)
    }
}

impl MSerialize for i8 {
    open spec fn wire_bytes(&self) -> Seq<u8> {
        be_bytes((*self as u8) as int, 1)
    }

    fn to_bytes_representation(&self) -> (r: Vec<u8>) {
        be_encode((*self as u8) as u64, 1)
    }
}

impl MSerialize for u16 {
    open spec fn wire_bytes(&self) -> Seq<u8> {
        be_bytes(*self as int, 2)
    }

    fn to_bytes_representation(&self) -> (r: Vec<u8>) {
        be_encode(*self as u64, 2)
    }
}

impl MSerialize for i16 {
    open spec fn wire_bytes(&self) -> Seq<u8> {
        be_bytes((*self as u16) as int, 2)
    }

    fn to_bytes_representation(&self) -> (r: Vec<u8>) {
        be_encode((*self as u16) as u64, 2)
    }
}

impl MSerialize for u32 {
    open spec fn wire_bytes(&self) -> Seq<u8> {
        be_bytes(*self as int, 4)
    }

    fn to_bytes_representation(&self) -> (r: Vec<u8>) {
        be_encode(*self as u64, 4)
    }
}

impl MSerialize for i32 {
    open spec fn wire_bytes(&self) -> Seq<u8> {
        be_bytes((*self as u32) as int, 4)
    }

    fn to_bytes_representation(&self) -> (r: Vec<u8>) {
        be_encode((*self as u32) as u64, 4)
    }
}

impl MSerialize for u64 {
    open spec fn wire_bytes(&self) -> Seq<u8> {
        be_bytes(*self as int, 8)
    }

    fn to_bytes_representation(&self) -> (r: Vec<u8>) {
        be_encode(*self, 8)
    }
}

impl MSerialize for i64 {
    open spec fn wire_bytes(&self) -> Seq<u8> {
        be_bytes((*self as u64) as int, 8)
    }

    fn to_bytes_representation(&self) -> (r: Vec<u8>) {
        be_encode(*self as u64, 8)
    }
}

impl MSerialize for bool {
    open spec fn wire_bytes(&self) -> Seq<u8> {
        be_bytes(if *self { 1 } else { 0 }, 1)
    }

    fn to_bytes_representation(&self) -> (r: Vec<u8>) {
        let b: u8 = if *self { 1 } else { 0 };
        b.to_bytes_representation()
    }
}

impl MSerialize for String {
    open spec fn wire_bytes(&self) -> Seq<u8> {
        prefixed_string_bytes(self@)
    }

    fn to_bytes_representation(&self) -> (r: Vec<u8>) {
        prefixed_string_encode(self.as_str())
    }
}

/// The concatenated wire bytes of a sequence of values.
pub open spec fn concat_wire<T: MSerialize>(s: Seq<T>) -> Seq<u8>
    decreases s.len(),
{
    if s.len() == 0 {
        Seq::empty()
    } else {
        concat_wire(s.drop_last()) + s.last().wire_bytes()
    }
}

impl<T: MSerialize> MSerialize for Vec<T> {
    open spec fn wire_bytes(&self) -> Seq<u8> {
        concat_wire(self@)
    }

    fn to_bytes_representation(&self) -> (r: Vec<u8>) {
        let mut result: Vec<u8> = Vec::new();
        let n = self.len();
        for i in 0..n
            invariant
                n == self@.len(),
                result@ == concat_wire(self@.take(i as int)),
        {
            let mut part = self[i].to_bytes_representation();
            assert(self@.take(i + 1).drop_last() =~= self@.take(i as int));
            result.append(&mut part);
        }
        assert(self@.take(n as int) =~= self@);
        result
    }
}

impl<T: MSerialize> MSerialize for Option<T> {
    open spec fn wire_bytes(&self) -> Seq<u8> {
        match self {
            None => Seq::empty(),
            Some(x) => x.wire_bytes(),
        }
    }

    fn to_bytes_representation(&self) -> (r: Vec<u8>) {
        match self {
            None => Vec::new(),
            Some(x) => x.to_bytes_representation(),
        }
    }
}

/// Reading back the big-endian bytes of a number below `256^n` gives the number.
pub proof fn lemma_be_roundtrip(v: int, n: nat)
    requires
        0 <= v < pow256(n),
    ensures
        be_bytes(v, n).len() == n,
        be_value(be_bytes(v, n)) == v,
    decreases n,
{
    if n > 0 {
        let p = pow256((n - 1) as nat);
        vstd::arithmetic::div_mod::lemma_fundamental_div_mod(v, 256);
        assert(0 <= v / 256 < p) by (nonlinear_arith)
            requires
                0 <= v < 256 * p,
                v == 256 * (v / 256) + v % 256,
                0 <= v % 256 < 256,
        ;
        lemma_be_roundtrip(v / 256, (n - 1) as nat);
        let s = be_bytes(v, n);
        assert(s.drop_last() =~= be_bytes(v / 256, (n - 1) as nat));
    }
}

/// The wire bytes of a concatenation of sequences are the concatenation of
/// their wire bytes.
pub proof fn lemma_concat_wire_append<T: MSerialize>(s1: Seq<T>, s2: Seq<T>)
    ensures
        concat_wire(s1 + s2) == concat_wire(s1) + concat_wire(s2),
    decreases s2.len(),
{
    if s2.len() == 0 {
        assert(s1 + s2 =~= s1);
        assert(concat_wire(s1) + concat_wire(s2) =~= concat_wire(s1));
    } else {
        lemma_concat_wire_append(s1, s2.drop_last());
        assert((s1 + s2).drop_last() =~= s1 + s2.drop_last());
        assert((s1 + s2).last() == s2.last());
        assert(concat_wire(s1) + concat_wire(s2) =~= concat_wire(s1) + concat_wire(s2.drop_last())
            + s2.last().wire_bytes());
    }
}

/// A `Vec<u8>` is written as its bytes.
pub proof fn lemma_concat_wire_bytes(s: Seq<u8>)
    ensures
        concat_wire(s) == s,
    decreases s.len(),
{
    if s.len() > 0 {
        lemma_concat_wire_bytes(s.drop_last());
        let x = s.last();
        assert(x.wire_bytes() =~= seq![x]) by {
            assert(be_bytes(x as int / 256, 0) =~= Seq::<u8>::empty());
            assert(x as int % 256 == x as int);
        }
        assert(s.drop_last().push(x) =~= s);
    }
}

/// `be_bytes(v, n)` has `n` bytes.
pub proof fn lemma_be_bytes_len(v: int, n: nat)
    ensures
        be_bytes(v, n).len() == n,
    decreases n,
{
    if n > 0 {
        lemma_be_bytes_len(v / 256, (n - 1) as nat);
    }
}

pub proof fn lemma_pow256_values()
    ensures
        pow256(1) == 0x100,
        pow256(2) == 0x1_0000,
        pow256(4) == 0x1_0000_0000,
        pow256(8) == 0x1_0000_0000_0000_0000,
{
    reveal_with_fuel(pow256, 9);
}

/// Every integer is written as its big-endian two's-complement bytes, most
/// significant byte first, in as many bytes as its type has: read back as an
/// unsigned big-endian number, the bytes give the value (taken modulo
/// `256^size` for the signed types). A boolean is the single byte 1 or 0.
pub proof fn lemma_integers_big_endian(
    a: u8,
    b: i8,
    c: u16,
    d: i16,
    e: u32,
    f: i32,
    g: u64,
    h: i64,
    t: bool,
)
    ensures
        a.wire_bytes().len() == 1 && be_value(a.wire_bytes()) == a as int,
        b.wire_bytes().len() == 1 && be_value(b.wire_bytes()) == (b as u8) as int,
        c.wire_bytes().len() == 2 && be_value(c.wire_bytes()) == c as int,
        d.wire_bytes().len() == 2 && be_value(d.wire_bytes()) == (d as u16) as int,
        e.wire_bytes().len() == 4 && be_value(e.wire_bytes()) == e as int,
        f.wire_bytes().len() == 4 && be_value(f.wire_bytes()) == (f as u32) as int,
        g.wire_bytes().len() == 8 && be_value(g.wire_bytes()) == g as int,
        h.wire_bytes().len() == 8 && be_value(h.wire_bytes()) == (h as u64) as int,
        t.wire_bytes() == seq![if t { 1u8 } else { 0u8 }],
{
    lemma_pow256_values();
    lemma_be_roundtrip(a as int, 1);
    lemma_be_roundtrip((b as u8) as int, 1);
    lemma_be_roundtrip(c as int, 2);
    lemma_be_roundtrip((d as u16) as int, 2);
    lemma_be_roundtrip(e as int, 4);
    lemma_be_roundtrip((f as u32) as int, 4);
    lemma_be_roundtrip(g as int, 8);
    lemma_be_roundtrip((h as u64) as int, 8);
    let tv: int = if t { 1 } else { 0 };
    assert(be_bytes(tv / 256, 0) =~= Seq::<u8>::empty());
    assert(t.wire_bytes() =~= seq![if t { 1u8 } else { 0u8 }]);
}

/// The big-endian bytes of an `i32`, most significant first.
pub proof fn lemma_i32_bytes(v: i32)
    ensures
        v.wire_bytes() == seq![
            ((v as u32) / 0x100_0000) as u8,
            ((v as u32) / 0x1_0000 % 256) as u8,
            ((v as u32) / 0x100 % 256) as u8,
            ((v as u32) % 256) as u8,
        ],
{
    let u = (v as u32) as int;
    reveal_with_fuel(be_bytes, 5);
    assert(u / 256 / 256 == u / 0x1_0000) by {
        vstd::arithmetic::div_mod::lemma_div_denominator(u, 256, 256);
    }
    assert(u / 0x1_0000 / 256 == u / 0x100_0000) by {
        vstd::arithmetic::div_mod::lemma_div_denominator(u, 0x1_0000, 256);
    }
    assert(u / 0x100_0000 < 256);
    assert(v.wire_bytes() =~= seq![
        ((v as u32) / 0x100_0000) as u8,
        ((v as u32) / 0x1_0000 % 256) as u8,
        ((v as u32) / 0x100 % 256) as u8,
        ((v as u32) % 256) as u8,
    ]);
}

/// Any `n` bytes are the big-endian bytes of the number they write.
pub proof fn lemma_be_bytes_of_value(s: Seq<u8>)
    ensures
        be_value(s) >= 0,
        be_bytes(be_value(s), s.len()) == s,
    decreases s.len(),
{
    if s.len() > 0 {
        let t = s.drop_last();
        lemma_be_bytes_of_value(t);
        let v = be_value(s);
        let w = be_value(t);
        let l = s.last() as int;
        assert(v == w * 256 + l);
        assert(v / 256 == w && v % 256 == l) by {
            vstd::arithmetic::div_mod::lemma_fundamental_div_mod_converse(v, 256, w, l);
        }
        assert(t.len() == (s.len() - 1) as nat);
        assert(be_bytes(v, s.len()) == be_bytes(w, t.len()).push(l as u8));
        assert(t.push(s.last()) =~= s);
    }
}

} // verus!
