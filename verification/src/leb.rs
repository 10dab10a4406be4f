//! LEB128 variable-length integers as they travel on the wire.
//!
//! Signed LEB128 (the `leb128` crate) carries every length, packet id and
//! `VarInt` of the protocol; the byte count of an *unsigned* LEB128 encoding
//! (the `varint-simd` crate) is what the packet framing uses to size them.
use vstd::prelude::*;

verus! {

/// `128^n`.
pub open spec fn pow128(n: nat) -> int
    decreases n,
{
    if n == 0 {
        1
    } else {
        128 * pow128((n - 1) as nat)
    }
}

/// Absolute value, the measure of the encoding recursion.
pub open spec fn abs(v: int) -> int {
    if v < 0 {
        -v
    } else {
        v
    }
}

/// Signed LEB128 encoding of `v`: little-endian groups of seven bits, the high
/// bit of each byte set when more bytes follow, the last byte carrying the sign
/// in its bit 6.
pub open spec fn sleb128(v: int) -> Seq<u8>
    decreases abs(v),
{
    if -64 <= v < 64 {
        seq![(v % 128) as u8]
    } else {
        proof {
            lemma_div128_smaller(v);
        }
        seq![(v % 128 + 128) as u8] + sleb128(v / 128)
    }
}

/// Number of bytes of the unsigned LEB128 encoding of `v`.
pub open spec fn uleb128_len(v: nat) -> nat
    decreases v,
{
    if v < 128 {
        1
    } else {
        1 + uleb128_len(v / 128)
    }
}

/// The unsigned sum of the low seven bits of each byte, least significant first.
pub open spec fn sleb_sum(t: Seq<u8>) -> int
    decreases t.len(),
{
    if t.len() == 0 {
        0
    } else {
        (t[0] % 128) as int + 128 * sleb_sum(t.drop_first())
    }
}

/// The value of a complete signed LEB128 run `t` (its last byte has the high
/// bit clear): the seven-bit groups, sign-extended from bit 6 of the last byte.
pub open spec fn sleb_value(t: Seq<u8>) -> int {
    if t.len() > 0 && t.last() >= 64 {
        sleb_sum(t) - pow128(t.len())
    } else {
        sleb_sum(t)
    }
}

/// What reading a signed LEB128 number from the front of a byte stream yields.
pub enum LebScan {
    /// The value and the number of bytes it took.
    Value(int, nat),
    /// The number does not fit in an `i64`; the bytes up to the end of the run were consumed.
    Overflow(nat),
    /// The stream ended before the number did.
    Eof,
}

/// After an oversized tenth byte, bytes are skipped up to the end of the run.
pub open spec fn sleb_skip(s: Seq<u8>, j: nat) -> LebScan
    decreases s.len() - j,
{
    if j >= s.len() {
        LebScan::Eof
    } else if s[j as int] < 128 {
        LebScan::Overflow(j + 1)
    } else {
        sleb_skip(s, j + 1)
    }
}

/// Reading of `s`, byte `i` onwards, given that bytes `0..i` all had the high bit set.
/// The tenth byte (bit 63 onwards) may only be `0x00` or `0x7f`.
pub open spec fn sleb_scan_from(s: Seq<u8>, i: nat) -> LebScan
    decreases s.len() - i,
{
    if i >= s.len() {
        LebScan::Eof
    } else if i == 9 && s[9] != 0 && s[9] != 0x7f {
        sleb_skip(s, 9)
    } else if s[i as int] < 128 {
        LebScan::Value(sleb_value(s.take(i + 1 as int)), i + 1)
    } else {
        sleb_scan_from(s, i + 1)
    }
}

/// Reading one signed LEB128 number from the front of `s`.
pub open spec fn sleb_scan(s: Seq<u8>) -> LebScan {
    sleb_scan_from(s, 0)
}

/// Outcome of one signed LEB128 read, as the executable code sees it.
#[derive(Debug, Clone, Copy, PartialEq, Eq, Structural)]
pub enum LebRead {
    Value(i64),
    Overflow,
    Eof,
}

/// Calls `leb128::write::signed` on an empty `Vec<u8>` and returns what it wrote.
/// Claimed: the bytes are the signed LEB128 encoding `sleb128(v)` (the crate's loop
/// emits `v mod 128` and shifts right by seven until the rest is `0` or `-1` with
/// a matching sign bit). Writing into a `Vec` cannot fail.
#[verifier::external_body]
pub(crate) fn leb128_write_signed(v: i64) -> (r: Vec<u8>)
    ensures
        r@ == sleb128(v as int),
{
    let mut buf: Vec<u8> = Vec::new();
    let _ = leb128::write::signed(&mut buf, v);
    buf
}

/// Calls `leb128::read::signed` on a reader over `bytes` and returns the outcome
/// with the number of bytes left unread. Claimed: the outcome is `sleb_scan(bytes@)`
/// (value with its consumed length, `Overflow` after skipping the rest of the
/// run, or an I/O error, which on a byte slice can only be end of input).
#[verifier::external_body]
pub(crate) fn leb128_read_signed(bytes: &[u8]) -> (r: (LebRead, usize))
    ensures
        match sleb_scan(bytes@) {
            LebScan::Value(v, n) => r.0 matches LebRead::Value(x) && x == v && r.1 == bytes@.len()
                - n,
            LebScan::Overflow(n) => r.0 == LebRead::Overflow && r.1 == bytes@.len() - n,
            LebScan::Eof => r.0 == LebRead::Eof && r.1 == 0,
        },
{
    let mut reader: &[u8] = bytes;
    let res = leb128::read::signed(&mut reader);
    let kind = match res {
        Ok(x) => LebRead::Value(x),
        Err(leb128::read::Error::Overflow) => LebRead::Overflow,
        Err(leb128::read::Error::IoError(_)) => LebRead::Eof,
    };
    (kind, reader.len())
}

/// Calls `varint_simd::encode::<u64>` and keeps the byte count it returns.
/// Claimed: that count is the length of the unsigned LEB128 encoding of `v`.
#[verifier::external_body]
pub(crate) fn varint_simd_encoded_len(v: u64) -> (r: u8)
    ensures
        r as nat == uleb128_len(v as nat),
{
    varint_simd::encode::<u64>(v).1
}

// ---------------------------------------------------------------- lemmas
pub proof fn lemma_div128_smaller(v: int)
    requires
        !(-64 <= v < 64),
    ensures
        abs(v / 128) < abs(v),
{
    assert(v == 128 * (v / 128) + v % 128) by {
        vstd::arithmetic::div_mod::lemma_fundamental_div_mod(v, 128);
    }
}

/// `uleb128_len` is one exactly below 128.
pub proof fn lemma_uleb128_len_small(v: nat)
    requires
        v < 128,
    ensures
        uleb128_len(v) == 1,
{
}

/// Shape of a signed LEB128 encoding: every byte but the last has the high bit set,
/// and the run decodes back to the value.
pub proof fn lemma_sleb128_shape(v: int)
    ensures
        sleb128(v).len() >= 1,
        forall|j: int| 0 <= j < sleb128(v).len() - 1 ==> #[trigger] sleb128(v)[j] >= 128,
        sleb128(v).last() < 128,
        sleb_value(sleb128(v)) == v,
    decreases abs(v),
{
    let e = sleb128(v);
    vstd::arithmetic::div_mod::lemma_fundamental_div_mod(v, 128);
    if -64 <= v < 64 {
        assert(e.drop_first() =~= Seq::<u8>::empty());
        assert(sleb_sum(e.drop_first()) == 0);
        assert(pow128(0) == 1);
        assert(pow128(1) == 128);
        assert(e[0] as int == v % 128);
    } else {
        lemma_div128_smaller(v);
        let r = sleb128(v / 128);
        lemma_sleb128_shape(v / 128);
        assert(e.drop_first() =~= r);
        assert(e.last() == r.last());
        assert(e[0] % 128 == v % 128);
        assert(sleb_sum(e) == v % 128 + 128 * sleb_sum(r));
        assert(pow128(e.len()) == 128 * pow128(r.len()));
        assert(sleb_value(e) == v % 128 + 128 * sleb_value(r));
        assert forall|j: int| 0 <= j < e.len() - 1 implies #[trigger] e[j] >= 128 by {
            if j > 0 {
                assert(e[j] == r[j - 1]);
            }
        }
    }
}

/// Within `[-128^k, 128^k)` the encoding takes at most `k + 1` bytes, and when it
/// takes exactly `k + 1` its last byte is `0x00` or `0x7f`.
pub proof fn lemma_sleb128_len_bound(v: int, k: nat)
    requires
        -pow128(k) <= v < pow128(k),
    ensures
        sleb128(v).len() <= k + 1,
        sleb128(v).len() == k + 1 ==> (sleb128(v).last() == 0 || sleb128(v).last() == 0x7f),
    decreases k,
{
    if k == 0 {
        assert(v == -1 || v == 0);
    } else if -64 <= v < 64 {
    } else {
        let p = pow128((k - 1) as nat);
        assert(pow128(k) == 128 * p);
        vstd::arithmetic::div_mod::lemma_fundamental_div_mod(v, 128);
        assert(-p <= v / 128 < p) by (nonlinear_arith)
            requires
                -128 * p <= v < 128 * p,
                v == 128 * (v / 128) + v % 128,
                0 <= v % 128 < 128,
        ;
        lemma_sleb128_len_bound(v / 128, (k - 1) as nat);
        let e = sleb128(v);
        assert(e.last() == sleb128(v / 128).last());
    }
}

pub proof fn lemma_pow128_9()
    ensures
        pow128(9) == 0x8000_0000_0000_0000,
{
    reveal_with_fuel(pow128, 10);
}

proof fn lemma_scan_encoded(e: Seq<u8>, rest: Seq<u8>, i: nat)
    requires
        1 <= e.len() <= 10,
        forall|j: int| 0 <= j < e.len() - 1 ==> #[trigger] e[j] >= 128,
        e.last() < 128,
        e.len() == 10 ==> (e[9] == 0 || e[9] == 0x7f),
        i < e.len(),
    ensures
        sleb_scan_from(e + rest, i) == LebScan::Value(sleb_value(e), e.len()),
    decreases e.len() - i,
{
    let s = e + rest;
    assert(s.take(e.len() as int) =~= e);
    if i < e.len() - 1 {
        assert(s[i as int] == e[i as int]);
        lemma_scan_encoded(e, rest, i + 1);
    } else {
        assert(s[i as int] == e.last());
    }
}

/// Facts about the encoding of an `i64`: at most ten bytes, in the shape the
/// reader accepts, decoding back to the value.
pub proof fn lemma_sleb128_i64(v: i64)
    ensures
        1 <= sleb128(v as int).len() <= 10,
        sleb_value(sleb128(v as int)) == v as int,
{
    lemma_sleb128_shape(v as int);
    lemma_pow128_9();
    lemma_sleb128_len_bound(v as int, 9);
}

/// A read gives back what a write wrote: reading a signed LEB128 number from the
/// encoding of `v`, whatever follows it, yields `v` and consumes exactly the
/// encoding.
pub proof fn lemma_sleb128_roundtrip(v: i64, rest: Seq<u8>)
    ensures
        sleb_scan(sleb128(v as int) + rest) == LebScan::Value(
            v as int,
            sleb128(v as int).len(),
        ),
{
    let e = sleb128(v as int);
    lemma_sleb128_shape(v as int);
    lemma_pow128_9();
    lemma_sleb128_len_bound(v as int, 9);
    lemma_scan_encoded(e, rest, 0);
}

proof fn lemma_skip_bounds(s: Seq<u8>, j: nat)
    ensures
        sleb_skip(s, j) matches LebScan::Overflow(n) ==> j < n <= s.len(),
        !(sleb_skip(s, j) is Value),
    decreases s.len() - j,
{
    if j < s.len() && s[j as int] >= 128 {
        lemma_skip_bounds(s, j + 1);
    }
}

proof fn lemma_scan_from_bounds(s: Seq<u8>, i: nat)
    ensures
        sleb_scan_from(s, i) matches LebScan::Value(_v, n) ==> i < n <= s.len(),
        sleb_scan_from(s, i) matches LebScan::Overflow(n) ==> i < n <= s.len(),
    decreases s.len() - i,
{
    if i < s.len() {
        if i == 9 && s[9] != 0 && s[9] != 0x7f {
            lemma_skip_bounds(s, 9);
        } else if s[i as int] < 128 {
            assert(sleb_scan_from(s, i) == LebScan::Value(sleb_value(s.take(i + 1 as int)), i + 1));
        } else {
            lemma_scan_from_bounds(s, i + 1);
            assert(sleb_scan_from(s, i) == sleb_scan_from(s, i + 1));
        }
    }
}

/// A read consumes at least one byte and no more than there are.
pub proof fn lemma_scan_bounds(s: Seq<u8>)
    ensures
        sleb_scan(s) matches LebScan::Value(_v, n) ==> 1 <= n <= s.len(),
        sleb_scan(s) matches LebScan::Overflow(n) ==> 1 <= n <= s.len(),
{
    lemma_scan_from_bounds(s, 0);
}

/// An unsigned LEB128 encoding of a `u64` takes at most ten bytes.
pub proof fn lemma_uleb128_len_u64(v: u64)
    ensures
        1 <= uleb128_len(v as nat) <= 10,
{
    lemma_pow128_9();
    lemma_uleb128_len_bound(v as nat, 9);
}

proof fn lemma_uleb128_len_bound(v: nat, k: nat)
    requires
        v < 2 * pow128(k),
    ensures
        1 <= uleb128_len(v) <= k + 1,
    decreases k,
{
    if v >= 128 {
        if k == 0 {
        } else {
            let p = pow128((k - 1) as nat);
            assert(pow128(k) == 128 * p);
            assert(v / 128 < 2 * p) by (nonlinear_arith)
                requires
                    v < 256 * p,
                    v >= 0,
            ;
            lemma_uleb128_len_bound(v / 128, (k - 1) as nat);
        }
    }
}

/// Values in `0..64` take a single byte, the value itself.
pub proof fn lemma_sleb128_small(v: int)
    requires
        0 <= v < 64,
    ensures
        sleb128(v) == seq![v as u8],
{
}

proof fn lemma_sum_bounds(t: Seq<u8>)
    ensures
        0 <= sleb_sum(t) < pow128(t.len()),
    decreases t.len(),
{
    if t.len() > 0 {
        lemma_sum_bounds(t.drop_first());
        assert(pow128(t.len()) == 128 * pow128(t.drop_first().len()));
    }
}

proof fn lemma_sum_last(t: Seq<u8>)
    requires
        t.len() >= 1,
    ensures
        sleb_sum(t) == sleb_sum(t.drop_last()) + (t.last() % 128) as int * pow128(
            (t.len() - 1) as nat,
        ),
    decreases t.len(),
{
    if t.len() == 1 {
        assert(t.drop_first().len() == 0);
        assert(t.drop_last().len() == 0);
        assert(t.last() == t[0]);
        assert(pow128(0) == 1);
        assert(sleb_sum(t.drop_first()) == 0);
        assert(sleb_sum(t.drop_last()) == 0);
    } else {
        let r = t.drop_first();
        lemma_sum_last(r);
        assert(t.drop_last().drop_first() =~= r.drop_last());
        assert(t.drop_last()[0] == t[0]);
        assert(r.last() == t.last());
        let p = pow128((r.len() - 1) as nat);
        assert(pow128((t.len() - 1) as nat) == 128 * p);
        let l = (t.last() % 128) as int;
        assert(128 * (sleb_sum(r.drop_last()) + l * p) == 128 * sleb_sum(r.drop_last()) + l * (128
            * p)) by (nonlinear_arith);
        assert(sleb_sum(t) == t[0] % 128 + 128 * sleb_sum(r));
        assert(sleb_sum(t.drop_last()) == t[0] % 128 + 128 * sleb_sum(r.drop_last()));
    }
}

proof fn lemma_pow128_pos(k: nat)
    ensures
        1 <= pow128(k),
    decreases k,
{
    if k > 0 {
        lemma_pow128_pos((k - 1) as nat);
    }
}

proof fn lemma_pow128_monotone(k: nat)
    requires
        k <= 8,
    ensures
        1 <= pow128(k) <= pow128(8),
    decreases 8 - k,
{
    lemma_pow128_pos(k);
    if k < 8 {
        lemma_pow128_monotone(k + 1);
        assert(pow128(k + 1) == 128 * pow128(k));
    }
}

proof fn lemma_scan_from_value(s: Seq<u8>, i: nat)
    requires
        i <= 9,
    ensures
        sleb_scan_from(s, i) matches LebScan::Value(v, n) ==> {
            &&& i < n <= 10
            &&& n <= s.len()
            &&& v == sleb_value(s.take(n as int))
            &&& s[n - 1] < 128
            &&& n == 10 ==> (s[9] == 0 || s[9] == 0x7f)
        },
    decreases 9 - i,
{
    if i < s.len() {
        if i == 9 && s[9] != 0 && s[9] != 0x7f {
            lemma_skip_bounds(s, 9);
        } else if s[i as int] < 128 {
        } else {
            if i < 9 {
                lemma_scan_from_value(s, i + 1);
            }
        }
    }
}

/// A value read is always an `i64`: the reader refuses (with `Overflow`) any
/// run that would not fit.
pub proof fn lemma_scan_value_in_i64(s: Seq<u8>)
    ensures
        sleb_scan(s) matches LebScan::Value(v, _n) ==> i64::MIN <= v <= i64::MAX,
{
    lemma_scan_from_value(s, 0);
    if let LebScan::Value(v, n) = sleb_scan(s) {
        let t = s.take(n as int);
        let last = t.last();
        assert(last == s[n - 1]);
        lemma_sum_last(t);
        lemma_sum_bounds(t.drop_last());
        let p = pow128((n - 1) as nat);
        let d = sleb_sum(t.drop_last());
        assert(t.drop_last().len() == n - 1);
        assert(0 <= d < p);
        lemma_pow128_pos((n - 1) as nat);
        lemma_pow128_9();
        reveal_with_fuel(pow128, 10);
        assert(pow128(8) == 0x0100_0000_0000_0000);
        if n <= 9 {
            lemma_pow128_monotone((n - 1) as nat);
        }
        assert(pow128(n) == 128 * p);
        let l = (last % 128) as int;
        assert(l == last as int);
        if last < 64 {
            assert(v == d + l * p);
            assert(d + l * p < 64 * p) by (nonlinear_arith)
                requires
                    0 <= d < p,
                    0 <= l < 64,
            ;
            if n == 10 {
                assert(l == 0);
                assert(l * p == 0) by (nonlinear_arith)
                    requires
                        l == 0,
                ;
                assert(v == d);
                assert(p == 0x8000_0000_0000_0000);
                assert(v < 0x8000_0000_0000_0000);
            } else {
                assert(p <= 0x0100_0000_0000_0000);
                assert(v < 0x4000_0000_0000_0000) by (nonlinear_arith)
                    requires
                        v < 64 * p,
                        p <= 0x0100_0000_0000_0000,
                ;
            }
            assert(0 <= v);
        } else {
            assert(v == d + l * p - 128 * p);
            assert(d + l * p - 128 * p >= -64 * p) by (nonlinear_arith)
                requires
                    d >= 0,
                    64 <= l < 128,
                    p >= 1,
            ;
            assert(d + l * p - 128 * p < 0) by (nonlinear_arith)
                requires
                    0 <= d < p,
                    0 <= l < 128,
            ;
            if n == 10 {
                assert(l == 127);
                assert(p == 0x8000_0000_0000_0000);
                assert(d + l * p - 128 * p == d - p) by (nonlinear_arith)
                    requires
                        l == 127,
                ;
                assert(v == d - p);
                assert(v >= -0x8000_0000_0000_0000);
            } else {
                assert(p <= 0x0100_0000_0000_0000);
                assert(v >= -0x4000_0000_0000_0000) by (nonlinear_arith)
                    requires
                        v >= -64 * p,
                        p <= 0x0100_0000_0000_0000,
                ;
            }
            assert(v < 0);
        }
        assert(i64::MIN <= v <= i64::MAX);
    }
}

proof fn lemma_scan_continuations_eof(t: Seq<u8>, i: nat)
    requires
        t.len() <= 9,
        forall|j: int| 0 <= j < t.len() ==> #[trigger] t[j] >= 128,
    ensures
        sleb_scan_from(t, i) == LebScan::Eof,
    decreases t.len() - i,
{
    if i < t.len() {
        lemma_scan_continuations_eof(t, i + 1);
    }
}

/// A proper prefix of the encoding of an `i64` does not hold a number yet:
/// reading it ends with end of input.
pub proof fn lemma_sleb128_prefix_eof(v: i64, k: int)
    requires
        0 <= k < sleb128(v as int).len(),
    ensures
        sleb_scan(sleb128(v as int).take(k)) == LebScan::Eof,
{
    let e = sleb128(v as int);
    lemma_sleb128_shape(v as int);
    lemma_sleb128_i64(v);
    let t = e.take(k);
    assert forall|j: int| 0 <= j < t.len() implies #[trigger] t[j] >= 128 by {
        assert(t[j] == e[j]);
    }
    lemma_scan_continuations_eof(t, 0);
}

} // verus!
