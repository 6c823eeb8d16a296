//! Codec layer.
//!
//! Two independent byte-level contracts, used by every table:
//!
//! - `encode`/`decode`: fixed-width and order-preserving. Anything used as
//!   a primary key or a dup-sort sub-key is encoded this way, because the
//!   storage engine sorts keys by their byte strings: for any two values,
//!   the natural order of the values and the lexicographic order of their
//!   encodings agree ([`lemma_encode_block_number_monotonic`],
//!   [`lemma_encode_felt_monotonic`]).
//! - `compress`/`decompress`: variable-width, with no ordering guarantee,
//!   for values of unbounded size such as block-number lists. Decompression
//!   inverts compression exactly ([`lemma_block_list_round_trip`]).
//!
//! Block numbers are encoded as 8 bytes big-endian, field elements as 32
//! bytes big-endian (their four limbs in order). A block-number list is
//! compressed as an 8-byte big-endian element count followed by each
//! element, 8 bytes big-endian.

use vstd::prelude::*;

use crate::felt::{Felt, FELT_HIGH_LIMB_BOUND};

verus! {

/// Errors raised by the codec layer. A failed decode means the input bytes
/// cannot be a value of the requested type; callers treat the data as
/// corrupt and never retry.
#[derive(Clone, Copy, Debug, PartialEq, Eq, Structural)]
pub enum CodecError {
    /// A fixed-width decode was given input of the wrong size.
    InvalidLength,
    /// The bytes cannot represent a valid value, e.g. an out-of-range
    /// field element or a trailing remnant in a compressed payload.
    Corrupted,
    /// A variable-width payload ended before the length it announces.
    UnexpectedEof,
}

/// The 8-byte big-endian encoding of a 64-bit block number.
pub open spec fn spec_encode_u64(x: u64) -> Seq<u8> {
    seq![
        ((x >> 56) & 0xff) as u8,
        ((x >> 48) & 0xff) as u8,
        ((x >> 40) & 0xff) as u8,
        ((x >> 32) & 0xff) as u8,
        ((x >> 24) & 0xff) as u8,
        ((x >> 16) & 0xff) as u8,
        ((x >> 8) & 0xff) as u8,
        (x & 0xff) as u8,
    ]
}

/// The 64-bit value denoted by 8 big-endian bytes.
pub open spec fn spec_decode_u64(s: Seq<u8>) -> u64
    recommends
        s.len() == 8,
{
    ((s[0] as u64) << 56) | ((s[1] as u64) << 48) | ((s[2] as u64) << 40)
        | ((s[3] as u64) << 32) | ((s[4] as u64) << 24) | ((s[5] as u64) << 16)
        | ((s[6] as u64) << 8) | (s[7] as u64)
}

/// Decoding inverts encoding on every 64-bit value.
pub proof fn lemma_u64_codec_inverse(x: u64)
    ensures
        spec_encode_u64(x).len() == 8,
        spec_decode_u64(spec_encode_u64(x)) == x,
{
    assert({
        &&& (x >> 56) & 0xff < 256
        &&& (x >> 48) & 0xff < 256
        &&& (x >> 40) & 0xff < 256
        &&& (x >> 32) & 0xff < 256
        &&& (x >> 24) & 0xff < 256
        &&& (x >> 16) & 0xff < 256
        &&& (x >> 8) & 0xff < 256
        &&& x & 0xff < 256
    }) by (bit_vector);
    assert(((((x >> 56) & 0xff) as u8 as u64) << 56)
        | ((((x >> 48) & 0xff) as u8 as u64) << 48)
        | ((((x >> 40) & 0xff) as u8 as u64) << 40)
        | ((((x >> 32) & 0xff) as u8 as u64) << 32)
        | ((((x >> 24) & 0xff) as u8 as u64) << 24)
        | ((((x >> 16) & 0xff) as u8 as u64) << 16)
        | ((((x >> 8) & 0xff) as u8 as u64) << 8)
        | ((x & 0xff) as u8 as u64) == x) by (bit_vector);
}

/// Strict lexicographic order on byte strings: the order in which the
/// storage engine keeps its keys.
pub open spec fn lex_lt(a: Seq<u8>, b: Seq<u8>) -> bool
    decreases a.len(),
{
    if b.len() == 0 {
        false
    } else if a.len() == 0 {
        true
    } else {
        a[0] < b[0] || (a[0] == b[0] && lex_lt(a.drop_first(), b.drop_first()))
    }
}

/// Two strings of equal length compare lexicographically by their first
/// point of difference.
pub proof fn lemma_lex_from_first_diff(a: Seq<u8>, b: Seq<u8>, i: int)
    requires
        a.len() == b.len(),
        0 <= i < a.len(),
        forall|j: int| 0 <= j < i ==> a[j] == b[j],
        a[i] < b[i],
    ensures
        lex_lt(a, b),
    decreases i,
{
    if i == 0 {
        assert(a[0] < b[0]);
    } else {
        assert(a[0] == b[0]);
        let a1 = a.drop_first();
        let b1 = b.drop_first();
        assert forall|j: int| 0 <= j < i - 1 implies a1[j] == b1[j] by {
            assert(a1[j] == a[j + 1]);
            assert(b1[j] == b[j + 1]);
        }
        assert(a1[i - 1] == a[i] && b1[i - 1] == b[i]);
        lemma_lex_from_first_diff(a1, b1, i - 1);
    }
}

/// Appending to two strings of equal length that already compare strictly
/// keeps them comparing strictly, whatever is appended.
pub proof fn lemma_lex_concat_lt(x1: Seq<u8>, y1: Seq<u8>, x2: Seq<u8>, y2: Seq<u8>)
    requires
        x1.len() == y1.len(),
        lex_lt(x1, y1),
    ensures
        lex_lt(x1 + x2, y1 + y2),
    decreases x1.len(),
{
    if x1.len() == 0 {
        assert(false);
    } else {
        let a = x1 + x2;
        let b = y1 + y2;
        assert(a[0] == x1[0] && b[0] == y1[0]);
        if x1[0] == y1[0] {
            lemma_lex_concat_lt(x1.drop_first(), y1.drop_first(), x2, y2);
            assert(a.drop_first() =~= x1.drop_first() + x2);
            assert(b.drop_first() =~= y1.drop_first() + y2);
        }
    }
}

/// A shared prefix does not affect the lexicographic comparison of what
/// follows it.
pub proof fn lemma_lex_concat_eq_prefix(p: Seq<u8>, x: Seq<u8>, y: Seq<u8>)
    requires
        lex_lt(x, y),
    ensures
        lex_lt(p + x, p + y),
    decreases p.len(),
{
    if p.len() == 0 {
        assert(p + x =~= x);
        assert(p + y =~= y);
    } else {
        let a = p + x;
        let b = p + y;
        assert(a[0] == p[0] && b[0] == p[0]);
        assert(b.len() > 0);
        lemma_lex_concat_eq_prefix(p.drop_first(), x, y);
        assert(a.drop_first() =~= p.drop_first() + x);
        assert(b.drop_first() =~= p.drop_first() + y);
    }
}

/// No byte string compares strictly below itself.
pub proof fn lemma_lex_irreflexive(a: Seq<u8>)
    ensures
        !lex_lt(a, a),
    decreases a.len(),
{
    if a.len() > 0 {
        lemma_lex_irreflexive(a.drop_first());
    }
}

/// Monotonic encoding of block numbers: two block numbers compare
/// numerically exactly as their 8-byte encodings compare
/// byte-lexicographically.
pub proof fn lemma_encode_block_number_order(a: u64, b: u64)
    ensures
        a < b <==> lex_lt(spec_encode_u64(a), spec_encode_u64(b)),
{
    if a < b {
        lemma_encode_block_number_monotonic(a, b);
    } else if a == b {
        lemma_lex_irreflexive(spec_encode_u64(a));
    } else {
        lemma_encode_block_number_monotonic(b, a);
        lemma_lex_asymmetric(spec_encode_u64(b), spec_encode_u64(a));
    }
}

/// Two byte strings never compare strictly below one another both ways.
pub proof fn lemma_lex_asymmetric(a: Seq<u8>, b: Seq<u8>)
    requires
        lex_lt(a, b),
    ensures
        !lex_lt(b, a),
    decreases a.len(),
{
    if a.len() > 0 && b.len() > 0 && a[0] == b[0] {
        lemma_lex_asymmetric(a.drop_first(), b.drop_first());
    }
}

/// Monotonic encoding of block numbers: the numeric order of two block
/// numbers and the lexicographic order of their 8-byte encodings agree.
pub proof fn lemma_encode_block_number_monotonic(a: u64, b: u64)
    requires
        a < b,
    ensures
        lex_lt(spec_encode_u64(a), spec_encode_u64(b)),
{
    let sa = spec_encode_u64(a);
    let sb = spec_encode_u64(b);
    assert({
        &&& (a >> 56) & 0xff < 256 && (b >> 56) & 0xff < 256
        &&& (a >> 48) & 0xff < 256 && (b >> 48) & 0xff < 256
        &&& (a >> 40) & 0xff < 256 && (b >> 40) & 0xff < 256
        &&& (a >> 32) & 0xff < 256 && (b >> 32) & 0xff < 256
        &&& (a >> 24) & 0xff < 256 && (b >> 24) & 0xff < 256
        &&& (a >> 16) & 0xff < 256 && (b >> 16) & 0xff < 256
        &&& (a >> 8) & 0xff < 256 && (b >> 8) & 0xff < 256
        &&& a & 0xff < 256 && b & 0xff < 256
    }) by (bit_vector);
    assert({
        ||| (a >> 56) & 0xff < (b >> 56) & 0xff
        ||| ((a >> 56) & 0xff == (b >> 56) & 0xff && (a >> 48) & 0xff < (b >> 48) & 0xff)
        ||| ((a >> 56) & 0xff == (b >> 56) & 0xff && (a >> 48) & 0xff == (b >> 48) & 0xff
            && (a >> 40) & 0xff < (b >> 40) & 0xff)
        ||| ((a >> 56) & 0xff == (b >> 56) & 0xff && (a >> 48) & 0xff == (b >> 48) & 0xff
            && (a >> 40) & 0xff == (b >> 40) & 0xff && (a >> 32) & 0xff < (b >> 32) & 0xff)
        ||| ((a >> 56) & 0xff == (b >> 56) & 0xff && (a >> 48) & 0xff == (b >> 48) & 0xff
            && (a >> 40) & 0xff == (b >> 40) & 0xff && (a >> 32) & 0xff == (b >> 32) & 0xff
            && (a >> 24) & 0xff < (b >> 24) & 0xff)
        ||| ((a >> 56) & 0xff == (b >> 56) & 0xff && (a >> 48) & 0xff == (b >> 48) & 0xff
            && (a >> 40) & 0xff == (b >> 40) & 0xff && (a >> 32) & 0xff == (b >> 32) & 0xff
            && (a >> 24) & 0xff == (b >> 24) & 0xff && (a >> 16) & 0xff < (b >> 16) & 0xff)
        ||| ((a >> 56) & 0xff == (b >> 56) & 0xff && (a >> 48) & 0xff == (b >> 48) & 0xff
            && (a >> 40) & 0xff == (b >> 40) & 0xff && (a >> 32) & 0xff == (b >> 32) & 0xff
            && (a >> 24) & 0xff == (b >> 24) & 0xff && (a >> 16) & 0xff == (b >> 16) & 0xff
            && (a >> 8) & 0xff < (b >> 8) & 0xff)
        ||| ((a >> 56) & 0xff == (b >> 56) & 0xff && (a >> 48) & 0xff == (b >> 48) & 0xff
            && (a >> 40) & 0xff == (b >> 40) & 0xff && (a >> 32) & 0xff == (b >> 32) & 0xff
            && (a >> 24) & 0xff == (b >> 24) & 0xff && (a >> 16) & 0xff == (b >> 16) & 0xff
            && (a >> 8) & 0xff == (b >> 8) & 0xff && a & 0xff < b & 0xff)
    }) by (bit_vector)
        requires
            a < b,
    ;
    if (a >> 56) & 0xff < (b >> 56) & 0xff {
        lemma_lex_from_first_diff(sa, sb, 0);
    } else if (a >> 48) & 0xff < (b >> 48) & 0xff {
        lemma_lex_from_first_diff(sa, sb, 1);
    } else if (a >> 40) & 0xff < (b >> 40) & 0xff {
        lemma_lex_from_first_diff(sa, sb, 2);
    } else if (a >> 32) & 0xff < (b >> 32) & 0xff {
        lemma_lex_from_first_diff(sa, sb, 3);
    } else if (a >> 24) & 0xff < (b >> 24) & 0xff {
        lemma_lex_from_first_diff(sa, sb, 4);
    } else if (a >> 16) & 0xff < (b >> 16) & 0xff {
        lemma_lex_from_first_diff(sa, sb, 5);
    } else if (a >> 8) & 0xff < (b >> 8) & 0xff {
        lemma_lex_from_first_diff(sa, sb, 6);
    } else {
        lemma_lex_from_first_diff(sa, sb, 7);
    }
}

/// Encodes a block number as 8 bytes, big-endian.
pub fn encode_block_number(x: u64) -> (r: Vec<u8>)
    ensures
        r@ == spec_encode_u64(x),
        r@.len() == 8,
{
    let mut r: Vec<u8> = Vec::new();
    r.push(((x >> 56) & 0xff) as u8);
    r.push(((x >> 48) & 0xff) as u8);
    r.push(((x >> 40) & 0xff) as u8);
    r.push(((x >> 32) & 0xff) as u8);
    r.push(((x >> 24) & 0xff) as u8);
    r.push(((x >> 16) & 0xff) as u8);
    r.push(((x >> 8) & 0xff) as u8);
    r.push((x & 0xff) as u8);
    assert(r@ =~= spec_encode_u64(x));
    r
}

/// Reads the 8-byte big-endian integer at `off`.
fn read_u64_be(bytes: &[u8], off: usize) -> (r: u64)
    requires
        off + 8 <= bytes@.len(),
    ensures
        r == spec_decode_u64(bytes@.subrange(off as int, off as int + 8)),
{
    let r = ((bytes[off] as u64) << 56) | ((bytes[off + 1] as u64) << 48)
        | ((bytes[off + 2] as u64) << 40) | ((bytes[off + 3] as u64) << 32)
        | ((bytes[off + 4] as u64) << 24) | ((bytes[off + 5] as u64) << 16)
        | ((bytes[off + 6] as u64) << 8) | (bytes[off + 7] as u64);
    proof {
        let s = bytes@.subrange(off as int, off as int + 8);
        assert(s[0] == bytes@[off as int] && s[1] == bytes@[off as int + 1]
            && s[2] == bytes@[off as int + 2] && s[3] == bytes@[off as int + 3]
            && s[4] == bytes@[off as int + 4] && s[5] == bytes@[off as int + 5]
            && s[6] == bytes@[off as int + 6] && s[7] == bytes@[off as int + 7]);
    }
    r
}

/// Decodes a block number from exactly 8 big-endian bytes.
///
/// Fails with `InvalidLength` if and only if the input is not exactly 8
/// bytes; every 8-byte input decodes successfully.
pub fn decode_block_number(bytes: &[u8]) -> (r: Result<u64, CodecError>)
    ensures
        bytes@.len() == 8 ==> r == Ok::<u64, CodecError>(spec_decode_u64(bytes@)),
        bytes@.len() != 8 ==> r == Err::<u64, CodecError>(CodecError::InvalidLength),
{
    if bytes.len() != 8 {
        return Err(CodecError::InvalidLength);
    }
    let v = read_u64_be(bytes, 0);
    proof {
        assert(bytes@.subrange(0, 8) =~= bytes@);
    }
    Ok(v)
}

/// The 32-byte big-endian encoding of a field element: its four limbs in
/// order, 8 bytes each.
pub open spec fn spec_encode_felt(f: Felt) -> Seq<u8> {
    spec_encode_u64(f.l0) + spec_encode_u64(f.l1) + spec_encode_u64(f.l2)
        + spec_encode_u64(f.l3)
}

/// The decode of 32 bytes as a field element: fails with `Corrupted` when
/// the bytes denote a value out of the field's range.
pub open spec fn spec_decode_felt(s: Seq<u8>) -> Result<Felt, CodecError>
    recommends
        s.len() == 32,
{
    let f = Felt {
        l0: spec_decode_u64(s.subrange(0, 8)),
        l1: spec_decode_u64(s.subrange(8, 16)),
        l2: spec_decode_u64(s.subrange(16, 24)),
        l3: spec_decode_u64(s.subrange(24, 32)),
    };
    if f.wf() {
        Ok(f)
    } else {
        Err(CodecError::Corrupted)
    }
}

/// Decoding inverts encoding on every well-formed field element.
pub proof fn lemma_felt_codec_inverse(f: Felt)
    requires
        f.wf(),
    ensures
        spec_encode_felt(f).len() == 32,
        spec_decode_felt(spec_encode_felt(f)) == Ok::<Felt, CodecError>(f),
{
    let s = spec_encode_felt(f);
    lemma_u64_codec_inverse(f.l0);
    lemma_u64_codec_inverse(f.l1);
    lemma_u64_codec_inverse(f.l2);
    lemma_u64_codec_inverse(f.l3);
    assert(s.subrange(0, 8) =~= spec_encode_u64(f.l0));
    assert(s.subrange(8, 16) =~= spec_encode_u64(f.l1));
    assert(s.subrange(16, 24) =~= spec_encode_u64(f.l2));
    assert(s.subrange(24, 32) =~= spec_encode_u64(f.l3));
}

/// Monotonic encoding of field elements: two field elements compare
/// numerically exactly as their 32-byte encodings compare
/// byte-lexicographically.
pub proof fn lemma_encode_felt_order(a: Felt, b: Felt)
    ensures
        a.spec_lt(b) <==> lex_lt(spec_encode_felt(a), spec_encode_felt(b)),
{
    if a.spec_lt(b) {
        lemma_encode_felt_monotonic(a, b);
    } else if a == b {
        lemma_lex_irreflexive(spec_encode_felt(a));
    } else {
        assert(b.spec_lt(a));
        lemma_encode_felt_monotonic(b, a);
        lemma_lex_asymmetric(spec_encode_felt(b), spec_encode_felt(a));
    }
}

/// Monotonic encoding of field elements: the numeric order of two field
/// elements and the lexicographic order of their 32-byte encodings agree.
pub proof fn lemma_encode_felt_monotonic(a: Felt, b: Felt)
    requires
        a.spec_lt(b),
    ensures
        lex_lt(spec_encode_felt(a), spec_encode_felt(b)),
{
    let ea = spec_encode_felt(a);
    let eb = spec_encode_felt(b);
    if a.l0 != b.l0 {
        lemma_encode_block_number_monotonic(a.l0, b.l0);
        lemma_lex_concat_lt(
            spec_encode_u64(a.l0),
            spec_encode_u64(b.l0),
            spec_encode_u64(a.l1) + spec_encode_u64(a.l2) + spec_encode_u64(a.l3),
            spec_encode_u64(b.l1) + spec_encode_u64(b.l2) + spec_encode_u64(b.l3),
        );
        assert(ea =~= spec_encode_u64(a.l0)
            + (spec_encode_u64(a.l1) + spec_encode_u64(a.l2) + spec_encode_u64(a.l3)));
        assert(eb =~= spec_encode_u64(b.l0)
            + (spec_encode_u64(b.l1) + spec_encode_u64(b.l2) + spec_encode_u64(b.l3)));
    } else if a.l1 != b.l1 {
        lemma_encode_block_number_monotonic(a.l1, b.l1);
        lemma_lex_concat_lt(
            spec_encode_u64(a.l1),
            spec_encode_u64(b.l1),
            spec_encode_u64(a.l2) + spec_encode_u64(a.l3),
            spec_encode_u64(b.l2) + spec_encode_u64(b.l3),
        );
        lemma_lex_concat_eq_prefix(
            spec_encode_u64(a.l0),
            spec_encode_u64(a.l1) + (spec_encode_u64(a.l2) + spec_encode_u64(a.l3)),
            spec_encode_u64(b.l1) + (spec_encode_u64(b.l2) + spec_encode_u64(b.l3)),
        );
        assert(ea =~= spec_encode_u64(a.l0)
            + (spec_encode_u64(a.l1) + (spec_encode_u64(a.l2) + spec_encode_u64(a.l3))));
        assert(eb =~= spec_encode_u64(b.l0)
            + (spec_encode_u64(b.l1) + (spec_encode_u64(b.l2) + spec_encode_u64(b.l3))));
    } else if a.l2 != b.l2 {
        lemma_encode_block_number_monotonic(a.l2, b.l2);
        lemma_lex_concat_lt(
            spec_encode_u64(a.l2),
            spec_encode_u64(b.l2),
            spec_encode_u64(a.l3),
            spec_encode_u64(b.l3),
        );
        lemma_lex_concat_eq_prefix(
            spec_encode_u64(a.l0) + spec_encode_u64(a.l1),
            spec_encode_u64(a.l2) + spec_encode_u64(a.l3),
            spec_encode_u64(b.l2) + spec_encode_u64(b.l3),
        );
        assert(ea =~= (spec_encode_u64(a.l0) + spec_encode_u64(a.l1))
            + (spec_encode_u64(a.l2) + spec_encode_u64(a.l3)));
        assert(eb =~= (spec_encode_u64(b.l0) + spec_encode_u64(b.l1))
            + (spec_encode_u64(b.l2) + spec_encode_u64(b.l3)));
    } else {
        lemma_encode_block_number_monotonic(a.l3, b.l3);
        lemma_lex_concat_eq_prefix(
            spec_encode_u64(a.l0) + spec_encode_u64(a.l1) + spec_encode_u64(a.l2),
            spec_encode_u64(a.l3),
            spec_encode_u64(b.l3),
        );
    }
}

/// Encodes a field element as 32 bytes, big-endian.
pub fn encode_felt(f: &Felt) -> (r: Vec<u8>)
    ensures
        r@ == spec_encode_felt(*f),
        r@.len() == 32,
{
    let mut r = encode_block_number(f.l0);
    let mut r1 = encode_block_number(f.l1);
    let mut r2 = encode_block_number(f.l2);
    let mut r3 = encode_block_number(f.l3);
    r.append(&mut r1);
    r.append(&mut r2);
    r.append(&mut r3);
    assert(r@ =~= spec_encode_felt(*f));
    r
}

/// Decodes the 32 bytes at `off` as a field element.
///
/// Fails with `Corrupted` if and only if the bytes denote a value outside
/// the field's range; the well-formedness bound of [`Felt`] is exactly what
/// it checks.
fn read_felt(bytes: &[u8], off: usize) -> (r: Result<Felt, CodecError>)
    requires
        off + 32 <= bytes@.len(),
    ensures
        r == spec_decode_felt(bytes@.subrange(off as int, off as int + 32)),
        r is Ok ==> r->Ok_0.wf(),
{
    let n = bytes.len();
    assert(off + 32 <= n);
    let l0 = read_u64_be(bytes, off);
    let l1 = read_u64_be(bytes, off + 8);
    let l2 = read_u64_be(bytes, off + 16);
    let l3 = read_u64_be(bytes, off + 24);
    proof {
        let s = bytes@.subrange(off as int, off as int + 32);
        assert(s.subrange(0, 8) =~= bytes@.subrange(off as int, off as int + 8));
        assert(s.subrange(8, 16) =~= bytes@.subrange(off as int + 8, off as int + 16));
        assert(s.subrange(16, 24) =~= bytes@.subrange(off as int + 16, off as int + 24));
        assert(s.subrange(24, 32) =~= bytes@.subrange(off as int + 24, off as int + 32));
    }
    if l0 < FELT_HIGH_LIMB_BOUND {
        Ok(Felt { l0, l1, l2, l3 })
    } else {
        Err(CodecError::Corrupted)
    }
}

/// Decodes the field element in the first 32 bytes of a longer buffer, as
/// when a fixed-width key prefixes a variable-width payload.
pub fn decode_felt_prefix(bytes: &[u8]) -> (r: Result<Felt, CodecError>)
    requires
        bytes@.len() >= 32,
    ensures
        r == spec_decode_felt(bytes@.subrange(0, 32)),
        r is Ok ==> r->Ok_0.wf(),
{
    read_felt(bytes, 0)
}

/// Decodes a field element from exactly 32 big-endian bytes.
///
/// Fails with `InvalidLength` if and only if the input is not exactly 32
/// bytes, and with `Corrupted` if and only if the 32 bytes denote a value
/// outside the field's range.
pub fn decode_felt(bytes: &[u8]) -> (r: Result<Felt, CodecError>)
    ensures
        bytes@.len() == 32 ==> r == spec_decode_felt(bytes@),
        bytes@.len() != 32 ==> r == Err::<Felt, CodecError>(CodecError::InvalidLength),
        r is Ok ==> r->Ok_0.wf(),
{
    if bytes.len() != 32 {
        return Err(CodecError::InvalidLength);
    }
    let r = read_felt(bytes, 0);
    proof {
        assert(bytes@.subrange(0, 32) =~= bytes@);
    }
    r
}

/// The concatenated 8-byte encodings of the elements of a block list.
pub open spec fn spec_encode_block_elems(l: Seq<u64>) -> Seq<u8>
    decreases l.len(),
{
    if l.len() == 0 {
        Seq::empty()
    } else {
        spec_encode_u64(l[0]) + spec_encode_block_elems(l.drop_first())
    }
}

/// The compressed form of a block list: an 8-byte big-endian element count
/// followed by each element, 8 bytes big-endian.
pub open spec fn spec_compress_block_list(l: Seq<u64>) -> Seq<u8>
    recommends
        l.len() <= u64::MAX,
{
    spec_encode_u64(l.len() as u64) + spec_encode_block_elems(l)
}

/// The `n` 64-bit values read from the front of `s`, 8 bytes each.
pub open spec fn spec_decode_block_elems(s: Seq<u8>, n: int) -> Seq<u64>
    decreases n,
{
    if n <= 0 {
        Seq::empty()
    } else {
        seq![spec_decode_u64(s.subrange(0, 8))]
            + spec_decode_block_elems(s.skip(8), n - 1)
    }
}

/// The decompression of a block list: fails with `UnexpectedEof` when the
/// payload is shorter than its count announces (or too short to hold a
/// count at all), and with `Corrupted` when bytes trail past the announced
/// elements.
pub open spec fn spec_decompress_block_list(s: Seq<u8>) -> Result<Seq<u64>, CodecError> {
    if s.len() < 8 {
        Err(CodecError::UnexpectedEof)
    } else {
        let n = spec_decode_u64(s.subrange(0, 8)) as int;
        let rest = s.skip(8);
        if rest.len() < n * 8 {
            Err(CodecError::UnexpectedEof)
        } else if rest.len() > n * 8 {
            Err(CodecError::Corrupted)
        } else {
            Ok(spec_decode_block_elems(rest, n))
        }
    }
}

/// The element encoding of a block list takes exactly 8 bytes per element.
pub proof fn lemma_encode_block_elems_len(l: Seq<u64>)
    ensures
        spec_encode_block_elems(l).len() == 8 * l.len(),
    decreases l.len(),
{
    if l.len() > 0 {
        lemma_encode_block_elems_len(l.drop_first());
    }
}

/// Reading back as many elements as were encoded yields the encoded list.
proof fn lemma_decode_block_elems_inverse(l: Seq<u64>)
    ensures
        spec_decode_block_elems(spec_encode_block_elems(l), l.len() as int) == l,
    decreases l.len(),
{
    if l.len() > 0 {
        let s = spec_encode_block_elems(l);
        lemma_u64_codec_inverse(l[0]);
        lemma_encode_block_elems_len(l.drop_first());
        assert(s.subrange(0, 8) =~= spec_encode_u64(l[0]));
        assert(s.skip(8) =~= spec_encode_block_elems(l.drop_first()));
        lemma_decode_block_elems_inverse(l.drop_first());
        assert(seq![l[0]] + l.drop_first() =~= l);
    }
}

/// Round trip of the block-list codec: decompressing a compressed list
/// yields the list back, for every list the machine can hold.
pub proof fn lemma_block_list_round_trip(l: Seq<u64>)
    requires
        l.len() <= u64::MAX,
    ensures
        spec_decompress_block_list(spec_compress_block_list(l))
            == Ok::<Seq<u64>, CodecError>(l),
{
    let s = spec_compress_block_list(l);
    lemma_u64_codec_inverse(l.len() as u64);
    lemma_encode_block_elems_len(l);
    assert(s.subrange(0, 8) =~= spec_encode_u64(l.len() as u64));
    assert(s.skip(8) =~= spec_encode_block_elems(l));
    lemma_decode_block_elems_inverse(l);
}

/// Compresses a block list: 8-byte count, then each element big-endian.
pub fn compress_block_list(l: &Vec<u64>) -> (r: Vec<u8>)
    ensures
        r@ == spec_compress_block_list(l@),
{
    let mut r = encode_block_number(l.len() as u64);
    let mut i: usize = 0;
    while i < l.len()
        invariant
            i <= l.len(),
            r@ == spec_encode_u64(l@.len() as u64) + spec_encode_block_elems(l@.take(i as int)),
        decreases l.len() - i,
    {
        let mut e = encode_block_number(l[i]);
        r.append(&mut e);
        proof {
            lemma_encode_block_elems_snoc(l@.take(i as int), l@[i as int]);
            assert(l@.take(i as int + 1) =~= l@.take(i as int).push(l@[i as int]));
        }
        i = i + 1;
    }
    proof {
        assert(l@.take(l@.len() as int) =~= l@);
    }
    r
}

/// Appending one element to a list appends its encoding to the list's.
proof fn lemma_encode_block_elems_snoc(l: Seq<u64>, x: u64)
    ensures
        spec_encode_block_elems(l.push(x)) == spec_encode_block_elems(l) + spec_encode_u64(x),
    decreases l.len(),
{
    let lp = l.push(x);
    assert(lp.len() > 0 && lp[0] == if l.len() == 0 { x } else { l[0] });
    assert(spec_encode_block_elems(lp) == spec_encode_u64(lp[0])
        + spec_encode_block_elems(lp.drop_first()));
    if l.len() == 0 {
        assert(lp.drop_first() =~= Seq::<u64>::empty());
        assert(spec_encode_block_elems(lp.drop_first()) == Seq::<u8>::empty());
        assert(spec_encode_block_elems(lp) =~= spec_encode_block_elems(l)
            + spec_encode_u64(x));
    } else {
        assert(lp.drop_first() =~= l.drop_first().push(x));
        lemma_encode_block_elems_snoc(l.drop_first(), x);
        assert(spec_encode_block_elems(lp) =~= spec_encode_block_elems(l)
            + spec_encode_u64(x));
    }
}

/// One decoded element extends the front of the decode of the rest.
proof fn lemma_decode_block_elems_step(s: Seq<u8>, n: int, i: int)
    requires
        0 <= i < n,
        s.len() == 8 * n,
    ensures
        spec_decode_block_elems(s, n)[i] == spec_decode_u64(s.subrange(8 * i, 8 * i + 8)),
        spec_decode_block_elems(s, n).len() == n,
    decreases n,
{
    if i == 0 {
        lemma_decode_block_elems_len(s.skip(8), n - 1);
    } else {
        lemma_decode_block_elems_step(s.skip(8), n - 1, i - 1);
        assert(s.skip(8).subrange(8 * (i - 1), 8 * (i - 1) + 8)
            =~= s.subrange(8 * i, 8 * i + 8));
        lemma_decode_block_elems_len(s.skip(8), n - 1);
    }
}

/// The decode of `n` elements has length `n`.
proof fn lemma_decode_block_elems_len(s: Seq<u8>, n: int)
    ensures
        spec_decode_block_elems(s, n).len() == if n <= 0 { 0int } else { n },
    decreases n,
{
    if n > 0 {
        lemma_decode_block_elems_len(s.skip(8), n - 1);
    }
}

/// Decompresses a block list, inverting [`compress_block_list`].
///
/// Fails with `UnexpectedEof` if and only if the payload is shorter than 8
/// bytes or shorter than its count announces, and with `Corrupted` if and
/// only if bytes trail past the announced elements.
pub fn decompress_block_list(bytes: &[u8]) -> (r: Result<Vec<u64>, CodecError>)
    ensures
        match r {
            Ok(l) => spec_decompress_block_list(bytes@) == Ok::<Seq<u64>, CodecError>(l@),
            Err(e) => spec_decompress_block_list(bytes@) == Err::<Seq<u64>, CodecError>(e),
        },
{
    proof {
        assert(bytes@.skip(0) =~= bytes@);
    }
    decompress_block_list_from(bytes, 0)
}

/// Decompresses the block list that starts at `off`, the remainder of the
/// buffer being the list's whole payload.
pub fn decompress_block_list_from(bytes: &[u8], off: usize) -> (r: Result<Vec<u64>, CodecError>)
    requires
        off <= bytes@.len(),
    ensures
        match r {
            Ok(l) => spec_decompress_block_list(bytes@.skip(off as int))
                == Ok::<Seq<u64>, CodecError>(l@),
            Err(e) => spec_decompress_block_list(bytes@.skip(off as int))
                == Err::<Seq<u64>, CodecError>(e),
        },
{
    let ghost s = bytes@.skip(off as int);
    let total = bytes.len();
    if total - off < 8 {
        return Err(CodecError::UnexpectedEof);
    }
    let n = read_u64_be(bytes, off);
    let rest_len: usize = total - off - 8;
    proof {
        assert(bytes@.subrange(off as int, off as int + 8) =~= s.subrange(0, 8));
        assert(bytes@.skip(off as int + 8) =~= s.skip(8));
    }
    proof {
        vstd::arithmetic::div_mod::lemma_fundamental_div_mod(rest_len as int, 8);
        vstd::arithmetic::div_mod::lemma_mod_bound(rest_len as int, 8);
    }
    if ((rest_len / 8) as u64) < n {
        // Shorter than the count announces.
        proof {
            let nn = n as int;
            let rl = rest_len as int;
            assert(rl < nn * 8) by (nonlinear_arith)
                requires
                    rl / 8 < nn,
                    rl == 8 * (rl / 8) + rl % 8,
                    0 <= rl % 8 < 8,
            ;
        }
        return Err(CodecError::UnexpectedEof);
    }
    if ((rest_len / 8) as u64) > n || rest_len % 8 != 0 {
        // Trailing bytes past the announced elements.
        proof {
            let nn = n as int;
            let rl = rest_len as int;
            assert(rl > nn * 8) by (nonlinear_arith)
                requires
                    rl / 8 > nn || (rl / 8 >= nn && rl % 8 != 0),
                    rl == 8 * (rl / 8) + rl % 8,
                    0 <= rl % 8 < 8,
            ;
        }
        return Err(CodecError::Corrupted);
    }
    proof {
        let nn = n as int;
        let rl = rest_len as int;
        assert(rl == nn * 8) by (nonlinear_arith)
            requires
                rl / 8 == nn,
                rl % 8 == 0,
                rl == 8 * (rl / 8) + rl % 8,
        ;
    }
    let count = rest_len / 8;
    let ghost rest = s.skip(8);
    let mut l: Vec<u64> = Vec::new();
    let mut i: usize = 0;
    while i < count
        invariant
            i <= count,
            off + 8 <= bytes@.len(),
            (count as int) * 8 == rest.len(),
            rest == bytes@.skip(off as int + 8),
            bytes@.len() == off + 8 + rest.len(),
            bytes@.len() <= usize::MAX,
            l@.len() == i,
            forall|j: int| 0 <= j < i ==> l@[j] == spec_decode_u64(
                rest.subrange(8 * j, 8 * j + 8),
            ),
        decreases count - i,
    {
        proof {
            assert((i as int) * 8 + 8 <= (count as int) * 8) by (nonlinear_arith)
                requires
                    i < count,
            ;
        }
        let v = read_u64_be(bytes, off + 8 + i * 8);
        proof {
            let base = off as int + 8 + (i as int) * 8;
            assert(bytes@.subrange(base, base + 8)
                =~= rest.subrange(8 * (i as int), 8 * (i as int) + 8));
        }
        l.push(v);
        i = i + 1;
    }
    proof {
        let nn = n as int;
        assert forall|j: int| 0 <= j < nn implies spec_decode_block_elems(rest, nn)[j]
            == l@[j] by {
            lemma_decode_block_elems_step(rest, nn, j);
        }
        lemma_decode_block_elems_len(rest, nn);
        assert(spec_decode_block_elems(rest, nn) =~= l@);
    }
    Ok(l)
}

} // verus!
