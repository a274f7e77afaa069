//! Fixed-width big-endian encoding of 64-bit values (the store's value
//! format) and lexicographic order on byte strings (the store's key order).

use vstd::prelude::*;

verus! {

/// Byte `i` (0 = most significant) of the big-endian encoding of `x`.
pub open spec fn spec_be_byte(x: u64, i: int) -> u8 {
    ((x >> (((7 - i) * 8) as u64)) & 0xff) as u8
}

/// The eight big-endian bytes of `x`.
pub open spec fn spec_be_bytes(x: u64) -> Seq<u8> {
    Seq::new(8, |i: int| spec_be_byte(x, i))
}

/// The 64-bit value read back from eight big-endian bytes.
pub open spec fn spec_be_to_u64(s: Seq<u8>) -> u64
    recommends
        s.len() == 8,
{
    (((s[0] as u64) << 56u64) | ((s[1] as u64) << 48u64) | ((s[2] as u64) << 40u64) | ((
    s[3] as u64) << 32u64) | ((s[4] as u64) << 24u64) | ((s[5] as u64) << 16u64) | ((
    s[6] as u64) << 8u64) | (s[7] as u64)) as u64
}

/// Encoding then decoding gives the bits back unchanged.
pub proof fn lemma_be_round_trip(x: u64)
    ensures
        spec_be_to_u64(spec_be_bytes(x)) == x,
{
    let s = spec_be_bytes(x);
    assert(s[0] == ((x >> 56u64) & 0xff) as u8);
    assert(s[1] == ((x >> 48u64) & 0xff) as u8);
    assert(s[2] == ((x >> 40u64) & 0xff) as u8);
    assert(s[3] == ((x >> 32u64) & 0xff) as u8);
    assert(s[4] == ((x >> 24u64) & 0xff) as u8);
    assert(s[5] == ((x >> 16u64) & 0xff) as u8);
    assert(s[6] == ((x >> 8u64) & 0xff) as u8);
    assert(s[7] == ((x >> 0u64) & 0xff) as u8);
    assert(((((((x >> 56u64) & 0xff) as u8) as u64) << 56u64) | (((((x >> 48u64) & 0xff) as u8) as u64)
        << 48u64) | (((((x >> 40u64) & 0xff) as u8) as u64) << 40u64) | (((((x >> 32u64) & 0xff) as u8)
        as u64) << 32u64) | (((((x >> 24u64) & 0xff) as u8) as u64) << 24u64) | (((((x >> 16u64)
        & 0xff) as u8) as u64) << 16u64) | (((((x >> 8u64) & 0xff) as u8) as u64) << 8u64) | ((((x
        >> 0u64) & 0xff) as u8) as u64)) == x) by (bit_vector);
}

/// Writes the eight big-endian bytes of `x`.
pub fn be_bytes_of(x: u64) -> (r: Vec<u8>)
    ensures
        r@ == spec_be_bytes(x),
        r@.len() == 8,
{
    let mut v: Vec<u8> = Vec::new();
    v.push(((x >> 56u64) & 0xff) as u8);
    v.push(((x >> 48u64) & 0xff) as u8);
    v.push(((x >> 40u64) & 0xff) as u8);
    v.push(((x >> 32u64) & 0xff) as u8);
    v.push(((x >> 24u64) & 0xff) as u8);
    v.push(((x >> 16u64) & 0xff) as u8);
    v.push(((x >> 8u64) & 0xff) as u8);
    v.push((x & 0xff) as u8);
    proof {
        assert(x >> 0u64 == x) by (bit_vector);
        assert(v@ =~= spec_be_bytes(x));
    }
    v
}

/// Reads a 64-bit value from eight big-endian bytes.
pub fn be_to_u64(v: &[u8]) -> (r: u64)
    requires
        v@.len() == 8,
    ensures
        r == spec_be_to_u64(v@),
{
    ((v[0] as u64) << 56u64) | ((v[1] as u64) << 48u64) | ((v[2] as u64) << 40u64) | ((v[3] as u64)
        << 32u64) | ((v[4] as u64) << 24u64) | ((v[5] as u64) << 16u64) | ((v[6] as u64) << 8u64)
        | (v[7] as u64)
}

/// Lexicographic order on byte strings: the order in which the store keeps
/// its keys, and the chronological order of fixed-width RFC 3339 text.
pub open spec fn lex_le(a: Seq<u8>, b: Seq<u8>) -> bool
    decreases a.len(),
{
    if a.len() == 0 {
        true
    } else if b.len() == 0 {
        false
    } else if a[0] < b[0] {
        true
    } else if a[0] > b[0] {
        false
    } else {
        lex_le(a.skip(1), b.skip(1))
    }
}

/// Strict lexicographic order.
pub open spec fn lex_lt(a: Seq<u8>, b: Seq<u8>) -> bool {
    lex_le(a, b) && a != b
}

pub proof fn lemma_lex_le_refl(a: Seq<u8>)
    ensures
        lex_le(a, a),
    decreases a.len(),
{
    if a.len() > 0 {
        lemma_lex_le_refl(a.skip(1));
    }
}

pub proof fn lemma_lex_le_trans(a: Seq<u8>, b: Seq<u8>, c: Seq<u8>)
    requires
        lex_le(a, b),
        lex_le(b, c),
    ensures
        lex_le(a, c),
    decreases a.len(),
{
    if a.len() > 0 && b.len() > 0 && c.len() > 0 {
        if a[0] == b[0] && b[0] == c[0] {
            lemma_lex_le_trans(a.skip(1), b.skip(1), c.skip(1));
        }
    }
}

/// Compares two byte strings in lexicographic order.
pub fn lex_le_bytes(a: &[u8], b: &[u8]) -> (r: bool)
    ensures
        r == lex_le(a@, b@),
{
    let mut i: usize = 0;
    proof {
        assert(a@.skip(0) =~= a@);
        assert(b@.skip(0) =~= b@);
    }
    loop
        invariant
            i <= a@.len(),
            i <= b@.len(),
            forall|k: int| 0 <= k < i ==> a@[k] == b@[k],
            lex_le(a@, b@) == lex_le(a@.skip(i as int), b@.skip(i as int)),
        decreases a@.len() - i,
    {
        if i == a.len() {
            return true;
        }
        if i == b.len() {
            return false;
        }
        let x = a[i];
        let y = b[i];
        if x < y {
            return true;
        }
        if x > y {
            return false;
        }
        proof {
            lemma_lex_le_skip_step(a@, b@, i as int);
        }
        i = i + 1;
    }
}

/// One unfolding step: when the heads at position `i` agree, comparing the
/// tails from `i` and from `i + 1` is the same.
proof fn lemma_lex_le_skip_step(a: Seq<u8>, b: Seq<u8>, i: int)
    requires
        0 <= i < a.len(),
        i < b.len(),
        a[i] == b[i],
    ensures
        lex_le(a.skip(i), b.skip(i)) == lex_le(a.skip(i + 1), b.skip(i + 1)),
{
    assert(a.skip(i).skip(1) =~= a.skip(i + 1));
    assert(b.skip(i).skip(1) =~= b.skip(i + 1));
    assert(a.skip(i)[0] == a[i]);
    assert(b.skip(i)[0] == b[i]);
}

} // verus!
