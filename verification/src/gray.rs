//! Reflected binary Gray coding of symbol values and its inverse.

use vstd::prelude::*;

verus! {

/// Reflected binary Gray code of a symbol value: `s XOR (s >> 1)`.
pub open spec fn gray(s: u16) -> u16 {
    s ^ (s >> 1u16)
}

/// Inverse Gray code: the XOR of `g` with all of its right shifts.
pub open spec fn gray_decode(g: u16) -> u16
    decreases g,
{
    if g == 0 {
        0
    } else {
        proof {
            lemma_shr1_decreases(g);
        }
        g ^ gray_decode(g >> 1u16)
    }
}

/// Shifting a nonzero value right by one makes it smaller.
pub proof fn lemma_shr1_decreases(g: u16)
    requires
        g != 0,
    ensures
        g >> 1u16 < g,
{
    assert(g != 0 ==> g >> 1u16 < g) by (bit_vector);
}

/// Standard reflected binary Gray code: g = s XOR (s >> 1).
pub fn apply_gray_coding(symbol: u16) -> (g: u16)
    ensures
        g == gray(symbol),
{
    symbol ^ (symbol >> 1u16)
}

/// Inverse of [`apply_gray_coding`]. Useful for tests and for receivers.
pub fn inverse_gray_coding(g: u16) -> (s: u16)
    ensures
        s == gray_decode(g),
{
    let ghost g0 = g;
    let mut g = g;
    let mut s = g;
    proof {
        lemma_xor_zero(s);
    }
    while g > 0
        invariant
            s ^ gray_decode(g >> 1u16) == gray_decode(g0),
        decreases g,
    {
        proof {
            lemma_shr1_decreases(g);
        }
        let next = g >> 1u16;
        proof {
            lemma_xor_assoc(s, next, gray_decode(next >> 1u16));
            lemma_xor_zero(s);
        }
        g = next;
        s = s ^ g;
    }
    proof {
        lemma_xor_zero(s);
    }
    s
}

proof fn lemma_xor_zero(a: u16)
    ensures
        a ^ 0u16 == a,
        0u16 ^ a == a,
        a ^ a == 0u16,
        (0u16 >> 1u16) == 0u16,
{
    assert(a ^ 0u16 == a && 0u16 ^ a == a && a ^ a == 0u16 && (0u16 >> 1u16) == 0u16) by (bit_vector);
}

proof fn lemma_xor_assoc(a: u16, b: u16, c: u16)
    ensures
        (a ^ b) ^ c == a ^ (b ^ c),
{
    assert((a ^ b) ^ c == a ^ (b ^ c)) by (bit_vector);
}

proof fn lemma_gray_bits(s: u16)
    ensures
        s != 0 ==> gray(s) != 0,
        gray(s) >> 1u16 == gray(s >> 1u16),
        gray(s) ^ (s >> 1u16) == s,
{
    assert(s != 0 ==> s ^ (s >> 1u16) != 0) by (bit_vector);
    assert((s ^ (s >> 1u16)) >> 1u16 == (s >> 1u16) ^ ((s >> 1u16) >> 1u16)) by (bit_vector);
    assert((s ^ (s >> 1u16)) ^ (s >> 1u16) == s) by (bit_vector);
}

proof fn lemma_xor_shr(a: u16, b: u16)
    ensures
        (a ^ b) >> 1u16 == (a >> 1u16) ^ (b >> 1u16),
        (a ^ b) ^ b == a,
{
    assert((a ^ b) >> 1u16 == (a >> 1u16) ^ (b >> 1u16)) by (bit_vector);
    assert((a ^ b) ^ b == a) by (bit_vector);
}

/// Decoding undoes Gray coding: for every 16-bit symbol `s`,
/// `inverse_gray_coding(apply_gray_coding(s)) == s`.
pub proof fn lemma_gray_round_trip(s: u16)
    ensures
        gray_decode(gray(s)) == s,
    decreases s,
{
    lemma_gray_bits(s);
    if s != 0 {
        lemma_shr1_decreases(s);
        lemma_gray_round_trip(s >> 1u16);
        let g = gray(s);
        assert(gray_decode(g) == g ^ gray_decode(g >> 1u16));
        assert(gray_decode(g >> 1u16) == s >> 1u16);
    } else {
        lemma_xor_zero(0);
    }
}

/// Shifting commutes with Gray decoding: `gray_decode(x) >> 1 == gray_decode(x >> 1)`.
proof fn lemma_gray_decode_shr(x: u16)
    ensures
        gray_decode(x) >> 1u16 == gray_decode(x >> 1u16),
    decreases x,
{
    lemma_xor_zero(x);
    if x != 0 {
        lemma_shr1_decreases(x);
        lemma_gray_decode_shr(x >> 1u16);
        lemma_xor_shr(x, gray_decode(x >> 1u16));
        lemma_xor_zero(x >> 1u16);
    }
}

/// Gray coding undoes decoding: for every 16-bit code word `g`,
/// `apply_gray_coding(inverse_gray_coding(g)) == g`; together with
/// [`lemma_gray_round_trip`] this makes Gray coding a bijection on `u16`.
pub proof fn lemma_gray_decode_round_trip(g: u16)
    ensures
        gray(gray_decode(g)) == g,
{
    lemma_gray_decode_shr(g);
    lemma_xor_zero(g);
    if g != 0 {
        lemma_xor_shr(g, gray_decode(g >> 1u16));
    }
}

} // verus!
