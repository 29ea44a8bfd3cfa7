//! Packing a byte stream into SF-bit symbols, MSB first.

use vstd::prelude::*;
use vstd::arithmetic::power2::{pow2, lemma_pow2_unfold, lemma_pow2_strictly_increases, lemma2_to64};

verus! {

/// Bit `i` of a byte stream read MSB first (bit 0 is the top bit of byte 0);
/// bits past the end of the stream read as zero.
pub open spec fn stream_bit(bytes: Seq<u8>, i: int) -> u8 {
    if 0 <= i < bytes.len() * 8 {
        (bytes[i / 8] >> ((7 - i % 8) as u8)) & 1u8
    } else {
        0
    }
}

/// The number whose binary digits, most significant first, are the `k`
/// stream bits starting at bit `start`.
pub open spec fn bits_value(bytes: Seq<u8>, start: int, k: nat) -> nat
    decreases k,
{
    if k == 0 {
        0
    } else {
        bits_value(bytes, start, (k - 1) as nat) * 2 + stream_bit(bytes, start + k - 1) as nat
    }
}

/// Number of SF-bit symbols needed to carry `n_bytes` bytes: ceil(8 n / sf).
pub open spec fn symbol_count(n_bytes: nat, sf: nat) -> nat
    recommends
        sf > 0,
{
    ((n_bytes * 8 + sf - 1) / (sf as int)) as nat
}

/// The symbol stream for `bytes` at spreading factor `sf`: symbol `s` is the
/// `sf`-bit number read MSB first from stream bits `s * sf .. s * sf + sf`,
/// zero-padded past the end of the bytes.
pub open spec fn packed_symbols(bytes: Seq<u8>, sf: nat) -> Seq<u16> {
    Seq::new(symbol_count(bytes.len(), sf), |s: int| bits_value(bytes, s * sf, sf) as u16)
}

/// A stream bit is 0 or 1.
proof fn lemma_stream_bit_le_one(bytes: Seq<u8>, i: int)
    ensures
        stream_bit(bytes, i) <= 1,
{
    if 0 <= i < bytes.len() * 8 {
        let b = bytes[i / 8];
        let sh = (7 - i % 8) as u8;
        assert((b >> sh) & 1u8 <= 1) by (bit_vector);
    }
}

/// A `k`-bit value is below 2^k.
pub proof fn lemma_bits_value_bound(bytes: Seq<u8>, start: int, k: nat)
    ensures
        bits_value(bytes, start, k) < pow2(k),
    decreases k,
{
    if k == 0 {
        lemma2_to64();
    } else {
        lemma_bits_value_bound(bytes, start, (k - 1) as nat);
        lemma_stream_bit_le_one(bytes, start + k - 1);
        lemma_pow2_unfold(k);
    }
}

/// Every symbol produced at spreading factor `sf` fits in `sf` bits.
pub proof fn lemma_symbols_fit(bytes: Seq<u8>, sf: nat, s: int)
    requires
        7 <= sf <= 12,
        0 <= s < symbol_count(bytes.len(), sf),
    ensures
        (packed_symbols(bytes, sf)[s] as nat) < pow2(sf),
{
    lemma_bits_value_bound(bytes, s * sf, sf);
    if sf < 16 {
        lemma_pow2_strictly_increases(sf, 16);
    }
    lemma2_to64();
}

/// One step of MSB-first accumulation, stated on 16-bit words: placing bit
/// `b` just below a value shifted up by `p + 1` is shifting `2 w + b` by `p`.
proof fn lemma_or_step(w: u16, b: u16, p: u16)
    requires
        w < 4096,
        b <= 1,
        p < 12,
    ensures
        ((w << ((p + 1) as u16)) | (b << p)) == ((w * 2 + b) as u16) << p,
{
    assert(((w << ((p + 1) as u16)) | (b << p)) == ((w * 2 + b) as u16) << p) by (bit_vector)
        requires
            w < 4096,
            b <= 1,
            p < 12,
    ;
}

proof fn lemma_shift_succ(w: u16, m: u16)
    requires
        1 <= m <= 12,
    ensures
        w << m == (w << ((m - 1) as u16)) << 1u16,
{
    assert(w << m == (w << ((m - 1) as u16)) << 1u16) by (bit_vector)
        requires
            1 <= m <= 12,
    ;
}

proof fn lemma_shift_one(u: u16)
    requires
        u < 4096,
    ensures
        u << 1u16 == (u * 2) as u16,
{
    assert(u << 1u16 == (u * 2) as u16) by (bit_vector)
        requires
            u < 4096,
    ;
}

proof fn lemma_shift_zero(w: u16)
    ensures
        w << 0u16 == w,
{
    assert(w << 0u16 == w) by (bit_vector);
}

/// Values of at most 12 bits fit below 4096.
proof fn lemma_bits_value_small(bytes: Seq<u8>, start: int, k: nat)
    requires
        k <= 12,
    ensures
        bits_value(bytes, start, k) < 4096,
{
    lemma_bits_value_bound(bytes, start, k);
    if k < 12 {
        lemma_pow2_strictly_increases(k, 12);
    }
    lemma2_to64();
}

/// Past the end of the stream, reading `m` more bits only shifts the value
/// up by `m`.
proof fn lemma_zero_tail(bytes: Seq<u8>, start: int, k: nat, m: nat)
    requires
        start + k >= bytes.len() * 8,
        k + m <= 12,
    ensures
        (bits_value(bytes, start, k) as u16) << (m as u16)
            == bits_value(bytes, start, k + m) as u16,
    decreases m,
{
    let w = bits_value(bytes, start, k) as u16;
    if m == 0 {
        lemma_shift_zero(w);
    } else {
        lemma_zero_tail(bytes, start, k, (m - 1) as nat);
        lemma_shift_succ(w, m as u16);
        lemma_bits_value_small(bytes, start, (k + m - 1) as nat);
        lemma_shift_one(bits_value(bytes, start, (k + m - 1) as nat) as u16);
        assert(stream_bit(bytes, start + (k + m) - 1) == 0);
    }
}

proof fn lemma_zero_shifted(p: u16)
    ensures
        0u16 << p == 0u16,
{
    assert(0u16 << p == 0u16) by (bit_vector);
}

/// The exec computation of ceil(total / sf) agrees with [`symbol_count`], and
/// every symbol below that count starts inside the stream.
proof fn lemma_count(n_bytes: nat, sf: nat, total: nat, count: nat)
    requires
        7 <= sf <= 12,
        total == n_bytes * 8,
        count == total / sf + (if total % sf != 0 { 1nat } else { 0nat }),
    ensures
        count == symbol_count(n_bytes, sf),
        forall|s: nat| s < count ==> #[trigger] (s * sf) < total,
{
    assert(count == (total + sf - 1) / (sf as int)) by (nonlinear_arith)
        requires
            sf > 0,
            count == total / sf + (if total % sf != 0 { 1nat } else { 0nat }),
    ;
    assert forall|s: nat| s < count implies #[trigger] (s * sf) < total by {
        assert(s * sf < total) by (nonlinear_arith)
            requires
                sf > 0,
                s < count,
                count == total / sf + (if total % sf != 0 { 1nat } else { 0nat }),
        ;
    }
}

/// Pack a byte stream into SF-bit symbols, MSB-first.
///
/// At SF=8 each byte becomes one symbol. At SF=7, eight bytes (64 bits)
/// pack into ceil(64/7) = 10 symbols with 6 bits of zero padding in the
/// last symbol. Bits past the end of the input are zero.
///
/// This is teaching-grade packing; real LoRaWAN applies whitening, Hamming
/// FEC and interleaving before this step.
pub fn bytes_to_symbols(bytes: &[u8], sf: u8) -> (syms: Vec<u16>)
    requires
        7 <= sf <= 12,
        bytes@.len() * 8 <= u32::MAX,
    ensures
        syms@ == packed_symbols(bytes@, sf as nat),
{
    if bytes.len() == 0 {
        assert(symbol_count(0, sf as nat) == 0) by (nonlinear_arith)
            requires
                7 <= sf <= 12,
        ;
        return Vec::new();
    }
    let sf32: u32 = sf as u32;
    let total_bits: u32 = bytes.len() as u32 * 8;
    let n_symbols: u32 = total_bits / sf32 + if total_bits % sf32 != 0 {
        1
    } else {
        0
    };
    proof {
        lemma_count(bytes@.len(), sf as nat, total_bits as nat, n_symbols as nat);
    }
    let ghost bs = bytes@;
    let mut out: Vec<u16> = Vec::new();
    let mut s: u32 = 0;
    while s < n_symbols
        invariant
            7 <= sf32 <= 12,
            sf32 == sf,
            bs == bytes@,
            total_bits == bs.len() * 8,
            s <= n_symbols,
            n_symbols == symbol_count(bs.len(), sf as nat),
            forall|j: nat| j < n_symbols ==> #[trigger] (j * (sf as nat)) < total_bits,
            out@ =~= Seq::new(s as nat, |j: int| bits_value(bs, j * (sf as nat), sf as nat) as u16),
        decreases n_symbols - s,
    {
        assert((s as nat) * (sf as nat) < total_bits);
        let bit_start: u32 = s * sf32;
        let mut sym: u16 = 0;
        let mut k: u32 = 0;
        proof {
            lemma_zero_shifted(sf as u16);
        }
        while k < sf32
            invariant_except_break
                7 <= sf32 <= 12,
                sf32 == sf,
                bs == bytes@,
                total_bits == bs.len() * 8,
                k <= sf32,
                bit_start < total_bits,
                bit_start + k <= total_bits,
                k == sf32 ==> sym == bits_value(bs, bit_start as int, sf as nat) as u16,
                sym == (bits_value(bs, bit_start as int, k as nat) as u16) << ((sf32 - k) as u16),
            ensures
                sym == bits_value(bs, bit_start as int, sf as nat) as u16,
            decreases sf32 - k,
        {
            let bit_idx: u32 = bit_start + k;
            if bit_idx >= total_bits {
                proof {
                    lemma_zero_tail(bs, bit_start as int, k as nat, (sf32 - k) as nat);
                }
                break;
            }
            let byte: u8 = bytes[(bit_idx / 8) as usize];
            let bit: u8 = (byte >> (7 - (bit_idx % 8) as u8)) & 1;
            proof {
                let w = bits_value(bs, bit_start as int, k as nat);
                lemma_bits_value_small(bs, bit_start as int, k as nat);
                lemma_bits_value_small(bs, bit_start as int, (k + 1) as nat);
                assert(bit == stream_bit(bs, bit_start + k));
                lemma_stream_bit_le_one(bs, bit_start + k);
                lemma_or_step(w as u16, bit as u16, (sf32 - 1 - k) as u16);
            }
            sym = sym | ((bit as u16) << ((sf32 - 1 - k) as u16));
            k = k + 1;
            proof {
                lemma_shift_zero(bits_value(bs, bit_start as int, k as nat) as u16);
            }
        }
        out.push(sym);
        s = s + 1;
    }
    out
}

proof fn lemma_byte_top_bit(b: u8)
    ensures
        (b >> 7u8) == (b >> 7u8) & 1u8,
        (b >> 0u8) == b,
{
    assert((b >> 0u8) == b) by (bit_vector);
    assert((b >> 7u8) == (b >> 7u8) & 1u8) by (bit_vector);
}

proof fn lemma_byte_prefix_step(b: u8, sh: u8)
    requires
        sh < 7,
    ensures
        (b >> sh) as nat == (b >> ((sh + 1) as u8)) as nat * 2 + ((b >> sh) & 1u8) as nat,
{
    assert((b >> sh) as nat == (b >> ((sh + 1) as u8)) as nat * 2 + ((b >> sh) & 1u8) as nat) by (bit_vector)
        requires
            sh < 7,
    ;
    assert((b >> 7u8) == (b >> 7u8) & 1u8) by (bit_vector);
}

/// The first `k` stream bits of byte `s` are the top `k` bits of that byte.
proof fn lemma_byte_prefix(bytes: Seq<u8>, s: int, k: nat)
    requires
        0 <= s < bytes.len(),
        1 <= k <= 8,
    ensures
        bits_value(bytes, s * 8, k) == (bytes[s] >> ((8 - k) as u8)) as nat,
    decreases k,
{
    let i = s * 8 + k - 1;
    assert(i / 8 == s && i % 8 == k - 1) by (nonlinear_arith)
        requires
            i == s * 8 + k - 1,
            1 <= k <= 8,
            0 <= s,
    ;
    assert(0 <= i < bytes.len() * 8) by (nonlinear_arith)
        requires
            i == s * 8 + k - 1,
            1 <= k <= 8,
            0 <= s < bytes.len(),
    ;
    let b = bytes[s];
    lemma_byte_top_bit(b);
    assert(stream_bit(bytes, i) == (b >> ((8 - k) as u8)) & 1u8);
    if k > 1 {
        let sh = (8 - k) as u8;
        lemma_byte_prefix_step(b, sh);
        lemma_byte_prefix(bytes, s, (k - 1) as nat);
        assert(((sh + 1) as u8) == ((8 - (k - 1) as nat) as u8));
        assert(bits_value(bytes, s * 8, k) == bits_value(bytes, s * 8, (k - 1) as nat) * 2
            + stream_bit(bytes, s * 8 + k - 1) as nat);
    } else {
        assert(bits_value(bytes, s * 8, 0) == 0);
        assert(bits_value(bytes, s * 8, 1) == stream_bit(bytes, s * 8) as nat);
    }
}

/// At SF=8 each byte becomes one symbol: packing is the identity on bytes.
pub proof fn lemma_sf8_is_bytes(bytes: Seq<u8>)
    ensures
        packed_symbols(bytes, 8) =~= Seq::new(bytes.len(), |i: int| bytes[i] as u16),
{
    assert(symbol_count(bytes.len(), 8) == bytes.len());
    assert forall|i: int| 0 <= i < bytes.len() implies packed_symbols(bytes, 8)[i] == bytes[i] as u16 by {
        lemma_byte_prefix(bytes, i, 8);
        lemma_byte_top_bit(bytes[i]);
    }
}

} // verus!
