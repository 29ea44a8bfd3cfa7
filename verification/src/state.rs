//! Settings the visualizer works from: default inputs, coding rates, the
//! EU868 payload limit, and the audio volume steps.

use vstd::prelude::*;
use vstd::std_specs::iter::IteratorSpec;
use crate::hex::{hex_joined, push_hex_joined, HexSeparator};
use crate::text::{byte_hex, hex_digit, hex_digit_table, is_white_space};

verus! {

/// Default AppSKey (a public test vector).
pub const DEFAULT_APP_SKEY: [u8; 16] = [
    0x2B,
    0x7E,
    0x15,
    0x16,
    0x28,
    0xAE,
    0xD2,
    0xA6,
    0xAB,
    0xF7,
    0x15,
    0x88,
    0x09,
    0xCF,
    0x4F,
    0x3C,
];

/// Default NwkSKey (a public test vector).
pub const DEFAULT_NWK_SKEY: [u8; 16] = [
    0x99,
    0x88,
    0x77,
    0x66,
    0x55,
    0x44,
    0x33,
    0x22,
    0x11,
    0x00,
    0xAA,
    0xBB,
    0xCC,
    0xDD,
    0xEE,
    0xFF,
];

pub const DEFAULT_DEV_ADDR: [u8; 4] = [0x26, 0x01, 0x1F, 0x88];

pub const DEFAULT_F_CNT: u32 = 1;

pub const DEFAULT_F_PORT: u8 = 1;

pub const DEFAULT_SF: u8 = 7;

/// Default bandwidth, in Hz.
pub const DEFAULT_BW_HZ: u32 = 125_000;

pub const AUDIO_SAMPLE_RATE_HZ: u32 = 22_050;

/// Version of the saved-settings file format this library writes and reads.
pub const CURRENT_SAVE_VERSION: u32 = 1;

/// LoRa forward error correction coding rate.
#[derive(Clone, Copy, Debug, PartialEq, Eq, Structural)]
pub enum CodingRate {
    FourFive,
    FourSix,
    FourSeven,
    FourEight,
}

/// The display label of a coding rate, such as "4/5".
pub open spec fn coding_rate_label(cr: CodingRate) -> Seq<char> {
    match cr {
        CodingRate::FourFive => seq!['4', '/', '5'],
        CodingRate::FourSix => seq!['4', '/', '6'],
        CodingRate::FourSeven => seq!['4', '/', '7'],
        CodingRate::FourEight => seq!['4', '/', '8'],
    }
}

/// The coding rates in cycling order.
pub open spec fn coding_rate_order() -> Seq<CodingRate> {
    seq![CodingRate::FourFive, CodingRate::FourSix, CodingRate::FourSeven, CodingRate::FourEight]
}

impl CodingRate {
    pub fn label(self) -> (s: &'static str)
        ensures
            s@ == coding_rate_label(self),
    {
        match self {
            CodingRate::FourFive => {
                let s = "4/5";
                proof {
                    reveal_strlit("4/5");
                }
                s
            },
            CodingRate::FourSix => {
                let s = "4/6";
                proof {
                    reveal_strlit("4/6");
                }
                s
            },
            CodingRate::FourSeven => {
                let s = "4/7";
                proof {
                    reveal_strlit("4/7");
                }
                s
            },
            CodingRate::FourEight => {
                let s = "4/8";
                proof {
                    reveal_strlit("4/8");
                }
                s
            },
        }
    }

    pub fn all() -> (rates: [CodingRate; 4])
        ensures
            rates@ == coding_rate_order(),
    {
        let rates = [
            CodingRate::FourFive,
            CodingRate::FourSix,
            CodingRate::FourSeven,
            CodingRate::FourEight,
        ];
        assert(rates@ =~= coding_rate_order());
        rates
    }

    /// The coding rate after `self` in [`CodingRate::all`], wrapping around.
    pub fn next(self) -> (n: CodingRate)
        ensures
            n == coding_rate_after(self),
    {
        match self {
            CodingRate::FourFive => CodingRate::FourSix,
            CodingRate::FourSix => CodingRate::FourSeven,
            CodingRate::FourSeven => CodingRate::FourEight,
            CodingRate::FourEight => CodingRate::FourFive,
        }
    }
}

/// The successor of a coding rate in cycling order: the next entry of
/// [`coding_rate_order`], the last wrapping to the first.
pub open spec fn coding_rate_after(cr: CodingRate) -> CodingRate {
    let order = coding_rate_order();
    let i: int = match cr {
        CodingRate::FourFive => 0,
        CodingRate::FourSix => 1,
        CodingRate::FourSeven => 2,
        CodingRate::FourEight => 3,
    };
    order[(i + 1) % 4]
}

/// Cycling the coding rate four times returns to the start, and every rate
/// is reached: the order lists each rate once.
pub proof fn lemma_coding_rate_cycle(cr: CodingRate)
    ensures
        coding_rate_after(coding_rate_after(coding_rate_after(coding_rate_after(cr)))) == cr,
        coding_rate_order().contains(cr),
        coding_rate_order().no_duplicates(),
{
    let o = coding_rate_order();
    assert(o[0] == CodingRate::FourFive && o[1] == CodingRate::FourSix && o[2] == CodingRate::FourSeven && o[3] == CodingRate::FourEight);
    match cr {
        CodingRate::FourFive => assert(o[0] == cr),
        CodingRate::FourSix => assert(o[1] == cr),
        CodingRate::FourSeven => assert(o[2] == cr),
        CodingRate::FourEight => assert(o[3] == cr),
    }
}

/// EU868 maximum application payload size in bytes for a spreading factor
/// and a bandwidth in kHz; 51 for any combination outside the table.
pub open spec fn max_app_payload_spec(sf: u8, bw_khz: u32) -> usize {
    if bw_khz == 125 || bw_khz == 250 || bw_khz == 500 {
        if sf == 7 || sf == 8 {
            222
        } else if sf == 9 {
            115
        } else {
            51
        }
    } else {
        51
    }
}

/// EU868 maximum application payload for `sf` and a bandwidth in kHz.
pub fn max_app_payload_bytes(sf: u8, bw_khz: u32) -> (n: usize)
    ensures
        n == max_app_payload_spec(sf, bw_khz),
{
    match (sf, bw_khz) {
        (12, 125) | (11, 125) | (10, 125) => 51,
        (9, 125) => 115,
        (8, 125) | (7, 125) => 222,
        (12, 250) | (11, 250) | (10, 250) => 51,
        (9, 250) => 115,
        (8, 250) | (7, 250) => 222,
        (12, 500) | (11, 500) | (10, 500) => 51,
        (9, 500) => 115,
        (8, 500) | (7, 500) => 222,
        _ => 51,
    }
}

/// At each of the EU868 bandwidths (125, 250 and 500 kHz) the payload limit
/// depends on the spreading factor alone: 222 bytes at SF7 and SF8, 115 at
/// SF9, 51 at SF10 to SF12; every other combination gets 51.
pub proof fn lemma_payload_limit_by_sf(sf: u8, bw_khz: u32)
    ensures
        max_app_payload_spec(sf, 125) == max_app_payload_spec(sf, 250),
        max_app_payload_spec(sf, 250) == max_app_payload_spec(sf, 500),
        (bw_khz == 125 || bw_khz == 250 || bw_khz == 500) ==> {
            &&& (sf == 7 || sf == 8) ==> max_app_payload_spec(sf, bw_khz) == 222
            &&& sf == 9 ==> max_app_payload_spec(sf, bw_khz) == 115
            &&& (sf < 7 || sf > 9) ==> max_app_payload_spec(sf, bw_khz) == 51
        },
        !(bw_khz == 125 || bw_khz == 250 || bw_khz == 500) ==> max_app_payload_spec(sf, bw_khz) == 51,
{
}

/// A higher spreading factor (slower data rate) never allows a longer
/// payload at the same bandwidth, within SF7 to SF12.
pub proof fn lemma_payload_limit_monotone(sf1: u8, sf2: u8, bw_khz: u32)
    requires
        7 <= sf1 <= sf2 <= 12,
    ensures
        max_app_payload_spec(sf2, bw_khz) <= max_app_payload_spec(sf1, bw_khz),
{
}

/// The volume step after a volume of `percent` percent: 50 below 38,
/// 75 below 63, 100 below 88, and back to 25 otherwise.
pub open spec fn next_volume_spec(percent: i32) -> u32 {
    if percent < 38 {
        50
    } else if percent < 63 {
        75
    } else if percent < 88 {
        100
    } else {
        25
    }
}

/// The volume, in percent, that the volume button cycles to from the
/// current volume rounded to a whole percent.
pub fn next_volume_percent(percent: i32) -> (next: u32)
    ensures
        next == next_volume_spec(percent),
{
    if percent < 38 {
        50
    } else if percent < 63 {
        75
    } else if percent < 88 {
        100
    } else {
        25
    }
}

/// Whether a saved-settings file of `version` can be loaded: files newer
/// than [`CURRENT_SAVE_VERSION`] are refused.
pub fn is_supported_save_version(version: u32) -> (ok: bool)
    ensures
        ok == (version <= CURRENT_SAVE_VERSION),
{
    version <= CURRENT_SAVE_VERSION
}

/// The bytes as consecutive upper-case hex pairs, e.g. `26011F88`.
pub fn hex_string(bytes: &[u8]) -> (s: String)
    ensures
        s@ == hex_joined(bytes@, HexSeparator::Nothing),
{
    let mut s = String::new();
    push_hex_joined(&mut s, bytes, HexSeparator::Nothing);
    s
}

/// Characters kept when cleaning hex input: everything but white space,
/// ':' and '-'.
pub open spec fn kept_in_hex_input(c: char) -> bool {
    !is_white_space(c) && c != ':' && c != '-'
}

/// The input with white space, ':' and '-' removed.
pub open spec fn hex_cleaned(text: Seq<char>) -> Seq<char>
    decreases text.len(),
{
    if text.len() == 0 {
        Seq::empty()
    } else {
        let rest = hex_cleaned(text.drop_last());
        if kept_in_hex_input(text.last()) {
            rest.push(text.last())
        } else {
            rest
        }
    }
}

/// Value of a hex digit character, or `None` for any other character.
pub open spec fn hex_char_value(c: char) -> Option<nat> {
    let v = c as u32;
    if 0x30 <= v <= 0x39 {
        Some((v - 0x30) as nat)
    } else if 0x41 <= v <= 0x46 {
        Some((v - 0x41 + 10) as nat)
    } else if 0x61 <= v <= 0x66 {
        Some((v - 0x61 + 10) as nat)
    } else {
        None
    }
}

/// Whether every character is a hex digit.
pub open spec fn all_hex_digits(d: Seq<char>) -> bool {
    forall|i: int| 0 <= i < d.len() ==> (#[trigger] hex_char_value(d[i])) is Some
}

/// The number written by a string of hex digits, most significant first.
pub open spec fn hex_number(d: Seq<char>) -> nat
    decreases d.len(),
{
    if d.len() == 0 {
        0
    } else {
        hex_number(d.drop_last()) * 16 + hex_char_value(d.last())->0
    }
}

/// What `u8::from_str_radix(s, 16)` gives: an optional '+' followed by at
/// least one hex digit, with a value that fits a byte.
pub open spec fn radix16_u8(s: Seq<char>) -> Option<u8> {
    let digits = if s.len() > 0 && s[0] == '+' {
        s.skip(1)
    } else {
        s
    };
    if digits.len() > 0 && all_hex_digits(digits) && hex_number(digits) <= 255 {
        Some(hex_number(digits) as u8)
    } else {
        None
    }
}

/// Parses a hex string with `u8::from_str_radix(s, 16)` (std). The contract
/// restates the documentation: an optional '+' sign followed by one or more
/// digits of the radix, the value fitting the type; `None` for every error.
#[verifier::external_body]
fn u8_from_hex_str(s: &str) -> (r: Option<u8>)
    ensures
        r == radix16_u8(s@),
{
    u8::from_str_radix(s, 16).ok()
}

/// Whether every character is ASCII.
pub open spec fn all_ascii(c: Seq<char>) -> bool {
    forall|i: int| 0 <= i < c.len() ==> (#[trigger] c[i] as u32) < 128
}

/// The byte of pair `j` of the cleaned input, if it parses.
pub open spec fn hex_pair(c: Seq<char>, j: int) -> Option<u8> {
    radix16_u8(c.subrange(2 * j, 2 * j + 2))
}

/// The result of [`parse_hex`]: `Some` of the `n` bytes when the cleaned
/// input is ASCII, has exactly `2 n` characters, and every pair of
/// characters parses as a byte; `None` otherwise.
pub open spec fn parse_hex_spec(text: Seq<char>, n: nat) -> Option<Seq<u8>> {
    let c = hex_cleaned(text);
    if all_ascii(c) && c.len() == 2 * n && (forall|j: int| 0 <= j < n ==> (#[trigger] hex_pair(c, j)) is Some) {
        Some(Seq::new(n, |j: int| hex_pair(c, j)->0))
    } else {
        None
    }
}

/// UTF-8 length of a character (1 to 4 bytes).
pub open spec fn utf8_width(c: char) -> nat {
    let v = c as u32;
    if v < 0x80 {
        1
    } else if v < 0x800 {
        2
    } else if v < 0x10000 {
        3
    } else {
        4
    }
}

/// UTF-8 length of a character sequence.
pub open spec fn utf8_len(c: Seq<char>) -> nat
    decreases c.len(),
{
    if c.len() == 0 {
        0
    } else {
        utf8_len(c.drop_last()) + utf8_width(c.last())
    }
}

/// Inputs on which cutting the cleaned text into 2-byte pieces would split a
/// multi-byte character: the cleaned text is 2 n bytes long, contains a
/// non-ASCII character, every pair before the first one parses, and the
/// first one either starts at an odd position or is not 2 bytes long.
pub open spec fn parse_hex_splits_char(text: Seq<char>, n: nat) -> bool {
    let c = hex_cleaned(text);
    exists|k: int|
        #![trigger c[k]]
        0 <= k < c.len() && (c[k] as u32) >= 128 && all_ascii(c.take(k)) && utf8_len(c) == 2 * n
            && (forall|j: int| 0 <= j && 2 * j + 2 <= k ==> (#[trigger] hex_pair(c, j)) is Some)
            && (k % 2 == 1 || utf8_width(c[k]) != 2)
}

/// The input with white space, ':' and '-' removed, as a vector.
fn clean_hex_input(text: &str) -> (cleaned: Vec<char>)
    ensures
        cleaned@ == hex_cleaned(text@),
{
    let mut it = text.chars();
    let mut cleaned: Vec<char> = Vec::new();
    let ghost mut seen: int = 0;
    loop
        invariant
            0 <= seen <= text@.len(),
            it.remaining() == text@.skip(seen),
            cleaned@ == hex_cleaned(text@.take(seen)),
        ensures
            cleaned@ == hex_cleaned(text@),
        decreases text@.len() - seen,
    {
        match it.next() {
            Some(c) => {
                proof {
                    assert(text@.take(seen + 1).drop_last() =~= text@.take(seen));
                    assert(text@.take(seen + 1).last() == c);
                    seen = seen + 1;
                }
                if !c.is_whitespace() && c != ':' && c != '-' {
                    cleaned.push(c);
                }
            },
            None => {
                proof {
                    assert(text@.take(seen) =~= text@);
                }
                break;
            },
        }
    }
    cleaned
}

/// Index of the first non-ASCII character, or the length if there is none.
fn first_non_ascii(c: &Vec<char>) -> (k: usize)
    ensures
        k <= c@.len(),
        all_ascii(c@.take(k as int)),
        k < c@.len() ==> (c@[k as int] as u32) >= 128,
{
    let mut k: usize = 0;
    while k < c.len()
        invariant
            k <= c@.len(),
            all_ascii(c@.take(k as int)),
        decreases c@.len() - k,
    {
        if (c[k] as u32) >= 128 {
            return k;
        }
        assert forall|i: int| 0 <= i < k + 1 implies (#[trigger] c@.take(k + 1)[i] as u32) < 128 by {
            if i < k {
                assert(c@.take(k + 1)[i] == c@.take(k as int)[i]);
            }
        }
        k = k + 1;
    }
    k
}

/// Parse `n` bytes from hex text, ignoring white space, ':' and '-'.
pub fn parse_hex(text: &str, n: usize) -> (r: Option<Vec<u8>>)
    requires
        n <= usize::MAX / 2,
        !parse_hex_splits_char(text@, n as nat),
    ensures
        r matches Some(v) ==> parse_hex_spec(text@, n as nat) == Some(v@),
        r is None ==> parse_hex_spec(text@, n as nat) is None,
{
    let cleaned = clean_hex_input(text);
    let k = first_non_ascii(&cleaned);
    if k < cleaned.len() {
        assert(!all_ascii(cleaned@)) by {
            assert(cleaned@[k as int] as u32 >= 128);
        }
        return None;
    }
    assert(cleaned@.take(k as int) =~= cleaned@);
    if cleaned.len() != n * 2 {
        return None;
    }
    let mut out: Vec<u8> = Vec::new();
    let mut i: usize = 0;
    while i < n
        invariant
            i <= n,
            n <= usize::MAX / 2,
            cleaned@ == hex_cleaned(text@),
            cleaned@.len() == 2 * n,
            all_ascii(cleaned@),
            forall|j: int| 0 <= j < i ==> (#[trigger] hex_pair(cleaned@, j)) is Some,
            out@ =~= Seq::new(i as nat, |j: int| hex_pair(cleaned@, j)->0),
        decreases n - i,
    {
        match pair_byte(&cleaned, 2 * i) {
            Some(b) => {
                out.push(b);
            },
            None => {
                return None;
            },
        }
        i = i + 1;
    }
    Some(out)
}

/// The byte written by characters `p` and `p + 1`, as `u8::from_str_radix`
/// reads them.
fn pair_byte(c: &Vec<char>, p: usize) -> (r: Option<u8>)
    requires
        p + 2 <= c@.len(),
        p % 2 == 0,
    ensures
        r == hex_pair(c@, p as int / 2),
{
    let mut pair = String::new();
    pair.push(c[p]);
    pair.push(c[p + 1]);
    assert(pair@ =~= c@.subrange(p as int, p + 2));
    u8_from_hex_str(pair.as_str())
}

/// Whether the UTF-8 length of `c` is exactly `target` bytes.
fn utf8_len_is(c: &Vec<char>, target: usize) -> (b: bool)
    ensures
        b == (utf8_len(c@) == target),
{
    let mut total: usize = 0;
    let mut i: usize = 0;
    while i < c.len()
        invariant
            i <= c@.len(),
            total == utf8_len(c@.take(i as int)),
            total <= target,
        decreases c@.len() - i,
    {
        let v = c[i] as u32;
        let w: usize = if v < 0x80 {
            1
        } else if v < 0x800 {
            2
        } else if v < 0x10000 {
            3
        } else {
            4
        };
        proof {
            assert(c@.take(i + 1).drop_last() =~= c@.take(i as int));
            lemma_utf8_len_grows(c@, (i + 1) as nat);
        }
        if target - total < w {
            return false;
        }
        total = total + w;
        i = i + 1;
    }
    assert(c@.take(i as int) =~= c@);
    total == target
}

/// UTF-8 length only grows as characters are added.
proof fn lemma_utf8_len_grows(c: Seq<char>, i: nat)
    requires
        i <= c.len(),
    ensures
        utf8_len(c.take(i as int)) <= utf8_len(c),
    decreases c.len() - i,
{
    if i < c.len() {
        lemma_utf8_len_grows(c, i + 1);
        assert(c.take(i as int + 1).drop_last() =~= c.take(i as int));
    } else {
        assert(c.take(i as int) =~= c);
    }
}

/// Whether [`parse_hex`] would have to split a multi-byte character for
/// this input (see [`parse_hex_splits_char`]); callers test this before
/// calling [`parse_hex`].
pub fn parse_hex_would_split_char(text: &str, n: usize) -> (b: bool)
    requires
        n <= usize::MAX / 2,
    ensures
        b == parse_hex_splits_char(text@, n as nat),
{
    let cleaned = clean_hex_input(text);
    let k = first_non_ascii(&cleaned);
    let ghost c = cleaned@;
    if k == cleaned.len() {
        proof {
            assert(c.take(k as int) =~= c);
            if parse_hex_splits_char(text@, n as nat) {
                let kk = choose|kk: int| 0 <= kk < c.len() && (#[trigger] c[kk] as u32) >= 128 && all_ascii(c.take(kk)) && utf8_len(c) == 2 * n
                    && (forall|j: int| 0 <= j && 2 * j + 2 <= kk ==> (#[trigger] hex_pair(c, j)) is Some)
                    && (kk % 2 == 1 || utf8_width(c[kk]) != 2);
                assert(all_ascii(c));
                assert((c[kk] as u32) < 128);
            }
        }
        return false;
    }
    let long_enough = utf8_len_is(&cleaned, n * 2);
    let mut pairs_ok = true;
    let mut j: usize = 0;
    while j < k / 2
        invariant
            k < c.len(),
            c == cleaned@,
            pairs_ok ==> forall|jj: int| 0 <= jj < j ==> (#[trigger] hex_pair(c, jj)) is Some,
            !pairs_ok ==> exists|jj: int| 0 <= jj && 2 * jj + 2 <= k && (#[trigger] hex_pair(c, jj)) is None,
            j <= k / 2,
        decreases k / 2 - j,
    {
        if pairs_ok {
            if pair_byte(&cleaned, 2 * j).is_none() {
                pairs_ok = false;
            }
        }
        j = j + 1;
    }
    let v = cleaned[k] as u32;
    let width_two = 0x80 <= v && v < 0x800;
    let result = long_enough && pairs_ok && (k % 2 == 1 || !width_two);
    proof {
        let kk = k as int;
        if result {
            assert(forall|jj: int| 0 <= jj && 2 * jj + 2 <= kk ==> (#[trigger] hex_pair(c, jj)) is Some);
            assert(parse_hex_splits_char(text@, n as nat));
        }
        if parse_hex_splits_char(text@, n as nat) {
            let k2 = choose|k2: int| 0 <= k2 < c.len() && (#[trigger] c[k2] as u32) >= 128 && all_ascii(c.take(k2)) && utf8_len(c) == 2 * n
                && (forall|j: int| 0 <= j && 2 * j + 2 <= k2 ==> (#[trigger] hex_pair(c, j)) is Some)
                && (k2 % 2 == 1 || utf8_width(c[k2]) != 2);
            if k2 < kk {
                assert(c.take(kk)[k2] == c[k2]);
            } else if k2 > kk {
                assert(c.take(k2)[kk] == c[kk]);
            }
            assert(k2 == kk);
        }
    }
    result
}

/// Every upper-case hex digit reads back as its value, is ASCII, and is
/// kept by input cleaning.
proof fn lemma_hex_digit_reads_back(k: int)
    requires
        0 <= k < 16,
    ensures
        hex_char_value(hex_digit(k)) == Some(k as nat),
        (hex_digit(k) as u32) < 128,
        kept_in_hex_input(hex_digit(k)),
        hex_digit(k) != '+',
{
    assert(hex_char_value(hex_digit(0)) == Some(0nat));
    assert(hex_char_value(hex_digit(1)) == Some(1nat));
    assert(hex_char_value(hex_digit(2)) == Some(2nat));
    assert(hex_char_value(hex_digit(3)) == Some(3nat));
    assert(hex_char_value(hex_digit(4)) == Some(4nat));
    assert(hex_char_value(hex_digit(5)) == Some(5nat));
    assert(hex_char_value(hex_digit(6)) == Some(6nat));
    assert(hex_char_value(hex_digit(7)) == Some(7nat));
    assert(hex_char_value(hex_digit(8)) == Some(8nat));
    assert(hex_char_value(hex_digit(9)) == Some(9nat));
    assert(hex_char_value(hex_digit(10)) == Some(10nat));
    assert(hex_char_value(hex_digit(11)) == Some(11nat));
    assert(hex_char_value(hex_digit(12)) == Some(12nat));
    assert(hex_char_value(hex_digit(13)) == Some(13nat));
    assert(hex_char_value(hex_digit(14)) == Some(14nat));
    assert(hex_char_value(hex_digit(15)) == Some(15nat));
}

/// The characters of a hex rendering: digit pair `2 i, 2 i + 1` is byte `i`.
proof fn lemma_hex_joined_chars(b: Seq<u8>)
    ensures
        hex_joined(b, HexSeparator::Nothing).len() == 2 * b.len(),
        forall|i: int|
            0 <= i < b.len() ==> {
                &&& #[trigger] hex_joined(b, HexSeparator::Nothing)[2 * i] == hex_digit(b[i] as int / 16)
                &&& hex_joined(b, HexSeparator::Nothing)[2 * i + 1] == hex_digit(b[i] as int % 16)
            },
    decreases b.len(),
{
    if b.len() > 0 {
        lemma_hex_joined_chars(b.drop_last());
        let h = hex_joined(b, HexSeparator::Nothing);
        let p = hex_joined(b.drop_last(), HexSeparator::Nothing);
        assert(h == p + Seq::<char>::empty() + byte_hex(b.last()));
        assert forall|i: int| 0 <= i < b.len() implies {
            &&& #[trigger] h[2 * i] == hex_digit(b[i] as int / 16)
            &&& h[2 * i + 1] == hex_digit(b[i] as int % 16)
        } by {
            if i < b.len() - 1 {
                assert(b.drop_last()[i] == b[i]);
                assert(h[2 * i] == p[2 * i]);
                assert(h[2 * i + 1] == p[2 * i + 1]);
            } else {
                assert(p.len() == 2 * i);
                assert(h[2 * i] == byte_hex(b.last())[0]);
                assert(h[2 * i + 1] == byte_hex(b.last())[1]);
            }
        }
    }
}

/// Cleaning leaves a string of kept characters unchanged.
proof fn lemma_cleaned_identity(c: Seq<char>)
    requires
        forall|i: int| 0 <= i < c.len() ==> kept_in_hex_input(#[trigger] c[i]),
    ensures
        hex_cleaned(c) == c,
    decreases c.len(),
{
    if c.len() > 0 {
        lemma_cleaned_identity(c.drop_last());
        assert(c.drop_last().push(c.last()) =~= c);
    }
}

/// Hex text written by [`hex_string`] parses back with [`parse_hex`] to the
/// same bytes, for every byte sequence: the key fields shown after loading
/// settings always read as valid.
pub proof fn lemma_hex_string_parses_back(b: Seq<u8>)
    ensures
        parse_hex_spec(hex_joined(b, HexSeparator::Nothing), b.len()) == Some(b),
        !parse_hex_splits_char(hex_joined(b, HexSeparator::Nothing), b.len()),
{
    let c = hex_joined(b, HexSeparator::Nothing);
    lemma_hex_joined_chars(b);
    assert forall|i: int| 0 <= i < c.len() implies kept_in_hex_input(#[trigger] c[i]) && (c[i] as u32) < 128 by {
        let j = i / 2;
        assert(i == 2 * j || i == 2 * j + 1);
        assert(0 <= j < b.len());
        lemma_hex_digit_reads_back(b[j] as int / 16);
        lemma_hex_digit_reads_back(b[j] as int % 16);
        if i == 2 * j {
            assert(c[2 * j] == hex_digit(b[j] as int / 16));
        } else {
            assert(c[2 * j] == hex_digit(b[j] as int / 16));
            assert(c[2 * j + 1] == hex_digit(b[j] as int % 16));
        }
    }
    lemma_cleaned_identity(c);
    assert forall|j: int| 0 <= j < b.len() implies #[trigger] hex_pair(c, j) == Some(b[j]) by {
        let hi = b[j] as int / 16;
        let lo = b[j] as int % 16;
        lemma_hex_digit_reads_back(hi);
        lemma_hex_digit_reads_back(lo);
        let pair = c.subrange(2 * j, 2 * j + 2);
        assert(pair[0] == hex_digit(hi) && pair[1] == hex_digit(lo));
        assert(pair.drop_last().drop_last().len() == 0);
        assert(hex_number(pair.drop_last()) == hi) by {
            assert(pair.drop_last().last() == hex_digit(hi));
            assert(hex_number(pair.drop_last().drop_last()) == 0);
        }
        assert(hex_number(pair) == hi * 16 + lo);
        assert(all_hex_digits(pair));
    }
    let r = parse_hex_spec(c, b.len());
    assert(r == Some(Seq::new(b.len(), |j: int| hex_pair(c, j)->0)));
    assert(Seq::new(b.len(), |j: int| hex_pair(c, j)->0) =~= b);
}

} // verus!
