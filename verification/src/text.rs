//! Character-level text building: hex and decimal digits, and the std string
//! operations the formatting code relies on.

use vstd::prelude::*;
use vstd::string::{StrSliceExecFns, StringExecFns};

verus! {

/// Appends `ch` to the end of the string (std `String::push`).
pub assume_specification[ String::push ](s: &mut String, ch: char)
    ensures
        final(s)@ == old(s)@.push(ch),
;

/// Removes the last character and returns it, or `None` if the string is
/// empty (std `String::pop`).
pub assume_specification[ String::pop ](s: &mut String) -> (c: Option<char>)
    ensures
        old(s)@.len() > 0 ==> c == Some(old(s)@.last()) && final(s)@ == old(s)@.drop_last(),
        old(s)@.len() == 0 ==> c is None && final(s)@ == old(s)@,
;

/// The characters with the Unicode White_Space property (PropList.txt):
/// U+0009..U+000D, U+0020, U+0085, U+00A0, U+1680, U+2000..U+200A, U+2028,
/// U+2029, U+202F, U+205F and U+3000.
pub open spec fn is_white_space(c: char) -> bool {
    let v = c as u32;
    ||| 0x09 <= v <= 0x0D
    ||| v == 0x20
    ||| v == 0x85
    ||| v == 0xA0
    ||| v == 0x1680
    ||| 0x2000 <= v <= 0x200A
    ||| v == 0x2028
    ||| v == 0x2029
    ||| v == 0x202F
    ||| v == 0x205F
    ||| v == 0x3000
}

/// Returns true for characters with the Unicode White_Space property
/// (std `char::is_whitespace`).
pub assume_specification[ char::is_whitespace ](c: char) -> (b: bool)
    ensures
        b == is_white_space(c),
;

/// The sixteen upper-case hex digits.
pub open spec fn hex_digit_table() -> Seq<char> {
    seq!['0', '1', '2', '3', '4', '5', '6', '7', '8', '9', 'A', 'B', 'C', 'D', 'E', 'F']
}

/// The upper-case hex digit for `n` in 0..16.
pub open spec fn hex_digit(n: int) -> char {
    hex_digit_table()[n]
}

/// A byte as two upper-case hex digits (`{:02X}`).
pub open spec fn byte_hex(b: u8) -> Seq<char> {
    seq![hex_digit(b as int / 16), hex_digit(b as int % 16)]
}

/// Upper-case hex digits of `n`, most significant first, without leading
/// zeros (`{:X}`).
pub open spec fn hex_digits(n: nat) -> Seq<char>
    decreases n,
{
    if n < 16 {
        seq![hex_digit(n as int)]
    } else {
        hex_digits(n / 16).push(hex_digit((n % 16) as int))
    }
}

/// The ten decimal digits.
pub open spec fn dec_digit_table() -> Seq<char> {
    seq!['0', '1', '2', '3', '4', '5', '6', '7', '8', '9']
}

/// Decimal digits of `n`, most significant first, without leading zeros
/// (`{}` on an unsigned integer).
pub open spec fn dec_digits(n: nat) -> Seq<char>
    decreases n,
{
    if n < 10 {
        seq![dec_digit_table()[n as int]]
    } else {
        dec_digits(n / 10).push(dec_digit_table()[(n % 10) as int])
    }
}

/// `{}` on a signed integer: a minus sign for negative values, then the
/// decimal digits of the magnitude.
pub open spec fn signed_dec(v: int) -> Seq<char> {
    if v < 0 {
        seq!['-'] + dec_digits((-v) as nat)
    } else {
        dec_digits(v as nat)
    }
}

/// `digits` left-padded with '0' to at least `width` characters (`{:0W}`).
pub open spec fn zero_padded(digits: Seq<char>, width: nat) -> Seq<char> {
    if digits.len() < width {
        Seq::new((width - digits.len()) as nat, |i: int| '0') + digits
    } else {
        digits
    }
}

/// The upper-case hex digit for `n`.
pub fn hex_digit_char(n: u8) -> (c: char)
    requires
        n < 16,
    ensures
        c == hex_digit(n as int),
{
    let table: [char; 16] = ['0', '1', '2', '3', '4', '5', '6', '7', '8', '9', 'A', 'B', 'C', 'D', 'E', 'F'];
    assert(table@ =~= hex_digit_table());
    table[n as usize]
}

/// Append a byte as two upper-case hex digits.
pub fn push_byte_hex(s: &mut String, b: u8)
    ensures
        final(s)@ == old(s)@ + byte_hex(b),
{
    s.push(hex_digit_char(b / 16));
    s.push(hex_digit_char(b % 16));
    assert(s@ =~= old(s)@ + byte_hex(b));
}

/// Append the upper-case hex digits of `n`.
pub fn push_hex_digits(s: &mut String, n: u64)
    ensures
        final(s)@ == old(s)@ + hex_digits(n as nat),
    decreases n,
{
    if n >= 16 {
        push_hex_digits(s, n / 16);
    }
    s.push(hex_digit_char((n % 16) as u8));
    assert(s@ =~= old(s)@ + hex_digits(n as nat));
}

/// Append `n` in upper-case hex, zero-padded to at least `width` digits
/// (`{:0width$X}`).
pub fn push_hex_padded(s: &mut String, n: u64, width: usize)
    ensures
        final(s)@ == old(s)@ + zero_padded(hex_digits(n as nat), width as nat),
{
    let mut digits = String::new();
    push_hex_digits(&mut digits, n);
    push_padded(s, &digits, width);
}

/// Append the decimal digits of `n`.
pub fn push_dec_digits(s: &mut String, n: u64)
    ensures
        final(s)@ == old(s)@ + dec_digits(n as nat),
    decreases n,
{
    if n >= 10 {
        push_dec_digits(s, n / 10);
    }
    let table: [char; 10] = ['0', '1', '2', '3', '4', '5', '6', '7', '8', '9'];
    assert(table@ =~= dec_digit_table());
    s.push(table[(n % 10) as usize]);
    assert(s@ =~= old(s)@ + dec_digits(n as nat));
}

/// Append a signed integer in decimal (`{}`).
pub fn push_signed_dec(s: &mut String, v: i64)
    ensures
        final(s)@ == old(s)@ + signed_dec(v as int),
{
    if v < 0 {
        s.push('-');
        let mag: u64 = if v == i64::MIN {
            9_223_372_036_854_775_808u64
        } else {
            (-v) as u64
        };
        push_dec_digits(s, mag);
        assert(s@ =~= old(s)@ + signed_dec(v as int));
    } else {
        push_dec_digits(s, v as u64);
    }
}

/// Append `digits`, left-padded with '0' to at least `width` characters.
pub fn push_padded(s: &mut String, digits: &String, width: usize)
    ensures
        final(s)@ == old(s)@ + zero_padded(digits@, width as nat),
{
    let k = digits.as_str().unicode_len();
    let mut i: usize = k;
    let ghost start = s@;
    while i < width
        invariant
            k == digits@.len(),
            k <= i,
            i <= width || k >= width,
            k >= width ==> i == k,
            s@ == start + Seq::new((i - k) as nat, |j: int| '0'),
        decreases width - i,
    {
        s.push('0');
        i = i + 1;
        assert(s@ =~= start + Seq::new((i - k) as nat, |j: int| '0'));
    }
    let ghost padded = s@;
    s.append(digits.as_str());
    proof {
        let zp = zero_padded(digits@, width as nat);
        if k < width {
            assert(i == width);
            assert(zp.len() == width);
            assert forall|j: int| 0 <= j < zp.len() implies #[trigger] zp[j] == (s@)[start.len() + j] by {
                if j < width - k {
                    assert(padded[start.len() + j] == '0');
                }
            }
        } else {
            assert(i == k);
            assert(padded =~= start);
        }
        assert(s@ =~= start + zp);
    }
}

/// Append a string slice.
pub fn push_str(s: &mut String, t: &str)
    ensures
        final(s)@ == old(s)@ + t@,
{
    s.append(t);
}

} // verus!
