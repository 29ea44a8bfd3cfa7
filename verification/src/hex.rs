//! Byte sequences written as upper-case hex.

use vstd::prelude::*;
use crate::text::{byte_hex, push_byte_hex};

verus! {

/// What goes between the hex pairs of consecutive bytes.
#[derive(Clone, Copy, Debug, PartialEq, Eq, Structural)]
pub enum HexSeparator {
    /// Pairs run together: `0A0B0C`.
    Nothing,
    /// One space between pairs: `0A 0B 0C`.
    Space,
    /// One space between pairs, and a line break before every 16th byte.
    SpaceWrap16,
}

/// The characters written before the hex pair of byte `i`.
pub open spec fn separator_before(sep: HexSeparator, i: int) -> Seq<char> {
    if i == 0 {
        Seq::empty()
    } else {
        match sep {
            HexSeparator::Nothing => Seq::empty(),
            HexSeparator::Space => seq![' '],
            HexSeparator::SpaceWrap16 => if i % 16 == 0 {
                seq!['\n']
            } else {
                seq![' ']
            },
        }
    }
}

/// The bytes as upper-case hex pairs with `sep` between consecutive pairs.
pub open spec fn hex_joined(bytes: Seq<u8>, sep: HexSeparator) -> Seq<char>
    decreases bytes.len(),
{
    if bytes.len() == 0 {
        Seq::empty()
    } else {
        let i = bytes.len() - 1;
        hex_joined(bytes.drop_last(), sep) + separator_before(sep, i) + byte_hex(bytes[i])
    }
}

/// Append the bytes as upper-case hex pairs separated by `sep`.
pub fn push_hex_joined(s: &mut String, bytes: &[u8], sep: HexSeparator)
    ensures
        final(s)@ == old(s)@ + hex_joined(bytes@, sep),
{
    let ghost start = s@;
    let mut i: usize = 0;
    assert(bytes@.take(0) =~= Seq::<u8>::empty());
    while i < bytes.len()
        invariant
            i <= bytes@.len(),
            s@ == start + hex_joined(bytes@.take(i as int), sep),
        decreases bytes@.len() - i,
    {
        if i > 0 {
            match sep {
                HexSeparator::Nothing => {},
                HexSeparator::Space => {
                    s.push(' ');
                },
                HexSeparator::SpaceWrap16 => {
                    if i % 16 == 0 {
                        s.push('\n');
                    } else {
                        s.push(' ');
                    }
                },
            }
        }
        push_byte_hex(s, bytes[i]);
        proof {
            let t = bytes@.take(i + 1);
            assert(t.drop_last() =~= bytes@.take(i as int));
            assert(t[i as int] == bytes@[i as int]);
        }
        i = i + 1;
        assert(s@ =~= start + hex_joined(bytes@.take(i as int), sep));
    }
    assert(bytes@.take(bytes@.len() as int) =~= bytes@);
}

/// Length of a hex rendering: two characters per byte plus the separators.
pub proof fn lemma_hex_joined_len(bytes: Seq<u8>, sep: HexSeparator)
    ensures
        sep == HexSeparator::Nothing ==> hex_joined(bytes, sep).len() == 2 * bytes.len(),
        sep != HexSeparator::Nothing && bytes.len() > 0 ==> hex_joined(bytes, sep).len() == 3
            * bytes.len() - 1,
    decreases bytes.len(),
{
    if bytes.len() > 0 {
        let i = bytes.len() - 1;
        lemma_hex_joined_len(bytes.drop_last(), sep);
        assert(hex_joined(Seq::<u8>::empty(), sep).len() == 0);
        if i > 0 && sep != HexSeparator::Nothing {
            assert(separator_before(sep, i as int).len() == 1);
        }
    }
}

} // verus!
