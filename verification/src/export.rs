//! Text pieces of the Typst export: hex renderings of bytes, string escaping
//! for Typst literals and raw blocks, and the labels and colors of symbols.

use vstd::prelude::*;
use vstd::std_specs::iter::IteratorSpec;
use crate::hex::{hex_joined, push_hex_joined, HexSeparator};
use crate::stream::{ChirpDirection, SymbolKind};
use crate::text::{byte_hex, hex_digits, push_byte_hex, push_hex_padded, push_str, zero_padded};

verus! {

/// Bytes as hex pairs separated by single spaces, e.g. `01 02 0A`.
pub fn format_hex_compact(bytes: &[u8]) -> (s: String)
    ensures
        s@ == hex_joined(bytes@, HexSeparator::Space),
{
    let mut s = String::new();
    push_hex_joined(&mut s, bytes, HexSeparator::Space);
    s
}

/// A DevAddr in display order as eight hex digits, e.g. `26011F88`.
pub fn format_dev_addr(b: &[u8; 4]) -> (s: String)
    ensures
        s@ == hex_joined(b@, HexSeparator::Nothing),
{
    let mut s = String::new();
    push_hex_joined(&mut s, b, HexSeparator::Nothing);
    s
}

/// The character shown for a byte in the ASCII column: the byte itself when
/// printable (0x20..=0x7E), '.' otherwise.
pub open spec fn printable(b: u8) -> char {
    if 0x20 <= b <= 0x7E {
        b as char
    } else {
        '.'
    }
}

/// The hex cells of one row: each byte as " XX", with one extra space
/// before the ninth byte.
pub open spec fn hex_cells(chunk: Seq<u8>) -> Seq<char>
    decreases chunk.len(),
{
    if chunk.len() == 0 {
        Seq::empty()
    } else {
        let i = chunk.len() - 1;
        hex_cells(chunk.drop_last()) + (if i == 8 {
            seq![' ']
        } else {
            Seq::empty()
        }) + seq![' '] + byte_hex(chunk[i])
    }
}

/// Padding that aligns the ASCII column of a short last row: three spaces
/// per missing byte, plus the mid-row space when eight or more are missing.
pub open spec fn row_padding(len: nat) -> Seq<char> {
    let missing = (16 - len) as nat;
    Seq::new(3 * missing, |i: int| ' ') + (if missing >= 8 {
        seq![' ']
    } else {
        Seq::empty()
    })
}

/// One row of the hex block: `OOOO: ` offset, hex cells, padding, and the
/// ASCII column between bars.
pub open spec fn hex_block_row(bytes: Seq<u8>, r: nat) -> Seq<char> {
    let start: int = 16 * r as int;
    let end: int = if start + 16 <= bytes.len() {
        start + 16
    } else {
        bytes.len() as int
    };
    let chunk = bytes.subrange(start as int, end);
    zero_padded(hex_digits(start as nat), 4) + seq![':', ' '] + hex_cells(chunk) + row_padding(chunk.len())
        + seq![' ', ' ', '|'] + Seq::new(chunk.len(), |i: int| printable(chunk[i])) + seq!['|']
}

/// The first `k` rows of the hex block, separated by line breaks.
pub open spec fn hex_block_rows(bytes: Seq<u8>, k: nat) -> Seq<char>
    decreases k,
{
    if k == 0 {
        Seq::empty()
    } else {
        hex_block_rows(bytes, (k - 1) as nat) + (if k > 1 {
            seq!['\n']
        } else {
            Seq::empty()
        }) + hex_block_row(bytes, (k - 1) as nat)
    }
}

/// Multi-line hex dump, 16 bytes per row with offsets and an ASCII column;
/// "(empty)" for no bytes.
pub open spec fn hex_block_spec(bytes: Seq<u8>) -> Seq<char> {
    if bytes.len() == 0 {
        seq!['(', 'e', 'm', 'p', 't', 'y', ')']
    } else {
        hex_block_rows(bytes, ((bytes.len() + 15) / 16) as nat)
    }
}

/// Append the hex cells of one row.
fn push_hex_cells(s: &mut String, chunk: &[u8])
    ensures
        final(s)@ == old(s)@ + hex_cells(chunk@),
{
    let ghost s1 = s@;
    let mut i: usize = 0;
    assert(chunk@.take(0) =~= Seq::<u8>::empty());
    while i < chunk.len()
        invariant
            i <= chunk@.len(),
            s@ == s1 + hex_cells(chunk@.take(i as int)),
        decreases chunk@.len() - i,
    {
        if i == 8 {
            s.push(' ');
        }
        s.push(' ');
        push_byte_hex(s, chunk[i]);
        proof {
            let t = chunk@.take(i + 1);
            assert(t.drop_last() =~= chunk@.take(i as int));
            assert(t.last() == chunk@[i as int]);
        }
        i = i + 1;
        assert(s@ =~= s1 + hex_cells(chunk@.take(i as int)));
    }
    assert(chunk@.take(chunk@.len() as int) =~= chunk@);
}

/// Append the padding after a row of `len` bytes.
fn push_row_padding(s: &mut String, len: usize)
    requires
        len <= 16,
    ensures
        final(s)@ == old(s)@ + row_padding(len as nat),
{
    let ghost s2 = s@;
    let pad_count = 16 - len;
    let mut p: usize = 0;
    while p < pad_count
        invariant
            p <= pad_count,
            pad_count <= 16,
            s@ == s2 + Seq::new(3 * p as nat, |j: int| ' '),
        decreases pad_count - p,
    {
        s.push(' ');
        s.push(' ');
        s.push(' ');
        p = p + 1;
        assert(s@ =~= s2 + Seq::new(3 * p as nat, |j: int| ' '));
    }
    if pad_count >= 8 {
        s.push(' ');
    }
    assert(s@ =~= s2 + row_padding(len as nat));
}

/// Append the ASCII column of a row, without the bars.
fn push_ascii_column(s: &mut String, chunk: &[u8])
    ensures
        final(s)@ == old(s)@ + Seq::new(chunk@.len(), |k: int| printable(chunk@[k])),
        final(s)@.len() == old(s)@.len() + chunk@.len(),
        forall|k: int|
            0 <= k < chunk@.len() ==> (0x20 <= chunk@[k] <= 0x7E ==> #[trigger] final(s)@[old(s)@.len() + k]
                == chunk@[k] as char),
        forall|k: int|
            0 <= k < chunk@.len() ==> (!(0x20 <= chunk@[k] <= 0x7E) ==> #[trigger] final(s)@[old(s)@.len()
                + k] == '.'),
{
    let ghost s3 = s@;
    let mut j: usize = 0;
    while j < chunk.len()
        invariant
            j <= chunk@.len(),
            s@ == s3 + Seq::new(j as nat, |k: int| printable(chunk@[k])),
        decreases chunk@.len() - j,
    {
        let c = chunk[j];
        let shown = if 0x20 <= c && c <= 0x7E {
            c as char
        } else {
            '.'
        };
        s.push(shown);
        j = j + 1;
        assert(s@ =~= s3 + Seq::new(j as nat, |k: int| printable(chunk@[k])));
    }
}

/// Append one row of the hex block.
#[verifier::rlimit(60)]
fn push_hex_block_row(s: &mut String, bytes: &[u8], r: usize)
    requires
        16 * r < bytes@.len(),
    ensures
        final(s)@ == old(s)@ + hex_block_row(bytes@, r as nat),
{
    let n = bytes.len();
    let start = 16 * r;
    let end = if n - start >= 16 {
        start + 16
    } else {
        n
    };
    let chunk = vstd::slice::slice_subrange(bytes, start, end);
    let ghost s0 = s@;
    let ghost a = zero_padded(hex_digits(start as nat), 4);
    let ghost b = seq![':', ' '];
    let ghost c = hex_cells(chunk@);
    let ghost d = row_padding(chunk@.len());
    let ghost e = seq![' ', ' ', '|'];
    let ghost f = Seq::new(chunk@.len(), |k: int| printable(chunk@[k]));
    let ghost g = seq!['|'];
    push_hex_padded(s, start as u64, 4);
    s.push(':');
    s.push(' ');
    assert(s@ =~= s0 + a + b);
    push_hex_cells(s, chunk);
    push_row_padding(s, end - start);
    s.push(' ');
    s.push(' ');
    s.push('|');
    assert(s@ =~= s0 + a + b + c + d + e);
    push_ascii_column(s, chunk);
    s.push('|');
    assert(s@ =~= s0 + a + b + c + d + e + f + g);
    assert(hex_block_row(bytes@, r as nat) == a + b + c + d + e + f + g);
    assert(s0 + a + b + c + d + e + f + g =~= s0 + (a + b + c + d + e + f + g));
}

/// The ASCII column of every row of the hex block: the row ends with `|`,
/// the row's bytes, `|`; a byte `b` with 0x20 <= b <= 0x7E (space included)
/// is shown as the character `b` itself and every other byte as '.'.
pub proof fn lemma_hex_row_ascii_column(bytes: Seq<u8>, r: nat, k: int)
    requires
        16 * r < bytes.len(),
        0 <= k < 16,
        16 * r + k < bytes.len(),
    ensures
        ({
            let row = hex_block_row(bytes, r);
            let m: int = if 16 * r + 16 <= bytes.len() {
                16
            } else {
                bytes.len() - 16 * r
            };
            let b = bytes[16 * r + k];
            &&& row.len() >= m + 2
            &&& row[row.len() - 1] == '|'
            &&& row[row.len() - 2 - m] == '|'
            &&& (0x20 <= b <= 0x7E ==> row[row.len() - 1 - m + k] == b as char)
            &&& (!(0x20 <= b <= 0x7E) ==> row[row.len() - 1 - m + k] == '.')
        }),
{
    let start: int = 16 * r as int;
    let end: int = if start + 16 <= bytes.len() {
        start + 16
    } else {
        bytes.len() as int
    };
    let chunk = bytes.subrange(start, end);
    let p = zero_padded(hex_digits(start as nat), 4) + seq![':', ' '] + hex_cells(chunk) + row_padding(
        chunk.len(),
    ) + seq![' ', ' ', '|'];
    let col = Seq::new(chunk.len(), |i: int| printable(chunk[i]));
    let row = hex_block_row(bytes, r);
    assert(row =~= p + col + seq!['|']);
    assert(p[p.len() - 1] == '|');
    assert(row[p.len() + k] == col[k]);
    assert(chunk[k] == bytes[16 * r + k]);
}

/// Multi-line hex block with offsets, 16 bytes per row, suitable for
/// embedding in a Typst raw block.
pub fn format_hex_block(bytes: &[u8]) -> (out: String)
    ensures
        out@ == hex_block_spec(bytes@),
{
    let mut out = String::new();
    if bytes.len() == 0 {
        let empty = "(empty)";
        proof {
            reveal_strlit("(empty)");
        }
        push_str(&mut out, empty);
        return out;
    }
    let n = bytes.len();
    let rows = n / 16 + if n % 16 != 0 {
        1
    } else {
        0
    };
    assert(rows == (n + 15) / 16);
    let mut r: usize = 0;
    while r < rows
        invariant
            r <= rows,
            rows == (n + 15) / 16,
            n == bytes@.len(),
            out@ == hex_block_rows(bytes@, r as nat),
        decreases rows - r,
    {
        assert(16 * r < n) by (nonlinear_arith)
            requires
                r < rows,
                rows == (n + 15) / 16,
        ;
        if r > 0 {
            out.push('\n');
        }
        push_hex_block_row(&mut out, bytes, r);
        r = r + 1;
        assert(out@ =~= hex_block_rows(bytes@, r as nat));
    }
    out
}

/// How one character is written inside a Typst double-quoted string.
pub open spec fn typst_escape_char(c: char) -> Seq<char> {
    if c == '"' {
        seq!['\\', '"']
    } else if c == '\\' {
        seq!['\\', '\\']
    } else if c == '\n' {
        seq!['\\', 'n']
    } else {
        seq![c]
    }
}

/// Every character escaped as in [`typst_escape_char`].
pub open spec fn typst_escaped(s: Seq<char>) -> Seq<char>
    decreases s.len(),
{
    if s.len() == 0 {
        Seq::empty()
    } else {
        typst_escape_char(s[0]) + typst_escaped(s.skip(1))
    }
}

/// Escaping one more character appends its escape.
proof fn lemma_typst_escaped_push(a: Seq<char>, c: char)
    ensures
        typst_escaped(a.push(c)) == typst_escaped(a) + typst_escape_char(c),
    decreases a.len(),
{
    if a.len() == 0 {
        assert(a.push(c).skip(1) =~= Seq::<char>::empty());
        assert(typst_escaped(Seq::<char>::empty()) == Seq::<char>::empty());
        assert(typst_escape_char(c) + Seq::<char>::empty() =~= typst_escape_char(c));
        assert(a =~= Seq::<char>::empty());
    } else {
        lemma_typst_escaped_push(a.skip(1), c);
        assert(a.push(c).skip(1) =~= a.skip(1).push(c));
        assert(a.push(c)[0] == a[0]);
        assert(typst_escape_char(a[0]) + (typst_escaped(a.skip(1)) + typst_escape_char(c))
            =~= (typst_escape_char(a[0]) + typst_escaped(a.skip(1))) + typst_escape_char(c));
    }
}

/// Escape a string for use inside a Typst double-quoted string literal.
pub fn typst_string(text: &str) -> (out: String)
    ensures
        out@ == typst_escaped(text@),
{
    let mut out = String::new();
    let mut it = text.chars();
    let ghost mut seen: int = 0;
    loop
        invariant
            0 <= seen <= text@.len(),
            it.remaining() == text@.skip(seen),
            out@ == typst_escaped(text@.take(seen)),
        ensures
            out@ == typst_escaped(text@),
        decreases text@.len() - seen,
    {
        match it.next() {
            Some(c) => {
                proof {
                    assert(text@.take(seen + 1).drop_last() =~= text@.take(seen));
                    assert(text@.take(seen + 1).last() == c);
                    seen = seen + 1;
                }
                let ghost before = out@;
                if c == '"' {
                    out.push('\\');
                    out.push('"');
                } else if c == '\\' {
                    out.push('\\');
                    out.push('\\');
                } else if c == '\n' {
                    out.push('\\');
                    out.push('n');
                } else {
                    out.push(c);
                }
                assert(out@ =~= before + typst_escape_char(c));
                proof {
                    lemma_typst_escaped_push(text@.take(seen - 1), c);
                    assert(text@.take(seen - 1).push(c) =~= text@.take(seen));
                }
            },
            None => {
                proof {
                    assert(text@.take(seen) =~= text@);
                }
                break;
            },
        }
    }
    out
}

/// Decoding a Typst string literal's escapes: `\"`, `\\` and `\n` back to
/// the characters they stand for.
pub open spec fn typst_unescaped(s: Seq<char>) -> Seq<char>
    decreases s.len(),
{
    if s.len() == 0 {
        Seq::empty()
    } else if s.len() >= 2 && s[0] == '\\' {
        let c = if s[1] == 'n' {
            '\n'
        } else {
            s[1]
        };
        seq![c] + typst_unescaped(s.skip(2))
    } else {
        seq![s[0]] + typst_unescaped(s.skip(1))
    }
}

/// Escaping for a Typst string literal loses nothing: decoding the escapes
/// of the output gives back the input, for every input.
pub proof fn lemma_typst_string_round_trip(s: Seq<char>)
    ensures
        typst_unescaped(typst_escaped(s)) == s,
    decreases s.len(),
{
    if s.len() > 0 {
        lemma_typst_string_round_trip(s.skip(1));
        let e = typst_escape_char(s[0]);
        let rest = typst_escaped(s.skip(1));
        let t = e + rest;
        if e.len() == 2 {
            assert(t.skip(2) =~= rest);
            assert(t[0] == '\\');
        } else {
            assert(t.skip(1) =~= rest);
            assert(t[0] == s[0]);
        }
        assert(seq![s[0]] + s.skip(1) =~= s);
    }
}

/// Inline raw content: every backtick replaced by U+2018, everything else
/// kept.
pub open spec fn raw_inline_spec(s: Seq<char>) -> Seq<char> {
    Seq::new(s.len(), |i: int| if s[i] == '`' { '\u{2018}' } else { s[i] })
}

/// Make a string safe to drop inside a Typst inline raw block:
/// `` `…` `` (single backticks). Backticks inside the content would
/// terminate the raw block, so they are mapped to a visually similar
/// character. Any other content is preserved verbatim.
pub fn typst_raw_inline(text: &str) -> (out: String)
    ensures
        out@ == raw_inline_spec(text@),
{
    let mut out = String::new();
    let mut it = text.chars();
    let ghost mut seen: int = 0;
    loop
        invariant
            0 <= seen <= text@.len(),
            it.remaining() == text@.skip(seen),
            out@ == raw_inline_spec(text@.take(seen)),
        ensures
            out@ == raw_inline_spec(text@),
        decreases text@.len() - seen,
    {
        match it.next() {
            Some(c) => {
                proof {
                    assert(text@.take(seen + 1).drop_last() =~= text@.take(seen));
                    assert(text@.take(seen + 1).last() == c);
                    seen = seen + 1;
                }
                if c == '`' {
                    out.push('\u{2018}');
                } else {
                    out.push(c);
                }
                assert(out@ =~= raw_inline_spec(text@.take(seen)));
            },
            None => {
                proof {
                    assert(text@.take(seen) =~= text@);
                }
                break;
            },
        }
    }
    out
}

/// Inline raw content never holds a backtick, so it cannot close the raw
/// block early.
pub proof fn lemma_raw_inline_has_no_backtick(s: Seq<char>)
    ensures
        !raw_inline_spec(s).contains('`'),
{
}

/// The output of [`typst_safe_for_raw_block`] for `s`, with the length of the
/// run of backticks it currently ends in: a zero-width space (U+200B) is
/// inserted before the backtick that would make a run of three, and the run
/// restarts at one.
pub open spec fn raw_block_state(s: Seq<char>) -> (Seq<char>, nat)
    decreases s.len(),
{
    if s.len() == 0 {
        (Seq::empty(), 0)
    } else {
        let (out, run) = raw_block_state(s.drop_last());
        let c = s.last();
        if c == '`' {
            if run + 1 >= 3 {
                (out + seq!['\u{200B}', '`'], 1)
            } else {
                (out.push('`'), run + 1)
            }
        } else {
            (out.push(c), 0)
        }
    }
}

/// Content for a Typst triple-backtick raw block.
pub open spec fn raw_block_spec(s: Seq<char>) -> Seq<char> {
    raw_block_state(s).0
}

/// Make a string safe to drop inside a Typst triple-tick raw block: any
/// backtick run of three or more is broken up with zero-width spaces.
pub fn typst_safe_for_raw_block(text: &str) -> (out: String)
    ensures
        out@ == raw_block_spec(text@),
{
    let mut out = String::new();
    let mut run: usize = 0;
    let mut it = text.chars();
    let ghost mut seen: int = 0;
    loop
        invariant
            0 <= seen <= text@.len(),
            it.remaining() == text@.skip(seen),
            (out@, run as nat) == raw_block_state(text@.take(seen)),
            run <= 2,
        ensures
            out@ == raw_block_spec(text@),
        decreases text@.len() - seen,
    {
        match it.next() {
            Some(c) => {
                proof {
                    assert(text@.take(seen + 1).drop_last() =~= text@.take(seen));
                    assert(text@.take(seen + 1).last() == c);
                    seen = seen + 1;
                }
                let ghost before = out@;
                if c == '`' {
                    run = run + 1;
                    if run >= 3 {
                        out.push('\u{200B}');
                        run = 1;
                    }
                    out.push('`');
                } else {
                    run = 0;
                    out.push(c);
                }
                assert(out@ =~= raw_block_state(text@.take(seen)).0);
            },
            None => {
                proof {
                    assert(text@.take(seen) =~= text@);
                }
                break;
            },
        }
    }
    out
}

/// Whether `o` holds three backticks in a row.
pub open spec fn has_triple_backtick(o: Seq<char>) -> bool {
    exists|i: int| 0 <= i && i + 2 < o.len() && #[trigger] o[i] == '`' && o[i + 1] == '`' && o[i + 2] == '`'
}

/// The raw-block state ends in exactly `run` backticks, at most two.
proof fn lemma_raw_block_state(s: Seq<char>)
    ensures
        ({
            let (out, run) = raw_block_state(s);
            &&& run <= 2
            &&& run <= out.len()
            &&& forall|k: int| 0 <= k < run ==> #[trigger] out[out.len() - 1 - k] == '`'
            &&& run < out.len() ==> out[out.len() - 1 - run] != '`'
            &&& !has_triple_backtick(out)
        }),
    decreases s.len(),
{
    if s.len() > 0 {
        lemma_raw_block_state(s.drop_last());
        let (out, run) = raw_block_state(s.drop_last());
        let c = s.last();
        let (out2, run2) = raw_block_state(s);
        if c == '`' && run + 1 >= 3 {
            assert(out2 == out + seq!['\u{200B}', '`']);
            assert forall|i: int| 0 <= i && i + 2 < out2.len() implies !(#[trigger] out2[i] == '`' && out2[i + 1] == '`' && out2[i + 2] == '`') by {
                if i + 2 < out.len() {
                    assert(out2[i] == out[i] && out2[i + 1] == out[i + 1] && out2[i + 2] == out[i + 2]);
                }
            }
        } else if c == '`' {
            assert(out2 == out.push('`'));
            assert forall|i: int| 0 <= i && i + 2 < out2.len() implies !(#[trigger] out2[i] == '`' && out2[i + 1] == '`' && out2[i + 2] == '`') by {
                if i + 2 < out.len() {
                    assert(out2[i] == out[i] && out2[i + 1] == out[i + 1] && out2[i + 2] == out[i + 2]);
                } else if i + 2 == out.len() {
                    // a triple ending in the new backtick needs the old output to end in two
                    if run == 0 {
                        assert(out[out.len() - 1] != '`');
                    } else {
                        assert(out[out.len() - 1 - 1] != '`');
                    }
                }
            }
        } else {
            assert(out2 == out.push(c));
            assert forall|i: int| 0 <= i && i + 2 < out2.len() implies !(#[trigger] out2[i] == '`' && out2[i + 1] == '`' && out2[i + 2] == '`') by {
                if i + 2 < out.len() {
                    assert(out2[i] == out[i] && out2[i + 1] == out[i + 1] && out2[i + 2] == out[i + 2]);
                }
            }
        }
    }
}

/// Content prepared for a raw block never holds three backticks in a row,
/// so it cannot close the block early.
pub proof fn lemma_raw_block_has_no_triple_backtick(s: Seq<char>)
    ensures
        !has_triple_backtick(raw_block_spec(s)),
{
    lemma_raw_block_state(s);
}

/// Label of a symbol kind in the export tables.
pub fn symbol_kind_label(k: SymbolKind) -> (s: &'static str)
    ensures
        s@ == (match k {
            SymbolKind::Preamble => seq!['P', 'r', 'e', 'a', 'm', 'b', 'l', 'e'],
            SymbolKind::Sync => seq!['S', 'y', 'n', 'c'],
            SymbolKind::Header => seq!['H', 'e', 'a', 'd', 'e', 'r'],
            SymbolKind::Payload => seq!['P', 'a', 'y', 'l', 'o', 'a', 'd'],
        }),
{
    match k {
        SymbolKind::Preamble => {
            proof {
                reveal_strlit("Preamble");
            }
            "Preamble"
        },
        SymbolKind::Sync => {
            proof {
                reveal_strlit("Sync");
            }
            "Sync"
        },
        SymbolKind::Header => {
            proof {
                reveal_strlit("Header");
            }
            "Header"
        },
        SymbolKind::Payload => {
            proof {
                reveal_strlit("Payload");
            }
            "Payload"
        },
    }
}

/// One-letter tag of a symbol kind: P, S, H, or D for data.
pub fn symbol_kind_letter(k: SymbolKind) -> (s: &'static str)
    ensures
        s@ == seq![match k {
            SymbolKind::Preamble => 'P',
            SymbolKind::Sync => 'S',
            SymbolKind::Header => 'H',
            SymbolKind::Payload => 'D',
        }],
{
    match k {
        SymbolKind::Preamble => {
            proof {
                reveal_strlit("P");
            }
            "P"
        },
        SymbolKind::Sync => {
            proof {
                reveal_strlit("S");
            }
            "S"
        },
        SymbolKind::Header => {
            proof {
                reveal_strlit("H");
            }
            "H"
        },
        SymbolKind::Payload => {
            proof {
                reveal_strlit("D");
            }
            "D"
        },
    }
}

/// The color a symbol is drawn in: slate gray for downchirps and preamble,
/// orange for sync, lime for header and dodger blue for payload.
pub open spec fn signal_color_spec(kind: SymbolKind, direction: ChirpDirection) -> Seq<char> {
    if direction == ChirpDirection::Down {
        seq!['#', '8', 'a', '8', 'd', '9', '6']
    } else {
        match kind {
            SymbolKind::Preamble => seq!['#', '8', 'a', '8', 'd', '9', '6'],
            SymbolKind::Sync => seq!['#', 'd', '8', '8', '6', '2', 'c'],
            SymbolKind::Header => seq!['#', '5', 'f', 'a', '1', '4', 'a'],
            SymbolKind::Payload => seq!['#', '3', 'a', '8', 'e', 'd', 'b'],
        }
    }
}

/// Hex color matching the in-app per-symbol-kind palette for the signal row.
pub fn signal_color_for(kind: SymbolKind, direction: ChirpDirection) -> (s: &'static str)
    ensures
        s@ == signal_color_spec(kind, direction),
{
    if direction == ChirpDirection::Down {
        proof {
            reveal_strlit("#8a8d96");
        }
        return "#8a8d96";
    }
    match kind {
        SymbolKind::Preamble => {
            proof {
                reveal_strlit("#8a8d96");
            }
            "#8a8d96"
        },
        SymbolKind::Sync => {
            proof {
                reveal_strlit("#d8862c");
            }
            "#d8862c"
        },
        SymbolKind::Header => {
            proof {
                reveal_strlit("#5fa14a");
            }
            "#5fa14a"
        },
        SymbolKind::Payload => {
            proof {
                reveal_strlit("#3a8edb");
            }
            "#3a8edb"
        },
    }
}

} // verus!
