//! Decisions behind the on-screen controls: cycling buttons, text entry into
//! the message and key fields, and the hex renderings shown in the panels.

use vstd::prelude::*;
use vstd::std_specs::iter::IteratorSpec;
use vstd::string::{StrSliceExecFns, StringExecFns, StringSliceAdditionalSpecFns};
use crate::hex::{hex_joined, push_hex_joined, HexSeparator};
use crate::state::{parse_hex, parse_hex_spec, parse_hex_splits_char};
use crate::stream::{LabeledSymbol, SymbolKind};
use crate::text::{dec_digits, push_dec_digits, push_str};

verus! {

/// Checks if the value is an ASCII hexadecimal digit: '0'..='9', 'A'..='F'
/// or 'a'..='f' (std `char::is_ascii_hexdigit`).
pub assume_specification[ char::is_ascii_hexdigit ](c: &char) -> (b: bool)
    ensures
        b == is_ascii_hex_digit(*c),
;

/// Maps 'a'..='z' to 'A'..='Z' and leaves every other character unchanged
/// (std `char::to_ascii_uppercase`).
pub assume_specification[ char::to_ascii_uppercase ](c: &char) -> (u: char)
    ensures
        u == ascii_upper(*c),
;

pub open spec fn is_ascii_hex_digit(c: char) -> bool {
    let v = c as u32;
    (0x30 <= v <= 0x39) || (0x41 <= v <= 0x46) || (0x61 <= v <= 0x66)
}

pub open spec fn ascii_upper(c: char) -> char {
    let v = c as u32;
    if 0x61 <= v <= 0x7A {
        (v - 32) as char
    } else {
        c
    }
}

/// Which key field has keyboard focus.
#[derive(Copy, Clone, Debug, PartialEq, Eq, Structural)]
pub enum CryptoFocus {
    Unfocused,
    DevAddr,
    AppSKey,
    NwkSKey,
}

/// A key press delivered to a text field.
#[derive(Clone, Debug)]
pub enum TextKey {
    Backspace,
    /// Printable text produced by the key.
    Character(String),
    Space,
    /// Any other key; ignored.
    Other,
}

/// Spreading factor after a press of the SF button: 7, 8, ..., 12, 7, ...
pub fn next_sf(sf: u8) -> (n: u8)
    ensures
        n == (if sf >= 12 { 7 } else { sf + 1 }) as u8,
{
    if sf >= 12 {
        7
    } else {
        sf + 1
    }
}

/// Bandwidth in Hz after a press of the BW button: 125 kHz, 250 kHz,
/// 500 kHz, and back to 125 kHz from any other value.
pub fn next_bandwidth_hz(bw_hz: u32) -> (n: u32)
    ensures
        n == (if bw_hz == 125_000 {
            250_000u32
        } else if bw_hz == 250_000 {
            500_000u32
        } else {
            125_000u32
        }),
{
    match bw_hz {
        125_000 => 250_000,
        250_000 => 500_000,
        _ => 125_000,
    }
}

/// FPort after a press of the FPort button: 1, 2, ..., 9, 1, ...
pub fn next_f_port(f_port: u8) -> (n: u8)
    ensures
        n == (if f_port >= 9 { 1 } else { f_port + 1 }) as u8,
{
    if f_port >= 9 {
        1
    } else {
        f_port + 1
    }
}

/// FCnt after a press of the FCnt button: one more, wrapping at 2^32.
pub fn next_f_cnt(f_cnt: u32) -> (n: u32)
    ensures
        n == (f_cnt as int + 1) % 0x1_0000_0000,
{
    f_cnt.wrapping_add(1)
}

/// The message after a key press, when the message may hold at most `max`
/// UTF-8 bytes: backspace removes the last character; text and space are
/// appended only if the result still fits; other keys do nothing.
pub open spec fn message_after_key(message: Seq<char>, key: TextKey, max: nat) -> Seq<char> {
    let used = vstd::utf8::encode_utf8(message).len();
    match key {
        TextKey::Backspace => if message.len() > 0 {
            message.drop_last()
        } else {
            message
        },
        TextKey::Character(s) => if used + vstd::utf8::encode_utf8(s@).len() <= max {
            message + s@
        } else {
            message
        },
        TextKey::Space => if used + 1 <= max {
            message.push(' ')
        } else {
            message
        },
        TextKey::Other => message,
    }
}

/// Whether a key press changes the inputs: always for backspace, for text
/// and space when they fit, never for other keys.
pub open spec fn message_key_dirties(message: Seq<char>, key: TextKey, max: nat) -> bool {
    let used = vstd::utf8::encode_utf8(message).len();
    match key {
        TextKey::Backspace => true,
        TextKey::Character(s) => used + vstd::utf8::encode_utf8(s@).len() <= max,
        TextKey::Space => used + 1 <= max,
        TextKey::Other => false,
    }
}

/// Apply one key press to the message field; returns whether the inputs
/// changed.
pub fn apply_message_key(message: &mut String, key: &TextKey, max: usize) -> (dirty: bool)
    ensures
        final(message)@ == message_after_key(old(message)@, *key, max as nat),
        dirty == message_key_dirties(old(message)@, *key, max as nat),
{
    match key {
        TextKey::Backspace => {
            message.pop();
            true
        },
        TextKey::Character(s) => {
            let used = message.as_str().as_bytes().len();
            let add = s.as_str().as_bytes().len();
            if add <= max && used <= max - add {
                message.append(s.as_str());
                true
            } else {
                false
            }
        },
        TextKey::Space => {
            let used = message.as_str().as_bytes().len();
            if used < max {
                message.push(' ');
                true
            } else {
                false
            }
        },
        TextKey::Other => false,
    }
}

/// Number of ASCII hex digits in a character sequence.
pub open spec fn hex_digit_count(s: Seq<char>) -> nat
    decreases s.len(),
{
    if s.len() == 0 {
        0
    } else {
        hex_digit_count(s.drop_last()) + if is_ascii_hex_digit(s.last()) {
            1nat
        } else {
            0nat
        }
    }
}

/// The key-field buffer after typing the characters `typed`: each character
/// that is a hex digit, ':' or '-' is appended in upper case, except hex
/// digits once the buffer already holds `limit` of them.
pub open spec fn buffer_after_typing(buffer: Seq<char>, typed: Seq<char>, limit: nat) -> Seq<char>
    decreases typed.len(),
{
    if typed.len() == 0 {
        buffer
    } else {
        let before = buffer_after_typing(buffer, typed.drop_last(), limit);
        let c = typed.last();
        if !is_ascii_hex_digit(c) && c != ':' && c != '-' {
            before
        } else if hex_digit_count(before) >= limit && is_ascii_hex_digit(c) {
            before
        } else {
            before.push(ascii_upper(c))
        }
    }
}

/// The key-field buffer after a key press: backspace removes the last
/// character, text is typed as in [`buffer_after_typing`], other keys
/// (space included) do nothing.
pub open spec fn crypto_buffer_after_key(buffer: Seq<char>, key: TextKey, limit: nat) -> Seq<char> {
    match key {
        TextKey::Backspace => if buffer.len() > 0 {
            buffer.drop_last()
        } else {
            buffer
        },
        TextKey::Character(s) => buffer_after_typing(buffer, s@, limit),
        _ => buffer,
    }
}

/// Count the ASCII hex digits of a string.
pub fn count_hex_digits(s: &str) -> (n: usize)
    ensures
        n == hex_digit_count(s@),
{
    let _chars = s.unicode_len();
    let mut it = s.chars();
    let mut n: usize = 0;
    let ghost mut seen: int = 0;
    loop
        invariant
            0 <= seen <= s@.len(),
            it.remaining() == s@.skip(seen),
            n == hex_digit_count(s@.take(seen)),
            n <= seen,
            s@.len() <= usize::MAX,
        ensures
            n == hex_digit_count(s@),
        decreases s@.len() - seen,
    {
        match it.next() {
            Some(c) => {
                proof {
                    assert(s@.take(seen + 1).drop_last() =~= s@.take(seen));
                    assert(s@.take(seen + 1).last() == c);
                    seen = seen + 1;
                }
                if c.is_ascii_hexdigit() {
                    n = n + 1;
                }
            },
            None => {
                proof {
                    assert(s@.take(seen) =~= s@);
                }
                break;
            },
        }
    }
    n
}

/// Apply one key press to a key field buffer that accepts at most `limit`
/// hex digits.
pub fn apply_crypto_key(buffer: &mut String, key: &TextKey, limit: usize)
    ensures
        final(buffer)@ == crypto_buffer_after_key(old(buffer)@, *key, limit as nat),
{
    match key {
        TextKey::Backspace => {
            buffer.pop();
        },
        TextKey::Character(s) => {
            let mut count = count_hex_digits(buffer.as_str());
            let ghost start = buffer@;
            let mut it = s.chars();
            let ghost mut seen: int = 0;
            loop
                invariant
                    0 <= seen <= s@.len(),
                    it.remaining() == s@.skip(seen),
                    buffer@ == buffer_after_typing(start, s@.take(seen), limit as nat),
                    count == hex_digit_count(buffer@),
                ensures
                    buffer@ == buffer_after_typing(start, s@, limit as nat),
                decreases s@.len() - seen,
            {
                match it.next() {
                    Some(c) => {
                        proof {
                            assert(s@.take(seen + 1).drop_last() =~= s@.take(seen));
                            assert(s@.take(seen + 1).last() == c);
                            seen = seen + 1;
                        }
                        if !c.is_ascii_hexdigit() && c != ':' && c != '-' {
                        } else if count >= limit && c.is_ascii_hexdigit() {
                        } else {
                            let ghost before = buffer@;
                            let u = c.to_ascii_uppercase();
                            let is_hex = c.is_ascii_hexdigit();
                            buffer.push(u);
                            proof {
                                assert(buffer@.drop_last() =~= before);
                                assert(buffer@.last() == u);
                                assert(is_ascii_hex_digit(u) == is_ascii_hex_digit(c));
                            }
                            if is_hex {
                                count = count + 1;
                            }
                        }
                    },
                    None => {
                        proof {
                            assert(s@.take(seen) =~= s@);
                        }
                        break;
                    },
                }
            }
        },
        _ => {},
    }
}

/// Byte and hex-digit lengths of the value edited in a key field:
/// 4 bytes (8 digits) for DevAddr, 16 (32) for the session keys.
pub fn crypto_field_lengths(focus: CryptoFocus) -> (r: Option<(usize, usize)>)
    ensures
        r == (match focus {
            CryptoFocus::DevAddr => Some((4usize, 8usize)),
            CryptoFocus::AppSKey => Some((16usize, 32usize)),
            CryptoFocus::NwkSKey => Some((16usize, 32usize)),
            CryptoFocus::Unfocused => None,
        }),
{
    match focus {
        CryptoFocus::DevAddr => Some((4, 8)),
        CryptoFocus::AppSKey => Some((16, 32)),
        CryptoFocus::NwkSKey => Some((16, 32)),
        CryptoFocus::Unfocused => None,
    }
}

/// The status shown beside a key field holding `n` bytes: "ok" when the
/// buffer parses, otherwise "<hex digits>/<2 n> digits".
pub open spec fn crypto_status_spec(buf: Seq<char>, n: nat) -> Seq<char> {
    if parse_hex_spec(buf, n) is Some {
        seq!['o', 'k']
    } else {
        dec_digits(hex_digit_count(buf)) + seq!['/'] + dec_digits(2 * n) + seq![' ', 'd', 'i', 'g', 'i', 't', 's']
    }
}

/// Status text of a key field, and whether its buffer parses.
pub fn crypto_status(buf: &str, n: usize) -> (r: (bool, String))
    requires
        n <= usize::MAX / 2,
        !parse_hex_splits_char(buf@, n as nat),
    ensures
        r.0 == parse_hex_spec(buf@, n as nat) is Some,
        r.1@ == crypto_status_spec(buf@, n as nat),
{
    let parsed = parse_hex(buf, n).is_some();
    let mut s = String::new();
    if parsed {
        let ok = "ok";
        proof {
            reveal_strlit("ok");
        }
        push_str(&mut s, ok);
    } else {
        let count = count_hex_digits(buf);
        push_dec_digits(&mut s, count as u64);
        s.push('/');
        push_dec_digits(&mut s, (n * 2) as u64);
        let digits = " digits";
        proof {
            reveal_strlit(" digits");
        }
        push_str(&mut s, digits);
        assert(s@ =~= crypto_status_spec(buf@, n as nat));
    }
    (parsed, s)
}

/// The first three and last two bytes in hex around "...", as shown for the
/// session keys: `2B7E15...4F3C`.
pub open spec fn abbreviated_hex_spec(bytes: Seq<u8>) -> Seq<char> {
    let head = if bytes.len() < 3 {
        bytes.len()
    } else {
        3
    };
    let tail = if bytes.len() < 2 {
        bytes.len()
    } else {
        2
    };
    hex_joined(bytes.take(head as int), HexSeparator::Nothing) + seq!['.', '.', '.']
        + hex_joined(bytes.skip(bytes.len() - tail), HexSeparator::Nothing)
}

/// Abbreviate a key for a label: first three bytes, "...", last two bytes.
pub fn abbreviated_hex(bytes: &[u8]) -> (s: String)
    ensures
        s@ == abbreviated_hex_spec(bytes@),
{
    let n = bytes.len();
    let head = if n < 3 {
        n
    } else {
        3
    };
    let tail = if n < 2 {
        n
    } else {
        2
    };
    let mut s = String::new();
    push_hex_joined(&mut s, vstd::slice::slice_subrange(bytes, 0, head), HexSeparator::Nothing);
    s.push('.');
    s.push('.');
    s.push('.');
    push_hex_joined(&mut s, vstd::slice::slice_subrange(bytes, n - tail, n), HexSeparator::Nothing);
    assert(bytes@.subrange(0, head as int) =~= bytes@.take(head as int));
    assert(bytes@.subrange((n - tail) as int, n as int) =~= bytes@.skip(n - tail));
    assert(s@ =~= abbreviated_hex_spec(bytes@));
    s
}

/// Bytes as hex pairs separated by spaces, starting a new line every 16
/// bytes; "(empty)" for no bytes.
pub open spec fn hex_bytes_spec(bytes: Seq<u8>) -> Seq<char> {
    if bytes.len() == 0 {
        seq!['(', 'e', 'm', 'p', 't', 'y', ')']
    } else {
        hex_joined(bytes, HexSeparator::SpaceWrap16)
    }
}

/// Render bytes for the step panels.
pub fn hex_bytes(bytes: &[u8]) -> (s: String)
    ensures
        s@ == hex_bytes_spec(bytes@),
{
    let mut s = String::new();
    if bytes.len() == 0 {
        let empty = "(empty)";
        proof {
            reveal_strlit("(empty)");
        }
        push_str(&mut s, empty);
        return s;
    }
    push_hex_joined(&mut s, bytes, HexSeparator::SpaceWrap16);
    s
}

/// A maximal run of consecutive symbols of one kind.
#[derive(Clone, Copy, Debug, PartialEq, Eq, Structural)]
pub struct SymbolGroup {
    pub kind: SymbolKind,
    /// Index of the first symbol of the run.
    pub start: usize,
    /// Number of symbols in the run.
    pub count: usize,
}

/// The runs of equal kinds in `kinds`, in order.
pub open spec fn kind_runs(kinds: Seq<SymbolKind>) -> Seq<SymbolGroup>
    decreases kinds.len(),
{
    if kinds.len() == 0 {
        Seq::empty()
    } else {
        let prev = kind_runs(kinds.drop_last());
        let k = kinds.last();
        if prev.len() > 0 && prev.last().kind == k {
            prev.update(
                prev.len() - 1,
                SymbolGroup { kind: k, start: prev.last().start, count: (prev.last().count + 1) as usize },
            )
        } else {
            prev.push(SymbolGroup { kind: k, start: (kinds.len() - 1) as usize, count: 1 })
        }
    }
}

/// The kinds of a list of labeled symbols.
pub open spec fn symbol_kinds(symbols: Seq<LabeledSymbol>) -> Seq<SymbolKind> {
    Seq::new(symbols.len(), |i: int| symbols[i].kind)
}

/// Group a symbol stream into runs of one kind (preamble, sync, header,
/// payload), as summarized in the step panel and the export.
pub fn symbol_groups(symbols: &[LabeledSymbol]) -> (groups: Vec<SymbolGroup>)
    ensures
        groups@ == kind_runs(symbol_kinds(symbols@)),
{
    let ghost ks = symbol_kinds(symbols@);
    let mut groups: Vec<SymbolGroup> = Vec::new();
    let mut i: usize = 0;
    assert(ks.take(0) =~= Seq::<SymbolKind>::empty());
    while i < symbols.len()
        invariant
            i <= symbols@.len(),
            ks == symbol_kinds(symbols@),
            groups@ == kind_runs(ks.take(i as int)),
            groups@.len() > 0 ==> groups@.last().start + groups@.last().count == i,
            i > 0 ==> groups@.len() > 0,
        decreases symbols@.len() - i,
    {
        let kind = symbols[i].kind;
        proof {
            assert(ks.take(i + 1).drop_last() =~= ks.take(i as int));
            assert(ks.take(i + 1).last() == kind);
        }
        let n = groups.len();
        if n > 0 && groups[n - 1].kind == kind {
            let last = groups.pop().unwrap();
            groups.push(SymbolGroup { kind, start: last.start, count: last.count + 1 });
        } else {
            groups.push(SymbolGroup { kind, start: i, count: 1 });
        }
        i = i + 1;
        assert(groups@ =~= kind_runs(ks.take(i as int)));
    }
    assert(ks.take(symbols@.len() as int) =~= ks);
    groups
}

/// `g` splits `ks` into maximal runs: the groups are consecutive and
/// non-empty, start at 0 and end at the last symbol, every symbol of a group
/// has the group's kind, and neighbouring groups differ in kind.
pub open spec fn runs_partition(ks: Seq<SymbolKind>, g: Seq<SymbolGroup>) -> bool {
    &&& (ks.len() == 0 <==> g.len() == 0)
    &&& g.len() > 0 ==> g[0].start == 0 && g.last().start + g.last().count == ks.len()
    &&& forall|i: int|
        0 <= i < g.len() ==> (#[trigger] g[i]).count >= 1 && g[i].start + g[i].count <= ks.len()
    &&& forall|i: int| 0 <= i < g.len() - 1 ==> #[trigger] groups_adjacent(g, i)
    &&& forall|i: int| 0 <= i < g.len() ==> #[trigger] group_uniform(ks, g[i])
}

/// Group `i + 1` starts where group `i` ends and has another kind.
pub open spec fn groups_adjacent(g: Seq<SymbolGroup>, i: int) -> bool {
    g[i].start + g[i].count == g[i + 1].start && g[i].kind != g[i + 1].kind
}

/// Every symbol covered by the group has the group's kind.
pub open spec fn group_uniform(ks: Seq<SymbolKind>, grp: SymbolGroup) -> bool {
    forall|j: int| grp.start <= j < grp.start + grp.count ==> #[trigger] ks[j] == grp.kind
}

#[verifier::rlimit(40)]
proof fn lemma_runs_extend(ks: Seq<SymbolKind>)
    requires
        ks.len() > 0,
        ks.len() <= usize::MAX,
        runs_partition(ks.drop_last(), kind_runs(ks.drop_last())),
        kind_runs(ks.drop_last()).len() > 0,
        kind_runs(ks.drop_last()).last().kind == ks.last(),
    ensures
        runs_partition(ks, kind_runs(ks)),
{
    let p = ks.drop_last();
    let gp = kind_runs(p);
    let g = kind_runs(ks);
    let n = gp.len() - 1;
    assert(g == gp.update(n, SymbolGroup { kind: ks.last(), start: gp[n].start, count: (gp[n].count + 1) as usize }));
    assert forall|i: int| 0 <= i < g.len() implies #[trigger] group_uniform(ks, g[i]) by {
        assert(group_uniform(p, gp[i]));
        assert forall|j: int| g[i].start <= j < g[i].start + g[i].count implies #[trigger] ks[j] == g[i].kind by {
            if j < p.len() {
                assert(p[j] == ks[j]);
                if i == n {
                    assert(gp[i].start <= j < gp[i].start + gp[i].count);
                } else {
                    assert(g[i] == gp[i]);
                }
            }
        }
    }
    assert forall|i: int| 0 <= i < g.len() - 1 implies #[trigger] groups_adjacent(g, i) by {
        assert(groups_adjacent(gp, i));
        assert(g[i] == gp[i]);
        if i + 1 < n {
            assert(g[i + 1] == gp[i + 1]);
        }
    }
}

#[verifier::rlimit(40)]
proof fn lemma_runs_new(ks: Seq<SymbolKind>)
    requires
        ks.len() > 0,
        ks.len() <= usize::MAX,
        runs_partition(ks.drop_last(), kind_runs(ks.drop_last())),
        !(kind_runs(ks.drop_last()).len() > 0 && kind_runs(ks.drop_last()).last().kind == ks.last()),
    ensures
        runs_partition(ks, kind_runs(ks)),
{
    let p = ks.drop_last();
    let gp = kind_runs(p);
    let g = kind_runs(ks);
    assert(g == gp.push(SymbolGroup { kind: ks.last(), start: (ks.len() - 1) as usize, count: 1 }));
    assert forall|i: int| 0 <= i < g.len() implies #[trigger] group_uniform(ks, g[i]) by {
        if i < gp.len() {
            assert(g[i] == gp[i]);
            assert(group_uniform(p, gp[i]));
            assert forall|j: int| g[i].start <= j < g[i].start + g[i].count implies #[trigger] ks[j] == g[i].kind by {
                assert(p[j] == ks[j]);
            }
        }
    }
    assert forall|i: int| 0 <= i < g.len() - 1 implies #[trigger] groups_adjacent(g, i) by {
        assert(g[i] == gp[i]);
        if i + 1 < gp.len() {
            assert(groups_adjacent(gp, i));
            assert(g[i + 1] == gp[i + 1]);
        }
    }
}

/// Symbol groups partition the stream into maximal runs of one kind (see
/// [`runs_partition`]), for every stream.
pub proof fn lemma_kind_runs_partition(ks: Seq<SymbolKind>)
    requires
        ks.len() <= usize::MAX,
    ensures
        runs_partition(ks, kind_runs(ks)),
    decreases ks.len(),
{
    if ks.len() > 0 {
        lemma_kind_runs_partition(ks.drop_last());
        let gp = kind_runs(ks.drop_last());
        if gp.len() > 0 && gp.last().kind == ks.last() {
            lemma_runs_extend(ks);
        } else {
            lemma_runs_new(ks);
        }
    }
}

} // verus!
