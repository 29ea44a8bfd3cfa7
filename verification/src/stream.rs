//! The transmitted symbol stream: preamble, sync, then the frame packed into
//! SF-bit symbols, each labeled for the visualizer.

use vstd::prelude::*;
use vstd::slice::slice_subrange;
use crate::gray::{apply_gray_coding, gray};
use crate::symbols::{bytes_to_symbols, packed_symbols, symbol_count};

verus! {

/// LoRaWAN public-network sync symbols, transmitted after the preamble.
pub const SYNC_SYMBOL_1: u16 = 0x14;

pub const SYNC_SYMBOL_2: u16 = 0x24;

/// Number of preamble symbols. LoRaWAN class A typically uses 8.
pub const PREAMBLE_LEN: usize = 8;

/// Direction of a baseband chirp.
#[derive(Copy, Clone, Debug, PartialEq, Eq, Structural)]
pub enum ChirpDirection {
    /// Frequency rises with time (data symbols).
    Up,
    /// Frequency falls with time (preamble SFD).
    Down,
}

/// Which part of the transmission a symbol belongs to.
#[derive(Copy, Clone, Debug, PartialEq, Eq, Structural)]
pub enum SymbolKind {
    Preamble,
    Sync,
    Header,
    Payload,
}

/// One transmitted symbol with its position, role, raw and Gray-coded value
/// and chirp direction.
#[derive(Clone, Debug)]
pub struct LabeledSymbol {
    pub index: usize,
    pub kind: SymbolKind,
    pub raw: u16,
    pub gray: u16,
    pub direction: ChirpDirection,
}

/// Symbols carrying the first frame byte (MHDR), shown as the header.
pub open spec fn header_symbols(frame: Seq<u8>, sf: nat) -> Seq<u16> {
    if frame.len() > 0 {
        packed_symbols(frame.take(1), sf)
    } else {
        Seq::empty()
    }
}

/// Symbols carrying the rest of the frame.
pub open spec fn payload_symbols(frame: Seq<u8>, sf: nat) -> Seq<u16> {
    if frame.len() > 1 {
        packed_symbols(frame.skip(1), sf)
    } else {
        Seq::empty()
    }
}

/// Raw values of the whole stream: eight zero preamble symbols, the two sync
/// symbols, the header symbols and the payload symbols.
pub open spec fn stream_raw(frame: Seq<u8>, sf: nat) -> Seq<u16> {
    Seq::new(PREAMBLE_LEN as nat, |i: int| 0u16) + seq![SYNC_SYMBOL_1, SYNC_SYMBOL_2]
        + header_symbols(frame, sf) + payload_symbols(frame, sf)
}

/// Role of the symbol at position `i` of the stream.
pub open spec fn stream_kind(frame: Seq<u8>, sf: nat, i: int) -> SymbolKind {
    if i < PREAMBLE_LEN {
        SymbolKind::Preamble
    } else if i < PREAMBLE_LEN + 2 {
        SymbolKind::Sync
    } else if i < PREAMBLE_LEN + 2 + header_symbols(frame, sf).len() {
        SymbolKind::Header
    } else {
        SymbolKind::Payload
    }
}

/// Preamble symbols are downchirps, all others upchirps.
pub open spec fn stream_direction(i: int) -> ChirpDirection {
    if i < PREAMBLE_LEN {
        ChirpDirection::Down
    } else {
        ChirpDirection::Up
    }
}

/// What the `i`-th labeled symbol of the stream for `frame` holds.
pub open spec fn symbol_matches(sym: LabeledSymbol, frame: Seq<u8>, sf: nat, i: int) -> bool {
    &&& sym.index == i
    &&& sym.kind == stream_kind(frame, sf, i)
    &&& sym.raw == stream_raw(frame, sf)[i]
    &&& sym.gray == gray(sym.raw)
    &&& sym.direction == stream_direction(i)
}

/// Append one labeled upchirp symbol per raw value.
fn push_labeled(out: &mut Vec<LabeledSymbol>, raws: &Vec<u16>, kind: SymbolKind)
    requires
        old(out)@.len() + raws@.len() <= usize::MAX,
        forall|i: int| 0 <= i < old(out)@.len() ==> (#[trigger] old(out)@[i]).index == i,
    ensures
        final(out)@.len() == old(out)@.len() + raws@.len(),
        forall|i: int| 0 <= i < old(out)@.len() ==> #[trigger] final(out)@[i] == old(out)@[i],
        forall|i: int|
            old(out)@.len() <= i < final(out)@.len() ==> {
                let s = #[trigger] final(out)@[i];
                &&& s.index == i
                &&& s.kind == kind
                &&& s.raw == raws@[i - old(out)@.len()]
                &&& s.gray == gray(s.raw)
                &&& s.direction == ChirpDirection::Up
            },
{
    let ghost start = old(out)@.len();
    let mut k: usize = 0;
    while k < raws.len()
        invariant
            k <= raws@.len(),
            start == old(out)@.len(),
            start + raws@.len() <= usize::MAX,
            out@.len() == start + k,
            forall|i: int| 0 <= i < start ==> #[trigger] out@[i] == old(out)@[i],
            forall|i: int|
                start <= i < out@.len() ==> {
                    let s = #[trigger] out@[i];
                    &&& s.index == i
                    &&& s.kind == kind
                    &&& s.raw == raws@[i - start]
                    &&& s.gray == gray(s.raw)
                    &&& s.direction == ChirpDirection::Up
                },
        decreases raws@.len() - k,
    {
        let raw = raws[k];
        let idx = out.len();
        out.push(
            LabeledSymbol {
                index: idx,
                kind,
                raw,
                gray: apply_gray_coding(raw),
                direction: ChirpDirection::Up,
            },
        );
        k = k + 1;
    }
}

/// Build the symbol stream that would be transmitted: preamble, sync, then
/// frame bytes packed into SF-bit symbols. The first byte of the frame
/// (MHDR) is treated as the "header" for visualization purposes.
pub fn build_symbol_stream(frame: &[u8], sf: u8) -> (out: Vec<LabeledSymbol>)
    requires
        frame@.len() > 0 ==> 7 <= sf <= 12,
        frame@.len() <= 1 || (frame@.len() - 1) * 8 <= u32::MAX,
    ensures
        out@.len() == stream_raw(frame@, sf as nat).len(),
        forall|i: int|
            0 <= i < out@.len() ==> symbol_matches(#[trigger] out@[i], frame@, sf as nat, i),
        forall|i: int|
            0 <= i < out@.len() ==> ((#[trigger] out@[i]).direction == ChirpDirection::Down <==> out@[i].kind
                == SymbolKind::Preamble),
{
    let ghost raw = stream_raw(frame@, sf as nat);
    let mut out: Vec<LabeledSymbol> = Vec::new();
    let mut idx: usize = 0;
    while idx < PREAMBLE_LEN
        invariant
            idx <= PREAMBLE_LEN,
            out@.len() == idx,
            forall|i: int|
                0 <= i < idx ==> {
                    let s = #[trigger] out@[i];
                    &&& s.index == i
                    &&& s.kind == SymbolKind::Preamble
                    &&& s.raw == 0
                    &&& s.gray == 0
                    &&& s.direction == ChirpDirection::Down
                },
        decreases PREAMBLE_LEN - idx,
    {
        out.push(
            LabeledSymbol {
                index: idx,
                kind: SymbolKind::Preamble,
                raw: 0,
                gray: 0,
                direction: ChirpDirection::Down,
            },
        );
        idx = idx + 1;
    }
    let mut sync: Vec<u16> = Vec::new();
    sync.push(SYNC_SYMBOL_1);
    sync.push(SYNC_SYMBOL_2);
    push_labeled(&mut out, &sync, SymbolKind::Sync);
    assert(gray(0) == 0) by (bit_vector);
    if frame.len() == 0 {
        assert(out@.len() == raw.len());
        assert forall|i: int| 0 <= i < out@.len() implies symbol_matches(
            #[trigger] out@[i],
            frame@,
            sf as nat,
            i,
        ) by {
            if i >= 8 {
                assert(raw[i] == sync@[i - 8]);
            }
        }
        return out;
    }
    let header_syms = bytes_to_symbols(slice_subrange(frame, 0, 1), sf);
    assert(header_syms@ == header_symbols(frame@, sf as nat));
    let ghost before_header = out@;
    push_labeled(&mut out, &header_syms, SymbolKind::Header);
    let ghost before_payload = out@;
    let mut payload_syms: Vec<u16> = Vec::new();
    if frame.len() > 1 {
        payload_syms = bytes_to_symbols(slice_subrange(frame, 1, frame.len()), sf);
    }
    assert(payload_syms@ == payload_symbols(frame@, sf as nat));
    assert(header_syms@.len() <= 2) by (nonlinear_arith)
        requires
            header_syms@.len() == symbol_count(1, sf as nat),
            7 <= sf <= 12,
    ;
    assert(payload_syms@.len() <= 1_000_000_000) by (nonlinear_arith)
        requires
            frame@.len() > 1 ==> payload_syms@.len() == symbol_count((frame@.len() - 1) as nat, sf as nat),
            frame@.len() <= 1 ==> payload_syms@.len() == 0,
            frame@.len() <= 1 || (frame@.len() - 1) * 8 <= u32::MAX,
            7 <= sf <= 12,
    ;
    push_labeled(&mut out, &payload_syms, SymbolKind::Payload);
    assert(out@.len() == raw.len());
    assert forall|i: int| 0 <= i < out@.len() implies symbol_matches(
        #[trigger] out@[i],
        frame@,
        sf as nat,
        i,
    ) by {
        if i < 8 {
            assert(out@[i] == before_header[i]);
            assert(out@[i] == before_payload[i]);
        } else if i < 10 {
            assert(out@[i] == before_header[i]);
            assert(out@[i] == before_payload[i]);
            assert(raw[i] == sync@[i - 8]);
        } else if i < before_payload.len() {
            assert(out@[i] == before_payload[i]);
            assert(raw[i] == header_syms@[i - 10]);
        } else {
            assert(raw[i] == payload_syms@[i - before_payload.len()]);
        }
    }
    out
}

/// A symbol of the stream is a downchirp exactly when it is a preamble
/// symbol, and the preamble is exactly the first `PREAMBLE_LEN` positions:
/// the sync, header and payload symbols are all upchirps.
pub proof fn lemma_down_iff_preamble(sym: LabeledSymbol, frame: Seq<u8>, sf: nat, i: int)
    requires
        0 <= i,
        symbol_matches(sym, frame, sf, i),
    ensures
        sym.direction == ChirpDirection::Down <==> sym.kind == SymbolKind::Preamble,
        sym.kind == SymbolKind::Preamble <==> i < PREAMBLE_LEN,
        sym.kind == SymbolKind::Sync <==> PREAMBLE_LEN <= i < PREAMBLE_LEN + 2,
{
}

} // verus!
