//! LoRaWAN math: payload encryption, MIC, framing, symbol packing and Gray
//! coding, gathered under one module for callers.
//!
//! Simplifications vs. a real LoRaWAN PHY: no whitening, interleaving or
//! Hamming FEC (bytes are packed into SF-bit symbols by plain bitstream
//! packing), no CRC, and the preamble is shown as 8 downchirps of value 0.

pub use crate::blocks::{build_ai_block, dev_addr_le, AES_BLOCK_SIZE, DIR_UPLINK};
pub use crate::frame::{build_lorawan_frame, compute_mic, mic_from_tag, mic_input, FCTRL_NONE, MHDR_UNCONFIRMED_UP};
pub use crate::gray::{apply_gray_coding, inverse_gray_coding};
pub use crate::payload::{encrypt_payload, encrypt_payload_with_steps, EncryptStep};
pub use crate::stream::{build_symbol_stream, ChirpDirection, LabeledSymbol, SymbolKind, PREAMBLE_LEN, SYNC_SYMBOL_1, SYNC_SYMBOL_2};
pub use crate::symbols::bytes_to_symbols;

use vstd::prelude::*;
use vstd::slice::slice_to_vec;
use vstd::string::StringSliceAdditionalSpecFns;

verus! {

/// UTF-8 encode a message and return owned bytes.
pub fn message_to_bytes(msg: &str) -> (bytes: Vec<u8>)
    ensures
        bytes@ == msg.spec_bytes(),
{
    slice_to_vec(msg.as_bytes())
}

} // verus!
