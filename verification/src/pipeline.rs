//! The byte-level pipeline from a text message to the labeled symbol stream:
//! plaintext, encryption, MIC, frame, symbols.

use vstd::prelude::*;
use vstd::string::StringSliceAdditionalSpecFns;
use crate::frame::{build_lorawan_frame, compute_mic, frame_spec, mic_spec, FCTRL_NONE, MHDR_UNCONFIRMED_UP};
use crate::math::message_to_bytes;
use crate::payload::{block_count, ctr_crypt, encrypt_payload_with_steps, step_matches, EncryptStep};
use crate::stream::{build_symbol_stream, stream_raw, symbol_matches, LabeledSymbol};

verus! {

/// Everything the pipeline computes before modulation.
pub struct PipelineBytes {
    pub plaintext: Vec<u8>,
    pub ciphertext: Vec<u8>,
    pub encrypt_steps: Vec<EncryptStep>,
    pub mic: [u8; 4],
    pub frame: Vec<u8>,
    pub symbols: Vec<LabeledSymbol>,
}

/// Run the pipeline for an unconfirmed data uplink without FCtrl flags:
/// UTF-8 bytes of the message, FRMPayload encryption with AppSKey, MIC with
/// NwkSKey, frame assembly, and the labeled symbol stream at `sf`.
pub fn run_pipeline_bytes(
    message: &str,
    app_skey: &[u8; 16],
    nwk_skey: &[u8; 16],
    dev_addr: &[u8; 4],
    f_cnt: u32,
    f_port: u8,
    sf: u8,
) -> (out: PipelineBytes)
    requires
        7 <= sf <= 12,
        (message.spec_bytes().len() + 12) * 8 <= u32::MAX,
    ensures
        out.plaintext@ == message.spec_bytes(),
        out.ciphertext@ == ctr_crypt(out.plaintext@, app_skey@, f_cnt, dev_addr@),
        out.encrypt_steps@.len() == block_count(out.plaintext@.len()),
        forall|i: int|
            0 <= i < out.encrypt_steps@.len() ==> step_matches(
                #[trigger] out.encrypt_steps@[i],
                out.plaintext@,
                app_skey@,
                f_cnt,
                dev_addr@,
                i,
            ),
        out.mic@ == mic_spec(
            MHDR_UNCONFIRMED_UP,
            dev_addr@,
            FCTRL_NONE,
            f_cnt,
            f_port,
            out.ciphertext@,
            nwk_skey@,
        ),
        out.frame@ == frame_spec(
            MHDR_UNCONFIRMED_UP,
            dev_addr@,
            FCTRL_NONE,
            f_cnt,
            f_port,
            out.ciphertext@,
            out.mic@,
        ),
        out.symbols@.len() == stream_raw(out.frame@, sf as nat).len(),
        forall|i: int|
            0 <= i < out.symbols@.len() ==> symbol_matches(
                #[trigger] out.symbols@[i],
                out.frame@,
                sf as nat,
                i,
            ),
{
    let plaintext = message_to_bytes(message);
    let (ciphertext, encrypt_steps) = encrypt_payload_with_steps(
        plaintext.as_slice(),
        app_skey,
        f_cnt,
        dev_addr,
    );
    let mic = compute_mic(
        MHDR_UNCONFIRMED_UP,
        dev_addr,
        FCTRL_NONE,
        f_cnt,
        f_port,
        ciphertext.as_slice(),
        nwk_skey,
    );
    let frame = build_lorawan_frame(
        MHDR_UNCONFIRMED_UP,
        dev_addr,
        FCTRL_NONE,
        f_cnt,
        f_port,
        ciphertext.as_slice(),
        &mic,
    );
    let symbols = build_symbol_stream(frame.as_slice(), sf);
    PipelineBytes { plaintext, ciphertext, encrypt_steps, mic, frame, symbols }
}

} // verus!
