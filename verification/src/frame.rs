//! Message Integrity Code (LoRaWAN section 4.4) and frame assembly.

use vstd::prelude::*;
use crate::blocks::{b0_block, build_b0_block, dev_addr_le, dev_addr_le_spec, push_all, u16_le_of};
use crate::crypto::{aes128_cmac, aes128_cmac_tag};

verus! {

/// MHDR for an unconfirmed data uplink: MType=010, RFU=000, Major=00.
pub const MHDR_UNCONFIRMED_UP: u8 = 0x40;

/// FCtrl with no ADR, no ACK, no FOpts, no FPending.
pub const FCTRL_NONE: u8 = 0x00;

/// The frame header on the wire:
/// `MHDR (1) | DevAddr (4 LE) | FCtrl (1) | FCnt (2 LE) | FPort (1)`.
pub open spec fn frame_header(mhdr: u8, dev_addr: Seq<u8>, f_ctrl: u8, f_cnt: u32, f_port: u8) -> Seq<u8> {
    seq![mhdr] + dev_addr_le_spec(dev_addr) + seq![f_ctrl] + u16_le_of(f_cnt) + seq![f_port]
}

/// The message the MIC covers: the frame header followed by FRMPayload.
pub open spec fn mic_message(
    mhdr: u8,
    dev_addr: Seq<u8>,
    f_ctrl: u8,
    f_cnt: u32,
    f_port: u8,
    payload: Seq<u8>,
) -> Seq<u8> {
    frame_header(mhdr, dev_addr, f_ctrl, f_cnt, f_port) + payload
}

/// The bytes fed to CMAC: `B0 || msg`.
pub open spec fn mic_input_spec(
    mhdr: u8,
    dev_addr: Seq<u8>,
    f_ctrl: u8,
    f_cnt: u32,
    f_port: u8,
    payload: Seq<u8>,
) -> Seq<u8> {
    let msg = mic_message(mhdr, dev_addr, f_ctrl, f_cnt, f_port, payload);
    b0_block(f_cnt, dev_addr, msg.len()) + msg
}

/// The MIC: the first 4 bytes of `CMAC(NwkSKey, B0 || msg)`.
pub open spec fn mic_spec(
    mhdr: u8,
    dev_addr: Seq<u8>,
    f_ctrl: u8,
    f_cnt: u32,
    f_port: u8,
    payload: Seq<u8>,
    nwk_skey: Seq<u8>,
) -> Seq<u8> {
    aes128_cmac(nwk_skey, mic_input_spec(mhdr, dev_addr, f_ctrl, f_cnt, f_port, payload)).subrange(
        0,
        4,
    )
}

/// The full PHY payload: header, FRMPayload, MIC.
pub open spec fn frame_spec(
    mhdr: u8,
    dev_addr: Seq<u8>,
    f_ctrl: u8,
    f_cnt: u32,
    f_port: u8,
    payload: Seq<u8>,
    mic: Seq<u8>,
) -> Seq<u8> {
    frame_header(mhdr, dev_addr, f_ctrl, f_cnt, f_port) + payload + mic
}

/// Append the frame header to `out`.
fn push_frame_header(out: &mut Vec<u8>, mhdr: u8, dev_addr: &[u8; 4], f_ctrl: u8, f_cnt: u32, f_port: u8)
    ensures
        final(out)@ == old(out)@ + frame_header(mhdr, dev_addr@, f_ctrl, f_cnt, f_port),
{
    out.push(mhdr);
    let le = dev_addr_le(dev_addr);
    push_all(out, &le);
    out.push(f_ctrl);
    out.push((f_cnt % 256) as u8);
    out.push((f_cnt / 256 % 256) as u8);
    out.push(f_port);
    assert(out@ =~= old(out)@ + frame_header(mhdr, dev_addr@, f_ctrl, f_cnt, f_port));
}

/// The bytes over which the MIC is computed: the 16-byte B0 block
///   B0 = [ 0x49, 0x00, 0x00, 0x00, 0x00, Dir,
///          DevAddr (LE), FCnt (LE 32), 0x00, len(msg) ]
/// followed by
///   msg = MHDR || DevAddr (LE) || FCtrl || FCnt (LE 16) || FPort || FRMPayload
pub fn mic_input(
    mhdr: u8,
    dev_addr: &[u8; 4],
    f_ctrl: u8,
    f_cnt: u32,
    f_port: u8,
    encrypted_payload: &[u8],
) -> (input: Vec<u8>)
    ensures
        input@ == mic_input_spec(mhdr, dev_addr@, f_ctrl, f_cnt, f_port, encrypted_payload@),
{
    let mut msg: Vec<u8> = Vec::new();
    push_frame_header(&mut msg, mhdr, dev_addr, f_ctrl, f_cnt, f_port);
    push_all(&mut msg, encrypted_payload);
    let b0 = build_b0_block(f_cnt, dev_addr, msg.len());
    let mut input: Vec<u8> = Vec::new();
    push_all(&mut input, &b0);
    push_all(&mut input, msg.as_slice());
    assert(input@ =~= mic_input_spec(mhdr, dev_addr@, f_ctrl, f_cnt, f_port, encrypted_payload@));
    input
}

/// The MIC taken from a CMAC tag: its first 4 bytes.
pub fn mic_from_tag(tag: &[u8; 16]) -> (mic: [u8; 4])
    ensures
        mic@ == tag@.subrange(0, 4),
        mic[0] == tag[0] && mic[1] == tag[1] && mic[2] == tag[2] && mic[3] == tag[3],
{
    let mic = [tag[0], tag[1], tag[2], tag[3]];
    assert(mic@ =~= tag@.subrange(0, 4));
    mic
}

/// Compute the 4-byte Message Integrity Code over a LoRaWAN uplink frame.
///
/// The MIC covers a B0 prefix block plus the message (see [`mic_input`]).
/// CMAC is computed over B0 || msg with NwkSKey, and the first 4 bytes are
/// taken as the MIC.
///
/// Note: LoRaWAN 1.1 actually uses two MIC keys (FNwkSIntKey, SNwkSIntKey)
/// for uplinks. A single NwkSKey is used here for clarity; this matches
/// LoRaWAN 1.0.x behavior and is what most demos show.
pub fn compute_mic(
    mhdr: u8,
    dev_addr: &[u8; 4],
    f_ctrl: u8,
    f_cnt: u32,
    f_port: u8,
    encrypted_payload: &[u8],
    nwk_skey: &[u8; 16],
) -> (mic: [u8; 4])
    ensures
        mic@ == mic_spec(mhdr, dev_addr@, f_ctrl, f_cnt, f_port, encrypted_payload@, nwk_skey@),
        forall|k: int|
            0 <= k < 4 ==> #[trigger] mic@[k] == aes128_cmac(
                nwk_skey@,
                mic_input_spec(mhdr, dev_addr@, f_ctrl, f_cnt, f_port, encrypted_payload@),
            )[k],
{
    let input = mic_input(mhdr, dev_addr, f_ctrl, f_cnt, f_port, encrypted_payload);
    let tag = aes128_cmac_tag(nwk_skey, input.as_slice());
    mic_from_tag(&tag)
}

/// The MIC is the 4-byte prefix of the CMAC tag of `B0 || msg` under
/// NwkSKey: for every frame and key, whenever the tag is a 16-byte CMAC
/// block, byte `k` of the MIC is byte `k` of the tag for `k` in 0..4.
pub proof fn lemma_mic_is_tag_prefix(
    mhdr: u8,
    dev_addr: Seq<u8>,
    f_ctrl: u8,
    f_cnt: u32,
    f_port: u8,
    payload: Seq<u8>,
    nwk_skey: Seq<u8>,
    tag: Seq<u8>,
)
    requires
        tag == aes128_cmac(nwk_skey, mic_input_spec(mhdr, dev_addr, f_ctrl, f_cnt, f_port, payload)),
        tag.len() == 16,
    ensures
        mic_spec(mhdr, dev_addr, f_ctrl, f_cnt, f_port, payload, nwk_skey).len() == 4,
        forall|k: int|
            0 <= k < 4 ==> #[trigger] mic_spec(mhdr, dev_addr, f_ctrl, f_cnt, f_port, payload, nwk_skey)[k]
                == tag[k],
{
}

/// Assemble a full LoRaWAN PHY payload (data uplink) with little-endian
/// DevAddr and 16-bit FCnt on the wire.
///
/// Layout:
///   MHDR (1) | DevAddr (4 LE) | FCtrl (1) | FCnt (2 LE) | FPort (1)
///   | FRMPayload (N) | MIC (4)
///
/// Total size = 13 + N.
pub fn build_lorawan_frame(
    mhdr: u8,
    dev_addr: &[u8; 4],
    f_ctrl: u8,
    f_cnt: u32,
    f_port: u8,
    encrypted_payload: &[u8],
    mic: &[u8; 4],
) -> (frame: Vec<u8>)
    ensures
        frame@ == frame_spec(mhdr, dev_addr@, f_ctrl, f_cnt, f_port, encrypted_payload@, mic@),
        frame@.len() == 13 + encrypted_payload@.len(),
{
    let mut frame: Vec<u8> = Vec::new();
    push_frame_header(&mut frame, mhdr, dev_addr, f_ctrl, f_cnt, f_port);
    push_all(&mut frame, encrypted_payload);
    push_all(&mut frame, mic);
    frame
}

/// Frame layout: the MHDR is byte 0, the DevAddr follows reversed (little
/// endian) in bytes 1..5, then FCtrl, the low 16 bits of FCnt little endian,
/// FPort, the FRMPayload from byte 9 on, and the MIC in the last 4 bytes.
pub proof fn lemma_frame_layout(
    mhdr: u8,
    dev_addr: Seq<u8>,
    f_ctrl: u8,
    f_cnt: u32,
    f_port: u8,
    payload: Seq<u8>,
    mic: Seq<u8>,
)
    requires
        dev_addr.len() == 4,
        mic.len() == 4,
    ensures
        ({
            let f = frame_spec(mhdr, dev_addr, f_ctrl, f_cnt, f_port, payload, mic);
            &&& f.len() == 13 + payload.len()
            &&& f[0] == mhdr
            &&& f.subrange(1, 5) == seq![dev_addr[3], dev_addr[2], dev_addr[1], dev_addr[0]]
            &&& f[5] == f_ctrl
            &&& f[6] == (f_cnt % 256) as u8
            &&& f[7] == (f_cnt / 256 % 256) as u8
            &&& f[8] == f_port
            &&& f.subrange(9, 9 + payload.len() as int) == payload
            &&& f.subrange(9 + payload.len() as int, 13 + payload.len() as int) == mic
        }),
{
    let f = frame_spec(mhdr, dev_addr, f_ctrl, f_cnt, f_port, payload, mic);
    assert(f.subrange(1, 5) =~= seq![dev_addr[3], dev_addr[2], dev_addr[1], dev_addr[0]]);
    assert(f.subrange(9, 9 + payload.len() as int) =~= payload);
    assert(f.subrange(9 + payload.len() as int, 13 + payload.len() as int) =~= mic);
}

/// The MIC covers exactly the wire frame up to, but not including, the MIC
/// itself: the message in `B0 || msg` is the frame without its last 4 bytes,
/// and B0 records that message's length modulo 256.
pub proof fn lemma_mic_covers_frame_prefix(
    mhdr: u8,
    dev_addr: Seq<u8>,
    f_ctrl: u8,
    f_cnt: u32,
    f_port: u8,
    payload: Seq<u8>,
    mic: Seq<u8>,
)
    requires
        dev_addr.len() == 4,
        mic.len() == 4,
    ensures
        ({
            let f = frame_spec(mhdr, dev_addr, f_ctrl, f_cnt, f_port, payload, mic);
            let input = mic_input_spec(mhdr, dev_addr, f_ctrl, f_cnt, f_port, payload);
            &&& input.subrange(16, input.len() as int) == f.subrange(0, f.len() - 4)
            &&& input.subrange(0, 16) == b0_block(f_cnt, dev_addr, (f.len() - 4) as nat)
        }),
{
    let f = frame_spec(mhdr, dev_addr, f_ctrl, f_cnt, f_port, payload, mic);
    let input = mic_input_spec(mhdr, dev_addr, f_ctrl, f_cnt, f_port, payload);
    let msg = mic_message(mhdr, dev_addr, f_ctrl, f_cnt, f_port, payload);
    assert(f.subrange(0, f.len() - 4) =~= msg);
    assert(input.subrange(16, input.len() as int) =~= msg);
    assert(input.subrange(0, 16) =~= b0_block(f_cnt, dev_addr, msg.len()));
}

} // verus!
