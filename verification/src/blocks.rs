//! Byte layouts shared by the encryption and MIC blocks and the wire frame.

use vstd::prelude::*;

verus! {

/// Direction byte in the AES-CTR Ai block: 0 = uplink, 1 = downlink.
pub const DIR_UPLINK: u8 = 0x00;

/// AES block size in bytes.
pub const AES_BLOCK_SIZE: usize = 16;

/// The four bytes of `x`, least significant first.
pub open spec fn u32_le(x: u32) -> Seq<u8> {
    seq![
        (x % 256) as u8,
        (x / 256 % 256) as u8,
        (x / 65536 % 256) as u8,
        (x / 16777216 % 256) as u8,
    ]
}

/// The low 16 bits of `x`, least significant byte first.
pub open spec fn u16_le_of(x: u32) -> Seq<u8> {
    seq![(x % 256) as u8, (x / 256 % 256) as u8]
}

/// A DevAddr written in display order, reversed to little-endian wire order.
pub open spec fn dev_addr_le_spec(dev_addr: Seq<u8>) -> Seq<u8> {
    seq![dev_addr[3], dev_addr[2], dev_addr[1], dev_addr[0]]
}

/// The Ai block of LoRaWAN 1.1 section 4.3.3.1 for block index `i`:
/// `[0x01, 0, 0, 0, 0, Dir, DevAddr (LE 4), FCnt (LE 32), 0x00, i]`.
pub open spec fn ai_block(i: u8, f_cnt: u32, dev_addr: Seq<u8>) -> Seq<u8> {
    seq![0x01u8, 0u8, 0u8, 0u8, 0u8, DIR_UPLINK] + dev_addr_le_spec(dev_addr) + u32_le(f_cnt)
        + seq![0x00u8, i]
}

/// The B0 block of LoRaWAN section 4.4 for a message of `msg_len` bytes:
/// `[0x49, 0, 0, 0, 0, Dir, DevAddr (LE 4), FCnt (LE 32), 0x00, len mod 256]`.
pub open spec fn b0_block(f_cnt: u32, dev_addr: Seq<u8>, msg_len: nat) -> Seq<u8> {
    seq![0x49u8, 0u8, 0u8, 0u8, 0u8, DIR_UPLINK] + dev_addr_le_spec(dev_addr) + u32_le(f_cnt)
        + seq![0x00u8, (msg_len % 256) as u8]
}

/// Reverse a 4-byte DevAddr to little-endian wire order.
pub fn dev_addr_le(dev_addr: &[u8; 4]) -> (le: [u8; 4])
    ensures
        le@ == dev_addr_le_spec(dev_addr@),
{
    let le = [dev_addr[3], dev_addr[2], dev_addr[1], dev_addr[0]];
    assert(le@ =~= dev_addr_le_spec(dev_addr@));
    le
}

/// Build the Ai block per LoRaWAN 1.1 section 4.3.3.1.
pub fn build_ai_block(i: u8, f_cnt: u32, dev_addr: &[u8; 4]) -> (a: [u8; 16])
    ensures
        a@ == ai_block(i, f_cnt, dev_addr@),
{
    let a: [u8; 16] = [
        0x01,
        0x00,
        0x00,
        0x00,
        0x00,
        DIR_UPLINK,
        dev_addr[3],
        dev_addr[2],
        dev_addr[1],
        dev_addr[0],
        (f_cnt % 256) as u8,
        (f_cnt / 256 % 256) as u8,
        (f_cnt / 65536 % 256) as u8,
        (f_cnt / 16777216 % 256) as u8,
        0x00,
        i,
    ];
    assert(a@ =~= ai_block(i, f_cnt, dev_addr@));
    a
}

/// Build the B0 block that prefixes the MIC computation.
pub fn build_b0_block(f_cnt: u32, dev_addr: &[u8; 4], msg_len: usize) -> (b: [u8; 16])
    ensures
        b@ == b0_block(f_cnt, dev_addr@, msg_len as nat),
{
    let b: [u8; 16] = [
        0x49,
        0x00,
        0x00,
        0x00,
        0x00,
        DIR_UPLINK,
        dev_addr[3],
        dev_addr[2],
        dev_addr[1],
        dev_addr[0],
        (f_cnt % 256) as u8,
        (f_cnt / 256 % 256) as u8,
        (f_cnt / 65536 % 256) as u8,
        (f_cnt / 16777216 % 256) as u8,
        0x00,
        (msg_len % 256) as u8,
    ];
    assert(b@ =~= b0_block(f_cnt, dev_addr@, msg_len as nat));
    b
}

/// Append every byte of `src` to `dst`.
pub fn push_all(dst: &mut Vec<u8>, src: &[u8])
    ensures
        final(dst)@ == old(dst)@ + src@,
{
    let mut i: usize = 0;
    while i < src.len()
        invariant
            i <= src@.len(),
            dst@ == old(dst)@ + src@.subrange(0, i as int),
        decreases src@.len() - i,
    {
        dst.push(src[i]);
        i = i + 1;
        assert(dst@ =~= old(dst)@ + src@.subrange(0, i as int));
    }
    assert(src@.subrange(0, src@.len() as int) =~= src@);
}

} // verus!
