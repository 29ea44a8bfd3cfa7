//! FRMPayload encryption (LoRaWAN 1.1 section 4.3.3.1).

use vstd::prelude::*;
use crate::blocks::{ai_block, build_ai_block, push_all, AES_BLOCK_SIZE};
use crate::crypto::{aes128_encrypt, aes128_encrypt_block};

verus! {

/// One block of the keystream computation, exposed for visualization.
#[derive(Clone, Debug)]
pub struct EncryptStep {
    /// 1-based block index i.
    pub block_index: u8,
    /// The Ai block before encryption.
    pub a_block: [u8; 16],
    /// Si = AES(AppSKey, Ai), the keystream block.
    pub s_block: [u8; 16],
    /// Plaintext slice covered by this block (1..=16 bytes).
    pub plaintext: Vec<u8>,
    /// Ciphertext = plaintext XOR Si (same length as plaintext).
    pub ciphertext: Vec<u8>,
}

/// The block index byte of the `i`-th (0-based) keystream block: `i + 1`,
/// truncated to a byte.
pub open spec fn block_index_of(i: int) -> u8 {
    ((i + 1) % 256) as u8
}

/// Si = AES(AppSKey, Ai) for the `i`-th (0-based) block.
pub open spec fn keystream_block(key: Seq<u8>, f_cnt: u32, dev_addr: Seq<u8>, i: int) -> Seq<u8> {
    aes128_encrypt(key, ai_block(block_index_of(i), f_cnt, dev_addr))
}

/// Number of 16-byte blocks covering `n` bytes.
pub open spec fn block_count(n: nat) -> nat {
    ((n + 15) / 16) as nat
}

/// The payload XORed byte by byte with the keystream S1 || S2 || ...,
/// truncated to the payload length.
pub open spec fn ctr_crypt(payload: Seq<u8>, key: Seq<u8>, f_cnt: u32, dev_addr: Seq<u8>) -> Seq<u8> {
    Seq::new(
        payload.len(),
        |j: int| payload[j] ^ keystream_block(key, f_cnt, dev_addr, j / 16)[j % 16],
    )
}

/// Start and end (exclusive) of the bytes covered by block `i`.
pub open spec fn block_start(i: int) -> int {
    i * 16
}

pub open spec fn block_end(i: int, n: nat) -> int {
    if i * 16 + 16 <= n {
        i * 16 + 16
    } else {
        n as int
    }
}

/// What step `i` of the encryption of `payload` records.
pub open spec fn step_matches(
    step: EncryptStep,
    payload: Seq<u8>,
    key: Seq<u8>,
    f_cnt: u32,
    dev_addr: Seq<u8>,
    i: int,
) -> bool {
    &&& step.block_index == block_index_of(i)
    &&& step.a_block@ == ai_block(block_index_of(i), f_cnt, dev_addr)
    &&& step.s_block@ == keystream_block(key, f_cnt, dev_addr, i)
    &&& step.plaintext@ == payload.subrange(block_start(i), block_end(i, payload.len()))
    &&& step.ciphertext@ == ctr_crypt(payload, key, f_cnt, dev_addr).subrange(
        block_start(i),
        block_end(i, payload.len()),
    )
}

/// Encrypt FRMPayload with AppSKey using LoRaWAN's AES-CTR-like construction.
///
/// For each block index i (1-based) the Ai block is built as:
///   [ 0x01, 0x00, 0x00, 0x00, 0x00, Dir,
///     DevAddr (LE 4), FCnt (LE 32), 0x00, i ]
///
/// The keystream Si = AES_ECB_encrypt(AppSKey, Ai). The ciphertext is the
/// XOR of the plaintext with the concatenation of Si blocks, truncated to
/// the plaintext length. CTR mode is its own inverse, so calling this on
/// ciphertext yields the plaintext again.
pub fn encrypt_payload(payload: &[u8], app_skey: &[u8; 16], f_cnt: u32, dev_addr: &[u8; 4]) -> (out: Vec<u8>)
    ensures
        out@ == ctr_crypt(payload@, app_skey@, f_cnt, dev_addr@),
{
    encrypt_payload_with_steps(payload, app_skey, f_cnt, dev_addr).0
}

/// Like [`encrypt_payload`] but also returns per-block intermediate values
/// for the visualization layer to render.
pub fn encrypt_payload_with_steps(
    payload: &[u8],
    app_skey: &[u8; 16],
    f_cnt: u32,
    dev_addr: &[u8; 4],
) -> (res: (Vec<u8>, Vec<EncryptStep>))
    ensures
        res.0@ == ctr_crypt(payload@, app_skey@, f_cnt, dev_addr@),
        res.1@.len() == block_count(payload@.len()),
        forall|i: int|
            0 <= i < res.1@.len() ==> step_matches(
                #[trigger] res.1@[i],
                payload@,
                app_skey@,
                f_cnt,
                dev_addr@,
                i,
            ),
        forall|i: int|
            0 <= i < res.1@.len() ==> {
                let st = #[trigger] res.1@[i];
                &&& st.block_index as int == (i + 1) % 256
                &&& st.a_block@[15] == st.block_index
                &&& st.s_block@ == aes128_encrypt(app_skey@, st.a_block@)
            },
{
    let ghost ct = ctr_crypt(payload@, app_skey@, f_cnt, dev_addr@);
    let mut out: Vec<u8> = Vec::new();
    let mut steps: Vec<EncryptStep> = Vec::new();
    if payload.len() == 0 {
        assert(out@ =~= ct);
        return (out, steps);
    }
    let n = payload.len();
    let n_blocks: usize = n / AES_BLOCK_SIZE + if n % AES_BLOCK_SIZE != 0 {
        1
    } else {
        0
    };
    assert(n_blocks == block_count(n as nat));
    let mut i: usize = 0;
    while i < n_blocks
        invariant
            n == payload@.len(),
            ct == ctr_crypt(payload@, app_skey@, f_cnt, dev_addr@),
            n_blocks == block_count(n as nat),
            i <= n_blocks,
            out@.len() == (if i * 16 <= n { i * 16 } else { n as int }),
            out@ =~= ct.subrange(0, out@.len() as int),
            steps@.len() == i,
            forall|k: int|
                0 <= k < i ==> step_matches(
                    #[trigger] steps@[k],
                    payload@,
                    app_skey@,
                    f_cnt,
                    dev_addr@,
                    k,
                ),
            forall|k: int|
                0 <= k < i ==> {
                    let st = #[trigger] steps@[k];
                    &&& st.block_index as int == (k + 1) % 256
                    &&& st.a_block@[15] == st.block_index
                    &&& st.s_block@ == aes128_encrypt(app_skey@, st.a_block@)
                },
        decreases n_blocks - i,
    {
        let block_index: u8 = ((i + 1) % 256) as u8;
        let a_i = build_ai_block(block_index, f_cnt, dev_addr);
        let s_i = aes128_encrypt_block(app_skey, &a_i);
        assert(s_i@ == keystream_block(app_skey@, f_cnt, dev_addr@, i as int));
        assert(i * 16 < n) by (nonlinear_arith)
            requires
                i < n_blocks,
                n_blocks == (n + 15) / 16,
        ;
        let start: usize = i * AES_BLOCK_SIZE;
        let end: usize = if n - start >= AES_BLOCK_SIZE {
            start + AES_BLOCK_SIZE
        } else {
            n
        };
        let mut pt_slice: Vec<u8> = Vec::new();
        let mut ct_slice: Vec<u8> = Vec::new();
        let mut j: usize = start;
        while j < end
            invariant
                n == payload@.len(),
                ct == ctr_crypt(payload@, app_skey@, f_cnt, dev_addr@),
                start == i * 16,
                start <= j <= end,
                end <= n,
                end <= start + 16,
                s_i@ == keystream_block(app_skey@, f_cnt, dev_addr@, i as int),
                pt_slice@ =~= payload@.subrange(start as int, j as int),
                ct_slice@ =~= ct.subrange(start as int, j as int),
            decreases end - j,
        {
            let b = payload[j];
            let k = s_i[j - start];
            assert((j as int) / 16 == i as int && (j as int) % 16 == j - start) by (nonlinear_arith)
                requires
                    start == i * 16,
                    start <= j < start + 16,
            ;
            pt_slice.push(b);
            ct_slice.push(b ^ k);
            j = j + 1;
        }
        push_all(&mut out, ct_slice.as_slice());
        assert(out@ =~= ct.subrange(0, end as int));
        steps.push(
            EncryptStep {
                block_index,
                a_block: a_i,
                s_block: s_i,
                plaintext: pt_slice,
                ciphertext: ct_slice,
            },
        );
        i = i + 1;
    }
    (out, steps)
}

/// The counter block of the `i`-th (0-based) keystream block: byte 0 is 0x01,
/// bytes 1..5 are zero, byte 5 is the uplink direction, bytes 6..10 the
/// DevAddr little endian, bytes 10..14 FCnt little endian, byte 14 zero, and
/// the last byte the 1-based block number `(i + 1) mod 256`.
pub open spec fn counter_block_ok(a: Seq<u8>, f_cnt: u32, dev_addr: Seq<u8>, i: int) -> bool {
    &&& a.len() == 16
    &&& a[0] == 0x01 && a[1] == 0 && a[2] == 0 && a[3] == 0 && a[4] == 0 && a[5] == 0
    &&& a[6] == dev_addr[3] && a[7] == dev_addr[2] && a[8] == dev_addr[1] && a[9] == dev_addr[0]
    &&& a[10] as int == f_cnt % 256 && a[11] as int == f_cnt / 256 % 256
    &&& a[12] as int == f_cnt / 65536 % 256 && a[13] as int == f_cnt / 16777216 % 256
    &&& a[14] == 0
    &&& a[15] as int == (i + 1) % 256
}

/// Every byte `j` of the ciphertext is the plaintext byte XORed with byte
/// `j mod 16` of AES(AppSKey, A), where A is the counter block of block
/// `j / 16`, whose last byte is the 1-based block number `(j / 16 + 1) mod
/// 256`. So bytes of different blocks (below 256 blocks) use different
/// counter blocks and the keystream is never reused.
pub proof fn lemma_keystream_per_block(payload: Seq<u8>, key: Seq<u8>, f_cnt: u32, dev_addr: Seq<u8>, j: int)
    requires
        0 <= j < payload.len(),
    ensures
        exists|a: Seq<u8>|
            counter_block_ok(a, f_cnt, dev_addr, j / 16) && ctr_crypt(payload, key, f_cnt, dev_addr)[j]
                == payload[j] ^ (#[trigger] aes128_encrypt(key, a))[j % 16],
{
    let a = ai_block(((j / 16 + 1) % 256) as u8, f_cnt, dev_addr);
    assert(counter_block_ok(a, f_cnt, dev_addr, j / 16));
    assert(ctr_crypt(payload, key, f_cnt, dev_addr)[j] == payload[j] ^ aes128_encrypt(key, a)[j % 16]);
}

/// Counter blocks of two different block numbers differ (in their last byte),
/// so blocks `i` and `k` with `i != k` below 256 are encrypted under
/// different keystream inputs.
pub proof fn lemma_counter_blocks_distinct(a: Seq<u8>, b: Seq<u8>, f_cnt: u32, dev_addr: Seq<u8>, i: int, k: int)
    requires
        0 <= i < k < 256,
        counter_block_ok(a, f_cnt, dev_addr, i),
        counter_block_ok(b, f_cnt, dev_addr, k),
    ensures
        a != b,
{
    assert(a[15] != b[15]);
}

/// Each recorded step holds the counter block of its position and the AES
/// encryption of exactly that block: `s_block = AES(AppSKey, a_block)`, with
/// `a_block` ending in the 1-based block number.
pub proof fn lemma_step_uses_its_counter_block(
    step: EncryptStep,
    payload: Seq<u8>,
    key: Seq<u8>,
    f_cnt: u32,
    dev_addr: Seq<u8>,
    i: int,
)
    requires
        0 <= i,
        dev_addr.len() == 4,
        step_matches(step, payload, key, f_cnt, dev_addr, i),
    ensures
        step.block_index as int == (i + 1) % 256,
        counter_block_ok(step.a_block@, f_cnt, dev_addr, i),
        step.s_block@ == aes128_encrypt(key, step.a_block@),
{
}

proof fn lemma_xor_twice(a: u8, k: u8)
    ensures
        (a ^ k) ^ k == a,
{
    assert((a ^ k) ^ k == a) by (bit_vector);
}

/// CTR mode is its own inverse: encrypting the ciphertext again with the same
/// AppSKey, FCnt and DevAddr gives back the plaintext, for every payload.
pub proof fn lemma_encrypt_is_involution(payload: Seq<u8>, key: Seq<u8>, f_cnt: u32, dev_addr: Seq<u8>)
    ensures
        ctr_crypt(ctr_crypt(payload, key, f_cnt, dev_addr), key, f_cnt, dev_addr) == payload,
{
    let c = ctr_crypt(payload, key, f_cnt, dev_addr);
    let p2 = ctr_crypt(c, key, f_cnt, dev_addr);
    assert forall|j: int| 0 <= j < payload.len() implies p2[j] == payload[j] by {
        lemma_xor_twice(payload[j], keystream_block(key, f_cnt, dev_addr, j / 16)[j % 16]);
    }
    assert(p2 =~= payload);
}

/// Encryption preserves the payload length.
pub proof fn lemma_ciphertext_length(payload: Seq<u8>, key: Seq<u8>, f_cnt: u32, dev_addr: Seq<u8>)
    ensures
        ctr_crypt(payload, key, f_cnt, dev_addr).len() == payload.len(),
{
}

/// Each recorded step covers 1 to 16 bytes, and its ciphertext is its
/// plaintext XORed with its keystream block Si, byte by byte.
pub proof fn lemma_step_is_xor(
    step: EncryptStep,
    payload: Seq<u8>,
    key: Seq<u8>,
    f_cnt: u32,
    dev_addr: Seq<u8>,
    i: int,
)
    requires
        0 <= i < block_count(payload.len()),
        step_matches(step, payload, key, f_cnt, dev_addr, i),
    ensures
        1 <= step.plaintext@.len() <= 16,
        step.ciphertext@.len() == step.plaintext@.len(),
        forall|j: int|
            0 <= j < step.plaintext@.len() ==> #[trigger] step.ciphertext@[j] == step.plaintext@[j]
                ^ step.s_block@[j],
{
    assert(i * 16 < payload.len()) by (nonlinear_arith)
        requires
            0 <= i < block_count(payload.len()),
    ;
    assert forall|j: int| 0 <= j < step.plaintext@.len() implies #[trigger] step.ciphertext@[j]
        == step.plaintext@[j] ^ step.s_block@[j] by {
        assert((i * 16 + j) / 16 == i && (i * 16 + j) % 16 == j) by (nonlinear_arith)
            requires
                0 <= j < 16,
        ;
    }
}

} // verus!
