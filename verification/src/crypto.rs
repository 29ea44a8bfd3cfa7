//! The AES-128 block cipher and CMAC-AES-128, as provided by the `aes` and
//! `cmac` crates. Nothing here is proved: each item states what the crate
//! computes and the rest of the library is verified against those statements.

use vstd::prelude::*;
use aes::Aes128;
use aes::cipher::{BlockEncrypt, KeyInit};
use cmac::{Cmac, Mac};

verus! {

/// The AES-128 encryption (FIPS-197) of the 16-byte `block` under the 16-byte `key`.
pub uninterp spec fn aes128_encrypt(key: Seq<u8>, block: Seq<u8>) -> Seq<u8>;

/// The CMAC (NIST SP 800-38B, RFC 4493) tag of `msg` under the AES-128 key `key`.
pub uninterp spec fn aes128_cmac(key: Seq<u8>, msg: Seq<u8>) -> Seq<u8>;

/// Encrypts one block with the `aes` crate: `Aes128::new` (trait `KeyInit`) on
/// `key`, then `BlockEncrypt::encrypt_block` on a copy of `block`. The contract
/// claims only that the result is the AES-128 encryption of `block` under
/// `key`, a function of those two arguments alone.
#[verifier::external_body]
pub(crate) fn aes128_encrypt_block(key: &[u8; 16], block: &[u8; 16]) -> (out: [u8; 16])
    ensures
        out@ == aes128_encrypt(key@, block@),
{
    let cipher = Aes128::new(key.into());
    let mut b = *block;
    cipher.encrypt_block((&mut b).into());
    b
}

/// Computes a CMAC-AES-128 tag with the `cmac` crate: `KeyInit::new` for
/// `Cmac<Aes128>` on `key`, one `Mac::update` with `msg`, then
/// `Mac::finalize` and `into_bytes`. The contract claims only that the
/// 16-byte result is the CMAC of `msg` under `key`, a function of those two
/// arguments alone.
#[verifier::external_body]
pub(crate) fn aes128_cmac_tag(key: &[u8; 16], msg: &[u8]) -> (tag: [u8; 16])
    ensures
        tag@ == aes128_cmac(key@, msg@),
{
    let mut mac = <Cmac<Aes128> as KeyInit>::new(key.into());
    mac.update(msg);
    mac.finalize().into_bytes().into()
}

} // verus!
