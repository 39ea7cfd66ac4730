//! Trusted wrappers around the outside cryptography. The chat core treats
//! hashing, the stream cipher and signature checking as opaque functions of
//! their byte inputs; each wrapper names what the outside crate computes and
//! everything around these calls is verified.

use vstd::prelude::*;
use sha3::Digest;
use aes::cipher::{KeyIvInit, StreamCipher};
use ed25519_dalek::Verifier;
use rand::Rng;
use crate::{Error, HASH_SIZE, SIGNATURE_SIZE};

verus! {

/// What SHA3-256 returns on a byte string.
pub uninterp spec fn sha3_of(data: Seq<u8>) -> Seq<u8>;

/// What AES-256-CTR with this service's fixed IV returns on a byte string:
/// the keystream XOR of the data, a function of key and data alone.
pub uninterp spec fn aes_ctr_of(key: Seq<u8>, data: Seq<u8>) -> Seq<u8>;

/// What ed25519 verification returns on message, key bytes and signature
/// bytes: `None` when the key or signature bytes cannot be parsed, otherwise
/// whether the signature checks out. A function of the bytes alone.
pub uninterp spec fn ed25519_verify_of(
    msg: Seq<u8>,
    pub_key: Seq<u8>,
    signature: Seq<u8>,
) -> Option<bool>;

/// Relies on `sha3::Sha3_256` through `digest::Digest`: a 32-byte digest
/// that depends on the input bytes alone.
#[verifier::external_body]
pub fn hash(data: &Vec<u8>) -> (r: Vec<u8>)
    ensures
        r@ == sha3_of(data@),
        r@.len() == HASH_SIZE,
{
    sha3::Sha3_256::digest(data.as_slice()).to_vec()
}

/// Relies on `ctr::Ctr128BE<aes::Aes256>` through
/// `cipher::StreamCipher::apply_keystream`: an in-place keystream XOR that
/// preserves the buffer's length. `new_from_slices` accepts every 32-byte
/// key and 16-byte IV.
#[verifier::external_body]
pub fn apply(key: &Vec<u8>, buf: &mut Vec<u8>)
    requires
        key@.len() == HASH_SIZE,
    ensures
        final(buf)@ == aes_ctr_of(key@, old(buf)@),
        final(buf)@.len() == old(buf)@.len(),
{
    let iv: [u8; 16] = [0, 0, 0, 0, 0, 0, 0, 0, 0, 0, 0, 0, 0, 0, 0, 1];
    let mut cipher = ctr::Ctr128BE::<aes::Aes256>::new_from_slices(key.as_slice(), &iv)
        .unwrap();
    cipher.apply_keystream(buf.as_mut_slice());
}

/// Relies on `ed25519_dalek`: `PublicKey::from_bytes` and
/// `Signature::from_bytes` parse the 32-byte key and 64-byte signature (both
/// can reject their input), `Verifier::verify` checks them; all three are
/// deterministic in their byte inputs.
#[verifier::external_body]
pub fn verify(msg: &Vec<u8>, pub_key: &Vec<u8>, signature: &Vec<u8>) -> (r: Result<bool, Error>)
    requires
        pub_key@.len() == HASH_SIZE,
        signature@.len() == SIGNATURE_SIZE,
    ensures
        match ed25519_verify_of(msg@, pub_key@, signature@) {
            Some(b) => r == Ok::<bool, Error>(b),
            None => r == Err::<bool, Error>(Error::BadKeyOrSig),
        },
{
    let key = match ed25519_dalek::PublicKey::from_bytes(pub_key.as_slice()) {
        Ok(k) => k,
        Err(_) => return Err(Error::BadKeyOrSig),
    };
    let sig = match ed25519_dalek::Signature::from_bytes(signature.as_slice()) {
        Ok(s) => s,
        Err(_) => return Err(Error::BadKeyOrSig),
    };
    Ok(key.verify(msg.as_slice(), &sig).is_ok())
}

/// Relies on `rand::Rng::gen_range`: some byte in `[1, 255]`; nothing more
/// is promised of a random draw.
#[verifier::external_body]
pub fn random_pad_byte() -> (r: u8)
    ensures
        1 <= r,
{
    rand::thread_rng().gen_range(1u8..=0xff)
}

} // verus!
