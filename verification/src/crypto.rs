//! Trusted boundary to the cryptographic primitives and to a few std
//! functions that vstd gives no specification.
//!
//! Each digest or signature is named by an uninterpreted spec function of
//! the inputs alone; the wrappers below are the only places where those
//! names are given meaning, and each body holds a single outside call plus
//! conversions.

use vstd::prelude::*;
use vstd::utf8::{decode_utf8, valid_utf8};
use ed25519_dalek::Signer;
use tiny_keccak::Hasher;
use sha2::Digest;

verus! {

/// The SHA-256 digest of a byte string.
pub uninterp spec fn sha256_of(b: Seq<u8>) -> Seq<u8>;

/// The KECCAK-256 digest of a byte string.
pub uninterp spec fn keccak_of(b: Seq<u8>) -> Seq<u8>;

/// The ed25519 signature of a message under a 32-byte secret key.
pub uninterp spec fn ed_sign(sk: Seq<u8>, msg: Seq<u8>) -> Seq<u8>;

/// The ed25519 public key derived from a 32-byte secret key.
pub uninterp spec fn ed_pubkey(sk: Seq<u8>) -> Seq<u8>;

/// Whether an ed25519 signature on a message is valid under a public key.
pub uninterp spec fn ed_verify(pk: Seq<u8>, msg: Seq<u8>, sig: Seq<u8>) -> bool;

/// Relies on sha2::Sha256 (the `Digest::digest` convenience): a 32-byte
/// digest that depends on the input bytes alone.
#[verifier::external_body]
pub fn sha256(b: &Vec<u8>) -> (r: Vec<u8>)
    ensures
        r@ == sha256_of(b@),
        r@.len() == 32,
{
    sha2::Sha256::digest(b.as_slice()).to_vec()
}

/// Relies on tiny_keccak::Keccak::v256 with update/finalize: a 32-byte
/// digest that depends on the input bytes alone.
#[verifier::external_body]
pub fn keccak256(b: &Vec<u8>) -> (r: Vec<u8>)
    ensures
        r@ == keccak_of(b@),
        r@.len() == 32,
{
    let mut state = tiny_keccak::Keccak::v256();
    state.update(b.as_slice());
    let mut out = [0u8; 32];
    state.finalize(&mut out);
    out.to_vec()
}

/// Relies on ed25519_dalek::SigningKey::sign: ed25519 signing is a
/// deterministic function of the key and the message, and the produced
/// 64-byte signature passes `verify_strict` under the derived public key.
#[verifier::external_body]
pub fn ed_sign_bytes(sk: &Vec<u8>, msg: &Vec<u8>) -> (r: Vec<u8>)
    requires
        sk@.len() == 32,
    ensures
        r@ == ed_sign(sk@, msg@),
        r@.len() == 64,
        ed_verify(ed_pubkey(sk@), msg@, r@),
{
    let key_bytes: [u8; 32] = sk.as_slice().try_into().unwrap();
    let key = ed25519_dalek::SigningKey::from_bytes(&key_bytes);
    key.sign(msg.as_slice()).to_bytes().to_vec()
}

/// Relies on ed25519_dalek::SigningKey::verifying_key: the public key is a
/// function of the secret key alone, 32 bytes long.
#[verifier::external_body]
pub fn ed_pubkey_bytes(sk: &Vec<u8>) -> (r: Vec<u8>)
    requires
        sk@.len() == 32,
    ensures
        r@ == ed_pubkey(sk@),
        r@.len() == 32,
{
    let key_bytes: [u8; 32] = sk.as_slice().try_into().unwrap();
    let key = ed25519_dalek::SigningKey::from_bytes(&key_bytes);
    key.verifying_key().to_bytes().to_vec()
}

/// Relies on ed25519_dalek::VerifyingKey::verify_strict: acceptance is a
/// function of key, message and signature; a key that is not 32 bytes or a
/// signature that is not 64 bytes is rejected by the `from_bytes` parsers.
#[verifier::external_body]
pub fn ed_verify_bytes(pk: &Vec<u8>, msg: &Vec<u8>, sig: &Vec<u8>) -> (r: bool)
    ensures
        r == ed_verify(pk@, msg@, sig@),
        pk@.len() != 32 ==> !r,
        sig@.len() != 64 ==> !r,
{
    let key_bytes: [u8; 32] = match pk.as_slice().try_into() {
        Ok(b) => b,
        Err(_) => return false,
    };
    let key = match ed25519_dalek::VerifyingKey::from_bytes(&key_bytes) {
        Ok(k) => k,
        Err(_) => return false,
    };
    let signature = match ed25519_dalek::Signature::from_slice(sig.as_slice()) {
        Ok(s) => s,
        Err(_) => return false,
    };
    key.verify_strict(msg.as_slice(), &signature).is_ok()
}

/// Relies on String::from_utf8: succeeds exactly on valid UTF-8 and
/// returns the string those bytes spell.
#[verifier::external_body]
pub fn string_from_utf8(v: Vec<u8>) -> (r: Option<String>)
    ensures
        r is Some <==> valid_utf8(v@),
        r matches Some(s) ==> s@ == decode_utf8(v@),
{
    String::from_utf8(v).ok()
}

/// Relies on std::time::SystemTime::now: the wall clock, as seconds and
/// sub-second nanoseconds since the Unix epoch. Nothing is promised of the
/// reading except that the nanosecond part is in range.
#[verifier::external_body]
pub fn current_time() -> (r: (u64, u32))
    ensures
        r.1 < 1_000_000_000,
{
    match std::time::SystemTime::now().duration_since(std::time::UNIX_EPOCH) {
        Ok(d) => (d.as_secs(), d.subsec_nanos()),
        Err(_) => (0, 0),
    }
}

} // verus!
