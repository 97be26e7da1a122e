//! Boundary to the cryptographic and identifier-generation primitives.
//!
//! Every function here wraps a single outside call. The wrappers either
//! state the call's documented behaviour exactly (hex encoding) or give the
//! result a name (`pk_of`, `sig_of`, `sha256_of`, `base64_of`) when the
//! result is a function of the arguments alone but too large to state.

use vstd::prelude::*;

use ed25519_dalek::Signer;
use ed25519_dalek::Verifier;
use rand::RngCore;
use base64::Engine;
use sha2::Digest;

verus! {

/// The character for one hex nibble, lowercase.
pub open spec fn hex_digit(n: u8) -> char
    recommends
        n < 16,
{
    if n < 10 {
        (((n + 48) as u8) as u32) as char
    } else {
        (((n + 87) as u8) as u32) as char
    }
}

/// Lowercase hex encoding: two digits per byte, high nibble first.
pub open spec fn hex_of(bytes: Seq<u8>) -> Seq<char>
    decreases bytes.len(),
{
    if bytes.len() == 0 {
        Seq::<char>::empty()
    } else {
        seq![hex_digit(bytes.first() / 16), hex_digit(bytes.first() % 16)] + hex_of(
            bytes.drop_first(),
        )
    }
}

/// Relies on hex::encode: lowercase hex, two digits per byte, high nibble first.
#[verifier::external_body]
pub fn hex_encode(bytes: &[u8]) -> (r: String)
    ensures
        r@ == hex_of(bytes@),
{
    hex::encode(bytes)
}

/// The public key that the ed25519 key derivation yields for a 32-byte seed.
pub uninterp spec fn pk_of(seed: Seq<u8>) -> Seq<u8>;

/// Relies on ed25519_dalek::SigningKey::{from_bytes, verifying_key}: the
/// public key is a function of the 32-byte secret seed alone, 32 bytes long.
#[verifier::external_body]
pub fn derive_public_key(seed: &[u8]) -> (r: Vec<u8>)
    requires
        seed@.len() == 32,
    ensures
        r@ == pk_of(seed@),
        r@.len() == 32,
{
    let arr: [u8; 32] = seed.try_into().unwrap();
    let key = ed25519_dalek::SigningKey::from_bytes(&arr);
    key.verifying_key().to_bytes().to_vec()
}

/// The ed25519 signature for a 32-byte seed and a message.
pub uninterp spec fn sig_of(seed: Seq<u8>, message: Seq<u8>) -> Seq<u8>;

/// Relies on ed25519_dalek::SigningKey::sign (RFC 8032): signing is
/// deterministic in the seed and the message; the signature is 64 bytes.
#[verifier::external_body]
pub fn sign_bytes(seed: &[u8], message: &[u8]) -> (r: Vec<u8>)
    requires
        seed@.len() == 32,
    ensures
        r@ == sig_of(seed@, message@),
        r@.len() == 64,
{
    let arr: [u8; 32] = seed.try_into().unwrap();
    let key = ed25519_dalek::SigningKey::from_bytes(&arr);
    key.sign(message).to_bytes().to_vec()
}

/// Whether ed25519 verification accepts a signature over a message under a
/// public key; false when the key bytes do not parse as a curve point.
pub uninterp spec fn sig_checks(signature: Seq<u8>, message: Seq<u8>, public_key: Seq<u8>) -> bool;

/// Relies on ed25519_dalek::VerifyingKey::{from_bytes, verify}: the outcome
/// is a function of the signature, message and key bytes alone.
#[verifier::external_body]
pub fn verify_bytes(signature: &[u8], message: &[u8], public_key: &[u8]) -> (r: bool)
    requires
        signature@.len() == 64,
        public_key@.len() == 32,
    ensures
        r == sig_checks(signature@, message@, public_key@),
{
    let pk_arr: [u8; 32] = public_key.try_into().unwrap();
    let key = match ed25519_dalek::VerifyingKey::from_bytes(&pk_arr) {
        Ok(k) => k,
        Err(_) => {
            return false;
        },
    };
    let sig_arr: [u8; 64] = signature.try_into().unwrap();
    let sig = ed25519_dalek::Signature::from_bytes(&sig_arr);
    key.verify(message, &sig).is_ok()
}

/// The SHA-256 digest of a byte sequence.
pub uninterp spec fn sha256_of(data: Seq<u8>) -> Seq<u8>;

/// Relies on sha2::Sha256: the digest is a function of the input bytes alone
/// and is 32 bytes long.
#[verifier::external_body]
pub fn sha256(data: &[u8]) -> (r: Vec<u8>)
    ensures
        r@ == sha256_of(data@),
        r@.len() == 32,
{
    let mut hasher = sha2::Sha256::new();
    hasher.update(data);
    hasher.finalize().to_vec()
}

/// The standard-alphabet base64 encoding of a byte sequence.
pub uninterp spec fn base64_of(data: Seq<u8>) -> Seq<char>;

/// Relies on base64's general_purpose::STANDARD engine: the encoding is a
/// function of the input bytes alone.
#[verifier::external_body]
pub fn base64_encode(data: &[u8]) -> (r: String)
    ensures
        r@ == base64_of(data@),
{
    base64::engine::general_purpose::STANDARD.encode(data)
}

/// Relies on rand::rngs::OsRng::fill_bytes: fills a 32-byte buffer from the
/// operating system's entropy source. Nothing is promised of the contents.
#[verifier::external_body]
pub fn random_seed() -> (r: Vec<u8>)
    ensures
        r@.len() == 32,
{
    let mut bytes = [0u8; 32];
    rand::rngs::OsRng.fill_bytes(&mut bytes);
    bytes.to_vec()
}

/// Relies on uuid::Uuid::new_v4 and its hyphenated display form: 36 ASCII
/// characters. Nothing more is promised of a random identifier.
#[verifier::external_body]
pub fn new_uuid_string() -> (r: String)
    ensures
        r@.len() == 36,
        r.is_ascii(),
{
    uuid::Uuid::new_v4().to_string()
}

} // verus!
