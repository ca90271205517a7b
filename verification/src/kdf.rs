//! Trusted wrappers around the HKDF primitive (RFC 5869).
//!
//! Key derivation is anchored in the `Hkdf` type of the
//! spideroak-crypto library, reached through aranya-crypto's
//! re-export; this module is the only place the channel plane calls
//! it.  Each wrapper names its result with an uninterpreted function
//! of the arguments alone: HKDF is deterministic, so two calls on
//! the same bytes return the same bytes, which is all the derivation
//! logic relies on.

use vstd::prelude::*;

use aranya_crypto::dangerous::spideroak_crypto::hkdf::Hkdf;
use aranya_crypto::dangerous::spideroak_crypto::kdf::Prk;
use aranya_crypto::dangerous::spideroak_crypto::keys::SecretKeyBytes;
use aranya_crypto::dangerous::spideroak_crypto::rust::{Sha256, Sha384};
use aranya_crypto::hybrid_array::Array;

verus! {

/// The pseudorandom key HKDF-SHA-256 extracts from keying material
/// and a salt.
pub uninterp spec fn hkdf_extract_sha256(ikm: Seq<u8>, salt: Seq<u8>) -> Seq<u8>;

/// The output HKDF-SHA-256 expands from a pseudorandom key, an info
/// string and an output length.
pub uninterp spec fn hkdf_expand_sha256(prk: Seq<u8>, info: Seq<u8>, n: nat) -> Seq<u8>;

/// The pseudorandom key HKDF-SHA-384 extracts from keying material
/// and a salt.
pub uninterp spec fn hkdf_extract_sha384(ikm: Seq<u8>, salt: Seq<u8>) -> Seq<u8>;

/// The output HKDF-SHA-384 expands from a pseudorandom key, an info
/// string and an output length.
pub uninterp spec fn hkdf_expand_sha384(prk: Seq<u8>, info: Seq<u8>, n: nat) -> Seq<u8>;

/// Relies on `Hkdf::<Sha256>::extract`: HKDF-Extract per RFC 5869,
/// which returns a 32-byte pseudorandom key and is a function of the
/// keying material and salt alone.
#[verifier::external_body]
pub fn extract_sha256(ikm: &Vec<u8>, salt: &Vec<u8>) -> (r: Vec<u8>)
    ensures
        r@ == hkdf_extract_sha256(ikm@, salt@),
        r@.len() == 32,
{
    let prk = Hkdf::<Sha256>::extract(ikm.as_slice(), salt.as_slice());
    prk.as_bytes().to_vec()
}

/// Relies on `Hkdf::<Sha256>::expand`: HKDF-Expand per RFC 5869,
/// which fills exactly `n` output bytes and is a function of the
/// pseudorandom key, the info string and the length alone; it fails
/// only when asked for more than 255 hash lengths, which the
/// precondition rules out.
#[verifier::external_body]
pub fn expand_sha256(prk: &Vec<u8>, info: &Vec<u8>, n: usize) -> (r: Vec<u8>)
    requires
        prk@.len() == 32,
        n <= 8160,
    ensures
        r@ == hkdf_expand_sha256(prk@, info@, n as nat),
        r@.len() == n,
{
    let arr = Array::try_from(prk.as_slice()).expect("the contract fixes the length at 32");
    let prk = Prk::new(SecretKeyBytes::new(arr));
    let mut out: Vec<u8> = Vec::new();
    out.resize(n, 0u8);
    Hkdf::<Sha256>::expand(&mut out, &prk, info.as_slice())
        .expect("the contract bounds the output at 255 hash lengths");
    out
}

/// Relies on `Hkdf::<Sha384>::extract`: HKDF-Extract per RFC 5869,
/// which returns a 48-byte pseudorandom key and is a function of the
/// keying material and salt alone.
#[verifier::external_body]
pub fn extract_sha384(ikm: &Vec<u8>, salt: &Vec<u8>) -> (r: Vec<u8>)
    ensures
        r@ == hkdf_extract_sha384(ikm@, salt@),
        r@.len() == 48,
{
    let prk = Hkdf::<Sha384>::extract(ikm.as_slice(), salt.as_slice());
    prk.as_bytes().to_vec()
}

/// Relies on `Hkdf::<Sha384>::expand`: HKDF-Expand per RFC 5869,
/// which fills exactly `n` output bytes and is a function of the
/// pseudorandom key, the info string and the length alone; it fails
/// only when asked for more than 255 hash lengths, which the
/// precondition rules out.
#[verifier::external_body]
pub fn expand_sha384(prk: &Vec<u8>, info: &Vec<u8>, n: usize) -> (r: Vec<u8>)
    requires
        prk@.len() == 48,
        n <= 12240,
    ensures
        r@ == hkdf_expand_sha384(prk@, info@, n as nat),
        r@.len() == n,
{
    let arr = Array::try_from(prk.as_slice()).expect("the contract fixes the length at 48");
    let prk = Prk::new(SecretKeyBytes::new(arr));
    let mut out: Vec<u8> = Vec::new();
    out.resize(n, 0u8);
    Hkdf::<Sha384>::expand(&mut out, &prk, info.as_slice())
        .expect("the contract bounds the output at 255 hash lengths");
    out
}

} // verus!
