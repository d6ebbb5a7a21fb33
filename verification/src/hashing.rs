//! The hash functions of the outside crates that the library relies on, each
//! behind one trusted wrapper whose result is named by a spec function.

use vstd::prelude::*;
use hmac::{Hmac, Mac};
use sha2::{Digest, Sha256};
use rand::Rng;

verus! {

/// SHA-256 of a byte string, as the `sha2` crate computes it.
pub uninterp spec fn sha256_spec(data: Seq<u8>) -> Seq<u8>;

/// HMAC-SHA256 of `msg` under `key`, as the `hmac` crate computes it.
pub uninterp spec fn hmac_sha256_spec(key: Seq<u8>, msg: Seq<u8>) -> Seq<u8>;

/// SHA-256 of a byte string, as `bitcoin::hashes::sha256::Hash::hash`
/// computes it.
pub uninterp spec fn btc_sha256_spec(data: Seq<u8>) -> Seq<u8>;

/// Calls `sha2::Sha256::digest`. Claimed: the 32 bytes it returns are the
/// value that `sha256_spec` names for `data`.
#[verifier::external_body]
pub(crate) fn sha256_digest(data: &[u8]) -> (r: [u8; 32])
    ensures
        r@ == sha256_spec(data@),
{
    Sha256::digest(data).into()
}

/// Calls `hmac::Hmac::<Sha256>::new_from_slice(key)`, `update(msg)` and
/// `finalize`. `new_from_slice` accepts keys of every length for HMAC, so
/// the `expect` never fires. Claimed: the 32 bytes are the value that
/// `hmac_sha256_spec` names for `key` and `msg`.
#[verifier::external_body]
pub(crate) fn hmac_sha256(key: &[u8], msg: &[u8]) -> (r: [u8; 32])
    ensures
        r@ == hmac_sha256_spec(key@, msg@),
{
    let mut mac = <Hmac<Sha256> as Mac>::new_from_slice(key).expect("HMAC accepts any key length");
    mac.update(msg);
    mac.finalize().into_bytes().into()
}

/// Calls `bitcoin::hashes::sha256::Hash::hash` and takes the byte array.
/// Claimed: the bytes are the value that `btc_sha256_spec` names for `data`.
#[verifier::external_body]
pub(crate) fn btc_sha256(data: &[u8]) -> (r: [u8; 32])
    ensures
        r@ == btc_sha256_spec(data@),
{
    let h: bitcoin::hashes::sha256::Hash = bitcoin::hashes::Hash::hash(data);
    bitcoin::hashes::Hash::to_byte_array(h)
}

/// Calls `rand::thread_rng().gen()` for sixteen random bytes. Nothing is
/// claimed of their values.
#[verifier::external_body]
pub(crate) fn random_bytes_16() -> (r: [u8; 16]) {
    rand::thread_rng().gen()
}

} // verus!
