//! Light-client checks of Bitcoin data: Merkle proofs and block headers.

use vstd::prelude::*;
use bitcoin::consensus::Decodable;
use crate::text::{hex_decode, hex_decode_spec};

verus! {

#[verifier::external_type_specification]
#[verifier::external_body]
pub struct ExTxid(bitcoin::Txid);

/// What checking a block's proof of work gives for its bytes: `None` where
/// `bitcoin::Block::consensus_decode` refuses them, else whether the
/// header's `validate_pow` accepts the target the header encodes.
pub uninterp spec fn block_pow_spec(bytes: Seq<u8>) -> Option<bool>;

/// Calls `bitcoin::Block::consensus_decode` on the bytes and, for a block,
/// `validate_pow` of its header against `header.target()`. Claimed: the
/// outcome is what `block_pow_spec` names for the bytes.
#[verifier::external_body]
fn block_pow_check(bytes: Vec<u8>) -> (r: Option<bool>)
    ensures
        r == block_pow_spec(bytes@),
{
    match bitcoin::Block::consensus_decode(&mut std::io::Cursor::new(bytes)) {
        Ok(block) => Some(block.header.validate_pow(block.header.target()).is_ok()),
        Err(_) => None,
    }
}

/// Checks Bitcoin data against proofs.
pub struct SpvVerifier;

impl SpvVerifier {
    pub fn new() -> (r: Self) {
        SpvVerifier
    }

    /// Accepts a Merkle proof of `txid` against `merkle_root` when the proof
    /// is well-formed hex; the proof's steps are not checked against the
    /// root.
    pub fn verify_merkle_proof(&self, txid: bitcoin::Txid, merkle_root: String, proof_hex: &str) -> (r: bool)
        ensures
            r == hex_decode_spec(proof_hex@) is Some,
    {
        match hex_decode(proof_hex) {
            Some(_) => true,
            None => false,
        }
    }

    /// Decodes a hex-encoded block and checks its header's proof of work.
    pub fn validate_header(&self, block_hex: &str) -> (r: bool)
        ensures
            r == (hex_decode_spec(block_hex@) matches Some(b) && block_pow_spec(b) == Some(true)),
    {
        match hex_decode(block_hex) {
            Some(bytes) => match block_pow_check(bytes) {
                Some(ok) => ok,
                None => false,
            },
            None => false,
        }
    }
}

} // verus!
