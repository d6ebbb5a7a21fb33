//! The data of the block explorer API (mempool.space, testnet) and the
//! addresses of its endpoints.

use vstd::prelude::*;
use crate::text::{owned, push_str};

verus! {

/// An unspent output of an address, as the explorer lists it.
#[derive(Clone, Debug)]
pub struct Utxo {
    pub txid: String,
    pub vout: u32,
    pub value: u64,
    pub status: UtxoStatus,
}

/// Whether an unspent output is confirmed.
#[derive(Clone, Copy, Debug, PartialEq, Eq, Structural)]
pub struct UtxoStatus {
    pub confirmed: bool,
}

/// The base of the explorer's API.
pub open spec fn api_base() -> Seq<char> {
    "https://mempool.space/testnet/api"@
}

/// The endpoint listing the unspent outputs of `address`.
pub fn utxo_url(address: &str) -> (r: String)
    ensures
        r@ == api_base() + "/address/"@ + address@ + "/utxo"@,
{
    let mut u = owned("https://mempool.space/testnet/api");
    push_str(&mut u, "/address/");
    push_str(&mut u, address);
    push_str(&mut u, "/utxo");
    u
}

/// The endpoint that broadcasts a raw transaction.
pub fn tx_url() -> (r: String)
    ensures
        r@ == api_base() + "/tx"@,
{
    let mut u = owned("https://mempool.space/testnet/api");
    push_str(&mut u, "/tx");
    u
}

/// A copy of an unspent output.
pub fn copy_utxo(u: &Utxo) -> (r: Utxo)
    ensures
        r == *u,
{
    Utxo { txid: u.txid.clone(), vout: u.vout, value: u.value, status: u.status }
}

} // verus!
