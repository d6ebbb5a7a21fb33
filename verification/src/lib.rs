pub mod text;
pub mod strmap;
pub mod hashing;
pub mod crypto;
pub mod sorting;
pub mod state;
pub mod auth;
pub mod settlement;
pub mod recovery;
pub mod da_adapter;
pub mod merchant;
pub mod payment;
pub mod rate_limit;
pub mod mempool;
pub mod spv;
pub mod wallet;
pub mod btc_api;
pub mod btc_tx;
pub mod withdraw;
pub mod snapshot;
pub mod bridge;
pub mod webhook;
pub mod base58;
pub mod vm;
pub mod requests;
pub mod models;
pub mod cli;
pub mod conservation;
pub mod node_config;

use vstd::prelude::*;

verus! {

/// The listing window, in seconds, that an invoice stays payable when no
/// explicit lifetime is requested.
pub fn default_ttl() -> (r: u64)
    ensures
        r == 3600,
{
    3600
}

} // verus!
