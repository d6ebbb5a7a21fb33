//! The node's network settings, read from its environment.

use vstd::prelude::*;
use crate::text::{owned, str_eq};

verus! {

/// The Bitcoin network the Lightning node runs on.
#[derive(Clone, Copy, Debug, PartialEq, Eq, Structural)]
pub enum NetworkKind {
    Bitcoin,
    Testnet,
    Signet,
}

/// The network that `BITCOIN_NETWORK` names: `mainnet` or `bitcoin` for
/// Bitcoin, `testnet` for testnet, and signet otherwise.
pub open spec fn network_for_spec(name: Seq<char>) -> NetworkKind {
    if name == "mainnet"@ || name == "bitcoin"@ {
        NetworkKind::Bitcoin
    } else if name == "testnet"@ {
        NetworkKind::Testnet
    } else {
        NetworkKind::Signet
    }
}

pub fn network_for(name: &str) -> (r: NetworkKind)
    ensures
        r == network_for_spec(name@),
{
    if str_eq(name, "mainnet") || str_eq(name, "bitcoin") {
        NetworkKind::Bitcoin
    } else if str_eq(name, "testnet") {
        NetworkKind::Testnet
    } else {
        NetworkKind::Signet
    }
}

/// The Esplora server used where `ESPLORA_URL` is not set.
pub open spec fn default_esplora_spec(n: NetworkKind) -> Seq<char> {
    match n {
        NetworkKind::Bitcoin => "https://blockstream.info/api"@,
        NetworkKind::Testnet => "https://blockstream.info/testnet/api"@,
        NetworkKind::Signet => "https://mutinynet.com/api"@,
    }
}

pub fn default_esplora(n: NetworkKind) -> (r: String)
    ensures
        r@ == default_esplora_spec(n),
{
    match n {
        NetworkKind::Bitcoin => owned("https://blockstream.info/api"),
        NetworkKind::Testnet => owned("https://blockstream.info/testnet/api"),
        NetworkKind::Signet => owned("https://mutinynet.com/api"),
    }
}

} // verus!
