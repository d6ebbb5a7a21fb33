//! The queue of transactions waiting to be sequenced.

use vstd::prelude::*;
use std::collections::VecDeque;

verus! {

/// Transactions waiting, oldest first.
pub struct Mempool {
    pub queue: VecDeque<String>,
}

/// An empty mempool.
pub fn init_mempool() -> (r: Mempool)
    ensures
        r.queue@.len() == 0,
{
    Mempool { queue: VecDeque::new() }
}

} // verus!
