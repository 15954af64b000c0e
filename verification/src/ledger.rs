//! The pool ledger: the single source of truth mapping each pool
//! identity to its pool state.

use std::collections::HashMap;
use vstd::prelude::*;

verus! {

broadcast use vstd::std_specs::hash::group_hash_axioms;

use crate::pool::Pool;

/// The persistent map from pool identity to pool state. It holds no
/// business logic; the liquidity and swap engines own all the rules.
pub struct PoolLedger {
    map: HashMap<u64, Pool>,
}

impl View for PoolLedger {
    type V = Map<u64, Pool>;

    closed spec fn view(&self) -> Map<u64, Pool> {
        self.map@
    }
}

impl PoolLedger {
    /// An empty ledger: no pools.
    pub fn new() -> (r: PoolLedger)
        ensures
            r@ == Map::<u64, Pool>::empty(),
    {
        PoolLedger { map: HashMap::new() }
    }

    /// Looks a pool up by its identity.
    pub fn get(&self, pool_id: u64) -> (r: Option<Pool>)
        ensures
            self@.contains_key(pool_id) ==> r == Some(self@[pool_id]),
            !self@.contains_key(pool_id) ==> r is None,
    {
        match self.map.get(&pool_id) {
            Some(pool) => Some(*pool),
            None => None,
        }
    }

    /// Stores `pool` under `pool_id`, replacing any previous entry.
    pub fn insert(&mut self, pool_id: u64, pool: Pool)
        ensures
            final(self)@ == old(self)@.insert(pool_id, pool),
    {
        self.map.insert(pool_id, pool);
    }

    /// Deletes the entry under `pool_id`, if any.
    pub fn remove(&mut self, pool_id: u64)
        ensures
            final(self)@ == old(self)@.remove(pool_id),
    {
        self.map.remove(&pool_id);
    }
}

} // verus!
