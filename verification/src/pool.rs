//! Canonical asset pairs and per-pool state.

use vstd::prelude::*;

verus! {

use crate::asset::AssetAmount;
use crate::asset::AssetId;
use crate::asset::asset_encoding_lt;
use crate::asset::asset_lt;
use crate::asset::lemma_asset_order_total;
use crate::error::Error;

/// Two distinct assets with their amounts, held in canonical order:
/// `asset_1`'s encoding sorts strictly before `asset_2`'s. Callers may
/// hand the assets in either order and land in the same pair.
#[derive(Clone, Copy, PartialEq, Eq, Structural, Debug)]
pub struct PoolPair {
    pub asset_1: AssetId,
    pub amount_1: AssetAmount,
    pub asset_2: AssetId,
    pub amount_2: AssetAmount,
}

impl PoolPair {
    /// The pair is in canonical order (which makes the assets distinct).
    pub open spec fn wf(self) -> bool {
        asset_lt(self.asset_1, self.asset_2)
    }

    /// What `new` returns: the two sides sorted into canonical order,
    /// or `SameAsset` for a pair of one asset.
    pub open spec fn spec_new(
        asset_a: AssetId,
        amount_a: AssetAmount,
        asset_b: AssetId,
        amount_b: AssetAmount,
    ) -> Result<PoolPair, Error> {
        if asset_a == asset_b {
            Err(Error::SameAsset)
        } else if asset_lt(asset_b, asset_a) {
            Ok(
                (PoolPair {
                    asset_1: asset_b,
                    amount_1: amount_b,
                    asset_2: asset_a,
                    amount_2: amount_a,
                }),
            )
        } else {
            Ok(
                (PoolPair {
                    asset_1: asset_a,
                    amount_1: amount_a,
                    asset_2: asset_b,
                    amount_2: amount_b,
                }),
            )
        }
    }

    /// Sorts the two sides into a canonical pair; a pair of one asset
    /// is refused.
    pub fn new(
        asset_a: AssetId,
        amount_a: AssetAmount,
        asset_b: AssetId,
        amount_b: AssetAmount,
    ) -> (r: Result<PoolPair, Error>)
        ensures
            r == Self::spec_new(asset_a, amount_a, asset_b, amount_b),
            r matches Ok(p) ==> p.wf(),
    {
        proof {
            lemma_asset_order_total(asset_a, asset_b);
        }
        if asset_a == asset_b {
            return Err(Error::SameAsset);
        }
        if asset_encoding_lt(asset_b, asset_a) {
            Ok(PoolPair { asset_1: asset_b, amount_1: amount_b, asset_2: asset_a, amount_2: amount_a })
        } else {
            Ok(PoolPair { asset_1: asset_a, amount_1: amount_a, asset_2: asset_b, amount_2: amount_b })
        }
    }

    /// Canonicalization is idempotent: a pair already in canonical
    /// order comes back unchanged.
    pub proof fn lemma_canonicalize_idempotent(p: PoolPair)
        requires
            p.wf(),
        ensures
            Self::spec_new(p.asset_1, p.amount_1, p.asset_2, p.amount_2) == Ok::<PoolPair, Error>(p),
    {
        lemma_asset_order_total(p.asset_1, p.asset_2);
    }
}

/// One pool: its canonical reserves and the outstanding LP supply.
#[derive(Clone, Copy, PartialEq, Eq, Structural, Debug)]
pub struct Pool {
    /// The two assets and the reserves the pool holds of each.
    pub pool_pair: PoolPair,
    /// Total outstanding liquidity-provider claims on the reserves.
    pub lp_supply: AssetAmount,
}

impl Pool {
    /// Packs a pair and an LP supply into a pool.
    pub fn new(pool_pair: PoolPair, lp_supply: AssetAmount) -> (r: Pool)
        ensures
            r == (Pool { pool_pair, lp_supply }),
    {
        Pool { pool_pair, lp_supply }
    }

    /// A live pool's invariant: canonical pair, strictly positive
    /// reserves, strictly positive LP supply.
    pub open spec fn wf(self) -> bool {
        &&& self.pool_pair.wf()
        &&& self.pool_pair.amount_1 >= 1
        &&& self.pool_pair.amount_2 >= 1
        &&& self.lp_supply >= 1
    }
}

} // verus!
