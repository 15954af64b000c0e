//! The exchange core: the fee store, the liquidity engine and the
//! swap pricing engine over the pool ledger.
//!
//! Every operation is a single atomic transition: it either completes,
//! or fails with an error kind and leaves the ledger exactly as it
//! was. Asset custody is the host's: operations return the amounts to
//! move, and take as arguments what only the host's token ledger
//! knows (a caller's LP balance, a pooled asset's total liquidity).

use vstd::prelude::*;

verus! {

use crate::asset::AssetAmount;
use crate::asset::AssetId;
use crate::error::Error;
use crate::ledger::PoolLedger;
use crate::math::ceil_div;
use crate::math::lemma_ceil_div_covers;
use crate::math::lemma_ceil_div_le;
use crate::math::lemma_ceil_div_pos;
use crate::math::lemma_ceil_div_split;
use crate::math::integer_sqrt;
use crate::math::lemma_sqrt_floor_bounds;
use crate::math::lemma_sqrt_floor_monotonic;
use crate::math::sqrt_floor;
use crate::pool::Pool;
use crate::pool::PoolPair;
use crate::pool_id::pool_id_of;
use crate::pool_id::spec_lp_id;
use crate::asset::lemma_asset_order_total;
use vstd::arithmetic::mul::lemma_mul_nonnegative;
use vstd::arithmetic::mul::lemma_mul_strict_inequality;
use vstd::arithmetic::mul::lemma_mul_upper_bound;
use vstd::arithmetic::div_mod::lemma_div_by_multiple;
use vstd::arithmetic::div_mod::lemma_div_pos_is_pos;
use vstd::arithmetic::div_mod::lemma_multiply_divide_lt;
use vstd::arithmetic::div_mod::lemma_div_is_ordered;
use vstd::arithmetic::div_mod::lemma_div_is_ordered_by_denominator;
use vstd::arithmetic::div_mod::lemma_fundamental_div_mod;
use vstd::arithmetic::mul::lemma_mul_inequality;
use vstd::arithmetic::mul::lemma_mul_is_commutative;
use vstd::arithmetic::mul::lemma_mul_strictly_positive;

/// The fee rate a fresh exchange starts with: three percent.
pub struct FeeDefault(pub u16);

impl Default for FeeDefault {
    /// The initial fee parameter.
    fn default() -> (r: Self)
        ensures
            r.0 == 3,
    {
        FeeDefault(3)
    }
}

impl FeeDefault {
    /// The initial fee rate in percent.
    pub fn get() -> (r: u16)
        ensures
            r == 3,
    {
        3
    }
}

/// The effective fee rate in percent: the stored rate, clamped at one
/// hundred, so a fee never exceeds the amount it is charged on.
pub open spec fn effective_fee(fee: u16) -> int {
    if fee > 100 {
        100int
    } else {
        fee as int
    }
}

/// The fee charged on `amount` at the stored rate `fee`:
/// `ceil(amount * rate / 100)`, rounded up in the protocol's favor.
pub open spec fn fee_on(fee: u16, amount: int) -> int {
    ceil_div(amount * effective_fee(fee), 100)
}

/// The fee is bounded by the amount itself, and never negative.
pub proof fn lemma_fee_on_bounds(fee: u16, amount: int)
    requires
        amount >= 0,
    ensures
        0 <= fee_on(fee, amount) <= amount,
{
    let eff = effective_fee(fee);
    lemma_mul_inequality(eff, 100, amount);
    lemma_mul_is_commutative(amount, eff);
    lemma_mul_is_commutative(100, amount);
    lemma_ceil_div_le(amount * eff, 100, amount);
    lemma_ceil_div_covers(amount * eff, 100);
}

/// What pricing an exact input yields: the fee is carved out of the
/// input, the net input joins the matching reserve, the other reserve
/// shrinks to the rounded-up constant-product level (so the product
/// never drops), and the fee itself stays in the pool on the input
/// side. The input side is recognized by comparison with the pool's
/// canonical first asset. Each checked step that would wrap fails the
/// whole computation.
pub open spec fn spec_calculate_out(
    fee: u16,
    amount_in: AssetAmount,
    input_type: AssetId,
    pool: Pool,
) -> Result<(AssetAmount, Pool), Error>
    recommends
        pool.wf(),
{
    let fee_amt = fee_on(fee, amount_in as int);
    let in_net = amount_in - fee_amt;
    let k = pool.pool_pair.amount_1 * pool.pool_pair.amount_2;
    let input_is_1 = input_type == pool.pool_pair.asset_1;
    let r_in: int = if input_is_1 {
        pool.pool_pair.amount_1 as int
    } else {
        pool.pool_pair.amount_2 as int
    };
    let r_out: int = if input_is_1 {
        pool.pool_pair.amount_2 as int
    } else {
        pool.pool_pair.amount_1 as int
    };
    if k > u128::MAX {
        Err(Error::ArithmeticOverflow)
    } else if r_in + in_net > u128::MAX {
        Err(Error::ArithmeticOverflow)
    } else {
        let new_in = r_in + in_net;
        let new_out = ceil_div(k, new_in);
        let amount_out = r_out - new_out;
        if new_in + fee_amt > u128::MAX {
            Err(Error::ArithmeticOverflow)
        } else {
            let stored_in = new_in + fee_amt;
            Ok(
                (
                    (
                        amount_out as u128,
                        Pool {
                            pool_pair: PoolPair {
                                asset_1: pool.pool_pair.asset_1,
                                amount_1: if input_is_1 {
                                    stored_in as u128
                                } else {
                                    new_out as u128
                                },
                                asset_2: pool.pool_pair.asset_2,
                                amount_2: if input_is_1 {
                                    new_out as u128
                                } else {
                                    stored_in as u128
                                },
                            },
                            lp_supply: pool.lp_supply,
                        },
                    )
                ),
            )
        }
    }
}

/// What pricing an exact output costs: the output reserve shrinks by
/// the exact output, the input reserve rises to the rounded-up
/// constant-product level (so the product never drops), and the fee
/// is grossed up on top of the required input and stays in the pool.
/// The output side is recognized by comparison with the pool's
/// canonical first asset. Each checked step that would wrap fails the
/// whole computation; draining a reserve to zero fails the division.
pub open spec fn spec_calculate_in(
    fee: u16,
    amount_out: AssetAmount,
    output_type: AssetId,
    pool: Pool,
) -> Result<(AssetAmount, Pool), Error>
    recommends
        pool.wf(),
{
    let k = pool.pool_pair.amount_1 * pool.pool_pair.amount_2;
    let output_is_1 = output_type == pool.pool_pair.asset_1;
    let r_out: int = if output_is_1 {
        pool.pool_pair.amount_1 as int
    } else {
        pool.pool_pair.amount_2 as int
    };
    let r_in: int = if output_is_1 {
        pool.pool_pair.amount_2 as int
    } else {
        pool.pool_pair.amount_1 as int
    };
    if k > u128::MAX {
        Err(Error::ArithmeticOverflow)
    } else if r_out - amount_out < 0 {
        Err(Error::ArithmeticOverflow)
    } else if r_out - amount_out == 0 {
        Err(Error::ArithmeticUnderflow)
    } else {
        let new_out = r_out - amount_out;
        let new_in = ceil_div(k, new_out);
        let in_before_fee = new_in - r_in;
        let fee_amt = fee_on(fee, in_before_fee);
        if in_before_fee + fee_amt > u128::MAX {
            Err(Error::ArithmeticOverflow)
        } else if new_in + fee_amt > u128::MAX {
            Err(Error::ArithmeticOverflow)
        } else {
            let stored_in = new_in + fee_amt;
            Ok(
                (
                    (
                        (in_before_fee + fee_amt) as u128,
                        Pool {
                            pool_pair: PoolPair {
                                asset_1: pool.pool_pair.asset_1,
                                amount_1: if output_is_1 {
                                    new_out as u128
                                } else {
                                    stored_in as u128
                                },
                                asset_2: pool.pool_pair.asset_2,
                                amount_2: if output_is_1 {
                                    stored_in as u128
                                } else {
                                    new_out as u128
                                },
                            },
                            lp_supply: pool.lp_supply,
                        },
                    )
                ),
            )
        }
    }
}

/// How many LP tokens a deposit mints. Into a fresh pool, the floor
/// square root of the product of the deposited amounts: the first
/// depositor receives the geometric mean of the contribution. Into an
/// existing pool, the growth of that root: `sqrt((R1+a1)*(R2+a2)) -
/// sqrt(R1*R2)`, so new claims match the increase of the invariant and
/// never dilute the standing holders. A checked addition or
/// multiplication that would wrap fails the computation.
pub open spec fn spec_calculate_lp(new_pair: PoolPair, pool: Option<Pool>) -> Result<
    AssetAmount,
    Error,
> {
    match pool {
        Some(p) => {
            let total_1 = p.pool_pair.amount_1 + new_pair.amount_1;
            let total_2 = p.pool_pair.amount_2 + new_pair.amount_2;
            if total_1 > u128::MAX {
                Err(Error::ArithmeticOverflow)
            } else if total_2 > u128::MAX {
                Err(Error::ArithmeticOverflow)
            } else if total_1 * total_2 > u128::MAX {
                Err(Error::ArithmeticOverflow)
            } else {
                Ok(
                    ((sqrt_floor((total_1 * total_2) as nat) - sqrt_floor(
                        (p.pool_pair.amount_1 * p.pool_pair.amount_2) as nat,
                    )) as u128),
                )
            }
        },
        None => {
            let product = new_pair.amount_1 * new_pair.amount_2;
            if product > u128::MAX {
                Err(Error::ArithmeticOverflow)
            } else {
                Ok((sqrt_floor(product as nat) as u128))
            }
        },
    }
}

/// Pools already in a well-formed ledger stay well formed when one
/// well-formed pool is stored.
pub proof fn lemma_pools_wf_insert(pools: Map<u64, Pool>, id: u64, p: Pool)
    requires
        forall|k: u64| pools.contains_key(k) ==> (#[trigger] pools[k]).wf(),
        p.wf(),
    ensures
        forall|k: u64|
            pools.insert(id, p).contains_key(k) ==> (#[trigger] pools.insert(id, p)[k]).wf(),
{
    assert forall|k: u64| pools.insert(id, p).contains_key(k) implies (#[trigger] pools.insert(
        id,
        p,
    )[k]).wf() by {
        if k != id {
            assert(pools[k].wf());
        }
    }
}

/// Pools already in a well-formed ledger stay well formed when one
/// entry is deleted.
pub proof fn lemma_pools_wf_remove(pools: Map<u64, Pool>, id: u64)
    requires
        forall|k: u64| pools.contains_key(k) ==> (#[trigger] pools[k]).wf(),
    ensures
        forall|k: u64| pools.remove(id).contains_key(k) ==> (#[trigger] pools.remove(id)[k]).wf(),
{
    assert forall|k: u64| pools.remove(id).contains_key(k) implies (#[trigger] pools.remove(
        id,
    )[k]).wf() by {
        assert(pools[k].wf());
    }
}

/// What growing a pool in place does: both reserves rise by the new
/// pair's amounts and the LP supply by the freshly minted claims, all
/// checked; a missing pool or a wrapping step fails and changes
/// nothing.
pub open spec fn spec_increase_pool(
    pools: Map<u64, Pool>,
    new_pair: PoolPair,
    new_lp: AssetAmount,
    pool_id: u64,
) -> (Result<(), Error>, Map<u64, Pool>) {
    if !pools.contains_key(pool_id) {
        (Err(Error::NoPool), pools)
    } else {
        let p = pools[pool_id];
        if p.pool_pair.amount_1 + new_pair.amount_1 > u128::MAX {
            (Err(Error::ArithmeticOverflow), pools)
        } else if p.pool_pair.amount_2 + new_pair.amount_2 > u128::MAX {
            (Err(Error::ArithmeticOverflow), pools)
        } else if p.lp_supply + new_lp > u128::MAX {
            (Err(Error::ArithmeticOverflow), pools)
        } else {
            (
                Ok(()),
                pools.insert(
                    pool_id,
                    Pool {
                        pool_pair: PoolPair {
                            asset_1: p.pool_pair.asset_1,
                            amount_1: (p.pool_pair.amount_1 + new_pair.amount_1) as u128,
                            asset_2: p.pool_pair.asset_2,
                            amount_2: (p.pool_pair.amount_2 + new_pair.amount_2) as u128,
                        },
                        lp_supply: (p.lp_supply + new_lp) as u128,
                    },
                ),
            )
        }
    }
}

/// What shrinking a pool in place does: both reserves fall by the
/// redeemed amounts and the LP supply by the burnt claims, all
/// checked. A pool whose supply reaches zero is deleted outright; a
/// pool that remains must keep both reserves positive, so a
/// subtraction that would empty a reserve of a remaining pool is
/// refused as an underflow.
pub open spec fn spec_decrease_pool(
    pools: Map<u64, Pool>,
    amount_1: AssetAmount,
    amount_2: AssetAmount,
    new_lp: AssetAmount,
    pool_id: u64,
) -> (Result<(), Error>, Map<u64, Pool>) {
    if !pools.contains_key(pool_id) {
        (Err(Error::NoPool), pools)
    } else {
        let p = pools[pool_id];
        if amount_1 > p.pool_pair.amount_1 {
            (Err(Error::ArithmeticUnderflow), pools)
        } else if amount_2 > p.pool_pair.amount_2 {
            (Err(Error::ArithmeticUnderflow), pools)
        } else if new_lp > p.lp_supply {
            (Err(Error::ArithmeticUnderflow), pools)
        } else if p.lp_supply - new_lp == 0 {
            (Ok(()), pools.remove(pool_id))
        } else if amount_1 == p.pool_pair.amount_1 || amount_2 == p.pool_pair.amount_2 {
            (Err(Error::ArithmeticUnderflow), pools)
        } else {
            (
                Ok(()),
                pools.insert(
                    pool_id,
                    Pool {
                        pool_pair: PoolPair {
                            asset_1: p.pool_pair.asset_1,
                            amount_1: (p.pool_pair.amount_1 - amount_1) as u128,
                            asset_2: p.pool_pair.asset_2,
                            amount_2: (p.pool_pair.amount_2 - amount_2) as u128,
                        },
                        lp_supply: (p.lp_supply - new_lp) as u128,
                    },
                ),
            )
        }
    }
}

/// What adding liquidity does. The pair is canonicalized (one asset
/// twice is refused), its pool id derived, and the minted LP claims
/// computed. A first deposit creates the pool and must be positive on
/// both sides; a later deposit grows reserves and supply in place.
/// Any failure leaves the ledger untouched.
pub open spec fn spec_add_liquidity(
    pools: Map<u64, Pool>,
    asset_a: AssetId,
    asset_b: AssetId,
    amount_a: AssetAmount,
    amount_b: AssetAmount,
) -> (Result<AssetAmount, Error>, Map<u64, Pool>) {
    match PoolPair::spec_new(asset_a, amount_a, asset_b, amount_b) {
        Err(e) => (Err(e), pools),
        Ok(pair) => {
            let id = pool_id_of(pair.asset_1, pair.asset_2);
            if !pools.contains_key(id) {
                match spec_calculate_lp(pair, None) {
                    Err(e) => (Err(e), pools),
                    Ok(lp) => if lp == 0 {
                        (Err(Error::InsufficientLiquidity), pools)
                    } else {
                        (Ok(lp), pools.insert(id, Pool { pool_pair: pair, lp_supply: lp }))
                    },
                }
            } else {
                match spec_calculate_lp(pair, Some(pools[id])) {
                    Err(e) => (Err(e), pools),
                    Ok(lp) => {
                        let step = spec_increase_pool(pools, pair, lp, id);
                        match step.0 {
                            Ok(_) => (Ok(lp), step.1),
                            Err(e) => (Err(e), step.1),
                        }
                    },
                }
            }
        },
    }
}

/// What removing liquidity does. The pair is canonicalized, the
/// caller's LP balance must cover the burn, the pool must exist, and
/// each reserve pays out `floor(reserve * lp_amount / lp_supply)`:
/// proportional redemption whose truncation favors the remaining
/// holders. The burn then shrinks the pool; a pool whose supply
/// reaches zero is deleted. Any failure leaves the ledger untouched.
pub open spec fn spec_remove_liquidity(
    pools: Map<u64, Pool>,
    asset_a: AssetId,
    asset_b: AssetId,
    token_amount: AssetAmount,
    caller_lp_balance: AssetAmount,
) -> (Result<(AssetAmount, AssetAmount), Error>, Map<u64, Pool>) {
    match spec_lp_id(asset_a, asset_b) {
        Err(e) => (Err(e), pools),
        Ok(id) => {
            if caller_lp_balance < token_amount {
                (Err(Error::InsufficientLPBalance), pools)
            } else if !pools.contains_key(id) {
                (Err(Error::NoPool), pools)
            } else {
                let p = pools[id];
                if p.pool_pair.amount_1 * token_amount > u128::MAX {
                    (Err(Error::ArithmeticOverflow), pools)
                } else if p.pool_pair.amount_2 * token_amount > u128::MAX {
                    (Err(Error::ArithmeticOverflow), pools)
                } else {
                    let amount_1 = p.pool_pair.amount_1 * token_amount / p.lp_supply as int;
                    let amount_2 = p.pool_pair.amount_2 * token_amount / p.lp_supply as int;
                    let step = spec_decrease_pool(
                        pools,
                        amount_1 as u128,
                        amount_2 as u128,
                        token_amount,
                        id,
                    );
                    match step.0 {
                        Ok(_) => (Ok((amount_1 as u128, amount_2 as u128)), step.1),
                        Err(e) => (Err(e), step.1),
                    }
                }
            }
        },
    }
}

/// What swapping an exact input does: pool lookup by canonical id,
/// pricing by `spec_calculate_out`, the slippage floor `min_out`
/// enforced, and the repriced pool committed. Any failure leaves the
/// ledger untouched.
pub open spec fn spec_swap_exact_in_for_out(
    fee: u16,
    pools: Map<u64, Pool>,
    asset_in: AssetId,
    asset_out: AssetId,
    exact_in: AssetAmount,
    min_out: AssetAmount,
) -> (Result<AssetAmount, Error>, Map<u64, Pool>) {
    match spec_lp_id(asset_in, asset_out) {
        Err(e) => (Err(e), pools),
        Ok(id) => {
            if !pools.contains_key(id) {
                (Err(Error::NoneValue), pools)
            } else {
                match spec_calculate_out(fee, exact_in, asset_in, pools[id]) {
                    Err(e) => (Err(e), pools),
                    Ok(priced) => if priced.0 < min_out {
                        (Err(Error::SlippageTooHigh), pools)
                    } else {
                        (Ok(priced.0), pools.insert(id, priced.1))
                    },
                }
            }
        },
    }
}

/// What swapping for an exact output does: pool lookup by canonical
/// id, pricing by `spec_calculate_in`, the slippage ceiling `max_in`
/// enforced, and the repriced pool committed. Any failure leaves the
/// ledger untouched.
pub open spec fn spec_swap_in_for_exact_out(
    fee: u16,
    pools: Map<u64, Pool>,
    asset_in: AssetId,
    asset_out: AssetId,
    max_in: AssetAmount,
    exact_out: AssetAmount,
) -> (Result<AssetAmount, Error>, Map<u64, Pool>) {
    match spec_lp_id(asset_in, asset_out) {
        Err(e) => (Err(e), pools),
        Ok(id) => {
            if !pools.contains_key(id) {
                (Err(Error::NoPool), pools)
            } else {
                match spec_calculate_in(fee, exact_out, asset_out, pools[id]) {
                    Err(e) => (Err(e), pools),
                    Ok(priced) => if priced.0 > max_in {
                        (Err(Error::SlippageTooHigh), pools)
                    } else {
                        (Ok(priced.0), pools.insert(id, priced.1))
                    },
                }
            }
        },
    }
}

/// The exchange rate `numer / denom` in whole percent, rounded down
/// and saturated at one hundred. It is exact while the denominator
/// leaves room to scale by one hundred; for astronomically large
/// reserves both sides are first scaled down by `2^32`.
pub open spec fn spec_rate_percent(numer: int, denom: int) -> int
    recommends
        0 <= numer,
        1 <= denom,
{
    if numer >= denom {
        100int
    } else if denom <= u128::MAX as int / 100 {
        100 * numer / denom
    } else {
        100 * (numer / 0x1_0000_0000) / (denom / 0x1_0000_0000 + 1)
    }
}

/// What the price oracle reports for a swap of `asset_in` against
/// `asset_out`: the pool's output reserve over its input reserve, in
/// whole percent.
pub open spec fn spec_price_oracle(
    pools: Map<u64, Pool>,
    asset_in: AssetId,
    asset_out: AssetId,
) -> Result<u8, Error> {
    match spec_lp_id(asset_in, asset_out) {
        Err(e) => Err(e),
        Ok(id) => {
            if !pools.contains_key(id) {
                Err(Error::NoPool)
            } else {
                let p = pools[id];
                let input_is_1 = asset_in == p.pool_pair.asset_1;
                let r_in: int = if input_is_1 {
                    p.pool_pair.amount_1 as int
                } else {
                    p.pool_pair.amount_2 as int
                };
                let r_out: int = if input_is_1 {
                    p.pool_pair.amount_2 as int
                } else {
                    p.pool_pair.amount_1 as int
                };
                Ok((spec_rate_percent(r_out, r_in) as u8))
            }
        },
    }
}

/// The exchange: the current fee parameter and the pool ledger.
pub struct Dex {
    fee: u16,
    ledger: PoolLedger,
}

impl Dex {
    /// The stored fee rate, in percent.
    pub closed spec fn fee_rate(self) -> u16 {
        self.fee
    }

    /// The ledger's contents: pool state by pool identity.
    pub closed spec fn pools(self) -> Map<u64, Pool> {
        self.ledger@
    }

    /// Every pool the ledger holds satisfies the pool invariant:
    /// canonical pair, positive reserves, positive LP supply.
    pub open spec fn wf(self) -> bool {
        forall|id: u64| self.pools().contains_key(id) ==> (#[trigger] self.pools()[id]).wf()
    }

    /// A fresh exchange: no pools, the default fee.
    pub fn new() -> (r: Dex)
        ensures
            r.fee_rate() == 3,
            r.pools() == Map::<u64, Pool>::empty(),
            r.wf(),
    {
        Dex { fee: FeeDefault::get(), ledger: PoolLedger::new() }
    }

    /// The current fee rate in percent.
    pub fn get_fee(&self) -> (r: u16)
        ensures
            r == self.fee_rate(),
    {
        self.fee
    }

    /// The fee rate in basis points, for interface callers.
    pub fn swap_fee(&self) -> (r: u32)
        ensures
            r == self.fee_rate() * 100,
    {
        (self.fee as u32) * 100
    }

    /// Sets the fee rate. Only an authorized caller may: the host
    /// passes the verdict of its privileged-origin check.
    pub fn set_fee(&mut self, new_fee: u16, authorized: bool) -> (r: Result<(), Error>)
        requires
            old(self).wf(),
        ensures
            final(self).wf(),
            final(self).pools() == old(self).pools(),
            authorized ==> r == Ok::<(), Error>(()) && final(self).fee_rate() == new_fee,
            !authorized ==> r == Err::<(), Error>(Error::NotAllowedToSetFee) && final(self)
                .fee_rate() == old(self).fee_rate(),
    {
        if !authorized {
            return Err(Error::NotAllowedToSetFee);
        }
        self.fee = new_fee;
        proof {
            assert(self.pools() == old(self).pools());
            assert forall|id: u64| self.pools().contains_key(id) implies (
            #[trigger] self.pools()[id]).wf() by {
                assert(old(self).pools()[id].wf());
            }
        }
        Ok(())
    }

    /// The fee collected on `amount_in` at the current rate. Never
    /// fails; the result stays at or below `amount_in`.
    pub fn calculate_fees(&self, amount_in: AssetAmount) -> (r: Result<AssetAmount, Error>)
        ensures
            r == Ok::<AssetAmount, Error>((fee_on(self.fee_rate(), amount_in as int) as u128)),
            r matches Ok(f) ==> f <= amount_in,
    {
        let eff: u128 = if self.fee > 100 {
            100
        } else {
            self.fee as u128
        };
        let q: u128 = amount_in / 100;
        let rem: u128 = amount_in % 100;
        proof {
            assert(rem * eff <= 9900) by (nonlinear_arith)
                requires
                    rem < 100,
                    eff <= 100,
            ;
        }
        let scaled: u128 = rem * eff;
        let tail: u128 = if scaled % 100 != 0 {
            scaled / 100 + 1
        } else {
            scaled / 100
        };
        proof {
            lemma_fundamental_div_mod(amount_in as int, 100);
            assert(amount_in * eff == 100 * (q * eff) + rem * eff) by (nonlinear_arith)
                requires
                    amount_in == 100 * q + rem,
            ;
            lemma_ceil_div_split(q * eff, rem * eff, 100);
            assert(tail == ceil_div(rem * eff, 100));
            lemma_fee_on_bounds(self.fee, amount_in as int);
            assert(q * eff + tail == fee_on(self.fee_rate(), amount_in as int));
        }
        let fee: u128 = q * eff + tail;
        Ok(fee)
    }

    /// Prices a swap of an exact input against `pool` under the
    /// constant-product rule: the output granted and the pool as it
    /// stands after. Pure: the ledger is not touched; the caller
    /// commits the returned pool. The reserve product never
    /// decreases.
    pub fn calculate_out(&self, amount_in: AssetAmount, input_type: AssetId, pool: &Pool) -> (r:
        Result<(AssetAmount, Pool), Error>)
        requires
            pool.wf(),
        ensures
            r == spec_calculate_out(self.fee_rate(), amount_in, input_type, *pool),
            r matches Ok(p) ==> p.1.wf() && p.1.lp_supply == pool.lp_supply
                && p.1.pool_pair.amount_1 * p.1.pool_pair.amount_2 >= pool.pool_pair.amount_1
                * pool.pool_pair.amount_2,
    {
        let fee = match self.calculate_fees(amount_in) {
            Ok(f) => f,
            Err(e) => {
                return Err(e);
            },
        };
        proof {
            lemma_fee_on_bounds(self.fee, amount_in as int);
        }
        let exact_in_after_fee = amount_in - fee;
        let k = match pool.pool_pair.amount_1.checked_mul(pool.pool_pair.amount_2) {
            Some(k) => k,
            None => {
                return Err(Error::ArithmeticOverflow);
            },
        };
        let input_is_1 = input_type == pool.pool_pair.asset_1;
        let input_pool = if input_is_1 {
            pool.pool_pair.amount_1
        } else {
            pool.pool_pair.amount_2
        };
        let output_pool = if input_is_1 {
            pool.pool_pair.amount_2
        } else {
            pool.pool_pair.amount_1
        };
        let new_input_pool = match input_pool.checked_add(exact_in_after_fee) {
            Some(v) => v,
            None => {
                return Err(Error::ArithmeticOverflow);
            },
        };
        let q = k / new_input_pool;
        let new_output_pool = if k % new_input_pool != 0 {
            proof {
                lemma_div_is_ordered_by_denominator(k as int, 2, new_input_pool as int);
            }
            q + 1
        } else {
            q
        };
        proof {
            assert(new_output_pool == ceil_div(k as int, new_input_pool as int));
            lemma_mul_strictly_positive(
                pool.pool_pair.amount_1 as int,
                pool.pool_pair.amount_2 as int,
            );
            lemma_mul_is_commutative(
                pool.pool_pair.amount_1 as int,
                pool.pool_pair.amount_2 as int,
            );
            assert(k == input_pool * output_pool);
            lemma_mul_inequality(input_pool as int, new_input_pool as int, output_pool as int);
            lemma_ceil_div_le(k as int, new_input_pool as int, output_pool as int);
            lemma_ceil_div_pos(k as int, new_input_pool as int);
        }
        let output = output_pool - new_output_pool;
        let stored_in = match new_input_pool.checked_add(fee) {
            Some(v) => v,
            None => {
                return Err(Error::ArithmeticOverflow);
            },
        };
        let new_pool = Pool {
            pool_pair: PoolPair {
                asset_1: pool.pool_pair.asset_1,
                amount_1: if input_is_1 {
                    stored_in
                } else {
                    new_output_pool
                },
                asset_2: pool.pool_pair.asset_2,
                amount_2: if input_is_1 {
                    new_output_pool
                } else {
                    stored_in
                },
            },
            lp_supply: pool.lp_supply,
        };
        proof {
            lemma_ceil_div_covers(k as int, new_input_pool as int);
            lemma_mul_is_commutative(new_output_pool as int, new_input_pool as int);
            lemma_mul_inequality(new_input_pool as int, stored_in as int, new_output_pool as int);
            lemma_mul_is_commutative(stored_in as int, new_output_pool as int);
        }
        Ok((output, new_pool))
    }

    /// Prices a swap for an exact output against `pool` under the
    /// constant-product rule: the input required, fee included, and
    /// the pool as it stands after. Pure: the ledger is not touched;
    /// the caller commits the returned pool. The reserve product
    /// never decreases.
    pub fn calculate_in(&self, amount_out: AssetAmount, output_type: AssetId, pool: &Pool) -> (r:
        Result<(AssetAmount, Pool), Error>)
        requires
            pool.wf(),
        ensures
            r == spec_calculate_in(self.fee_rate(), amount_out, output_type, *pool),
            r matches Ok(p) ==> p.1.wf() && p.1.lp_supply == pool.lp_supply
                && p.1.pool_pair.amount_1 * p.1.pool_pair.amount_2 >= pool.pool_pair.amount_1
                * pool.pool_pair.amount_2,
    {
        let k = match pool.pool_pair.amount_1.checked_mul(pool.pool_pair.amount_2) {
            Some(k) => k,
            None => {
                return Err(Error::ArithmeticOverflow);
            },
        };
        let output_is_1 = output_type == pool.pool_pair.asset_1;
        let output_pool = if output_is_1 {
            pool.pool_pair.amount_1
        } else {
            pool.pool_pair.amount_2
        };
        let input_pool = if output_is_1 {
            pool.pool_pair.amount_2
        } else {
            pool.pool_pair.amount_1
        };
        let new_output_pool = match output_pool.checked_sub(amount_out) {
            Some(v) => v,
            None => {
                return Err(Error::ArithmeticOverflow);
            },
        };
        if new_output_pool == 0 {
            return Err(Error::ArithmeticUnderflow);
        }
        let q = k / new_output_pool;
        let new_input_pool = if k % new_output_pool != 0 {
            proof {
                lemma_div_is_ordered_by_denominator(k as int, 2, new_output_pool as int);
            }
            q + 1
        } else {
            q
        };
        proof {
            assert(new_input_pool == ceil_div(k as int, new_output_pool as int));
            lemma_mul_strictly_positive(
                pool.pool_pair.amount_1 as int,
                pool.pool_pair.amount_2 as int,
            );
            lemma_mul_is_commutative(
                pool.pool_pair.amount_1 as int,
                pool.pool_pair.amount_2 as int,
            );
            assert(k == input_pool * output_pool);
            lemma_mul_inequality(new_output_pool as int, output_pool as int, input_pool as int);
            lemma_mul_is_commutative(new_output_pool as int, input_pool as int);
            lemma_mul_is_commutative(output_pool as int, input_pool as int);
            lemma_div_is_ordered(
                input_pool as int * new_output_pool as int,
                k as int,
                new_output_pool as int,
            );
            lemma_div_by_multiple(input_pool as int, new_output_pool as int);
            lemma_ceil_div_pos(k as int, new_output_pool as int);
        }
        let input_before_fee = new_input_pool - input_pool;
        let fee = match self.calculate_fees(input_before_fee) {
            Ok(f) => f,
            Err(e) => {
                return Err(e);
            },
        };
        proof {
            lemma_fee_on_bounds(self.fee, input_before_fee as int);
        }
        let input_required = match input_before_fee.checked_add(fee) {
            Some(v) => v,
            None => {
                return Err(Error::ArithmeticOverflow);
            },
        };
        let stored_in = match new_input_pool.checked_add(fee) {
            Some(v) => v,
            None => {
                return Err(Error::ArithmeticOverflow);
            },
        };
        let new_pool = Pool {
            pool_pair: PoolPair {
                asset_1: pool.pool_pair.asset_1,
                amount_1: if output_is_1 {
                    new_output_pool
                } else {
                    stored_in
                },
                asset_2: pool.pool_pair.asset_2,
                amount_2: if output_is_1 {
                    stored_in
                } else {
                    new_output_pool
                },
            },
            lp_supply: pool.lp_supply,
        };
        proof {
            lemma_ceil_div_covers(k as int, new_output_pool as int);
            lemma_mul_is_commutative(new_input_pool as int, new_output_pool as int);
            lemma_mul_inequality(new_input_pool as int, stored_in as int, new_output_pool as int);
            lemma_mul_is_commutative(stored_in as int, new_output_pool as int);
        }
        Ok((input_required, new_pool))
    }

    /// Computes the LP tokens a deposit mints: `sqrt(a1 * a2)` into a
    /// fresh pool, the growth of `sqrt(R1 * R2)` into an existing one.
    fn calculate_lp(new_pair: &PoolPair, pool: Option<&Pool>) -> (r: Result<AssetAmount, Error>)
        ensures
            pool matches Some(p) ==> r == spec_calculate_lp(*new_pair, Some(*p)),
            pool is None ==> r == spec_calculate_lp(*new_pair, None::<Pool>),
    {
        match pool {
            Some(pool) => {
                let total_1 = match pool.pool_pair.amount_1.checked_add(new_pair.amount_1) {
                    Some(v) => v,
                    None => {
                        return Err(Error::ArithmeticOverflow);
                    },
                };
                let total_2 = match pool.pool_pair.amount_2.checked_add(new_pair.amount_2) {
                    Some(v) => v,
                    None => {
                        return Err(Error::ArithmeticOverflow);
                    },
                };
                let total_product = match total_1.checked_mul(total_2) {
                    Some(v) => v,
                    None => {
                        return Err(Error::ArithmeticOverflow);
                    },
                };
                let sqrt_total = integer_sqrt(total_product);
                proof {
                    lemma_mul_upper_bound(
                        pool.pool_pair.amount_1 as int,
                        total_1 as int,
                        pool.pool_pair.amount_2 as int,
                        total_2 as int,
                    );
                }
                let current_product = match pool.pool_pair.amount_1.checked_mul(
                    pool.pool_pair.amount_2,
                ) {
                    Some(v) => v,
                    None => {
                        return Err(Error::ArithmeticOverflow);
                    },
                };
                let sqrt_current = integer_sqrt(current_product);
                proof {
                    lemma_sqrt_floor_monotonic(current_product as nat, total_product as nat);
                }
                let lp = sqrt_total - sqrt_current;
                Ok(lp)
            },
            None => {
                let product = match new_pair.amount_1.checked_mul(new_pair.amount_2) {
                    Some(v) => v,
                    None => {
                        return Err(Error::ArithmeticOverflow);
                    },
                };
                Ok(integer_sqrt(product))
            },
        }
    }

    /// Adds a deposit's amounts and freshly minted LP claims to an
    /// existing pool, all checked; any failure leaves the ledger
    /// untouched.
    pub fn increase_pool(&mut self, new_pair: &PoolPair, new_lp: &AssetAmount, pool_id: &u64) -> (r:
        Result<(), Error>)
        requires
            old(self).wf(),
        ensures
            final(self).wf(),
            final(self).fee_rate() == old(self).fee_rate(),
            ({
                let (rr, pp) = spec_increase_pool(old(self).pools(), *new_pair, *new_lp, *pool_id);
                r == rr && final(self).pools() == pp
            }),
            r is Err ==> *final(self) == *old(self),
    {
        let pool = match self.ledger.get(*pool_id) {
            Some(p) => p,
            None => {
                return Err(Error::NoPool);
            },
        };
        let amount_1 = match pool.pool_pair.amount_1.checked_add(new_pair.amount_1) {
            Some(v) => v,
            None => {
                return Err(Error::ArithmeticOverflow);
            },
        };
        let amount_2 = match pool.pool_pair.amount_2.checked_add(new_pair.amount_2) {
            Some(v) => v,
            None => {
                return Err(Error::ArithmeticOverflow);
            },
        };
        let lp_supply = match pool.lp_supply.checked_add(*new_lp) {
            Some(v) => v,
            None => {
                return Err(Error::ArithmeticOverflow);
            },
        };
        let updated = Pool {
            pool_pair: PoolPair {
                asset_1: pool.pool_pair.asset_1,
                amount_1,
                asset_2: pool.pool_pair.asset_2,
                amount_2,
            },
            lp_supply,
        };
        proof {
            lemma_pools_wf_insert(self.pools(), *pool_id, updated);
        }
        self.ledger.insert(*pool_id, updated);
        Ok(())
    }

    /// Removes a redemption's amounts and burnt LP claims from an
    /// existing pool, all checked. A pool whose supply reaches zero is
    /// deleted from the ledger; a pool that remains keeps positive
    /// reserves. Any failure leaves the ledger untouched.
    pub fn decrease_pool(
        &mut self,
        amount_1: &AssetAmount,
        amount_2: &AssetAmount,
        new_lp: &AssetAmount,
        pool_id: &u64,
    ) -> (r: Result<(), Error>)
        requires
            old(self).wf(),
        ensures
            final(self).wf(),
            final(self).fee_rate() == old(self).fee_rate(),
            ({
                let (rr, pp) = spec_decrease_pool(
                    old(self).pools(),
                    *amount_1,
                    *amount_2,
                    *new_lp,
                    *pool_id,
                );
                r == rr && final(self).pools() == pp
            }),
            r is Err ==> *final(self) == *old(self),
    {
        let pool = match self.ledger.get(*pool_id) {
            Some(p) => p,
            None => {
                return Err(Error::NoPool);
            },
        };
        let kept_1 = match pool.pool_pair.amount_1.checked_sub(*amount_1) {
            Some(v) => v,
            None => {
                return Err(Error::ArithmeticUnderflow);
            },
        };
        let kept_2 = match pool.pool_pair.amount_2.checked_sub(*amount_2) {
            Some(v) => v,
            None => {
                return Err(Error::ArithmeticUnderflow);
            },
        };
        let lp_supply = match pool.lp_supply.checked_sub(*new_lp) {
            Some(v) => v,
            None => {
                return Err(Error::ArithmeticUnderflow);
            },
        };
        if lp_supply == 0 {
            proof {
                lemma_pools_wf_remove(self.pools(), *pool_id);
            }
            self.ledger.remove(*pool_id);
            return Ok(());
        }
        if kept_1 == 0 || kept_2 == 0 {
            return Err(Error::ArithmeticUnderflow);
        }
        let updated = Pool {
            pool_pair: PoolPair {
                asset_1: pool.pool_pair.asset_1,
                amount_1: kept_1,
                asset_2: pool.pool_pair.asset_2,
                amount_2: kept_2,
            },
            lp_supply,
        };
        proof {
            lemma_pools_wf_insert(self.pools(), *pool_id, updated);
        }
        self.ledger.insert(*pool_id, updated);
        Ok(())
    }

    /// The canonical pool id of two distinct assets, in either order.
    pub fn get_lp_id(asset_a: AssetId, asset_b: AssetId) -> (r: Result<AssetId, Error>)
        ensures
            r == spec_lp_id(asset_a, asset_b),
    {
        crate::pool_id::get_lp_id(asset_a, asset_b)
    }

    /// The canonical pool id of two assets already known distinct.
    pub fn lp_id(asset_a: AssetId, asset_b: AssetId) -> (r: AssetId)
        requires
            asset_a != asset_b,
        ensures
            Ok::<AssetId, Error>(r) == spec_lp_id(asset_a, asset_b),
    {
        match crate::pool_id::get_lp_id(asset_a, asset_b) {
            Ok(id) => id,
            Err(_) => {
                proof {
                    assert(false);
                }
                0
            },
        }
    }

    /// Adds liquidity to the pair's pool, creating the pool on first
    /// deposit, and reports the LP tokens minted to the caller. The
    /// host mints that many LP tokens and moves `amount_a` of
    /// `asset_a` and `amount_b` of `asset_b` into pool custody; on an
    /// error nothing moves and the ledger is unchanged.
    pub fn add_liquidity(
        &mut self,
        asset_a: AssetId,
        asset_b: AssetId,
        amount_a: AssetAmount,
        amount_b: AssetAmount,
    ) -> (r: Result<AssetAmount, Error>)
        requires
            old(self).wf(),
        ensures
            final(self).wf(),
            final(self).fee_rate() == old(self).fee_rate(),
            ({
                let (rr, pp) = spec_add_liquidity(
                    old(self).pools(),
                    asset_a,
                    asset_b,
                    amount_a,
                    amount_b,
                );
                r == rr && final(self).pools() == pp
            }),
            r is Err ==> *final(self) == *old(self),
            asset_a == asset_b ==> r == Err::<AssetAmount, Error>(Error::SameAsset),
    {
        let cur_lp_id = match crate::pool_id::get_lp_id(asset_a, asset_b) {
            Ok(id) => id,
            Err(e) => {
                return Err(e);
            },
        };
        let add_amounts = match PoolPair::new(asset_a, amount_a, asset_b, amount_b) {
            Ok(p) => p,
            Err(e) => {
                return Err(e);
            },
        };
        match self.ledger.get(cur_lp_id) {
            None => {
                let lp_amount = match Self::calculate_lp(&add_amounts, None) {
                    Ok(l) => l,
                    Err(e) => {
                        return Err(e);
                    },
                };
                if lp_amount == 0 {
                    return Err(Error::InsufficientLiquidity);
                }
                let new_pool = Pool::new(add_amounts, lp_amount);
                proof {
                    lemma_sqrt_floor_bounds(
                        (add_amounts.amount_1 * add_amounts.amount_2) as nat,
                    );
                    lemma_mul_strictly_positive(lp_amount as int, lp_amount as int);
                    if add_amounts.amount_1 == 0 || add_amounts.amount_2 == 0 {
                        vstd::arithmetic::mul::lemma_mul_basics(add_amounts.amount_1 as int);
                        vstd::arithmetic::mul::lemma_mul_basics(add_amounts.amount_2 as int);
                    }
                    lemma_pools_wf_insert(self.pools(), cur_lp_id, new_pool);
                }
                self.ledger.insert(cur_lp_id, new_pool);
                Ok(lp_amount)
            },
            Some(existing_pool) => {
                let lp_amount = match Self::calculate_lp(&add_amounts, Some(&existing_pool)) {
                    Ok(l) => l,
                    Err(e) => {
                        return Err(e);
                    },
                };
                match self.increase_pool(&add_amounts, &lp_amount, &cur_lp_id) {
                    Ok(_) => Ok(lp_amount),
                    Err(e) => Err(e),
                }
            },
        }
    }

    /// Redeems `token_amount` LP tokens of the pair's pool for the
    /// proportional share of each reserve, and reports the two
    /// amounts. The host burns the LP tokens and pays the amounts out
    /// of pool custody; on an error nothing moves and the ledger is
    /// unchanged. `caller_lp_balance` is the caller's LP holding as
    /// the host's token ledger knows it.
    pub fn remove_liquidity(
        &mut self,
        asset_a: AssetId,
        asset_b: AssetId,
        token_amount: AssetAmount,
        caller_lp_balance: AssetAmount,
    ) -> (r: Result<(AssetAmount, AssetAmount), Error>)
        requires
            old(self).wf(),
        ensures
            final(self).wf(),
            final(self).fee_rate() == old(self).fee_rate(),
            ({
                let (rr, pp) = spec_remove_liquidity(
                    old(self).pools(),
                    asset_a,
                    asset_b,
                    token_amount,
                    caller_lp_balance,
                );
                r == rr && final(self).pools() == pp
            }),
            r is Err ==> *final(self) == *old(self),
    {
        let cur_lp_id = match crate::pool_id::get_lp_id(asset_a, asset_b) {
            Ok(id) => id,
            Err(e) => {
                return Err(e);
            },
        };
        if caller_lp_balance < token_amount {
            return Err(Error::InsufficientLPBalance);
        }
        let pool = match self.ledger.get(cur_lp_id) {
            Some(p) => p,
            None => {
                return Err(Error::NoPool);
            },
        };
        let scaled_1 = match pool.pool_pair.amount_1.checked_mul(token_amount) {
            Some(v) => v,
            None => {
                return Err(Error::ArithmeticOverflow);
            },
        };
        let amount_1 = scaled_1 / pool.lp_supply;
        let scaled_2 = match pool.pool_pair.amount_2.checked_mul(token_amount) {
            Some(v) => v,
            None => {
                return Err(Error::ArithmeticOverflow);
            },
        };
        let amount_2 = scaled_2 / pool.lp_supply;
        match self.decrease_pool(&amount_1, &amount_2, &token_amount, &cur_lp_id) {
            Ok(_) => Ok((amount_1, amount_2)),
            Err(e) => Err(e),
        }
    }

    /// Swaps an exact input of `asset_in` for `asset_out` and reports
    /// the output granted, which must reach the caller's `min_out`.
    /// The host moves `exact_in` into pool custody and the output out
    /// of it; on an error, slippage included, nothing moves and the
    /// ledger is unchanged.
    pub fn swap_exact_in_for_out(
        &mut self,
        asset_in: AssetId,
        asset_out: AssetId,
        exact_in: AssetAmount,
        min_out: AssetAmount,
    ) -> (r: Result<AssetAmount, Error>)
        requires
            old(self).wf(),
        ensures
            final(self).wf(),
            final(self).fee_rate() == old(self).fee_rate(),
            ({
                let (rr, pp) = spec_swap_exact_in_for_out(
                    old(self).fee_rate(),
                    old(self).pools(),
                    asset_in,
                    asset_out,
                    exact_in,
                    min_out,
                );
                r == rr && final(self).pools() == pp
            }),
            r is Err ==> *final(self) == *old(self),
            r is Ok ==> forall|k: u64|
                final(self).pools().contains_key(k) ==> old(self).pools().contains_key(k) && (
                #[trigger] final(self).pools()[k]).pool_pair.amount_1
                    * final(self).pools()[k].pool_pair.amount_2
                    >= old(self).pools()[k].pool_pair.amount_1
                    * old(self).pools()[k].pool_pair.amount_2,
    {
        let cur_lp_id = match crate::pool_id::get_lp_id(asset_in, asset_out) {
            Ok(id) => id,
            Err(e) => {
                return Err(e);
            },
        };
        let pool = match self.ledger.get(cur_lp_id) {
            Some(p) => p,
            None => {
                return Err(Error::NoneValue);
            },
        };
        let priced = match self.calculate_out(exact_in, asset_in, &pool) {
            Ok(t) => t,
            Err(e) => {
                return Err(e);
            },
        };
        if priced.0 < min_out {
            return Err(Error::SlippageTooHigh);
        }
        proof {
            lemma_pools_wf_insert(self.pools(), cur_lp_id, priced.1);
        }
        self.ledger.insert(cur_lp_id, priced.1);
        Ok(priced.0)
    }

    /// Swaps `asset_in` for an exact output of `asset_out` and reports
    /// the input required, fee included, which must not exceed the
    /// caller's `max_in`. The host moves the input into pool custody
    /// and `exact_out` out of it; on an error, slippage included,
    /// nothing moves and the ledger is unchanged.
    pub fn swap_in_for_exact_out(
        &mut self,
        asset_in: AssetId,
        asset_out: AssetId,
        max_in: AssetAmount,
        exact_out: AssetAmount,
    ) -> (r: Result<AssetAmount, Error>)
        requires
            old(self).wf(),
        ensures
            final(self).wf(),
            final(self).fee_rate() == old(self).fee_rate(),
            ({
                let (rr, pp) = spec_swap_in_for_exact_out(
                    old(self).fee_rate(),
                    old(self).pools(),
                    asset_in,
                    asset_out,
                    max_in,
                    exact_out,
                );
                r == rr && final(self).pools() == pp
            }),
            r is Err ==> *final(self) == *old(self),
            r is Ok ==> forall|k: u64|
                final(self).pools().contains_key(k) ==> old(self).pools().contains_key(k) && (
                #[trigger] final(self).pools()[k]).pool_pair.amount_1
                    * final(self).pools()[k].pool_pair.amount_2
                    >= old(self).pools()[k].pool_pair.amount_1
                    * old(self).pools()[k].pool_pair.amount_2,
    {
        let cur_lp_id = match crate::pool_id::get_lp_id(asset_in, asset_out) {
            Ok(id) => id,
            Err(e) => {
                return Err(e);
            },
        };
        let pool = match self.ledger.get(cur_lp_id) {
            Some(p) => p,
            None => {
                return Err(Error::NoPool);
            },
        };
        let priced = match self.calculate_in(exact_out, asset_out, &pool) {
            Ok(t) => t,
            Err(e) => {
                return Err(e);
            },
        };
        if priced.0 > max_in {
            return Err(Error::SlippageTooHigh);
        }
        proof {
            lemma_pools_wf_insert(self.pools(), cur_lp_id, priced.1);
        }
        self.ledger.insert(cur_lp_id, priced.1);
        Ok(priced.0)
    }

    /// Reports the pool's exchange rate from `asset_in` to
    /// `asset_out`: output reserve over input reserve, in whole
    /// percent, rounded down and saturated at one hundred.
    pub fn price_oracle(&self, asset_in: AssetId, asset_out: AssetId) -> (r: Result<u8, Error>)
        requires
            self.wf(),
        ensures
            r == spec_price_oracle(self.pools(), asset_in, asset_out),
    {
        let cur_lp_id = match crate::pool_id::get_lp_id(asset_in, asset_out) {
            Ok(id) => id,
            Err(e) => {
                return Err(e);
            },
        };
        let pool = match self.ledger.get(cur_lp_id) {
            Some(p) => p,
            None => {
                return Err(Error::NoPool);
            },
        };
        proof {
            assert(self.pools()[cur_lp_id].wf());
        }
        let input_is_1 = asset_in == pool.pool_pair.asset_1;
        let r_in = if input_is_1 {
            pool.pool_pair.amount_1
        } else {
            pool.pool_pair.amount_2
        };
        let r_out = if input_is_1 {
            pool.pool_pair.amount_2
        } else {
            pool.pool_pair.amount_1
        };
        let rate: u128 = if r_out >= r_in {
            100
        } else if r_in <= u128::MAX / 100 {
            proof {
                lemma_mul_strict_inequality(r_out as int, r_in as int, 100);
                lemma_mul_is_commutative(r_out as int, 100);
                lemma_mul_is_commutative(r_in as int, 100);
                lemma_multiply_divide_lt(100 * r_out as int, r_in as int, 100);
            }
            (100 * r_out) / r_in
        } else {
            proof {
                lemma_div_is_ordered(r_out as int, r_in as int, 0x1_0000_0000);
                lemma_mul_strict_inequality(
                    r_out as int / 0x1_0000_0000,
                    r_in as int / 0x1_0000_0000 + 1,
                    100,
                );
                lemma_mul_is_commutative(r_out as int / 0x1_0000_0000, 100);
                lemma_mul_is_commutative(r_in as int / 0x1_0000_0000 + 1, 100);
                lemma_multiply_divide_lt(
                    100 * (r_out as int / 0x1_0000_0000),
                    r_in as int / 0x1_0000_0000 + 1,
                    100,
                );
            }
            (100 * (r_out / 0x1_0000_0000)) / (r_in / 0x1_0000_0000 + 1)
        };
        Ok(rate as u8)
    }

    /// First decision of a flash loan: lend only when the asset's
    /// pooled liquidity covers the request. `total_liquidity` is the
    /// asset's total issuance as the host's token ledger knows it.
    pub fn flash_loan_check(total_liquidity: AssetAmount, amount: AssetAmount) -> (r: Result<
        (),
        Error,
    >)
        ensures
            amount <= total_liquidity <==> r == Ok::<(), Error>(()),
            amount > total_liquidity <==> r == Err::<(), Error>(Error::InsufficientLiquidity),
    {
        if total_liquidity >= amount {
            Ok(())
        } else {
            Err(Error::InsufficientLiquidity)
        }
    }

    /// Second decision of a flash loan, taken after the borrower's
    /// callback ran: the pool's balance of the lent asset must be back
    /// at its total liquidity plus the fee on the loan.
    pub fn flash_loan_settle(
        &self,
        pool_balance: AssetAmount,
        total_liquidity: AssetAmount,
        amount: AssetAmount,
    ) -> (r: Result<(), Error>)
        ensures
            pool_balance >= total_liquidity + fee_on(self.fee_rate(), amount as int) <==> r == Ok::<
                (),
                Error,
            >(()),
            r is Err ==> r == Err::<(), Error>(Error::InsufficientRepayment),
    {
        let fee = match self.calculate_fees(amount) {
            Ok(f) => f,
            Err(e) => {
                return Err(e);
            },
        };
        proof {
            lemma_fee_on_bounds(self.fee, amount as int);
        }
        let needed = match total_liquidity.checked_add(fee) {
            Some(v) => v,
            None => {
                return Err(Error::InsufficientRepayment);
            },
        };
        if pool_balance >= needed {
            Ok(())
        } else {
            Err(Error::InsufficientRepayment)
        }
    }
}

/// Adding liquidity is order independent: handing the assets and
/// amounts the other way round is the same transition with the same
/// result, on the same pool.
pub proof fn lemma_add_liquidity_symmetric(
    pools: Map<u64, Pool>,
    asset_a: AssetId,
    asset_b: AssetId,
    amount_a: AssetAmount,
    amount_b: AssetAmount,
)
    ensures
        spec_add_liquidity(pools, asset_a, asset_b, amount_a, amount_b) == spec_add_liquidity(
            pools,
            asset_b,
            asset_a,
            amount_b,
            amount_a,
        ),
{
    lemma_asset_order_total(asset_a, asset_b);
}

/// Proportional redemption conserves the pool: a burn covered by the
/// caller's balance and the supply pays out at most each reserve, the
/// supply falls by exactly the burn, and the pool is deleted exactly
/// when the supply reaches zero.
pub proof fn lemma_remove_liquidity_conserves(
    pools: Map<u64, Pool>,
    asset_a: AssetId,
    asset_b: AssetId,
    token_amount: AssetAmount,
    caller_lp_balance: AssetAmount,
    id: u64,
)
    requires
        forall|k: u64| pools.contains_key(k) ==> (#[trigger] pools[k]).wf(),
        spec_lp_id(asset_a, asset_b) == Ok::<u64, Error>(id),
        pools.contains_key(id),
        token_amount <= caller_lp_balance,
        token_amount <= pools[id].lp_supply,
        pools[id].pool_pair.amount_1 * token_amount <= u128::MAX,
        pools[id].pool_pair.amount_2 * token_amount <= u128::MAX,
    ensures
        ({
            let p = pools[id];
            let amount_1 = p.pool_pair.amount_1 * token_amount / p.lp_supply as int;
            let amount_2 = p.pool_pair.amount_2 * token_amount / p.lp_supply as int;
            let (r, new_pools) = spec_remove_liquidity(
                pools,
                asset_a,
                asset_b,
                token_amount,
                caller_lp_balance,
            );
            &&& r == Ok::<(AssetAmount, AssetAmount), Error>(
                ((amount_1 as u128, amount_2 as u128)),
            )
            &&& 0 <= amount_1 <= p.pool_pair.amount_1
            &&& 0 <= amount_2 <= p.pool_pair.amount_2
            &&& token_amount < p.lp_supply ==> new_pools == pools.insert(
                id,
                (Pool {
                    pool_pair: PoolPair {
                        asset_1: p.pool_pair.asset_1,
                        amount_1: (p.pool_pair.amount_1 - amount_1) as u128,
                        asset_2: p.pool_pair.asset_2,
                        amount_2: (p.pool_pair.amount_2 - amount_2) as u128,
                    },
                    lp_supply: (p.lp_supply - token_amount) as u128,
                }),
            )
            &&& token_amount == p.lp_supply ==> new_pools == pools.remove(id)
        }),
{
    let p = pools[id];
    assert(p.wf());
    let s = p.lp_supply as int;
    let a1 = p.pool_pair.amount_1 as int;
    let a2 = p.pool_pair.amount_2 as int;
    let t = token_amount as int;
    lemma_mul_nonnegative(a1, t);
    lemma_mul_nonnegative(a2, t);
    lemma_div_pos_is_pos(a1 * t, s);
    lemma_div_pos_is_pos(a2 * t, s);
    lemma_mul_inequality(t, s, a1);
    lemma_mul_inequality(t, s, a2);
    lemma_mul_is_commutative(t, a1);
    lemma_mul_is_commutative(t, a2);
    lemma_mul_is_commutative(s, a1);
    lemma_mul_is_commutative(s, a2);
    lemma_div_is_ordered(a1 * t, a1 * s, s);
    lemma_div_is_ordered(a2 * t, a2 * s, s);
    lemma_div_by_multiple(a1, s);
    lemma_div_by_multiple(a2, s);
    lemma_mul_is_commutative(a1, s);
    lemma_mul_is_commutative(a2, s);
    if t < s {
        lemma_mul_strict_inequality(t, s, a1);
        lemma_mul_strict_inequality(t, s, a2);
        lemma_multiply_divide_lt(a1 * t, s, a1);
        lemma_multiply_divide_lt(a2 * t, s, a2);
    }
}

} // verus!
