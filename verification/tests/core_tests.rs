//! Direct checks of the pool core: canonicalization, identity
//! derivation, fee arithmetic, pricing edges and error kinds.

use dex::dex::Dex;
use dex::dex::FeeDefault;
use dex::error::Error;
use dex::pool::Pool;
use dex::pool::PoolPair;

#[test]
fn canonicalization_sorts_and_rejects() {
    // Either argument order lands in one canonical pair.
    let p = PoolPair::new(1, 10, 2, 20).unwrap();
    let q = PoolPair::new(2, 20, 1, 10).unwrap();
    assert_eq!(p, q);
    assert_eq!(p.asset_1, 1);
    assert_eq!(p.amount_1, 10);
    assert_eq!(p.asset_2, 2);
    assert_eq!(p.amount_2, 20);

    // One asset twice is refused.
    assert_eq!(PoolPair::new(5, 1, 5, 2), Err(Error::SameAsset));
}

#[test]
fn canonical_order_follows_encoding() {
    // The order is lexicographic on the byte encoding, least
    // significant byte first: 256 encodes as 00 01 .. and sorts before
    // 1, which encodes as 01 00 ..
    let p = PoolPair::new(1, 10, 256, 20).unwrap();
    assert_eq!(p.asset_1, 256);
    assert_eq!(p.amount_1, 20);
    assert_eq!(p.asset_2, 1);
    assert_eq!(p.amount_2, 10);
}

#[test]
fn canonicalization_idempotent() {
    // Canonicalizing an already canonical pair changes nothing.
    let p = PoolPair::new(7, 70, 9, 90).unwrap();
    let again = PoolPair::new(p.asset_1, p.amount_1, p.asset_2, p.amount_2).unwrap();
    assert_eq!(again, p);
}

#[test]
fn pool_ids_are_order_independent_and_hashed() {
    assert_eq!(Dex::get_lp_id(1, 2).unwrap(), Dex::get_lp_id(2, 1).unwrap());
    assert_eq!(Dex::lp_id(1, 2), Dex::lp_id(2, 1));
    assert_eq!(Dex::get_lp_id(3, 3), Err(Error::SameAsset));

    // The id is a digest of the pair's encoding, not one of the
    // inputs handed back.
    let id = Dex::lp_id(1, 2);
    assert_ne!(id, 1);
    assert_ne!(id, 2);
    assert_ne!(id, Dex::lp_id(1, 3));
}

#[test]
fn fee_rounds_up_and_clamps() {
    let dex = Dex::new();
    assert_eq!(dex.get_fee(), FeeDefault::get());
    assert_eq!(dex.swap_fee(), 300);
    assert_eq!(dex.calculate_fees(100), Ok(3));
    assert_eq!(dex.calculate_fees(150), Ok(5));
    assert_eq!(dex.calculate_fees(1), Ok(1));
    assert_eq!(dex.calculate_fees(0), Ok(0));

    let mut dex = Dex::new();
    assert_eq!(dex.set_fee(50, false), Err(Error::NotAllowedToSetFee));
    assert_eq!(dex.get_fee(), 3);
    assert_eq!(dex.set_fee(7, true), Ok(()));
    assert_eq!(dex.get_fee(), 7);
    assert_eq!(dex.swap_fee(), 700);
    assert_eq!(dex.calculate_fees(100), Ok(7));

    // A rate above one hundred percent is clamped: the fee never
    // exceeds the amount.
    assert_eq!(dex.set_fee(60000, true), Ok(()));
    assert_eq!(dex.calculate_fees(50), Ok(50));
}

#[test]
fn initial_lp_issuance_is_geometric_mean() {
    let mut dex = Dex::new();
    assert_eq!(dex.add_liquidity(1, 2, 500, 500), Ok(500));

    let mut dex = Dex::new();
    assert_eq!(dex.add_liquidity(1, 2, 2, 8), Ok(4));

    let mut dex = Dex::new();
    assert_eq!(dex.add_liquidity(1, 2, 3, 5), Ok(3));
}

#[test]
fn empty_deposit_creates_no_pool() {
    let mut dex = Dex::new();
    assert_eq!(dex.add_liquidity(1, 2, 0, 5), Err(Error::InsufficientLiquidity));
    // Nothing was created.
    assert_eq!(dex.swap_exact_in_for_out(1, 2, 10, 0), Err(Error::NoneValue));
}

#[test]
fn deposit_overflow_fails_whole_operation() {
    let mut dex = Dex::new();
    assert_eq!(dex.add_liquidity(1, 2, u128::MAX, 2), Err(Error::ArithmeticOverflow));
    assert_eq!(dex.swap_exact_in_for_out(1, 2, 10, 0), Err(Error::NoneValue));
}

#[test]
fn removal_checks_balance_then_pool() {
    let mut dex = Dex::new();
    // The caller's LP balance is checked before the pool lookup.
    assert_eq!(dex.remove_liquidity(1, 2, 10, 5), Err(Error::InsufficientLPBalance));
    assert_eq!(dex.remove_liquidity(1, 2, 10, 10), Err(Error::NoPool));
    assert_eq!(dex.remove_liquidity(2, 2, 10, 10), Err(Error::SameAsset));
}

#[test]
fn proportional_redemption_and_deletion() {
    let mut dex = Dex::new();
    assert_eq!(dex.add_liquidity(1, 2, 500, 500), Ok(500));

    // A partial burn redeems the proportional share of each reserve.
    assert_eq!(dex.remove_liquidity(1, 2, 200, 500), Ok((200, 200)));
    // The pool remains.
    assert!(dex.price_oracle(1, 2).is_ok());

    // Burning the rest drains the reserves and deletes the pool.
    assert_eq!(dex.remove_liquidity(1, 2, 300, 300), Ok((300, 300)));
    assert_eq!(dex.price_oracle(1, 2), Err(Error::NoPool));
}

#[test]
fn swap_errors_and_slippage() {
    let mut dex = Dex::new();
    assert_eq!(dex.swap_exact_in_for_out(1, 2, 10, 0), Err(Error::NoneValue));
    assert_eq!(dex.swap_in_for_exact_out(1, 2, 10, 1), Err(Error::NoPool));
    assert_eq!(dex.swap_exact_in_for_out(4, 4, 10, 0), Err(Error::SameAsset));

    assert_eq!(dex.add_liquidity(1, 2, 500, 500), Ok(500));

    // Exact input of 150: fee 5 stays in the pool, 145 trades, the
    // other reserve falls from 500 to ceil(250000 / 645) = 388.
    assert_eq!(dex.swap_exact_in_for_out(1, 2, 150, 113), Err(Error::SlippageTooHigh));
    assert_eq!(dex.swap_exact_in_for_out(1, 2, 150, 112), Ok(112));

    // Asking for a whole reserve or more fails the arithmetic.
    let mut dex = Dex::new();
    assert_eq!(dex.add_liquidity(1, 2, 500, 500), Ok(500));
    assert_eq!(dex.swap_in_for_exact_out(1, 2, u128::MAX, 500), Err(Error::ArithmeticUnderflow));
    assert_eq!(dex.swap_in_for_exact_out(1, 2, u128::MAX, 501), Err(Error::ArithmeticOverflow));
}

#[test]
fn price_oracle_reports_percent() {
    let mut dex = Dex::new();
    assert_eq!(dex.add_liquidity(1, 2, 250, 1000), Ok(500));

    // Output reserve at least the input reserve saturates at 100.
    assert_eq!(dex.price_oracle(1, 2), Ok(100));
    // The other direction: floor(100 * 250 / 1000) = 25.
    assert_eq!(dex.price_oracle(2, 1), Ok(25));

    assert_eq!(dex.price_oracle(3, 3), Err(Error::SameAsset));
    assert_eq!(dex.price_oracle(3, 4), Err(Error::NoPool));
}

#[test]
fn flash_loan_decisions() {
    assert_eq!(Dex::flash_loan_check(1000, 1000), Ok(()));
    assert_eq!(Dex::flash_loan_check(1000, 1001), Err(Error::InsufficientLiquidity));

    let dex = Dex::new();
    // Principal 1000 plus the 3% fee on the 100 borrowed: 1003.
    assert_eq!(dex.flash_loan_settle(1003, 1000, 100), Ok(()));
    assert_eq!(dex.flash_loan_settle(1002, 1000, 100), Err(Error::InsufficientRepayment));
}

#[test]
fn pool_construction() {
    let pair = PoolPair::new(1, 40, 2, 90).unwrap();
    let pool = Pool::new(pair, 60);
    assert_eq!(pool.pool_pair, pair);
    assert_eq!(pool.lp_supply, 60);
}
