//! Exchange scenarios driven through an in-memory token ledger, the
//! external collaborator the pool core instructs.

use dex::dex::Dex;
use dex::error::Error;
use dex::pool::PoolPair;
use std::collections::HashMap;

/// The account that holds all pooled reserves.
const DEX_ACCOUNT: u64 = 0;

/// A host around the pool core: token balances plus the exchange.
struct TestExchange {
    dex: Dex,
    balances: HashMap<(u64, u64), u128>,
}

impl TestExchange {
    fn new() -> Self {
        TestExchange { dex: Dex::new(), balances: HashMap::new() }
    }

    fn balance(&self, asset: u64, who: u64) -> u128 {
        *self.balances.get(&(asset, who)).unwrap_or(&0)
    }

    fn mint(&mut self, asset: u64, who: u64, amount: u128) {
        let entry = self.balances.entry((asset, who)).or_insert(0);
        *entry = entry.checked_add(amount).expect("mint overflow");
    }

    fn burn(&mut self, asset: u64, who: u64, amount: u128) {
        let entry = self.balances.entry((asset, who)).or_insert(0);
        *entry = entry.checked_sub(amount).expect("burn exceeds balance");
    }

    fn transfer(&mut self, asset: u64, from: u64, to: u64, amount: u128) {
        self.burn(asset, from, amount);
        self.mint(asset, to, amount);
    }

    fn setup_account(&mut self, who: u64, assets: Vec<(u64, u128)>) {
        for (asset, amount) in assets {
            self.mint(asset, who, amount);
        }
    }

    fn canonical(&self, asset_a: u64, asset_b: u64) -> PoolPair {
        PoolPair::new(asset_a, 0, asset_b, 0).ok().unwrap()
    }

    fn add_liquidity(
        &mut self,
        who: u64,
        asset_a: u64,
        asset_b: u64,
        amount_a: u128,
        amount_b: u128,
    ) -> Result<u128, Error> {
        let lp_id = Dex::get_lp_id(asset_a, asset_b)?;
        let minted = self.dex.add_liquidity(asset_a, asset_b, amount_a, amount_b)?;
        self.mint(lp_id, who, minted);
        self.transfer(asset_a, who, DEX_ACCOUNT, amount_a);
        self.transfer(asset_b, who, DEX_ACCOUNT, amount_b);
        Ok(minted)
    }

    fn remove_liquidity(
        &mut self,
        who: u64,
        asset_a: u64,
        asset_b: u64,
        token_amount: u128,
    ) -> Result<(u128, u128), Error> {
        let lp_id = Dex::get_lp_id(asset_a, asset_b)?;
        let held = self.balance(lp_id, who);
        let (amount_1, amount_2) = self.dex.remove_liquidity(asset_a, asset_b, token_amount, held)?;
        self.burn(lp_id, who, token_amount);
        let pair = self.canonical(asset_a, asset_b);
        self.transfer(pair.asset_1, DEX_ACCOUNT, who, amount_1);
        self.transfer(pair.asset_2, DEX_ACCOUNT, who, amount_2);
        Ok((amount_1, amount_2))
    }

    fn swap_exact_in_for_out(
        &mut self,
        who: u64,
        asset_in: u64,
        asset_out: u64,
        exact_in: u128,
        min_out: u128,
    ) -> Result<u128, Error> {
        let amount_out = self.dex.swap_exact_in_for_out(asset_in, asset_out, exact_in, min_out)?;
        self.transfer(asset_in, who, DEX_ACCOUNT, exact_in);
        self.transfer(asset_out, DEX_ACCOUNT, who, amount_out);
        Ok(amount_out)
    }

    fn swap_in_for_exact_out(
        &mut self,
        who: u64,
        asset_in: u64,
        asset_out: u64,
        max_in: u128,
        exact_out: u128,
    ) -> Result<u128, Error> {
        let amount_in = self.dex.swap_in_for_exact_out(asset_in, asset_out, max_in, exact_out)?;
        self.transfer(asset_in, who, DEX_ACCOUNT, amount_in);
        self.transfer(asset_out, DEX_ACCOUNT, who, exact_out);
        Ok(amount_in)
    }
}

#[test]
fn simple_add_remove_liquidity() {
    let mut t = TestExchange::new();

    t.setup_account(1, vec![(1, 1000), (2, 1000)]);
    assert_eq!(t.balance(1, 1), 1000);
    assert_eq!(t.balance(2, 1), 1000);

    // Deposit 500 of each asset; sqrt(500 * 500) = 500 LP issued.
    let minted = t.add_liquidity(1, 1, 2, 500, 500).unwrap();
    assert_eq!(minted, 500);
    assert_eq!(t.balance(1, 1), 500);
    assert_eq!(t.balance(2, 1), 500);
    assert_eq!(t.balance(Dex::get_lp_id(1, 2).unwrap(), 1), 500);

    t.remove_liquidity(1, 1, 2, 500).unwrap();
}

#[test]
fn simple_swap_withdraw() {
    let mut t = TestExchange::new();

    t.setup_account(1, vec![(1, 1000), (2, 1000)]);
    t.add_liquidity(1, 1, 2, 500, 500).unwrap();

    assert_eq!(t.balance(2, 1), 500);
    assert_eq!(t.balance(Dex::get_lp_id(1, 2).unwrap(), 1), 500);

    // A second account swaps for exactly 100 of asset 2.
    t.setup_account(2, vec![(1, 1000)]);
    t.swap_in_for_exact_out(2, 1, 2, 150, 100).unwrap();

    assert_eq!(t.balance(2, 2), 100);
    // The pool holds 629 of asset 1 (125 required input plus 4 fee)
    // and 400 of asset 2.
    assert_eq!(t.balance(1, DEX_ACCOUNT), 629);
    assert_eq!(t.balance(2, DEX_ACCOUNT), 400);

    // A maximum input below the true requirement must fail and move
    // nothing.
    let before_1 = t.balance(1, DEX_ACCOUNT);
    let before_2 = t.balance(2, DEX_ACCOUNT);
    let before_acct = t.balance(1, 2);
    assert_eq!(t.swap_in_for_exact_out(2, 1, 2, 20, 100), Err(Error::SlippageTooHigh));
    assert_eq!(t.balance(1, DEX_ACCOUNT), before_1);
    assert_eq!(t.balance(2, DEX_ACCOUNT), before_2);
    assert_eq!(t.balance(1, 2), before_acct);

    // Withdrawing everything returns more than was deposited: the
    // swap's fee stayed in the pool.
    t.remove_liquidity(1, 1, 2, 500).unwrap();
    let account1_net_worth = t.balance(1, 1) + t.balance(2, 1);
    assert!(account1_net_worth > 1000);
}

#[test]
fn rewards_check() {
    // Two accounts fund the pool equally, but the first stays in
    // longer and earns more of the swap fees.
    let mut t = TestExchange::new();

    t.setup_account(1, vec![(1, 1000), (2, 1000)]);
    t.setup_account(2, vec![(1, 1000), (2, 1000)]);
    t.setup_account(3, vec![(1, 10_000), (2, 10_000)]);

    t.add_liquidity(1, 1, 2, 500, 500).unwrap();
    t.add_liquidity(2, 1, 2, 500, 500).unwrap();

    // A third account churns to generate fees.
    t.swap_exact_in_for_out(3, 1, 2, 150, 0).unwrap();
    t.swap_exact_in_for_out(3, 2, 1, 150, 0).unwrap();
    t.swap_exact_in_for_out(3, 1, 2, 150, 0).unwrap();
    t.swap_exact_in_for_out(3, 2, 1, 150, 0).unwrap();
    t.swap_exact_in_for_out(3, 1, 2, 150, 0).unwrap();
    t.swap_exact_in_for_out(3, 2, 1, 150, 0).unwrap();
    t.swap_exact_in_for_out(3, 1, 2, 150, 0).unwrap();
    t.swap_exact_in_for_out(3, 2, 1, 150, 0).unwrap();

    let pool_total = t.balance(1, DEX_ACCOUNT) + t.balance(2, DEX_ACCOUNT);
    assert!(pool_total > 1000);

    t.remove_liquidity(2, 1, 2, 500).unwrap();

    t.swap_exact_in_for_out(3, 1, 2, 150, 0).unwrap();
    t.swap_exact_in_for_out(3, 2, 1, 150, 0).unwrap();
    t.swap_exact_in_for_out(3, 1, 2, 150, 0).unwrap();
    t.swap_exact_in_for_out(3, 2, 1, 150, 0).unwrap();
    t.swap_exact_in_for_out(3, 1, 2, 150, 0).unwrap();
    t.swap_exact_in_for_out(3, 2, 1, 150, 0).unwrap();
    t.swap_exact_in_for_out(3, 1, 2, 150, 0).unwrap();
    t.swap_exact_in_for_out(3, 2, 1, 150, 0).unwrap();

    t.remove_liquidity(1, 1, 2, 500).unwrap();

    let account1_rewards = t.balance(1, 1) + t.balance(2, 1);
    let account2_rewards = t.balance(1, 2) + t.balance(2, 2);
    assert!(account1_rewards > account2_rewards);
}

#[test]
fn add_pool_same_asset_fail() {
    let mut t = TestExchange::new();

    t.setup_account(1, vec![(1, 1000), (2, 1000)]);

    assert_eq!(t.add_liquidity(1, 1, 1, 500, 500), Err(Error::SameAsset));
    // Nothing was created or moved.
    assert_eq!(t.balance(1, 1), 1000);
    assert_eq!(t.balance(1, DEX_ACCOUNT), 0);
}

#[test]
fn parameters_order_no_diff() {
    let mut t = TestExchange::new();

    t.setup_account(1, vec![(1, 1000), (2, 1000)]);
    t.add_liquidity(1, 1, 2, 500, 500).unwrap();

    // Removal works with the assets named in the other order.
    t.remove_liquidity(1, 2, 1, 500).unwrap();

    t.add_liquidity(1, 1, 2, 500, 500).unwrap();
    t.add_liquidity(1, 2, 1, 500, 500).unwrap();

    // Both orders added to the same pool.
    let account_1_lp = t.balance(Dex::get_lp_id(1, 2).unwrap(), 1);
    assert_eq!(account_1_lp, 1000);

    // Both orders name the same LP token.
    assert_eq!(Dex::get_lp_id(1, 2).unwrap(), Dex::get_lp_id(2, 1).unwrap());
}

#[test]
fn changing_fee() {
    let mut t = TestExchange::new();

    t.setup_account(1, vec![(1, 1000)]);
    assert_eq!(t.balance(1, 1), 1000);
}

#[test]
fn constant_product_never_decreases() {
    // Across swaps of either kind, the product of the pool's reserves
    // only ever grows: fees and rounding favor the pool.
    let mut t = TestExchange::new();

    t.setup_account(1, vec![(1, 1000), (2, 1000)]);
    t.setup_account(2, vec![(1, 1000), (2, 1000)]);
    t.add_liquidity(1, 1, 2, 500, 500).unwrap();

    let mut product = t.balance(1, DEX_ACCOUNT) * t.balance(2, DEX_ACCOUNT);
    assert_eq!(product, 250_000);

    t.swap_exact_in_for_out(2, 1, 2, 150, 0).unwrap();
    let after_first = t.balance(1, DEX_ACCOUNT) * t.balance(2, DEX_ACCOUNT);
    assert!(after_first >= product);
    product = after_first;

    t.swap_in_for_exact_out(2, 2, 1, 400, 100).unwrap();
    let after_second = t.balance(1, DEX_ACCOUNT) * t.balance(2, DEX_ACCOUNT);
    assert!(after_second >= product);
    product = after_second;

    t.swap_exact_in_for_out(2, 2, 1, 75, 0).unwrap();
    let after_third = t.balance(1, DEX_ACCOUNT) * t.balance(2, DEX_ACCOUNT);
    assert!(after_third >= product);
}

#[test]
fn end_to_end_swap_and_redeem() {
    // A seeds the pool, B swaps an exact input, A redeems everything
    // and comes out ahead by the accrued fee.
    let mut t = TestExchange::new();

    t.setup_account(1, vec![(1, 500), (2, 500)]);
    t.setup_account(2, vec![(1, 150)]);

    let minted = t.add_liquidity(1, 1, 2, 500, 500).unwrap();
    assert_eq!(minted, 500);

    let amount_out = t.swap_exact_in_for_out(2, 1, 2, 150, 0).unwrap();
    // fee = ceil(150 * 3%) = 5; 145 joins the reserve; the other side
    // falls to ceil(250000 / 645) = 388.
    assert_eq!(amount_out, 112);
    // The pool's asset-1 reserve grew by the full 150: the fee stays
    // in the pool.
    assert_eq!(t.balance(1, DEX_ACCOUNT), 650);
    assert_eq!(t.balance(2, DEX_ACCOUNT), 388);

    let (amount_1, amount_2) = t.remove_liquidity(1, 1, 2, 500).unwrap();
    assert_eq!((amount_1, amount_2), (650, 388));
    // Strictly more combined value than the 1000 deposited.
    assert!(t.balance(1, 1) + t.balance(2, 1) > 1000);
    // The emptied pool is gone: swapping against it finds no pool.
    assert_eq!(t.dex.swap_in_for_exact_out(1, 2, 10, 1), Err(Error::NoPool));
}
