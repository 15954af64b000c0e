//! The failure kinds that the pool operations surface.

use vstd::prelude::*;

verus! {

/// Every operation either completes or fails with one of these kinds;
/// a failing operation leaves the ledger untouched.
#[derive(Clone, Copy, PartialEq, Eq, Structural, Debug)]
pub enum Error {
    /// A lookup found nothing where a value was required.
    NoneValue,
    /// The resulting price violates the caller's slippage bound.
    SlippageTooHigh,
    /// A pool cannot pair an asset with itself.
    SameAsset,
    /// The addressed pool does not exist.
    NoPool,
    /// The caller holds fewer LP tokens than the redemption asks for.
    InsufficientLPBalance,
    /// The caller is not authorized to change the fee.
    NotAllowedToSetFee,
    /// Not enough pooled liquidity to create a pool or lend from one.
    InsufficientLiquidity,
    /// A flash-loan repayment does not cover principal plus fee.
    InsufficientRepayment,
    /// A borrower's callback failed.
    CallFailed,
    /// A checked addition or multiplication would wrap.
    ArithmeticOverflow,
    /// A checked subtraction would wrap, or a divisor was zero.
    ArithmeticUnderflow,
}

} // verus!
