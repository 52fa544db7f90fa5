//! Reasons for which a settlement is abandoned.

use vstd::prelude::*;

verus! {

/// Why the settlement of one operator's pool was abandoned.
#[derive(Clone, Copy, Debug, PartialEq, Eq, Structural)]
pub enum SettlementError {
    /// A withdrawal was recorded for a nominator without a deposit.
    MissingDeposit,
    /// The pool reports another number of nominators than were assembled.
    NominatorCountMismatch,
    /// A sum of balances does not fit the balance type.
    Overflow,
    /// Shares were to be priced with a share price of zero.
    ZeroSharePrice,
    /// The treasury holds less than is owed.
    InsufficientTreasury,
}

} // verus!
