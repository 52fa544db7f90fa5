//! Share prices and storage-fund redeem prices.

use crate::perbill::{
    from_rational, lemma_rational_parts_bounded, mul_floor, multiply_by_rational_floor,
    rational_parts, saturating_reciprocal_mul_floor, scaled_down, scaled_up, ACCURACY,
};
use vstd::prelude::*;

verus! {

/// Parts per billion of the price of a pool holding `shares` shares against
/// `stake` stake: the ratio of shares to stake, or one whole (the identity
/// price) when either side is zero.
pub open spec fn share_price_parts(shares: nat, stake: nat) -> nat {
    if shares == 0 || stake == 0 {
        ACCURACY as nat
    } else {
        rational_parts(shares, stake)
    }
}

/// Shares bought by `stake` at a price of `parts` billionths.
pub open spec fn stake_to_shares_at(parts: nat, stake: nat) -> nat {
    if parts == ACCURACY {
        stake
    } else {
        scaled_down(parts, stake)
    }
}

/// Stake that `shares` are worth at a price of `parts` billionths.
pub open spec fn shares_to_stake_at(parts: nat, shares: nat) -> nat {
    if parts == ACCURACY {
        shares
    } else {
        scaled_up(parts, shares)
    }
}

/// Balance redeemed for `deposit` from a fund that holds `total_balance`
/// against deposits of `total_deposit`: the deposit itself where the fund
/// holds what was deposited, and else the fund's balance in the proportion
/// of `deposit` to `total_deposit`, rounded down. A deposit of more than all
/// deposits, and any deposit where there are none, redeems the whole fund.
pub open spec fn redeemed(total_balance: nat, total_deposit: nat, deposit: nat) -> nat {
    if total_balance == total_deposit {
        deposit
    } else if total_deposit == 0 || deposit > total_deposit {
        total_balance
    } else {
        deposit * total_balance / total_deposit
    }
}

/// Shares per unit of stake at the moment an epoch closed, in parts per
/// billion.
#[derive(Clone, Copy, Debug, PartialEq, Eq, Structural)]
pub struct SharePrice {
    parts: u32,
}

impl Default for SharePrice {
    /// The price of zero.
    fn default() -> (price: SharePrice)
        ensures
            price.parts() == 0,
    {
        SharePrice { parts: 0 }
    }
}

impl SharePrice {
    #[verifier::type_invariant]
    spec fn within_one(self) -> bool {
        self.parts <= ACCURACY
    }

    /// The price in parts per billion.
    pub closed spec fn parts(self) -> nat {
        self.parts as nat
    }

    /// Creates a new instance of share price from shares and stake.
    pub fn new(shares: u128, stake: u128) -> (price: SharePrice)
        ensures
            price.parts() == share_price_parts(shares as nat, stake as nat),
    {
        if shares == 0 || stake == 0 {
            SharePrice { parts: ACCURACY }
        } else {
            proof {
                lemma_rational_parts_bounded(shares as nat, stake as nat);
            }
            SharePrice { parts: from_rational(shares, stake) }
        }
    }

    /// The price of `parts` billionths, if that is at most one whole.
    pub fn from_parts(parts: u32) -> (price: Option<SharePrice>)
        ensures
            price is Some <==> parts <= ACCURACY,
            price matches Some(p) ==> p.parts() == parts,
    {
        if parts <= ACCURACY {
            Some(SharePrice { parts })
        } else {
            None
        }
    }

    /// The price in parts per billion.
    pub fn deconstruct(&self) -> (parts: u32)
        ensures
            parts == self.parts(),
            parts <= ACCURACY,
    {
        proof {
            use_type_invariant(self);
        }
        self.parts
    }

    /// Whether the price is the identity: one share per unit of stake.
    pub fn is_one(&self) -> (b: bool)
        ensures
            b == (self.parts() == ACCURACY),
    {
        self.parts == ACCURACY
    }

    /// Whether the price is zero, so that no amount of stake buys a share.
    pub fn is_zero(&self) -> (b: bool)
        ensures
            b == (self.parts() == 0),
    {
        self.parts == 0
    }

    /// Converts stake to shares based on the share price.
    pub fn stake_to_shares(&self, stake: u128) -> (shares: u128)
        ensures
            shares == stake_to_shares_at(self.parts(), stake as nat),
    {
        proof {
            use_type_invariant(self);
        }
        if self.is_one() {
            stake
        } else {
            mul_floor(self.parts, stake)
        }
    }

    /// Converts shares to stake based on the share price.
    ///
    /// A zero price has no reciprocal and is left out.
    pub fn shares_to_stake(&self, shares: u128) -> (stake: u128)
        requires
            self.parts() > 0,
        ensures
            stake == shares_to_stake_at(self.parts(), shares as nat),
    {
        proof {
            use_type_invariant(self);
        }
        if self.is_one() {
            shares
        } else {
            saturating_reciprocal_mul_floor(self.parts, shares)
        }
    }
}

/// The ratio of a storage fund's balance to the deposits made into it.
#[derive(Clone, Copy, Debug, PartialEq, Eq)]
pub struct StorageFundRedeemPrice((u128, u128));

impl Default for StorageFundRedeemPrice {
    /// The price of an empty fund without deposits.
    fn default() -> (price: StorageFundRedeemPrice)
        ensures
            price.total_balance() == 0,
            price.total_deposit() == 0,
    {
        StorageFundRedeemPrice((0, 0))
    }
}

impl StorageFundRedeemPrice {
    /// The balance the fund holds.
    pub closed spec fn total_balance(self) -> nat {
        self.0.0 as nat
    }

    /// The deposits the fund was built from.
    pub closed spec fn total_deposit(self) -> nat {
        self.0.1 as nat
    }

    pub fn new(total_balance: u128, total_deposit: u128) -> (price: StorageFundRedeemPrice)
        ensures
            price.total_balance() == total_balance,
            price.total_deposit() == total_deposit,
    {
        StorageFundRedeemPrice((total_balance, total_deposit))
    }

    /// Return the amount of balance can be redeemed by the given `deposit`, it is calculated
    /// by `storage_fund_total_balance * deposit / total_deposit`.
    ///
    /// If the inflow of the storage fund (i.e. refund of the storage fee) is larger than its
    /// outflow (i.e. payment of the storage fee), the return value will larger than `deposit`
    /// otherwise smaller.
    ///
    /// The quotient is taken over the whole product and rounded down. A deposit of more than
    /// all deposits, and any deposit where there are none, redeems the whole fund.
    pub fn redeem(&self, deposit: u128) -> (balance: u128)
        ensures
            balance == redeemed(self.total_balance(), self.total_deposit(), deposit as nat),
    {
        let (total_balance, total_deposit) = self.0;
        if total_balance == total_deposit {
            deposit
        } else if total_deposit == 0 || deposit > total_deposit {
            // The ratio saturates at one whole, which is worth the whole fund.
            proof {
                assert(ACCURACY as nat * total_balance as nat / (ACCURACY as nat)
                    == total_balance as nat) by (nonlinear_arith);
            }
            mul_floor(from_rational(deposit, total_deposit), total_balance)
        } else {
            proof {
                lemma_share_of_whole_bounded(
                    deposit as nat,
                    total_balance as nat,
                    total_deposit as nat,
                );
            }
            match multiply_by_rational_floor(deposit, total_balance, total_deposit) {
                Some(balance) => balance,
                None => unreached(),
            }
        }
    }
}

/// A part of the whole gets no more than the whole: for `part <= whole`,
/// `part * x / whole` is at most `x`.
pub proof fn lemma_share_of_whole_bounded(part: nat, x: nat, whole: nat)
    requires
        0 < whole,
        part <= whole,
    ensures
        part * x / whole <= x,
{
    assert(part * x <= whole * x) by (nonlinear_arith)
        requires
            part <= whole,
    ;
    assert(part * x / whole <= x) by (nonlinear_arith)
        requires
            part * x <= whole * x,
            whole > 0,
    ;
}

/// Stake converted to shares and back never exceeds the stake it started
/// from: both conversions round down. This holds of the price of any pool
/// with `stake > 0` whose price is not zero, and of any `amount`, the pool's
/// own stake among them.
pub proof fn law_round_trip_never_overstates(shares: nat, stake: nat, amount: nat)
    requires
        stake > 0,
        share_price_parts(shares, stake) > 0,
    ensures
        shares_to_stake_at(
            share_price_parts(shares, stake),
            stake_to_shares_at(share_price_parts(shares, stake), amount),
        ) <= amount,
{
    let parts = share_price_parts(shares, stake);
    let a = ACCURACY as nat;
    if parts != a {
        let bought = scaled_down(parts, amount);
        assert(bought * a <= parts * amount) by (nonlinear_arith)
            requires
                bought == parts * amount / a,
                a > 0,
        ;
        assert(bought * a / parts <= amount) by (nonlinear_arith)
            requires
                bought * a <= parts * amount,
                parts > 0,
        ;
    }
}

/// The price of a pool without shares or without stake is the identity:
/// every amount converts to itself in both directions.
pub proof fn law_empty_pool_price_is_identity(shares: nat, stake: nat, x: nat)
    requires
        shares == 0 || stake == 0,
    ensures
        share_price_parts(shares, stake) == ACCURACY,
        stake_to_shares_at(share_price_parts(shares, stake), x) == x,
        shares_to_stake_at(share_price_parts(shares, stake), x) == x,
{
}

/// Redeeming the whole of a fund's deposits recovers exactly the fund's
/// balance.
pub proof fn law_full_redemption_recovers_balance(total_balance: nat, total_deposit: nat)
    requires
        total_deposit > 0,
    ensures
        redeemed(total_balance, total_deposit, total_deposit) == total_balance,
{
    assert(total_deposit * total_balance / total_deposit == total_balance) by (nonlinear_arith)
        requires
            total_deposit > 0,
    ;
}

/// A larger deposit never redeems less.
pub proof fn law_redeem_monotonic(total_balance: nat, total_deposit: nat, d1: nat, d2: nat)
    requires
        d1 < d2,
    ensures
        redeemed(total_balance, total_deposit, d1) <= redeemed(total_balance, total_deposit, d2),
{
    if total_balance != total_deposit && total_deposit > 0 && d1 <= total_deposit {
        if d2 <= total_deposit {
            assert(d1 * total_balance <= d2 * total_balance) by (nonlinear_arith)
                requires
                    d1 <= d2,
            ;
            assert(d1 * total_balance / total_deposit <= d2 * total_balance / total_deposit)
                by (nonlinear_arith)
                requires
                    d1 * total_balance <= d2 * total_balance,
                    total_deposit > 0,
            ;
        } else {
            lemma_share_of_whole_bounded(d1, total_balance, total_deposit);
        }
    }
}

} // verus!
