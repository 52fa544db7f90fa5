//! Conversion of pending deposits and withdrawals once the epoch that prices
//! them has closed.

use crate::error::SettlementError;
use crate::price::{shares_to_stake_at, stake_to_shares_at, SharePrice};
use crate::types::{
    Deposit, DomainEpoch, KnownDeposit, Withdrawal, WithdrawalInBalance, WithdrawalView,
};
use vstd::prelude::*;

verus! {

/// The price recorded last for `epoch` among `entries`, if any.
pub closed spec fn lookup(entries: Seq<(DomainEpoch, SharePrice)>, epoch: DomainEpoch) -> Option<
    SharePrice,
>
    decreases entries.len(),
{
    if entries.len() == 0 {
        None
    } else if entries.last().0 == epoch {
        Some(entries.last().1)
    } else {
        lookup(entries.drop_last(), epoch)
    }
}

/// The share prices of the epochs that have closed, by epoch.
#[derive(Clone, Debug)]
pub struct EpochSharePrices {
    entries: Vec<(DomainEpoch, SharePrice)>,
}

impl View for EpochSharePrices {
    type V = Map<DomainEpoch, SharePrice>;

    closed spec fn view(&self) -> Map<DomainEpoch, SharePrice> {
        Map::new(
            |epoch: DomainEpoch| lookup(self.entries@, epoch) is Some,
            |epoch: DomainEpoch| lookup(self.entries@, epoch).unwrap(),
        )
    }
}

/// The price at which `epoch` closed, if it has.
pub open spec fn price_of(prices: Map<DomainEpoch, SharePrice>, epoch: DomainEpoch) -> Option<
    SharePrice,
> {
    if prices.contains_key(epoch) {
        Some(prices[epoch])
    } else {
        None
    }
}

impl EpochSharePrices {
    /// No epoch has closed.
    pub fn new() -> (prices: EpochSharePrices)
        ensures
            prices@ == Map::<DomainEpoch, SharePrice>::empty(),
    {
        let prices = EpochSharePrices { entries: Vec::new() };
        assert(prices@ =~= Map::<DomainEpoch, SharePrice>::empty());
        prices
    }

    /// Records that `epoch` closed at `price`, in place of any earlier record
    /// for it.
    pub fn insert(&mut self, epoch: DomainEpoch, price: SharePrice)
        ensures
            final(self)@ == old(self)@.insert(epoch, price),
    {
        self.entries.push((epoch, price));
        proof {
            assert(self.entries@.drop_last() =~= old(self).entries@);
            assert(self@ =~= old(self)@.insert(epoch, price));
        }
    }

    /// The price at which `epoch` closed, if it has.
    pub fn get(&self, epoch: DomainEpoch) -> (price: Option<SharePrice>)
        ensures
            price == price_of(self@, epoch),
    {
        let mut i: usize = self.entries.len();
        proof {
            assert(self.entries@.take(i as int) =~= self.entries@);
        }
        while i > 0
            invariant
                i <= self.entries.len(),
                lookup(self.entries@, epoch) == lookup(self.entries@.take(i as int), epoch),
            decreases i,
        {
            i = i - 1;
            let entry = self.entries[i];
            proof {
                let prefix = self.entries@.take(i + 1);
                assert(prefix.last() == self.entries@[i as int]);
                assert(prefix.drop_last() =~= self.entries@.take(i as int));
            }
            if entry.0 == epoch {
                return Some(entry.1);
            }
        }
        None
    }
}

/// The deposit after its pending part, if the epoch it waits for has closed,
/// has been converted into shares at that epoch's price. A deposit without a
/// pending part, or whose epoch has not closed, is left as it is.
pub open spec fn resolved_deposit(deposit: Deposit, prices: Map<DomainEpoch, SharePrice>) -> Result<
    Deposit,
    SettlementError,
> {
    match deposit.pending {
        None => Ok(deposit),
        Some(pending) => match price_of(prices, pending.effective_domain_epoch) {
            None => Ok(deposit),
            Some(price) => {
                let shares = deposit.known.shares + stake_to_shares_at(
                    price.parts(),
                    pending.amount as nat,
                );
                let storage_fee_deposit = deposit.known.storage_fee_deposit
                    + pending.storage_fee_deposit;
                if shares > u128::MAX || storage_fee_deposit > u128::MAX {
                    Err(SettlementError::Overflow)
                } else {
                    Ok(
                        Deposit {
                            known: KnownDeposit {
                                shares: shares as u128,
                                storage_fee_deposit: storage_fee_deposit as u128,
                            },
                            pending: None,
                        },
                    )
                }
            },
        },
    }
}

/// The withdrawal after its part in shares, if the epoch it waits for has
/// closed, has been converted into balance at that epoch's price and queued
/// behind the withdrawals already priced. A withdrawal without a part in
/// shares, or whose epoch has not closed, is left as it is.
pub open spec fn resolved_withdrawal(
    withdrawal: WithdrawalView,
    prices: Map<DomainEpoch, SharePrice>,
) -> Result<WithdrawalView, SettlementError> {
    match withdrawal.withdrawal_in_shares {
        None => Ok(withdrawal),
        Some(pending) => match price_of(prices, pending.domain_epoch) {
            None => Ok(withdrawal),
            Some(price) => {
                let amount = shares_to_stake_at(price.parts(), pending.shares as nat);
                if price.parts() == 0 {
                    Err(SettlementError::ZeroSharePrice)
                } else if withdrawal.total_withdrawal_amount + amount > u128::MAX {
                    Err(SettlementError::Overflow)
                } else {
                    Ok(
                        WithdrawalView {
                            total_withdrawal_amount: (withdrawal.total_withdrawal_amount
                                + amount) as u128,
                            withdrawals: withdrawal.withdrawals.push(
                                WithdrawalInBalance {
                                    domain_id: pending.domain_epoch.domain_id(),
                                    unlock_at_confirmed_domain_block_number:
                                        pending.unlock_at_confirmed_domain_block_number,
                                    amount_to_unlock: amount as u128,
                                    storage_fee_refund: pending.storage_fee_refund,
                                },
                            ),
                            withdrawal_in_shares: None,
                        },
                    )
                }
            },
        },
    }
}

/// Converts the pending part of `deposit` if its epoch has closed. On an
/// error the deposit is left unchanged.
pub fn do_convert_previous_epoch_deposits(deposit: &mut Deposit, prices: &EpochSharePrices) -> (r:
    Result<(), SettlementError>)
    ensures
        match resolved_deposit(*old(deposit), prices@) {
            Ok(resolved) => r is Ok && *final(deposit) == resolved,
            Err(error) => r == Err::<(), SettlementError>(error) && *final(deposit) == *old(
                deposit,
            ),
        },
{
    // if it is one of the previous domain epoch, then calculate shares for the epoch and update known deposit
    let pending_deposit = match deposit.pending {
        None => return Ok(()),
        Some(pd) => pd,
    };
    let epoch_share_price = match prices.get(pending_deposit.effective_domain_epoch) {
        None => return Ok(()),
        Some(price) => price,
    };
    let new_shares = epoch_share_price.stake_to_shares(pending_deposit.amount);
    let shares = match deposit.known.shares.checked_add(new_shares) {
        None => return Err(SettlementError::Overflow),
        Some(shares) => shares,
    };
    let storage_fee_deposit = match deposit.known.storage_fee_deposit.checked_add(
        pending_deposit.storage_fee_deposit,
    ) {
        None => return Err(SettlementError::Overflow),
        Some(storage_fee_deposit) => storage_fee_deposit,
    };
    deposit.known.shares = shares;
    deposit.known.storage_fee_deposit = storage_fee_deposit;
    deposit.pending = None;
    Ok(())
}

/// Converts the part of `withdrawal` that is in shares if its epoch has
/// closed. On an error the withdrawal is left unchanged.
pub fn do_convert_previous_epoch_withdrawal(
    withdrawal: &mut Withdrawal,
    prices: &EpochSharePrices,
) -> (r: Result<(), SettlementError>)
    ensures
        match resolved_withdrawal(old(withdrawal)@, prices@) {
            Ok(resolved) => r is Ok && final(withdrawal)@ == resolved,
            Err(error) => r == Err::<(), SettlementError>(error) && final(withdrawal)@ == old(
                withdrawal,
            )@,
        },
{
    let pending_withdrawal = match withdrawal.withdrawal_in_shares {
        None => return Ok(()),
        Some(pw) => pw,
    };
    let epoch_share_price = match prices.get(pending_withdrawal.domain_epoch) {
        None => return Ok(()),
        Some(price) => price,
    };
    if epoch_share_price.is_zero() {
        return Err(SettlementError::ZeroSharePrice);
    }
    let withdrawal_amount = epoch_share_price.shares_to_stake(pending_withdrawal.shares);
    let total = match withdrawal.total_withdrawal_amount.checked_add(withdrawal_amount) {
        None => return Err(SettlementError::Overflow),
        Some(total) => total,
    };
    let (domain_id, _) = pending_withdrawal.domain_epoch.deconstruct();
    let withdraw_in_balance = WithdrawalInBalance {
        domain_id,
        unlock_at_confirmed_domain_block_number:
            pending_withdrawal.unlock_at_confirmed_domain_block_number,
        amount_to_unlock: withdrawal_amount,
        storage_fee_refund: pending_withdrawal.storage_fee_refund,
    };
    withdrawal.total_withdrawal_amount = total;
    withdrawal.withdrawals.push_back(withdraw_in_balance);
    withdrawal.withdrawal_in_shares = None;
    Ok(())
}

} // verus!
