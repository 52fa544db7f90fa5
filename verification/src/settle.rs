//! Settlement of one operator's pool: what each nominator is owed.

use crate::epoch::{
    do_convert_previous_epoch_deposits, do_convert_previous_epoch_withdrawal, resolved_deposit,
    resolved_withdrawal, EpochSharePrices,
};
use crate::error::SettlementError;
use crate::perbill::ACCURACY;
use crate::nominators::{accounts_of, entry_views, strictly_ascending, OperatorNominators};
use crate::price::{
    redeemed, share_price_parts, shares_to_stake_at, SharePrice, StorageFundRedeemPrice,
};
use crate::types::{
    AccountId, Balance, DomainEpoch, NominatorStorage, NominatorStorageView, Operator,
    OperatorId, WithdrawalInBalance, WithdrawalView,
};
use std::collections::VecDeque;
use vstd::prelude::*;

verus! {

/// The storage fees refunded by the withdrawals of a queue, in all.
pub open spec fn total_refund(withdrawals: Seq<WithdrawalInBalance>) -> nat
    decreases withdrawals.len(),
{
    if withdrawals.len() == 0 {
        0
    } else {
        total_refund(withdrawals.drop_last()) + withdrawals.last().storage_fee_refund as nat
    }
}

/// The refunds of the first `n` withdrawals are part of the refunds of all.
pub proof fn lemma_total_refund_prefix(withdrawals: Seq<WithdrawalInBalance>, n: int)
    requires
        0 <= n <= withdrawals.len(),
    ensures
        total_refund(withdrawals.take(n)) <= total_refund(withdrawals),
    decreases withdrawals.len(),
{
    if n == withdrawals.len() {
        assert(withdrawals.take(n) =~= withdrawals);
    } else {
        assert(withdrawals.drop_last().take(n) =~= withdrawals.take(n));
        lemma_total_refund_prefix(withdrawals.drop_last(), n);
    }
}

/// The storage fees refunded by the withdrawals of a queue, in all; `None`
/// when the sum does not fit a balance.
pub fn refunded_storage_fee(withdrawals: &VecDeque<WithdrawalInBalance>) -> (refunded: Option<
    Balance,
>)
    ensures
        match refunded {
            Some(total) => total == total_refund(withdrawals@),
            None => total_refund(withdrawals@) > u128::MAX,
        },
{
    let mut acc: Balance = 0;
    let mut i: usize = 0;
    while i < withdrawals.len()
        invariant
            i <= withdrawals.len(),
            acc == total_refund(withdrawals@.take(i as int)),
        decreases withdrawals.len() - i,
    {
        let storage_fee_refund: Balance = withdrawals[i].storage_fee_refund;
        proof {
            let next = withdrawals@.take(i + 1);
            assert(next.drop_last() =~= withdrawals@.take(i as int));
            assert(next.last() == withdrawals@[i as int]);
        }
        match acc.checked_add(storage_fee_refund) {
            None => {
                proof {
                    lemma_total_refund_prefix(withdrawals@, i + 1);
                }
                return None;
            },
            Some(sum) => {
                acc = sum;
            },
        }
        i = i + 1;
    }
    proof {
        assert(withdrawals@.take(withdrawals.len() as int) =~= withdrawals@);
    }
    Some(acc)
}

/// What the settlement of one nominator yields.
#[derive(Clone, Copy, Debug, PartialEq, Eq, Structural)]
pub struct NominatorSettlement {
    /// The shares the nominator holds in the pool: those of the known
    /// deposit and those of a withdrawal that is still in shares.
    pub shares: Balance,
    /// The stake those shares are worth at the pool's share price.
    pub staked: Balance,
    /// The balance of the withdrawals that have been priced.
    pub ready: Balance,
    /// The storage fees refunded by the withdrawals that have been priced.
    pub refunded: Balance,
    /// The storage fee of a deposit that is still pending, which has not
    /// joined the pool; zero if there is none.
    pub unstaked_storage_fee: Balance,
    /// The storage fee of the known deposit, which is redeemed from the
    /// storage fund.
    pub storage_fee_deposit: Balance,
}

impl NominatorSettlement {
    /// What the nominator is owed before the storage fund is redeemed.
    pub open spec fn provisional(self) -> nat {
        (self.staked + self.ready + self.refunded) as nat
    }
}

/// The withdrawal of a nominator, if there is one, after conversion.
pub open spec fn resolved_withdrawal_of(
    withdrawal: Option<WithdrawalView>,
    prices: Map<DomainEpoch, SharePrice>,
) -> Result<Option<WithdrawalView>, SettlementError> {
    match withdrawal {
        None => Ok(None),
        Some(w) => match resolved_withdrawal(w, prices) {
            Ok(resolved) => Ok(Some(resolved)),
            Err(error) => Err(error),
        },
    }
}

/// The settlement of one nominator at a pool share price of `pool_parts`
/// billionths: the deposit and the withdrawal are converted as far as their
/// epochs have closed, the shares that remain are priced, and every sum has
/// to fit a balance.
pub open spec fn nominator_settlement(
    pool_parts: nat,
    storage: NominatorStorageView,
    prices: Map<DomainEpoch, SharePrice>,
) -> Result<NominatorSettlement, SettlementError> {
    match resolved_deposit(storage.deposit, prices) {
        Err(error) => Err(error),
        Ok(deposit) => match resolved_withdrawal_of(storage.withdrawal, prices) {
            Err(error) => Err(error),
            Ok(withdrawal) => {
                let ready = match withdrawal {
                    Some(w) => w.total_withdrawal_amount,
                    None => 0,
                };
                let refunded = match withdrawal {
                    Some(w) => total_refund(w.withdrawals),
                    None => 0,
                };
                let pending_shares = match withdrawal {
                    Some(WithdrawalView { withdrawal_in_shares: Some(pending), .. }) =>
                        pending.shares,
                    _ => 0,
                };
                let unstaked_storage_fee = match deposit.pending {
                    Some(pending) => pending.storage_fee_deposit,
                    None => 0,
                };
                let shares = deposit.known.shares + pending_shares;
                let staked = shares_to_stake_at(pool_parts, shares as nat);
                if refunded > u128::MAX || shares > u128::MAX {
                    Err(SettlementError::Overflow)
                } else if pool_parts == 0 {
                    Err(SettlementError::ZeroSharePrice)
                } else if staked + ready + refunded > u128::MAX {
                    Err(SettlementError::Overflow)
                } else {
                    Ok(
                        NominatorSettlement {
                            shares: shares as u128,
                            staked: staked as u128,
                            ready,
                            refunded: refunded as u128,
                            unstaked_storage_fee,
                            storage_fee_deposit: deposit.known.storage_fee_deposit,
                        },
                    )
                }
            },
        },
    }
}

/// Settles one nominator against the pool's share price.
pub fn settle_nominator(
    share_price: &SharePrice,
    nominator_storage: NominatorStorage,
    prices: &EpochSharePrices,
) -> (r: Result<NominatorSettlement, SettlementError>)
    ensures
        r == nominator_settlement(share_price.parts(), nominator_storage@, prices@),
{
    let mut deposit = nominator_storage.deposit;
    match do_convert_previous_epoch_deposits(&mut deposit, prices) {
        Err(error) => {
            return Err(error);
        },
        Ok(()) => {},
    }
    let (amount_ready_to_withdraw, shares_withdrew_in_current_epoch, storage_fund_withdrew) =
        match nominator_storage.withdrawal {
        None => (0u128, 0u128, 0u128),
        Some(mut withdrawal) => {
            match do_convert_previous_epoch_withdrawal(&mut withdrawal, prices) {
                Err(error) => {
                    return Err(error);
                },
                Ok(()) => {},
            }
            let refunded = match refunded_storage_fee(&withdrawal.withdrawals) {
                None => {
                    return Err(SettlementError::Overflow);
                },
                Some(refunded) => refunded,
            };
            let pending_shares: Balance = match withdrawal.withdrawal_in_shares {
                Some(pending) => pending.shares,
                None => 0,
            };
            (withdrawal.total_withdrawal_amount, pending_shares, refunded)
        },
    };
    let unstaked_storage_fee: Balance = match deposit.pending {
        Some(pending_deposit) => pending_deposit.storage_fee_deposit,
        None => 0,
    };
    let nominator_shares = match deposit.known.shares.checked_add(
        shares_withdrew_in_current_epoch,
    ) {
        None => {
            return Err(SettlementError::Overflow);
        },
        Some(shares) => shares,
    };
    if share_price.is_zero() {
        return Err(SettlementError::ZeroSharePrice);
    }
    let nominator_staked_amount = share_price.shares_to_stake(nominator_shares);
    // current staked amount + amount ready to withdraw + withdrawn storage fund
    let staked_and_ready = match nominator_staked_amount.checked_add(amount_ready_to_withdraw) {
        None => {
            return Err(SettlementError::Overflow);
        },
        Some(sum) => sum,
    };
    if staked_and_ready.checked_add(storage_fund_withdrew).is_none() {
        return Err(SettlementError::Overflow);
    }
    Ok(
        NominatorSettlement {
            shares: nominator_shares,
            staked: nominator_staked_amount,
            ready: amount_ready_to_withdraw,
            refunded: storage_fund_withdrew,
            unstaked_storage_fee,
            storage_fee_deposit: deposit.known.storage_fee_deposit,
        },
    )
}

/// The settlements of `nominators`, one by one in their order, at a pool
/// share price of `pool_parts` billionths; the error of the first nominator
/// that cannot be settled, if there is one.
pub open spec fn settlements(
    pool_parts: nat,
    nominators: Seq<(AccountId, NominatorStorageView)>,
    prices: Map<DomainEpoch, SharePrice>,
) -> Result<Seq<NominatorSettlement>, SettlementError>
    decreases nominators.len(),
{
    if nominators.len() == 0 {
        Ok(Seq::empty())
    } else {
        match settlements(pool_parts, nominators.drop_last(), prices) {
            Err(error) => Err(error),
            Ok(earlier) => match nominator_settlement(pool_parts, nominators.last().1, prices) {
                Err(error) => Err(error),
                Ok(settlement) => Ok(earlier.push(settlement)),
            },
        }
    }
}

/// The shares that `settlements` count, in all.
pub open spec fn total_shares_of(settlements: Seq<NominatorSettlement>) -> nat
    decreases settlements.len(),
{
    if settlements.len() == 0 {
        0
    } else {
        total_shares_of(settlements.drop_last()) + settlements.last().shares as nat
    }
}

/// The stake that `settlements` claim, in all.
pub open spec fn total_staked_of(settlements: Seq<NominatorSettlement>) -> nat
    decreases settlements.len(),
{
    if settlements.len() == 0 {
        0
    } else {
        total_staked_of(settlements.drop_last()) + settlements.last().staked as nat
    }
}

/// The storage fees of the deposits still pending among `settlements`, in
/// all.
pub open spec fn total_unstaked_storage_fee_of(settlements: Seq<NominatorSettlement>) -> nat
    decreases settlements.len(),
{
    if settlements.len() == 0 {
        0
    } else {
        total_unstaked_storage_fee_of(settlements.drop_last())
            + settlements.last().unstaked_storage_fee as nat
    }
}

/// `a - b`, or zero where `b` exceeds `a`.
pub open spec fn less_saturating(a: nat, b: nat) -> nat {
    if a > b {
        (a - b) as nat
    } else {
        0
    }
}

/// The running totals of a pool.
#[derive(Clone, Copy, Debug, PartialEq, Eq, Structural)]
pub struct PoolTotals {
    pub total_stake: Balance,
    pub total_shares: Balance,
    pub total_storage_fee_deposit: Balance,
}

/// What is left of the pool's totals once `settlements` have been taken out:
/// each total less what the settlements take of it, and never below zero.
pub open spec fn remaining_totals(
    initial: PoolTotals,
    settlements: Seq<NominatorSettlement>,
) -> PoolTotals {
    PoolTotals {
        total_stake: less_saturating(initial.total_stake as nat, total_staked_of(settlements))
            as u128,
        total_shares: less_saturating(initial.total_shares as nat, total_shares_of(settlements))
            as u128,
        total_storage_fee_deposit: less_saturating(
            initial.total_storage_fee_deposit as nat,
            total_unstaked_storage_fee_of(settlements),
        ) as u128,
    }
}

/// What a nominator is owed: the stake of the shares, the withdrawals that
/// have been priced with their refunds, and the share of the storage fund
/// that the storage fee deposit redeems.
pub open spec fn settled_balance(
    settlement: NominatorSettlement,
    storage_fund_balance: Balance,
    total_storage_fee_deposit: Balance,
) -> nat {
    settlement.provisional() + redeemed(
        storage_fund_balance as nat,
        total_storage_fee_deposit as nat,
        settlement.storage_fee_deposit as nat,
    )
}

/// The outcome of settling one operator's pool.
#[derive(Debug)]
pub struct Settlement {
    /// The operator whose pool was settled.
    pub operator_id: OperatorId,
    /// What each nominator is owed, in ascending order of account.
    pub balances: Vec<(AccountId, Balance)>,
    /// What is left of the pool's totals.
    pub remainder: PoolTotals,
}

/// What a `Settlement` holds.
pub struct SettlementView {
    pub operator_id: OperatorId,
    pub balances: Seq<(AccountId, Balance)>,
    pub remainder: PoolTotals,
}

impl View for Settlement {
    type V = SettlementView;

    open spec fn view(&self) -> SettlementView {
        SettlementView {
            operator_id: self.operator_id,
            balances: self.balances@,
            remainder: self.remainder,
        }
    }
}

/// The settlement of the pool of `operator` among `nominators`.
///
/// The epoch rewards are folded into the stake, and the share price of the
/// pool is fixed from the totals before any nominator is settled. The
/// storage fund is redeemed against the storage fee deposits that have
/// joined the pool. Any sum that does not fit a balance abandons the
/// settlement.
pub open spec fn settled(
    operator_id: OperatorId,
    operator: Operator,
    nominators: Seq<(AccountId, NominatorStorageView)>,
    storage_fund_balance: Balance,
    prices: Map<DomainEpoch, SharePrice>,
) -> Result<SettlementView, SettlementError> {
    let total_stake = operator.current_total_stake + operator.current_epoch_rewards;
    let pool_parts = share_price_parts(operator.current_total_shares as nat, total_stake as nat);
    if total_stake > u128::MAX {
        Err(SettlementError::Overflow)
    } else {
        match settlements(pool_parts, nominators, prices) {
            Err(error) => Err(error),
            Ok(claims) => {
                let remainder = remaining_totals(
                    PoolTotals {
                        total_stake: total_stake as u128,
                        total_shares: operator.current_total_shares,
                        total_storage_fee_deposit: operator.total_storage_fee_deposit,
                    },
                    claims,
                );
                if some_balance_overflows(
                    claims,
                    storage_fund_balance,
                    remainder.total_storage_fee_deposit,
                ) {
                    Err(SettlementError::Overflow)
                } else {
                    Ok(
                        SettlementView {
                            operator_id,
                            balances: redeemed_balances(
                                accounts_of(nominators),
                                claims,
                                storage_fund_balance,
                                remainder.total_storage_fee_deposit,
                            ),
                            remainder,
                        },
                    )
                }
            },
        }
    }
}

/// Each nominator is settled by itself: the settlement of the nominator at
/// `i` does not depend on the other nominators.
pub proof fn law_settled_one_by_one(
    pool_parts: nat,
    nominators: Seq<(AccountId, NominatorStorageView)>,
    prices: Map<DomainEpoch, SharePrice>,
    i: int,
)
    requires
        settlements(pool_parts, nominators, prices) is Ok,
        0 <= i < nominators.len(),
    ensures
        settlements(pool_parts, nominators, prices).unwrap().len() == nominators.len(),
        nominator_settlement(pool_parts, nominators[i].1, prices) == Ok::<
            NominatorSettlement,
            SettlementError,
        >(settlements(pool_parts, nominators, prices).unwrap()[i]),
    decreases nominators.len(),
{
    lemma_settlements_len(pool_parts, nominators, prices);
    if i < nominators.len() - 1 {
        lemma_settlements_len(pool_parts, nominators.drop_last(), prices);
        law_settled_one_by_one(pool_parts, nominators.drop_last(), prices, i);
    } else {
        lemma_settlements_len(pool_parts, nominators.drop_last(), prices);
    }
}

/// There is one settlement for each nominator.
proof fn lemma_settlements_len(
    pool_parts: nat,
    nominators: Seq<(AccountId, NominatorStorageView)>,
    prices: Map<DomainEpoch, SharePrice>,
)
    requires
        settlements(pool_parts, nominators, prices) is Ok,
    ensures
        settlements(pool_parts, nominators, prices).unwrap().len() == nominators.len(),
    decreases nominators.len(),
{
    if nominators.len() > 0 {
        lemma_settlements_len(pool_parts, nominators.drop_last(), prices);
    }
}

/// An error among the first `n` nominators is the error of them all.
pub proof fn lemma_settlements_prefix_error(
    pool_parts: nat,
    nominators: Seq<(AccountId, NominatorStorageView)>,
    prices: Map<DomainEpoch, SharePrice>,
    n: int,
)
    requires
        0 <= n <= nominators.len(),
        settlements(pool_parts, nominators.take(n), prices) is Err,
    ensures
        settlements(pool_parts, nominators, prices) == settlements(
            pool_parts,
            nominators.take(n),
            prices,
        ),
    decreases nominators.len(),
{
    if n == nominators.len() {
        assert(nominators.take(n) =~= nominators);
    } else {
        assert(nominators.drop_last().take(n) =~= nominators.take(n));
        lemma_settlements_prefix_error(pool_parts, nominators.drop_last(), prices, n);
    }
}

/// What a first pass over the nominators yields.
#[derive(Debug)]
struct Claims {
    /// The accounts of the nominators, in their order.
    accounts: Vec<AccountId>,
    /// The settlement of each nominator.
    settlements: Vec<NominatorSettlement>,
    /// What is left of the pool's totals.
    remainder: PoolTotals,
}

/// Settles the nominators one by one at the pool's share price and takes
/// what each of them claims out of the pool's totals.
fn settle_nominators(
    share_price: &SharePrice,
    nominators: Vec<(AccountId, NominatorStorage)>,
    prices: &EpochSharePrices,
    initial: PoolTotals,
) -> (r: Result<Claims, SettlementError>)
    ensures
        r is Err ==> settlements(share_price.parts(), entry_views(nominators@), prices@) == Err::<
            Seq<NominatorSettlement>,
            SettlementError,
        >(r.unwrap_err()),
        r is Ok ==> settlements(share_price.parts(), entry_views(nominators@), prices@) == Ok::<
            Seq<NominatorSettlement>,
            SettlementError,
        >(r.unwrap().settlements@),
        r is Ok ==> r.unwrap().accounts@ == accounts_of(entry_views(nominators@)),
        r is Ok ==> r.unwrap().settlements@.len() == nominators@.len(),
        r is Ok ==> r.unwrap().remainder == remaining_totals(initial, r.unwrap().settlements@),
{
    let ghost views = entry_views(nominators@);
    let ghost pool_parts = share_price.parts();
    let mut totals = initial;
    let mut accounts: Vec<AccountId> = Vec::new();
    let mut claims: Vec<NominatorSettlement> = Vec::new();
    for entry in iter: nominators
        invariant
            iter.seq() == nominators@,
            views == entry_views(nominators@),
            pool_parts == share_price.parts(),
            settlements(pool_parts, views.take(iter.index() as int), prices@) == Ok::<
                Seq<NominatorSettlement>,
                SettlementError,
            >(claims@),
            claims@.len() == iter.index(),
            accounts@ == accounts_of(views.take(iter.index() as int)),
            totals == remaining_totals(initial, claims@),
    {
        let ghost index = iter.index() as int;
        let ghost earlier = claims@;
        let (nominator_id, nominator_storage) = entry;
        proof {
            let next = views.take(index + 1);
            assert(next.drop_last() =~= views.take(index));
            assert(next.last() == (nominator_id, nominator_storage@));
        }
        let settlement = match settle_nominator(share_price, nominator_storage, prices) {
            Err(error) => {
                proof {
                    lemma_settlements_prefix_error(pool_parts, views, prices@, index + 1);
                }
                return Err(error);
            },
            Ok(settlement) => settlement,
        };
        // deduct any unstaked pending storage fee deposits from the total storage deposits.
        totals.total_storage_fee_deposit = totals.total_storage_fee_deposit.saturating_sub(
            settlement.unstaked_storage_fee,
        );
        totals.total_stake = totals.total_stake.saturating_sub(settlement.staked);
        totals.total_shares = totals.total_shares.saturating_sub(settlement.shares);
        accounts.push(nominator_id);
        claims.push(settlement);
        proof {
            assert(claims@.drop_last() =~= earlier);
            assert(accounts@ =~= accounts_of(views.take(index + 1)));
        }
    }
    proof {
        assert(views.take(nominators@.len() as int) =~= views);
    }
    Ok(Claims { accounts, settlements: claims, remainder: totals })
}

/// What each nominator is owed once the storage fund has been redeemed
/// against deposits of `total_storage_fee_deposit`.
pub open spec fn redeemed_balances(
    accounts: Seq<AccountId>,
    claims: Seq<NominatorSettlement>,
    storage_fund_balance: Balance,
    total_storage_fee_deposit: Balance,
) -> Seq<(AccountId, Balance)> {
    Seq::new(
        claims.len(),
        |i: int|
            (
                accounts[i],
                settled_balance(claims[i], storage_fund_balance, total_storage_fee_deposit)
                    as u128,
            ),
    )
}

/// Whether what some nominator is owed does not fit a balance.
pub open spec fn some_balance_overflows(
    claims: Seq<NominatorSettlement>,
    storage_fund_balance: Balance,
    total_storage_fee_deposit: Balance,
) -> bool {
    exists|i: int|
        0 <= i < claims.len() && settled_balance(
            #[trigger] claims[i],
            storage_fund_balance,
            total_storage_fee_deposit,
        ) > u128::MAX
}

/// Redeems the storage fee deposit of each nominator from the storage fund
/// and adds it to what the nominator is owed.
fn redeem_storage_fund(
    accounts: &Vec<AccountId>,
    claims: &Vec<NominatorSettlement>,
    storage_fund_balance: Balance,
    total_storage_fee_deposit: Balance,
) -> (r: Result<Vec<(AccountId, Balance)>, SettlementError>)
    requires
        accounts@.len() == claims@.len(),
    ensures
        r is Err <==> some_balance_overflows(
            claims@,
            storage_fund_balance,
            total_storage_fee_deposit,
        ),
        r is Err ==> r.unwrap_err() == SettlementError::Overflow,
        r is Ok ==> r.unwrap()@ == redeemed_balances(
            accounts@,
            claims@,
            storage_fund_balance,
            total_storage_fee_deposit,
        ),
{
    let storage_fund_share_price = StorageFundRedeemPrice::new(
        storage_fund_balance,
        total_storage_fee_deposit,
    );
    let mut balances: Vec<(AccountId, Balance)> = Vec::new();
    let mut k: usize = 0;
    while k < claims.len()
        invariant
            k <= claims@.len(),
            accounts@.len() == claims@.len(),
            balances@.len() == k,
            storage_fund_share_price.total_balance() == storage_fund_balance,
            storage_fund_share_price.total_deposit() == total_storage_fee_deposit,
            forall|j: int|
                0 <= j < k ==> settled_balance(
                    #[trigger] claims@[j],
                    storage_fund_balance,
                    total_storage_fee_deposit,
                ) <= u128::MAX,
            forall|j: int|
                0 <= j < k ==> #[trigger] balances@[j] == (
                    accounts@[j],
                    settled_balance(claims@[j], storage_fund_balance, total_storage_fee_deposit)
                        as u128,
                ),
        decreases claims@.len() - k,
    {
        let claim = claims[k];
        let storage_fund_slashed = storage_fund_share_price.redeem(claim.storage_fee_deposit);
        // current staked amount + amount ready to withdraw + withdrawn storage fund
        let balance = match claim.staked.checked_add(claim.ready) {
            None => None,
            Some(sum) => match sum.checked_add(claim.refunded) {
                None => None,
                Some(total_slashed) => total_slashed.checked_add(storage_fund_slashed),
            },
        };
        match balance {
            None => {
                proof {
                    assert(settled_balance(
                        claims@[k as int],
                        storage_fund_balance,
                        total_storage_fee_deposit,
                    ) > u128::MAX);
                }
                return Err(SettlementError::Overflow);
            },
            Some(balance) => {
                balances.push((accounts[k], balance));
            },
        }
        k = k + 1;
    }
    proof {
        assert(balances@ =~= redeemed_balances(
            accounts@,
            claims@,
            storage_fund_balance,
            total_storage_fee_deposit,
        ));
    }
    Ok(balances)
}

/// Settles the pool of a slashed operator: what each nominator is owed, and
/// what is left of the pool's totals.
pub fn calculate_nominators_slashed_amount(
    operator: Operator,
    operator_nominators: OperatorNominators,
    operator_storage_fund_balance: Balance,
    prices: &EpochSharePrices,
) -> (r: Result<Settlement, SettlementError>)
    ensures
        r is Ok ==> settled(
            operator_nominators@.operator_id,
            operator,
            operator_nominators@.nominator_storage,
            operator_storage_fund_balance,
            prices@,
        ) == Ok::<SettlementView, SettlementError>(r.unwrap()@),
        r is Err ==> settled(
            operator_nominators@.operator_id,
            operator,
            operator_nominators@.nominator_storage,
            operator_storage_fund_balance,
            prices@,
        ) == Err::<SettlementView, SettlementError>(r.unwrap_err()),
        r is Ok ==> accounts_of(r.unwrap().balances@) == accounts_of(operator_nominators@.nominator_storage),
        r is Ok ==> strictly_ascending(accounts_of(r.unwrap().balances@)),
{
    let total_stake = match operator.current_total_stake.checked_add(
        operator.current_epoch_rewards,
    ) {
        None => {
            return Err(SettlementError::Overflow);
        },
        Some(total_stake) => total_stake,
    };
    let share_price = SharePrice::new(operator.current_total_shares, total_stake);
    let initial = PoolTotals {
        total_stake,
        total_shares: operator.current_total_shares,
        total_storage_fee_deposit: operator.total_storage_fee_deposit,
    };

    let operator_id = operator_nominators.operator_id();
    let nominators = operator_nominators.into_nominator_storage();
    let claims = match settle_nominators(&share_price, nominators, prices, initial) {
        Err(error) => {
            return Err(error);
        },
        Ok(claims) => claims,
    };

    // iterate through each nominator storage fund and calculate the actual storage fund based on
    // total storage fund balance.
    let balances = match redeem_storage_fund(
        &claims.accounts,
        &claims.settlements,
        operator_storage_fund_balance,
        claims.remainder.total_storage_fee_deposit,
    ) {
        Err(error) => {
            return Err(error);
        },
        Ok(balances) => balances,
    };
    proof {
        assert(accounts_of(balances@) =~= accounts_of(operator_nominators@.nominator_storage));
    }
    Ok(Settlement { operator_id, balances, remainder: claims.remainder })
}

/// Shares are never priced above their exact worth: the stake of `shares`
/// is at most `shares * 10^9 / parts`.
pub proof fn lemma_shares_to_stake_bounded(parts: nat, shares: nat)
    requires
        parts > 0,
    ensures
        shares_to_stake_at(parts, shares) <= shares * (ACCURACY as nat) / parts,
{
    let a = ACCURACY as nat;
    if parts == a {
        assert(shares * a / a == shares) by (nonlinear_arith)
            requires
                a > 0,
        ;
    }
}

/// The stake that the settlements claim is at most the exact worth of the
/// shares they count.
pub proof fn lemma_total_staked_bounded(
    pool_parts: nat,
    nominators: Seq<(AccountId, NominatorStorageView)>,
    prices: Map<DomainEpoch, SharePrice>,
)
    requires
        settlements(pool_parts, nominators, prices) is Ok,
        pool_parts > 0,
    ensures
        total_staked_of(settlements(pool_parts, nominators, prices).unwrap()) <= total_shares_of(
            settlements(pool_parts, nominators, prices).unwrap(),
        ) * (ACCURACY as nat) / pool_parts,
    decreases nominators.len(),
{
    let a = ACCURACY as nat;
    let claims = settlements(pool_parts, nominators, prices).unwrap();
    if nominators.len() == 0 {
        assert(0 * a / pool_parts == 0) by (nonlinear_arith)
            requires
                pool_parts > 0,
        ;
    } else {
        let earlier = settlements(pool_parts, nominators.drop_last(), prices).unwrap();
        let last = nominator_settlement(pool_parts, nominators.last().1, prices).unwrap();
        assert(claims == earlier.push(last));
        assert(claims.drop_last() =~= earlier);
        lemma_total_staked_bounded(pool_parts, nominators.drop_last(), prices);
        lemma_shares_to_stake_bounded(pool_parts, last.shares as nat);
        let x = total_shares_of(earlier);
        let y = last.shares as nat;
        assert(x * a / pool_parts + y * a / pool_parts <= (x + y) * a / pool_parts)
            by (nonlinear_arith)
            requires
                pool_parts > 0,
        ;
    }
}

/// The nominators never claim more stake than the pool holds.
///
/// This holds of every set of nominators that can be settled and whose
/// shares are no more than the pool's, provided that the pool's share price
/// prices all the shares of the pool at no more than the pool's stake. That
/// proviso fails where rounding the price down makes the shares worth more
/// than the stake they were bought with; the pool's totals then run dry
/// before the last nominator is settled.
pub proof fn law_claims_within_pool(
    total_shares: nat,
    total_stake: nat,
    nominators: Seq<(AccountId, NominatorStorageView)>,
    prices: Map<DomainEpoch, SharePrice>,
)
    requires
        settlements(share_price_parts(total_shares, total_stake), nominators, prices) is Ok,
        total_shares_of(
            settlements(share_price_parts(total_shares, total_stake), nominators, prices).unwrap(),
        ) <= total_shares,
        total_shares * (ACCURACY as nat) / share_price_parts(total_shares, total_stake)
            <= total_stake,
    ensures
        total_staked_of(
            settlements(share_price_parts(total_shares, total_stake), nominators, prices).unwrap(),
        ) <= total_stake,
{
    let a = ACCURACY as nat;
    let parts = share_price_parts(total_shares, total_stake);
    let claims = settlements(parts, nominators, prices).unwrap();
    if nominators.len() > 0 {
        lemma_total_staked_bounded(parts, nominators, prices);
        let counted = total_shares_of(claims);
        assert(counted * a / parts <= total_shares * a / parts) by (nonlinear_arith)
            requires
                counted <= total_shares,
                parts > 0,
        ;
    }
}

/// The balances of `balances`, in all.
pub open spec fn sum_of_balances(balances: Seq<(AccountId, Balance)>) -> nat
    decreases balances.len(),
{
    if balances.len() == 0 {
        0
    } else {
        sum_of_balances(balances.drop_last()) + balances.last().1 as nat
    }
}

/// What the nominators of all of `settlements` are owed, in all.
pub open spec fn total_slashed(settlements: Seq<Settlement>) -> nat
    decreases settlements.len(),
{
    if settlements.len() == 0 {
        0
    } else {
        total_slashed(settlements.drop_last()) + sum_of_balances(settlements.last().balances@)
    }
}

/// What the nominators of one settlement are owed, in all; `None` when the
/// sum does not fit a balance.
pub fn slashed_balance(settlement: &Settlement) -> (sum: Option<Balance>)
    ensures
        match sum {
            Some(total) => total == sum_of_balances(settlement.balances@),
            None => sum_of_balances(settlement.balances@) > u128::MAX,
        },
{
    let mut acc: Balance = 0;
    let mut i: usize = 0;
    while i < settlement.balances.len()
        invariant
            i <= settlement.balances.len(),
            acc == sum_of_balances(settlement.balances@.take(i as int)),
        decreases settlement.balances.len() - i,
    {
        let balance: Balance = settlement.balances[i].1;
        proof {
            let next = settlement.balances@.take(i + 1);
            assert(next.drop_last() =~= settlement.balances@.take(i as int));
            assert(next.last() == settlement.balances@[i as int]);
        }
        match acc.checked_add(balance) {
            None => {
                proof {
                    lemma_sum_of_balances_prefix(settlement.balances@, i + 1);
                }
                return None;
            },
            Some(sum) => {
                acc = sum;
            },
        }
        i = i + 1;
    }
    proof {
        assert(settlement.balances@.take(settlement.balances.len() as int)
            =~= settlement.balances@);
    }
    Some(acc)
}

/// The first `n` balances sum to no more than all of them.
pub proof fn lemma_sum_of_balances_prefix(balances: Seq<(AccountId, Balance)>, n: int)
    requires
        0 <= n <= balances.len(),
    ensures
        sum_of_balances(balances.take(n)) <= sum_of_balances(balances),
    decreases balances.len(),
{
    if n == balances.len() {
        assert(balances.take(n) =~= balances);
    } else {
        assert(balances.drop_last().take(n) =~= balances.take(n));
        lemma_sum_of_balances_prefix(balances.drop_last(), n);
    }
}

/// The first `n` settlements owe no more than all of them.
pub proof fn lemma_total_slashed_prefix(settlements: Seq<Settlement>, n: int)
    requires
        0 <= n <= settlements.len(),
    ensures
        total_slashed(settlements.take(n)) <= total_slashed(settlements),
    decreases settlements.len(),
{
    if n == settlements.len() {
        assert(settlements.take(n) =~= settlements);
    } else {
        assert(settlements.drop_last().take(n) =~= settlements.take(n));
        lemma_total_slashed_prefix(settlements.drop_last(), n);
    }
}

/// What the nominators of all the settled operators are owed, in all; an
/// overflow where the sum does not fit a balance.
pub fn total_balance_slashed(settlements: &Vec<Settlement>) -> (r: Result<
    Balance,
    SettlementError,
>)
    ensures
        match r {
            Ok(total) => total == total_slashed(settlements@),
            Err(error) => error == SettlementError::Overflow && total_slashed(settlements@)
                > u128::MAX,
        },
{
    let mut acc: Balance = 0;
    let mut i: usize = 0;
    while i < settlements.len()
        invariant
            i <= settlements.len(),
            acc == total_slashed(settlements@.take(i as int)),
        decreases settlements.len() - i,
    {
        proof {
            let next = settlements@.take(i + 1);
            assert(next.drop_last() =~= settlements@.take(i as int));
            assert(next.last() == settlements@[i as int]);
            lemma_total_slashed_prefix(settlements@, i + 1);
        }
        let of_operator = match slashed_balance(&settlements[i]) {
            None => {
                return Err(SettlementError::Overflow);
            },
            Some(sum) => sum,
        };
        match acc.checked_add(of_operator) {
            None => {
                return Err(SettlementError::Overflow);
            },
            Some(sum) => {
                acc = sum;
            },
        }
        i = i + 1;
    }
    proof {
        assert(settlements@.take(settlements.len() as int) =~= settlements@);
    }
    Ok(acc)
}

/// Whether the treasury can pay what is owed.
pub fn ensure_treasury_sufficient(treasury_balance: Balance, total_slashed: Balance) -> (r:
    Result<(), SettlementError>)
    ensures
        r is Ok <==> treasury_balance >= total_slashed,
        r is Err ==> r.unwrap_err() == SettlementError::InsufficientTreasury,
{
    if treasury_balance >= total_slashed {
        Ok(())
    } else {
        Err(SettlementError::InsufficientTreasury)
    }
}

} // verus!
