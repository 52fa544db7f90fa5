use nominator_settlement::epoch::EpochSharePrices;
use nominator_settlement::error::SettlementError;
use nominator_settlement::nominators::{get_nominator_deposits_and_withdrawal, OperatorNominators};
use nominator_settlement::price::SharePrice;
use nominator_settlement::settle::{
    calculate_nominators_slashed_amount, ensure_treasury_sufficient, refunded_storage_fee,
    settle_nominator, slashed_balance, total_balance_slashed, NominatorSettlement, PoolTotals,
    Settlement,
};
use nominator_settlement::types::{
    AccountId, Deposit, DomainEpoch, KnownDeposit, NominatorStorage, Operator,
    OperatorDeregisteredInfo, OperatorStatus, PendingDeposit, RecordedStatus, Withdrawal,
    WithdrawalInBalance, WithdrawalInShares,
};
use std::collections::VecDeque;

fn nominator(n: u128) -> AccountId {
    AccountId { hi: 0, lo: n }
}

fn pool(stake: u128, shares: u128, rewards: u128, storage_fee_deposit: u128) -> Operator {
    Operator {
        signing_key: [0u8; 32],
        current_domain_id: 0,
        next_domain_id: 0,
        minimum_nominator_stake: 0,
        nomination_tax: 0,
        current_total_stake: stake,
        current_epoch_rewards: rewards,
        current_total_shares: shares,
        status: RecordedStatus::new(OperatorStatus::Slashed),
        deposits_in_epoch: 0,
        withdrawals_in_epoch: 0,
        total_storage_fee_deposit: storage_fee_deposit,
    }
}

fn known(shares: u128, storage_fee_deposit: u128) -> Deposit {
    Deposit { known: KnownDeposit { shares, storage_fee_deposit }, pending: None }
}

fn queued(refund: u128) -> WithdrawalInBalance {
    WithdrawalInBalance {
        domain_id: 0,
        unlock_at_confirmed_domain_block_number: 1,
        amount_to_unlock: 0,
        storage_fee_refund: refund,
    }
}

fn only_deposits(deposits: Vec<(AccountId, Deposit)>) -> OperatorNominators {
    get_nominator_deposits_and_withdrawal(1, deposits, vec![]).unwrap()
}

#[test]
fn single_nominator_is_owed_the_whole_pool() {
    let nominators = only_deposits(vec![(nominator(1), known(500, 0))]);
    let settlement = calculate_nominators_slashed_amount(
        pool(1000, 500, 0, 0),
        nominators,
        0,
        &EpochSharePrices::new(),
    )
    .unwrap();
    assert_eq!(settlement.operator_id, 1);
    assert_eq!(settlement.balances, vec![(nominator(1), 1000)]);
    assert_eq!(
        settlement.remainder,
        PoolTotals { total_stake: 0, total_shares: 0, total_storage_fee_deposit: 0 }
    );
}

#[test]
fn two_nominators_split_the_pool_by_their_shares() {
    let nominators =
        only_deposits(vec![(nominator(2), known(200, 0)), (nominator(1), known(300, 0))]);
    let settlement = calculate_nominators_slashed_amount(
        pool(1000, 500, 0, 0),
        nominators,
        0,
        &EpochSharePrices::new(),
    )
    .unwrap();
    assert_eq!(settlement.balances, vec![(nominator(1), 600), (nominator(2), 400)]);
    assert_eq!(settlement.remainder.total_stake, 0);
    assert_eq!(settlement.remainder.total_shares, 0);
}

#[test]
fn epoch_rewards_are_folded_into_the_stake() {
    let nominators =
        only_deposits(vec![(nominator(1), known(300, 0)), (nominator(2), known(100, 0))]);
    let settlement = calculate_nominators_slashed_amount(
        pool(900, 500, 100, 0),
        nominators,
        0,
        &EpochSharePrices::new(),
    )
    .unwrap();
    assert_eq!(settlement.balances, vec![(nominator(1), 600), (nominator(2), 200)]);
    assert_eq!(settlement.remainder.total_stake, 200);
    assert_eq!(settlement.remainder.total_shares, 100);
}

#[test]
fn pending_deposit_is_left_out_until_its_epoch_has_a_price() {
    let epoch = DomainEpoch::new(0, 3);
    let deposit = Deposit {
        known: KnownDeposit { shares: 100, storage_fee_deposit: 0 },
        pending: Some(PendingDeposit {
            effective_domain_epoch: epoch,
            amount: 100,
            storage_fee_deposit: 20,
        }),
    };

    let mut prices = EpochSharePrices::new();
    let first = calculate_nominators_slashed_amount(
        pool(1000, 500, 0, 100),
        only_deposits(vec![(nominator(1), deposit)]),
        0,
        &prices,
    )
    .unwrap();
    assert_eq!(first.balances, vec![(nominator(1), 200)]);
    assert_eq!(
        first.remainder,
        PoolTotals { total_stake: 800, total_shares: 400, total_storage_fee_deposit: 80 }
    );

    prices.insert(epoch, SharePrice::new(1, 2));
    let second = calculate_nominators_slashed_amount(
        pool(1000, 500, 0, 100),
        only_deposits(vec![(nominator(1), deposit)]),
        0,
        &prices,
    )
    .unwrap();
    // 100 of stake bought 50 shares; 150 shares are worth 300. The storage
    // fee of 20 has joined the pool of 100, of which the fund holds nothing.
    assert_eq!(second.balances, vec![(nominator(1), 300)]);
    assert_eq!(
        second.remainder,
        PoolTotals { total_stake: 700, total_shares: 350, total_storage_fee_deposit: 100 }
    );
}

#[test]
fn priced_withdrawal_and_its_refund_are_owed_without_shares() {
    let mut withdrawals = VecDeque::new();
    withdrawals.push_back(queued(5));
    let withdrawal =
        Withdrawal { total_withdrawal_amount: 50, withdrawals, withdrawal_in_shares: None };
    let nominators = get_nominator_deposits_and_withdrawal(
        1,
        vec![(nominator(1), known(0, 0))],
        vec![(nominator(1), withdrawal.clone())],
    )
    .unwrap();
    let settlement = calculate_nominators_slashed_amount(
        pool(1000, 500, 0, 0),
        nominators,
        0,
        &EpochSharePrices::new(),
    )
    .unwrap();
    assert_eq!(settlement.balances, vec![(nominator(1), 55)]);

    // With a storage fee deposit of 30 out of 100 and a fund of 50, the
    // nominator redeems 15 more.
    let nominators = get_nominator_deposits_and_withdrawal(
        1,
        vec![(nominator(1), known(0, 30))],
        vec![(nominator(1), withdrawal)],
    )
    .unwrap();
    let settlement = calculate_nominators_slashed_amount(
        pool(1000, 500, 0, 100),
        nominators,
        50,
        &EpochSharePrices::new(),
    )
    .unwrap();
    assert_eq!(settlement.balances, vec![(nominator(1), 70)]);
}

#[test]
fn withdrawal_in_shares_counts_as_shares_until_priced() {
    let epoch = DomainEpoch::new(0, 3);
    let mut withdrawals = VecDeque::new();
    withdrawals.push_back(queued(5));
    let withdrawal = Withdrawal {
        total_withdrawal_amount: 50,
        withdrawals,
        withdrawal_in_shares: Some(WithdrawalInShares {
            domain_epoch: epoch,
            unlock_at_confirmed_domain_block_number: 9,
            shares: 40,
            storage_fee_refund: 3,
        }),
    };
    let assemble = || {
        get_nominator_deposits_and_withdrawal(
            1,
            vec![(nominator(1), known(60, 0))],
            vec![(nominator(1), withdrawal.clone())],
        )
        .unwrap()
    };

    let mut prices = EpochSharePrices::new();
    let open = calculate_nominators_slashed_amount(pool(1000, 500, 0, 0), assemble(), 0, &prices)
        .unwrap();
    // 100 shares at two of stake each, 50 ready and 5 refunded.
    assert_eq!(open.balances, vec![(nominator(1), 255)]);
    assert_eq!(open.remainder.total_shares, 400);

    prices.insert(epoch, SharePrice::new(1, 4));
    let closed =
        calculate_nominators_slashed_amount(pool(1000, 500, 0, 0), assemble(), 0, &prices)
            .unwrap();
    // 60 shares are worth 120; 40 shares were withdrawn at four of stake
    // each; 50 were ready; 5 and 3 are refunded.
    assert_eq!(closed.balances, vec![(nominator(1), 120 + 160 + 50 + 8)]);
    assert_eq!(closed.remainder.total_shares, 440);
    assert_eq!(closed.remainder.total_stake, 880);
}

#[test]
fn storage_fund_is_redeemed_pro_rata() {
    let nominators =
        only_deposits(vec![(nominator(1), known(300, 30)), (nominator(2), known(200, 70))]);
    let settlement = calculate_nominators_slashed_amount(
        pool(1000, 500, 0, 100),
        nominators,
        50,
        &EpochSharePrices::new(),
    )
    .unwrap();
    assert_eq!(settlement.balances, vec![(nominator(1), 615), (nominator(2), 435)]);
    assert_eq!(settlement.remainder.total_storage_fee_deposit, 100);
}

#[test]
fn storage_fund_is_sized_without_unstaked_deposits() {
    let waiting = Deposit {
        known: KnownDeposit { shares: 200, storage_fee_deposit: 70 },
        pending: Some(PendingDeposit {
            effective_domain_epoch: DomainEpoch::new(0, 8),
            amount: 10,
            storage_fee_deposit: 20,
        }),
    };
    let nominators = only_deposits(vec![(nominator(1), known(300, 30)), (nominator(2), waiting)]);
    let settlement = calculate_nominators_slashed_amount(
        pool(1000, 500, 0, 100),
        nominators,
        50,
        &EpochSharePrices::new(),
    )
    .unwrap();
    // The fund of 50 is shared over deposits of 80.
    assert_eq!(settlement.balances, vec![(nominator(1), 618), (nominator(2), 443)]);
    assert_eq!(settlement.remainder.total_storage_fee_deposit, 80);
}

#[test]
fn unstaked_deposits_never_take_the_total_below_zero() {
    let waiting = Deposit {
        known: KnownDeposit { shares: 0, storage_fee_deposit: 4 },
        pending: Some(PendingDeposit {
            effective_domain_epoch: DomainEpoch::new(0, 8),
            amount: 10,
            storage_fee_deposit: 20,
        }),
    };
    let nominators = only_deposits(vec![(nominator(1), waiting)]);
    let settlement = calculate_nominators_slashed_amount(
        pool(1000, 500, 0, 5),
        nominators,
        9,
        &EpochSharePrices::new(),
    )
    .unwrap();
    assert_eq!(settlement.remainder.total_storage_fee_deposit, 0);
    // No deposit is left in the pool, so any deposit redeems the whole fund.
    assert_eq!(settlement.balances, vec![(nominator(1), 9)]);
}

#[test]
fn empty_pool_settles_one_to_one() {
    let nominators = only_deposits(vec![(nominator(1), known(25, 0))]);
    let settlement = calculate_nominators_slashed_amount(
        pool(0, 0, 0, 0),
        nominators,
        0,
        &EpochSharePrices::new(),
    )
    .unwrap();
    assert_eq!(settlement.balances, vec![(nominator(1), 25)]);
    assert_eq!(settlement.remainder.total_stake, 0);
    assert_eq!(settlement.remainder.total_shares, 0);
}

#[test]
fn claims_stay_within_the_pool_when_the_price_is_exact() {
    let nominators = only_deposits(vec![
        (nominator(1), known(1, 0)),
        (nominator(2), known(2, 0)),
        (nominator(3), known(3, 0)),
        (nominator(4), known(94, 0)),
    ]);
    let settlement = calculate_nominators_slashed_amount(
        pool(400, 100, 0, 0),
        nominators,
        0,
        &EpochSharePrices::new(),
    )
    .unwrap();
    let claimed: u128 = settlement.balances.iter().map(|entry| entry.1).sum();
    assert_eq!(claimed, 400);
    assert_eq!(settlement.remainder.total_stake, 0);
}

#[test]
fn rounded_price_lets_claims_run_the_pool_dry() {
    let stake: u128 = 7_000_000_000_000_000_000;
    let shares: u128 = 3_000_000_000_000_000_000;
    let nominators = only_deposits(vec![
        (nominator(1), known(1_000_000_000_000_000_000, 0)),
        (nominator(2), known(2_000_000_000_000_000_000, 0)),
    ]);
    let settlement = calculate_nominators_slashed_amount(
        pool(stake, shares, 0, 0),
        nominators,
        0,
        &EpochSharePrices::new(),
    )
    .unwrap();
    assert_eq!(
        settlement.balances,
        vec![
            (nominator(1), 2_333_333_336_444_444_448),
            (nominator(2), 4_666_666_672_888_888_897),
        ]
    );
    assert_eq!(settlement.remainder.total_stake, 0);
    assert_eq!(settlement.remainder.total_shares, 0);
}

#[test]
fn no_nominators_leave_the_pool_as_it_is() {
    let settlement = calculate_nominators_slashed_amount(
        pool(1000, 500, 24, 100),
        only_deposits(vec![]),
        50,
        &EpochSharePrices::new(),
    )
    .unwrap();
    assert!(settlement.balances.is_empty());
    assert_eq!(
        settlement.remainder,
        PoolTotals { total_stake: 1024, total_shares: 500, total_storage_fee_deposit: 100 }
    );
}

#[test]
fn overflow_of_stake_and_rewards_is_fatal() {
    let result = calculate_nominators_slashed_amount(
        pool(u128::MAX, 500, 1, 0),
        only_deposits(vec![(nominator(1), known(1, 0))]),
        0,
        &EpochSharePrices::new(),
    );
    assert_eq!(result.unwrap_err(), SettlementError::Overflow);
}

#[test]
fn overflow_of_a_settled_balance_is_fatal() {
    let mut withdrawals = VecDeque::new();
    withdrawals.push_back(queued(1));
    let withdrawal = Withdrawal {
        total_withdrawal_amount: u128::MAX,
        withdrawals,
        withdrawal_in_shares: None,
    };
    let nominators = get_nominator_deposits_and_withdrawal(
        1,
        vec![(nominator(1), known(0, 0))],
        vec![(nominator(1), withdrawal)],
    )
    .unwrap();
    let result = calculate_nominators_slashed_amount(
        pool(1000, 500, 0, 0),
        nominators,
        0,
        &EpochSharePrices::new(),
    );
    assert_eq!(result.unwrap_err(), SettlementError::Overflow);
}

#[test]
fn overflow_in_the_redemption_pass_is_fatal() {
    let mut withdrawals = VecDeque::new();
    withdrawals.push_back(queued(0));
    let withdrawal = Withdrawal {
        total_withdrawal_amount: u128::MAX,
        withdrawals,
        withdrawal_in_shares: None,
    };
    let nominators = get_nominator_deposits_and_withdrawal(
        1,
        vec![(nominator(1), known(0, 10))],
        vec![(nominator(1), withdrawal)],
    )
    .unwrap();
    let result = calculate_nominators_slashed_amount(
        pool(1000, 500, 0, 10),
        nominators,
        10,
        &EpochSharePrices::new(),
    );
    assert_eq!(result.unwrap_err(), SettlementError::Overflow);
}

#[test]
fn pool_price_of_zero_is_fatal_once_shares_are_priced() {
    let dust = pool(2_000_000_001, 1, 0, 0);
    let result = calculate_nominators_slashed_amount(
        dust,
        only_deposits(vec![(nominator(1), known(1, 0))]),
        0,
        &EpochSharePrices::new(),
    );
    assert_eq!(result.unwrap_err(), SettlementError::ZeroSharePrice);
    let result = calculate_nominators_slashed_amount(
        dust,
        only_deposits(vec![]),
        0,
        &EpochSharePrices::new(),
    );
    assert!(result.unwrap().balances.is_empty());
}

#[test]
fn first_nominator_that_fails_decides_the_error() {
    let overflowing = Deposit {
        known: KnownDeposit { shares: u128::MAX, storage_fee_deposit: 0 },
        pending: Some(PendingDeposit {
            effective_domain_epoch: DomainEpoch::new(0, 1),
            amount: 1,
            storage_fee_deposit: 0,
        }),
    };
    let mut prices = EpochSharePrices::new();
    prices.insert(DomainEpoch::new(0, 1), SharePrice::new(1, 1));
    let dust = pool(2_000_000_001, 1, 0, 0);
    let result = calculate_nominators_slashed_amount(
        dust,
        only_deposits(vec![(nominator(2), overflowing), (nominator(1), known(1, 0))]),
        0,
        &prices,
    );
    assert_eq!(result.unwrap_err(), SettlementError::ZeroSharePrice);
    let result = calculate_nominators_slashed_amount(
        dust,
        only_deposits(vec![(nominator(1), overflowing), (nominator(2), known(1, 0))]),
        0,
        &prices,
    );
    assert_eq!(result.unwrap_err(), SettlementError::Overflow);
}

#[test]
fn settle_nominator_reports_each_part() {
    let epoch = DomainEpoch::new(0, 3);
    let mut withdrawals = VecDeque::new();
    withdrawals.push_back(queued(5));
    withdrawals.push_back(queued(6));
    let storage = NominatorStorage {
        deposit: Deposit {
            known: KnownDeposit { shares: 60, storage_fee_deposit: 9 },
            pending: Some(PendingDeposit {
                effective_domain_epoch: DomainEpoch::new(0, 4),
                amount: 10,
                storage_fee_deposit: 2,
            }),
        },
        withdrawal: Some(Withdrawal {
            total_withdrawal_amount: 50,
            withdrawals,
            withdrawal_in_shares: Some(WithdrawalInShares {
                domain_epoch: epoch,
                unlock_at_confirmed_domain_block_number: 9,
                shares: 40,
                storage_fee_refund: 3,
            }),
        }),
    };
    let price = SharePrice::new(500, 1000);
    let mut prices = EpochSharePrices::new();
    assert_eq!(
        settle_nominator(&price, storage.clone(), &prices),
        Ok(NominatorSettlement {
            shares: 100,
            staked: 200,
            ready: 50,
            refunded: 11,
            unstaked_storage_fee: 2,
            storage_fee_deposit: 9,
        })
    );
    prices.insert(epoch, SharePrice::new(1, 4));
    prices.insert(DomainEpoch::new(0, 4), SharePrice::new(1, 2));
    assert_eq!(
        settle_nominator(&price, storage, &prices),
        Ok(NominatorSettlement {
            shares: 65,
            staked: 130,
            ready: 210,
            refunded: 14,
            unstaked_storage_fee: 0,
            storage_fee_deposit: 11,
        })
    );
}

#[test]
fn settle_nominator_reports_overflow_of_shares() {
    let storage = NominatorStorage {
        deposit: known(u128::MAX, 0),
        withdrawal: Some(Withdrawal {
            total_withdrawal_amount: 0,
            withdrawals: VecDeque::new(),
            withdrawal_in_shares: Some(WithdrawalInShares {
                domain_epoch: DomainEpoch::new(0, 3),
                unlock_at_confirmed_domain_block_number: 9,
                shares: 1,
                storage_fee_refund: 0,
            }),
        }),
    };
    assert_eq!(
        settle_nominator(&SharePrice::new(1, 1), storage, &EpochSharePrices::new()),
        Err(SettlementError::Overflow)
    );
}

#[test]
fn refunds_are_summed_over_the_queue() {
    let mut withdrawals = VecDeque::new();
    assert_eq!(refunded_storage_fee(&withdrawals), Some(0));
    withdrawals.push_back(queued(5));
    withdrawals.push_back(queued(7));
    withdrawals.push_front(queued(11));
    assert_eq!(refunded_storage_fee(&withdrawals), Some(23));
    withdrawals.push_back(queued(u128::MAX - 23));
    assert_eq!(refunded_storage_fee(&withdrawals), Some(u128::MAX));
    withdrawals.push_back(queued(1));
    assert_eq!(refunded_storage_fee(&withdrawals), None);
}

#[test]
fn total_slashed_sums_all_operators() {
    let settlement = |operator_id: u64, balances: Vec<(AccountId, u128)>| Settlement {
        operator_id,
        balances,
        remainder: PoolTotals { total_stake: 0, total_shares: 0, total_storage_fee_deposit: 0 },
    };
    assert_eq!(total_balance_slashed(&vec![]), Ok(0));
    let first = settlement(1, vec![(nominator(1), 600), (nominator(2), 400)]);
    assert_eq!(slashed_balance(&first), Some(1000));
    let settlements = vec![first, settlement(2, vec![]), settlement(3, vec![(nominator(1), 55)])];
    assert_eq!(total_balance_slashed(&settlements), Ok(1055));

    let inner = vec![settlement(1, vec![(nominator(1), u128::MAX), (nominator(2), 1)])];
    assert_eq!(slashed_balance(&inner[0]), None);
    assert_eq!(total_balance_slashed(&inner), Err(SettlementError::Overflow));
    let outer = vec![
        settlement(1, vec![(nominator(1), u128::MAX)]),
        settlement(2, vec![(nominator(1), 1)]),
    ];
    assert_eq!(total_balance_slashed(&outer), Err(SettlementError::Overflow));
}

#[test]
fn treasury_has_to_cover_what_is_owed() {
    assert_eq!(ensure_treasury_sufficient(1000, 1000), Ok(()));
    assert_eq!(ensure_treasury_sufficient(1001, 1000), Ok(()));
    assert_eq!(ensure_treasury_sufficient(999, 1000), Err(SettlementError::InsufficientTreasury));
    assert_eq!(ensure_treasury_sufficient(0, 0), Ok(()));
}

#[test]
fn operator_status_is_read_through_its_accessor() {
    let mut operator = pool(1, 1, 0, 0);
    assert_eq!(operator.status(), OperatorStatus::Slashed);
    let info = OperatorDeregisteredInfo {
        domain_epoch: DomainEpoch::new(1, 2),
        unlock_at_confirmed_domain_block_number: 3,
    };
    operator.status = RecordedStatus::new(OperatorStatus::Deregistered(info));
    assert_eq!(operator.status(), OperatorStatus::Deregistered(info));
    operator.status = RecordedStatus::new(OperatorStatus::PendingSlash);
    assert_eq!(operator.status(), OperatorStatus::PendingSlash);
    operator.status = RecordedStatus::new(OperatorStatus::Registered);
    assert_eq!(operator.status(), OperatorStatus::Registered);
}
