//! Records of a staking pool as they are read from a snapshot.

use std::collections::VecDeque;
use vstd::prelude::*;

verus! {

/// The network's native currency unit.
pub type Balance = u128;

/// A block number.
pub type Number = u32;

/// Identifies a domain.
pub type DomainId = u32;

/// Counts the epochs of a domain.
pub type EpochIndex = u32;

/// Identifies an operator.
pub type OperatorId = u64;

/// A 32-byte account identifier, held as its two big-endian halves, so that
/// the order of the bytes is the order of `(hi, lo)`.
#[derive(Clone, Copy, Debug, PartialEq, Eq, Structural, PartialOrd, Ord, Hash)]
pub struct AccountId {
    pub hi: u128,
    pub lo: u128,
}

impl AccountId {
    /// Whether `self` comes strictly before `other`.
    pub open spec fn precedes(self, other: AccountId) -> bool {
        self.hi < other.hi || (self.hi == other.hi && self.lo < other.lo)
    }

    /// Whether `self` comes strictly before `other`.
    pub fn lt(&self, other: &AccountId) -> (b: bool)
        ensures
            b == self.precedes(*other),
    {
        self.hi < other.hi || (self.hi == other.hi && self.lo < other.lo)
    }
}

/// A pricing epoch: a domain and the index of one of its epochs.
#[derive(Clone, Copy, Debug, PartialEq, Eq, Structural)]
pub struct DomainEpoch(DomainId, EpochIndex);

impl DomainEpoch {
    /// The domain the epoch belongs to.
    pub closed spec fn domain_id(self) -> DomainId {
        self.0
    }

    /// The index of the epoch within its domain.
    pub closed spec fn epoch_index(self) -> EpochIndex {
        self.1
    }

    pub fn new(domain_id: DomainId, epoch_index: EpochIndex) -> (epoch: DomainEpoch)
        ensures
            epoch.domain_id() == domain_id,
            epoch.epoch_index() == epoch_index,
    {
        DomainEpoch(domain_id, epoch_index)
    }

    pub fn deconstruct(&self) -> (parts: (DomainId, EpochIndex))
        ensures
            parts == (self.domain_id(), self.epoch_index()),
    {
        (self.0, self.1)
    }
}

/// Stake that has been converted into shares of the pool.
#[derive(Clone, Copy, Debug, PartialEq, Eq, Structural, Default)]
pub struct KnownDeposit {
    pub shares: Balance,
    pub storage_fee_deposit: Balance,
}

/// Stake that awaits the share price of the epoch it was made in.
#[derive(Clone, Copy, Debug, PartialEq, Eq, Structural)]
pub struct PendingDeposit {
    pub effective_domain_epoch: DomainEpoch,
    pub amount: Balance,
    pub storage_fee_deposit: Balance,
}

/// A nominator's deposit: the settled part and at most one pending part.
#[derive(Clone, Copy, Debug, PartialEq, Eq, Default)]
pub struct Deposit {
    pub known: KnownDeposit,
    pub pending: Option<PendingDeposit>,
}

/// A withdrawal that has been priced and waits to be unlocked.
#[derive(Clone, Copy, Debug, PartialEq, Eq, Structural)]
pub struct WithdrawalInBalance {
    pub domain_id: DomainId,
    pub unlock_at_confirmed_domain_block_number: Number,
    pub amount_to_unlock: Balance,
    pub storage_fee_refund: Balance,
}

/// A withdrawal that awaits the share price of the epoch it was made in.
#[derive(Clone, Copy, Debug, PartialEq, Eq, Structural)]
pub struct WithdrawalInShares {
    pub domain_epoch: DomainEpoch,
    pub unlock_at_confirmed_domain_block_number: Number,
    pub shares: Balance,
    pub storage_fee_refund: Balance,
}

/// A nominator's withdrawals.
#[derive(Clone, Debug, PartialEq, Eq, Default)]
pub struct Withdrawal {
    /// Total withdrawal amount requested by the nominator that are in unlocking state excluding withdrawal
    /// in shares and the storage fee
    pub total_withdrawal_amount: Balance,
    /// Individual withdrawal amounts with their unlocking block for a given domain
    pub withdrawals: VecDeque<WithdrawalInBalance>,
    /// Withdrawal that was initiated by nominator and not converted to balance due to
    /// unfinished domain epoch.
    pub withdrawal_in_shares: Option<WithdrawalInShares>,
}

/// What a `Withdrawal` holds, with the queue as a sequence in unlock order.
pub struct WithdrawalView {
    pub total_withdrawal_amount: Balance,
    pub withdrawals: Seq<WithdrawalInBalance>,
    pub withdrawal_in_shares: Option<WithdrawalInShares>,
}

impl View for Withdrawal {
    type V = WithdrawalView;

    open spec fn view(&self) -> WithdrawalView {
        WithdrawalView {
            total_withdrawal_amount: self.total_withdrawal_amount,
            withdrawals: self.withdrawals@,
            withdrawal_in_shares: self.withdrawal_in_shares,
        }
    }
}

/// The records of one nominator: a deposit, and a withdrawal if there is one.
#[derive(Clone, Debug, PartialEq, Eq)]
pub struct NominatorStorage {
    pub deposit: Deposit,
    pub withdrawal: Option<Withdrawal>,
}

/// What a `NominatorStorage` holds.
pub struct NominatorStorageView {
    pub deposit: Deposit,
    pub withdrawal: Option<WithdrawalView>,
}

impl View for NominatorStorage {
    type V = NominatorStorageView;

    open spec fn view(&self) -> NominatorStorageView {
        NominatorStorageView {
            deposit: self.deposit,
            withdrawal: match self.withdrawal {
                Some(w) => Some(w@),
                None => None,
            },
        }
    }
}

/// Where and when an operator was deregistered.
#[derive(Clone, Copy, Debug, PartialEq, Eq, Structural)]
pub struct OperatorDeregisteredInfo {
    pub domain_epoch: DomainEpoch,
    pub unlock_at_confirmed_domain_block_number: Number,
}

#[derive(Clone, Copy, Debug, PartialEq, Eq, Structural)]
pub enum OperatorStatus {
    Registered,
    /// De-registered at given domain epoch.
    Deregistered(OperatorDeregisteredInfo),
    Slashed,
    PendingSlash,
}

/// An operator's status as it was recorded. The record may be stale, so it is
/// sealed: `Operator::status` is the only way to read it.
#[derive(Clone, Copy, Debug, PartialEq, Eq)]
pub struct RecordedStatus(OperatorStatus);

impl RecordedStatus {
    /// The status that was recorded.
    pub closed spec fn value(self) -> OperatorStatus {
        self.0
    }

    pub fn new(status: OperatorStatus) -> (recorded: RecordedStatus)
        ensures
            recorded.value() == status,
    {
        RecordedStatus(status)
    }
}

/// The aggregate state of an operator's pool.
#[derive(Clone, Copy, Debug, PartialEq, Eq)]
pub struct Operator {
    pub signing_key: [u8; 32],
    pub current_domain_id: DomainId,
    pub next_domain_id: DomainId,
    pub minimum_nominator_stake: Balance,
    /// Share of the rewards that the operator keeps, in percent.
    pub nomination_tax: u8,
    /// Total active stake of combined nominators under this operator.
    pub current_total_stake: Balance,
    /// Total rewards this operator received this current epoch.
    pub current_epoch_rewards: Balance,
    /// Total shares of all the nominators under this operator.
    pub current_total_shares: Balance,
    /// The status of the operator; it MUST be queried with the `status()` method.
    pub status: RecordedStatus,
    /// Total deposits during the previous epoch
    pub deposits_in_epoch: Balance,
    /// Total withdrew shares during the previous epoch
    pub withdrawals_in_epoch: Balance,
    /// Total balance deposited to the bundle storage fund
    pub total_storage_fee_deposit: Balance,
}

impl Operator {
    /// The status the operator was recorded with.
    pub fn status(&self) -> (status: OperatorStatus)
        ensures
            status == self.status.value(),
    {
        self.status.0
    }
}

} // verus!
