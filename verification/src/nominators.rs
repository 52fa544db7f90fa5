//! The nominators of one operator, keyed by account and kept in ascending
//! order of their accounts.

use crate::error::SettlementError;
use crate::types::{
    AccountId, Deposit, DomainEpoch, NominatorStorage, NominatorStorageView, OperatorId,
    Withdrawal, WithdrawalView,
};
use vstd::prelude::*;

verus! {

/// The accounts of `entries`, in order.
pub open spec fn accounts_of<T>(entries: Seq<(AccountId, T)>) -> Seq<AccountId> {
    Seq::new(entries.len(), |i: int| entries[i].0)
}

/// Whether each account comes strictly before every later one. No account
/// then occurs twice.
pub open spec fn strictly_ascending(accounts: Seq<AccountId>) -> bool {
    forall|i: int, j: int|
        0 <= i < j < accounts.len() ==> (#[trigger] accounts[i]).precedes(#[trigger] accounts[j])
}

/// What `entries` hold, entry by entry.
pub open spec fn entry_views(entries: Seq<(AccountId, NominatorStorage)>) -> Seq<
    (AccountId, NominatorStorageView),
> {
    Seq::new(entries.len(), |i: int| (entries[i].0, entries[i].1@))
}

/// Whether `entries` hold a record for `account`.
pub open spec fn contains_account<T>(entries: Seq<(AccountId, T)>, account: AccountId) -> bool {
    exists|i: int| 0 <= i < entries.len() && (#[trigger] entries[i]).0 == account
}

/// A place at which `entries` hold a record for `account`.
pub open spec fn index_of<T>(entries: Seq<(AccountId, T)>, account: AccountId) -> int {
    choose|i: int| 0 <= i < entries.len() && (#[trigger] entries[i]).0 == account
}

/// The records of `entries` by account.
pub open spec fn to_map<T>(entries: Seq<(AccountId, T)>) -> Map<AccountId, T> {
    Map::new(
        |account: AccountId| contains_account(entries, account),
        |account: AccountId| entries[index_of(entries, account)].1,
    )
}

/// In ascending entries each account has one place.
pub proof fn lemma_ascending_unique<T>(entries: Seq<(AccountId, T)>, i: int, j: int)
    requires
        strictly_ascending(accounts_of(entries)),
        0 <= i < entries.len(),
        0 <= j < entries.len(),
        entries[i].0 == entries[j].0,
    ensures
        i == j,
{
    let accounts = accounts_of(entries);
    if i < j {
        assert(accounts[i].precedes(accounts[j]));
    } else if j < i {
        assert(accounts[j].precedes(accounts[i]));
    }
}

/// The map of ascending entries holds each entry under its account.
pub proof fn lemma_to_map_at<T>(entries: Seq<(AccountId, T)>, i: int)
    requires
        strictly_ascending(accounts_of(entries)),
        0 <= i < entries.len(),
    ensures
        to_map(entries).contains_key(entries[i].0),
        to_map(entries)[entries[i].0] == entries[i].1,
{
    let account = entries[i].0;
    assert(contains_account(entries, account));
    lemma_ascending_unique(entries, i, index_of(entries, account));
}

/// The map of ascending entries without the last of them is their map
/// without the last account.
proof fn lemma_to_map_drop_last<T>(entries: Seq<(AccountId, T)>)
    requires
        strictly_ascending(accounts_of(entries)),
        entries.len() > 0,
    ensures
        strictly_ascending(accounts_of(entries.drop_last())),
        to_map(entries.drop_last()) == to_map(entries).remove(entries.last().0),
{
    let shorter = entries.drop_last();
    let last = entries.len() - 1;
    assert forall|i: int, j: int| 0 <= i < j < shorter.len() implies (#[trigger] accounts_of(
        shorter,
    )[i]).precedes(#[trigger] accounts_of(shorter)[j]) by {
        assert(accounts_of(entries)[i].precedes(accounts_of(entries)[j]));
    }
    let expected = to_map(entries).remove(entries.last().0);
    assert forall|account: AccountId| to_map(shorter).contains_key(account) implies #[trigger]
        expected.contains_key(account) && to_map(shorter)[account] == expected[account] by {
        let i = index_of(shorter, account);
        lemma_to_map_at(shorter, i);
        assert(entries[i] == shorter[i]);
        lemma_to_map_at(entries, i);
        assert(accounts_of(entries)[i].precedes(accounts_of(entries)[last]));
    }
    assert forall|account: AccountId| expected.contains_key(account) implies #[trigger] to_map(
        shorter,
    ).contains_key(account) by {
        let i = index_of(entries, account);
        assert(entries[i].0 == account);
        assert(i != last);
        assert(shorter[i] == entries[i]);
    }
    assert(to_map(shorter) =~= expected);
}

/// Ascending entries are determined by the records they hold for each
/// account: there is one way to put a map in ascending order.
pub proof fn law_ascending_entries_determined<T>(a: Seq<(AccountId, T)>, b: Seq<(AccountId, T)>)
    requires
        strictly_ascending(accounts_of(a)),
        strictly_ascending(accounts_of(b)),
        to_map(a) == to_map(b),
    ensures
        a == b,
    decreases a.len(),
{
    if a.len() == 0 {
        if b.len() > 0 {
            lemma_to_map_at(b, 0);
            assert(contains_account(a, b[0].0));
        }
        assert(a =~= b);
    } else {
        lemma_to_map_at(a, a.len() - 1);
        assert(contains_account(b, a.last().0));
        lemma_to_map_at(b, b.len() - 1);
        assert(contains_account(a, b.last().0));
        let i = index_of(a, b.last().0);
        let j = index_of(b, a.last().0);
        if i < a.len() - 1 {
            assert(accounts_of(a)[i].precedes(accounts_of(a)[a.len() - 1]));
        }
        if j < b.len() - 1 {
            assert(accounts_of(b)[j].precedes(accounts_of(b)[b.len() - 1]));
        }
        assert(a.last().0 == b.last().0);
        assert(a.last() == b.last());
        lemma_to_map_drop_last(a);
        lemma_to_map_drop_last(b);
        law_ascending_entries_determined(a.drop_last(), b.drop_last());
        assert(a =~= a.drop_last().push(a.last()));
        assert(b =~= b.drop_last().push(b.last()));
    }
}

/// The records of `deposits` by account, none with a withdrawal; of two
/// deposits of one account the later one counts.
pub open spec fn with_deposits(deposits: Seq<(AccountId, Deposit)>) -> Map<
    AccountId,
    NominatorStorageView,
>
    decreases deposits.len(),
{
    if deposits.len() == 0 {
        Map::empty()
    } else {
        with_deposits(deposits.drop_last()).insert(
            deposits.last().0,
            NominatorStorageView { deposit: deposits.last().1, withdrawal: None },
        )
    }
}

/// The records of `nominators` after each of `withdrawals` has been put
/// beside the deposit of its account; of two withdrawals of one account the
/// later one counts.
pub open spec fn with_withdrawals(
    nominators: Map<AccountId, NominatorStorageView>,
    withdrawals: Seq<(AccountId, WithdrawalView)>,
) -> Map<AccountId, NominatorStorageView>
    decreases withdrawals.len(),
{
    if withdrawals.len() == 0 {
        nominators
    } else {
        with_withdrawals(nominators, withdrawals.drop_last()).insert(
            withdrawals.last().0,
            NominatorStorageView {
                deposit: nominators[withdrawals.last().0].deposit,
                withdrawal: Some(withdrawals.last().1),
            },
        )
    }
}

/// What `withdrawals` hold, entry by entry.
pub open spec fn withdrawal_views(withdrawals: Seq<(AccountId, Withdrawal)>) -> Seq<
    (AccountId, WithdrawalView),
> {
    Seq::new(withdrawals.len(), |i: int| (withdrawals[i].0, withdrawals[i].1@))
}

/// The record given last for `account` among `records`, if there is one.
pub open spec fn last_record<T>(records: Seq<(AccountId, T)>, account: AccountId) -> Option<T>
    decreases records.len(),
{
    if records.len() == 0 {
        None
    } else if records.last().0 == account {
        Some(records.last().1)
    } else {
        last_record(records.drop_last(), account)
    }
}

/// The deposits name the nominators, and each nominator has the deposit
/// given last for the account.
pub proof fn law_deposits_name_nominators(deposits: Seq<(AccountId, Deposit)>, account: AccountId)
    ensures
        with_deposits(deposits).contains_key(account) <==> last_record(deposits, account) is Some,
        with_deposits(deposits).contains_key(account) <==> contains_account(deposits, account),
        with_deposits(deposits).contains_key(account) ==> with_deposits(deposits)[account]
            == (NominatorStorageView {
            deposit: last_record(deposits, account).unwrap(),
            withdrawal: None,
        }),
    decreases deposits.len(),
{
    if deposits.len() > 0 {
        let earlier = deposits.drop_last();
        law_deposits_name_nominators(earlier, account);
        if deposits.last().0 == account {
            assert(deposits[deposits.len() - 1].0 == account);
        } else if contains_account(earlier, account) {
            let i = index_of(earlier, account);
            assert(deposits[i] == earlier[i]);
        } else if contains_account(deposits, account) {
            let i = index_of(deposits, account);
            assert(earlier[i] == deposits[i]);
        }
    }
}

/// Where every withdrawal has a deposit, each nominator keeps the deposit
/// and is given the withdrawal recorded last for the account, or none.
pub proof fn law_withdrawals_join_deposits(
    nominators: Map<AccountId, NominatorStorageView>,
    withdrawals: Seq<(AccountId, WithdrawalView)>,
    account: AccountId,
)
    requires
        !some_withdrawal_unmatched(nominators, withdrawals),
        nominators.contains_key(account),
        nominators[account].withdrawal is None,
    ensures
        with_withdrawals(nominators, withdrawals).contains_key(account),
        with_withdrawals(nominators, withdrawals)[account] == (NominatorStorageView {
            deposit: nominators[account].deposit,
            withdrawal: last_record(withdrawals, account),
        }),
    decreases withdrawals.len(),
{
    if withdrawals.len() > 0 {
        let earlier = withdrawals.drop_last();
        assert forall|j: int| 0 <= j < earlier.len() implies nominators.contains_key(
            (#[trigger] earlier[j]).0,
        ) by {
            assert(earlier[j] == withdrawals[j]);
        }
        law_withdrawals_join_deposits(nominators, earlier, account);
    }
}

/// Whether some withdrawal belongs to an account that `nominators` do not
/// hold.
pub open spec fn some_withdrawal_unmatched(
    nominators: Map<AccountId, NominatorStorageView>,
    withdrawals: Seq<(AccountId, WithdrawalView)>,
) -> bool {
    exists|j: int|
        0 <= j < withdrawals.len() && !nominators.contains_key((#[trigger] withdrawals[j]).0)
}

/// Withdrawals of accounts that `nominators` hold add no account and leave
/// the deposits as they are.
pub proof fn lemma_with_withdrawals_keeps_deposits(
    nominators: Map<AccountId, NominatorStorageView>,
    withdrawals: Seq<(AccountId, WithdrawalView)>,
)
    requires
        !some_withdrawal_unmatched(nominators, withdrawals),
    ensures
        with_withdrawals(nominators, withdrawals).dom() == nominators.dom(),
        forall|account: AccountId| #[trigger]
            nominators.contains_key(account) ==> with_withdrawals(
                nominators,
                withdrawals,
            )[account].deposit == nominators[account].deposit,
    decreases withdrawals.len(),
{
    if withdrawals.len() > 0 {
        let earlier = withdrawals.drop_last();
        assert forall|j: int| 0 <= j < earlier.len() implies nominators.contains_key(
            (#[trigger] earlier[j]).0,
        ) by {
            assert(earlier[j] == withdrawals[j]);
        }
        lemma_with_withdrawals_keeps_deposits(nominators, earlier);
        assert(nominators.contains_key(withdrawals[withdrawals.len() - 1].0));
        assert(with_withdrawals(nominators, withdrawals).dom() =~= nominators.dom());
    }
}

/// Where `account` stands among `storage`, or where it would have to stand,
/// and whether it is there.
fn find(storage: &Vec<(AccountId, NominatorStorage)>, account: AccountId) -> (r: (usize, bool))
    requires
        strictly_ascending(accounts_of(storage@)),
    ensures
        r.0 <= storage.len(),
        forall|i: int| 0 <= i < r.0 ==> (#[trigger] storage@[i]).0.precedes(account),
        r.1 ==> r.0 < storage.len() && storage@[r.0 as int].0 == account,
        !r.1 ==> forall|i: int|
            r.0 <= i < storage.len() ==> account.precedes((#[trigger] storage@[i]).0),
        r.1 == contains_account(storage@, account),
{
    let ghost accounts = accounts_of(storage@);
    let mut i: usize = 0;
    while i < storage.len()
        invariant
            i <= storage.len(),
            accounts == accounts_of(storage@),
            strictly_ascending(accounts),
            forall|j: int| 0 <= j < i ==> (#[trigger] storage@[j]).0.precedes(account),
        decreases storage.len() - i,
    {
        let current: AccountId = storage[i].0;
        if current == account {
            return (i, true);
        }
        if account.lt(&current) {
            proof {
                assert forall|j: int| i <= j < storage.len() implies account.precedes(
                    (#[trigger] storage@[j]).0,
                ) by {
                    if i < j {
                        assert(accounts[i as int].precedes(accounts[j]));
                    }
                }
            }
            return (i, false);
        }
        i = i + 1;
    }
    (i, false)
}

/// Puts `value` under `account`, in place of what was there.
fn upsert(
    storage: &mut Vec<(AccountId, NominatorStorage)>,
    account: AccountId,
    value: NominatorStorage,
)
    requires
        strictly_ascending(accounts_of(old(storage)@)),
    ensures
        strictly_ascending(accounts_of(final(storage)@)),
        to_map(entry_views(final(storage)@)) == to_map(entry_views(old(storage)@)).insert(
            account,
            value@,
        ),
{
    let ghost before = storage@;
    let ghost item = (account, value);
    let (index, found) = find(storage, account);
    if found {
        storage.set(index, (account, value));
    } else {
        storage.insert(index, (account, value));
    }
    proof {
        let after = storage@;
        let position = index as int;
        if found {
            assert(accounts_of(after) =~= accounts_of(before));
        } else {
            before.insert_ensures(position, item);
            assert forall|i: int, j: int| 0 <= i < j < after.len() implies (#[trigger] accounts_of(
                after,
            )[i]).precedes(#[trigger] accounts_of(after)[j]) by {
                lemma_inserted_ascending(before, position, item, i, j);
            }
        }
        lemma_upsert_map(before, after, position, found, item);
    }
}

/// The entry of `after` at `i`, in terms of `before`, where `after` is
/// `before` with `item` put at `position`.
proof fn lemma_inserted_at(
    before: Seq<(AccountId, NominatorStorage)>,
    position: int,
    item: (AccountId, NominatorStorage),
    i: int,
)
    requires
        0 <= position <= before.len(),
        0 <= i <= before.len(),
    ensures
        i < position ==> before.insert(position, item)[i] == before[i],
        i == position ==> before.insert(position, item)[i] == item,
        i > position ==> before.insert(position, item)[i] == before[i - 1],
{
    before.insert_ensures(position, item);
    if i > position {
        assert(before.insert(position, item)[(i - 1) + 1] == before[i - 1]);
    }
}

/// Ascending entries stay ascending when `item` is put where the accounts
/// before it precede its account and those after it follow.
proof fn lemma_inserted_ascending(
    before: Seq<(AccountId, NominatorStorage)>,
    position: int,
    item: (AccountId, NominatorStorage),
    i: int,
    j: int,
)
    requires
        strictly_ascending(accounts_of(before)),
        0 <= position <= before.len(),
        forall|k: int| 0 <= k < position ==> (#[trigger] before[k]).0.precedes(item.0),
        forall|k: int| position <= k < before.len() ==> item.0.precedes((#[trigger] before[k]).0),
        0 <= i < j <= before.len(),
    ensures
        before.insert(position, item)[i].0.precedes(before.insert(position, item)[j].0),
{
    lemma_inserted_at(before, position, item, i);
    lemma_inserted_at(before, position, item, j);
    let accounts = accounts_of(before);
    if i < position && j > position {
        assert(accounts[i].precedes(accounts[j - 1]) || i == j - 1);
        assert(before[i].0.precedes(item.0));
        assert(item.0.precedes(before[j - 1].0));
    } else if i < position && j < position {
        assert(accounts[i].precedes(accounts[j]));
    } else if i > position {
        assert(accounts[i - 1].precedes(accounts[j - 1]));
    } else if i == position {
        assert(item.0.precedes(before[j - 1].0));
    } else {
        assert(before[i].0.precedes(item.0));
    }
}

/// Putting an entry among ascending entries, in place of the entry of its
/// account or where it keeps them ascending, puts it into their map.
proof fn lemma_upsert_map(
    before: Seq<(AccountId, NominatorStorage)>,
    after: Seq<(AccountId, NominatorStorage)>,
    position: int,
    found: bool,
    item: (AccountId, NominatorStorage),
)
    requires
        strictly_ascending(accounts_of(before)),
        strictly_ascending(accounts_of(after)),
        0 <= position <= before.len(),
        found == contains_account(before, item.0),
        found ==> position < before.len() && before[position].0 == item.0 && after
            == before.update(position, item),
        !found ==> after == before.insert(position, item),
    ensures
        to_map(entry_views(after)) == to_map(entry_views(before)).insert(item.0, item.1@),
{
    let old_views = entry_views(before);
    let new_views = entry_views(after);
    let old_map = to_map(old_views);
    let new_map = to_map(new_views);
    let expected = old_map.insert(item.0, item.1@);
    assert(accounts_of(old_views) =~= accounts_of(before));
    assert(accounts_of(new_views) =~= accounts_of(after));
    if !found {
        before.insert_ensures(position, item);
    }
    assert(new_views[position] == (item.0, item.1@));
    lemma_to_map_at(new_views, position);
    assert forall|account: AccountId| new_map.contains_key(account) implies #[trigger]
        expected.contains_key(account) && new_map[account] == expected[account] by {
        let i = index_of(new_views, account);
        lemma_to_map_at(new_views, i);
        if account != item.0 {
            if found {
                assert(old_views[i] == new_views[i]);
                lemma_to_map_at(old_views, i);
            } else {
                lemma_inserted_at(before, position, item, i);
                if i < position {
                    assert(old_views[i] == new_views[i]);
                    lemma_to_map_at(old_views, i);
                } else {
                    assert(old_views[i - 1] == new_views[i]);
                    lemma_to_map_at(old_views, i - 1);
                }
            }
        }
    }
    assert forall|account: AccountId| expected.contains_key(account) implies #[trigger]
        new_map.contains_key(account) by {
        if account != item.0 {
            let i = index_of(old_views, account);
            assert(old_views[i].0 == account);
            if found {
                assert(new_views[i] == old_views[i]);
                lemma_to_map_at(new_views, i);
            } else if i < position {
                lemma_inserted_at(before, position, item, i);
                assert(new_views[i] == old_views[i]);
                lemma_to_map_at(new_views, i);
            } else {
                lemma_inserted_at(before, position, item, i + 1);
                assert(new_views[i + 1] == old_views[i]);
                lemma_to_map_at(new_views, i + 1);
            }
        }
    }
    assert(new_map =~= expected);
}

/// The epochs whose share price the records of one nominator wait for: that
/// of a pending deposit, then that of a withdrawal in shares.
pub open spec fn awaited_epochs(storage: NominatorStorageView) -> Seq<DomainEpoch> {
    let of_deposit = match storage.deposit.pending {
        Some(pending) => seq![pending.effective_domain_epoch],
        None => Seq::empty(),
    };
    let of_withdrawal = match storage.withdrawal {
        Some(WithdrawalView { withdrawal_in_shares: Some(pending), .. }) => seq![
            pending.domain_epoch,
        ],
        _ => Seq::empty(),
    };
    of_deposit + of_withdrawal
}

/// The epochs that the records of `nominators` wait for, nominator by
/// nominator.
pub open spec fn all_awaited_epochs(nominators: Seq<(AccountId, NominatorStorageView)>) -> Seq<
    DomainEpoch,
>
    decreases nominators.len(),
{
    if nominators.len() == 0 {
        Seq::empty()
    } else {
        all_awaited_epochs(nominators.drop_last()) + awaited_epochs(nominators.last().1)
    }
}

/// The nominators of one operator with their records.
#[derive(Debug)]
pub struct OperatorNominators {
    operator_id: OperatorId,
    nominator_storage: Vec<(AccountId, NominatorStorage)>,
}

/// What `OperatorNominators` hold.
pub struct OperatorNominatorsView {
    /// The operator the nominators belong to.
    pub operator_id: OperatorId,
    /// The nominators and their records, in ascending order of account.
    pub nominator_storage: Seq<(AccountId, NominatorStorageView)>,
}

impl View for OperatorNominators {
    type V = OperatorNominatorsView;

    closed spec fn view(&self) -> OperatorNominatorsView {
        OperatorNominatorsView {
            operator_id: self.operator_id,
            nominator_storage: entry_views(self.nominator_storage@),
        }
    }
}

impl OperatorNominators {
    #[verifier::type_invariant]
    spec fn ordered(self) -> bool {
        strictly_ascending(accounts_of(self.nominator_storage@))
    }

    /// The operator the nominators belong to.
    pub fn operator_id(&self) -> (id: OperatorId)
        ensures
            id == self@.operator_id,
    {
        self.operator_id
    }

    /// The records of the nominators by account.
    pub open spec fn by_account(self) -> Map<AccountId, NominatorStorageView> {
        to_map(self@.nominator_storage)
    }

    /// Holds the assembled nominators against the number of nominators that
    /// the pool reports, which leaves out the operator's own.
    pub fn check_nominator_count(&self, pool_nominator_count: u32) -> (r: Result<
        (),
        SettlementError,
    >)
        ensures
            r is Ok <==> self@.nominator_storage.len() == pool_nominator_count + 1,
            r is Err ==> r.unwrap_err() == SettlementError::NominatorCountMismatch,
    {
        let expected: u64 = pool_nominator_count as u64 + 1;
        let assembled: usize = self.nominator_storage.len();
        if assembled as u64 == expected {
            Ok(())
        } else {
            Err(SettlementError::NominatorCountMismatch)
        }
    }

    /// The epochs whose share price has to be looked up before the
    /// nominators can be settled in full.
    pub fn pending_epochs(&self) -> (epochs: Vec<DomainEpoch>)
        ensures
            epochs@ == all_awaited_epochs(self@.nominator_storage),
    {
        let mut epochs: Vec<DomainEpoch> = Vec::new();
        let mut i: usize = 0;
        while i < self.nominator_storage.len()
            invariant
                i <= self.nominator_storage.len(),
                epochs@ == all_awaited_epochs(self@.nominator_storage.take(i as int)),
            decreases self.nominator_storage.len() - i,
        {
            let ghost before = epochs@;
            let storage = &self.nominator_storage[i].1;
            if let Some(pending) = storage.deposit.pending {
                epochs.push(pending.effective_domain_epoch);
            }
            if let Some(withdrawal) = &storage.withdrawal {
                if let Some(pending) = withdrawal.withdrawal_in_shares {
                    epochs.push(pending.domain_epoch);
                }
            }
            proof {
                let next = self@.nominator_storage.take(i + 1);
                assert(next.drop_last() =~= self@.nominator_storage.take(i as int));
                assert(next.last().1 == storage@);
                assert(epochs@ =~= before + awaited_epochs(storage@));
            }
            i = i + 1;
        }
        proof {
            let all = self@.nominator_storage;
            assert(all.take(all.len() as int) =~= all);
        }
        epochs
    }

    /// The number of nominators.
    pub fn len(&self) -> (n: usize)
        ensures
            n == self@.nominator_storage.len(),
    {
        self.nominator_storage.len()
    }

    /// The nominators and their records, in ascending order of account.
    pub fn nominator_storage(&self) -> (entries: &Vec<(AccountId, NominatorStorage)>)
        ensures
            entry_views(entries@) == self@.nominator_storage,
            strictly_ascending(accounts_of(self@.nominator_storage)),
    {
        proof {
            use_type_invariant(self);
            assert(accounts_of(self@.nominator_storage) =~= accounts_of(self.nominator_storage@));
        }
        &self.nominator_storage
    }

    /// Gives up the nominators and their records, in ascending order of
    /// account.
    pub fn into_nominator_storage(self) -> (entries: Vec<(AccountId, NominatorStorage)>)
        ensures
            entry_views(entries@) == self@.nominator_storage,
            strictly_ascending(accounts_of(self@.nominator_storage)),
    {
        proof {
            use_type_invariant(&self);
            assert(accounts_of(self@.nominator_storage) =~= accounts_of(self.nominator_storage@));
        }
        self.nominator_storage
    }
}

/// Merges the deposits and the withdrawals read for one operator into one
/// record for each nominator.
///
/// The deposits say who the nominators are: a withdrawal of an account
/// without a deposit abandons the run.
#[verifier::loop_isolation(false)]
pub fn get_nominator_deposits_and_withdrawal(
    operator_id: OperatorId,
    deposits: Vec<(AccountId, Deposit)>,
    withdrawals: Vec<(AccountId, Withdrawal)>,
) -> (r: Result<OperatorNominators, SettlementError>)
    ensures
        r is Err <==> some_withdrawal_unmatched(
            with_deposits(deposits@),
            withdrawal_views(withdrawals@),
        ),
        r is Err ==> r.unwrap_err() == SettlementError::MissingDeposit,
        r is Ok ==> r.unwrap()@.operator_id == operator_id,
        r is Ok ==> r.unwrap().by_account() == with_withdrawals(
            with_deposits(deposits@),
            withdrawal_views(withdrawals@),
        ),
        r is Ok ==> strictly_ascending(accounts_of(r.unwrap()@.nominator_storage)),
{
    let mut storage: Vec<(AccountId, NominatorStorage)> = Vec::new();
    proof {
        assert(to_map(entry_views(storage@)) =~= with_deposits(deposits@.take(0)));
    }
    for entry in iter: deposits
        invariant
            iter.seq() == deposits@,
            strictly_ascending(accounts_of(storage@)),
            to_map(entry_views(storage@)) == with_deposits(deposits@.take(iter.index() as int)),
    {
        let (nominator_id, deposit) = entry;
        proof {
            let next = deposits@.take(iter.index() + 1);
            assert(next.drop_last() =~= deposits@.take(iter.index() as int));
            assert(next.last() == (nominator_id, deposit));
        }
        upsert(&mut storage, nominator_id, NominatorStorage { deposit, withdrawal: None });
    }
    let ghost by_deposit = with_deposits(deposits@);
    let ghost views = withdrawal_views(withdrawals@);
    proof {
        assert(deposits@.take(deposits@.len() as int) =~= deposits@);
    }
    for entry in iter: withdrawals
        invariant
            iter.seq() == withdrawals@,
            views == withdrawal_views(withdrawals@),
            strictly_ascending(accounts_of(storage@)),
            !some_withdrawal_unmatched(by_deposit, views.take(iter.index() as int)),
            to_map(entry_views(storage@)) == with_withdrawals(
                by_deposit,
                views.take(iter.index() as int),
            ),
    {
        let ghost index = iter.index() as int;
        let (nominator_id, withdrawal) = entry;
        proof {
            let next = views.take(index + 1);
            assert(next.drop_last() =~= views.take(index));
            assert(next.last() == (nominator_id, withdrawal@));
            assert(views[index] == (nominator_id, withdrawal@));
            lemma_with_withdrawals_keeps_deposits(by_deposit, views.take(index));
        }
        let (position, found) = find(&storage, nominator_id);
        proof {
            assert(accounts_of(entry_views(storage@)) =~= accounts_of(storage@));
            if found {
                assert(entry_views(storage@)[position as int].0 == nominator_id);
                lemma_to_map_at(entry_views(storage@), position as int);
            } else {
                assert(!contains_account(entry_views(storage@), nominator_id)) by {
                    if contains_account(entry_views(storage@), nominator_id) {
                        let i = index_of(entry_views(storage@), nominator_id);
                        assert(storage@[i].0 == nominator_id);
                    }
                }
            }
            assert(found == by_deposit.contains_key(nominator_id));
        }
        if !found {
            proof {
                assert(!by_deposit.contains_key(views[index].0));
            }
            return Err(SettlementError::MissingDeposit);
        }
        let deposit: Deposit = storage[position].1.deposit;
        proof {
            assert forall|j: int| 0 <= j < index + 1 implies by_deposit.contains_key(
                (#[trigger] views.take(index + 1)[j]).0,
            ) by {
                if j < index {
                    assert(views.take(index)[j] == views.take(index + 1)[j]);
                }
            }
        }
        upsert(
            &mut storage,
            nominator_id,
            NominatorStorage { deposit, withdrawal: Some(withdrawal) },
        );
    }
    proof {
        assert(views.take(views.len() as int) =~= views);
        assert(accounts_of(entry_views(storage@)) =~= accounts_of(storage@));
    }
    Ok(OperatorNominators { operator_id, nominator_storage: storage })
}

} // verus!
