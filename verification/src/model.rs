//! The mathematical model of an account and of transaction application.
//!
//! [`AccountModel`] is the ghost state of one account; [`spec_apply`] is the
//! guarded transition that validates and applies one transaction to it. The
//! executable code in the rest of the crate is specified entirely against
//! these definitions, and the ledger laws at the end of this module are
//! proved of them once and for all.

use vstd::prelude::*;

use crate::currency::MAX_UNITS;
use crate::errors::ErrorKind;
use crate::transaction::{Transaction, TransactionType};

verus! {

/// The mathematical state of one account.
#[verifier::ext_equal]
pub struct AccountModel {
    /// The identity of the client owning the account.
    pub client_id: u16,
    /// Audit log of every transaction successfully applied, in order.
    pub history: Seq<Transaction>,
    /// Index of applied amount-bearing transactions, keyed by their id.
    pub transactions: Map<u32, Transaction>,
    /// Ids currently under dispute, in the order the disputes were opened.
    pub disputes: Seq<u32>,
    /// Funds the client may currently withdraw, in currency units.
    pub available: int,
    /// Funds frozen by open disputes, in currency units.
    pub held: int,
    /// Full balance: `available + held`, in currency units.
    pub total: int,
    /// Whether a chargeback has locked the account.
    pub locked: bool,
}

/// Sum, in currency units, of the amounts of the disputed transactions.
pub open spec fn sum_disputed(transactions: Map<u32, Transaction>, disputes: Seq<u32>) -> int
    decreases disputes.len(),
{
    if disputes.len() == 0 {
        0
    } else {
        sum_disputed(transactions, disputes.drop_last())
            + transactions[disputes.last()].amount@
    }
}

impl AccountModel {
    /// A freshly created, zero-balance, active account.
    pub open spec fn fresh(client_id: u16) -> AccountModel {
        AccountModel {
            client_id,
            history: Seq::empty(),
            transactions: Map::empty(),
            disputes: Seq::empty(),
            available: 0,
            held: 0,
            total: 0,
            locked: false,
        }
    }

    /// The account invariants; they hold of every reachable account state.
    pub open spec fn inv(self) -> bool {
        &&& self.available == self.total - self.held
        &&& 0 <= self.held <= MAX_UNITS as int
        &&& -(MAX_UNITS as int) <= self.total <= MAX_UNITS as int
        &&& (!self.locked ==> 0 <= self.total)
        &&& (self.locked <==> (self.history.len() > 0
            && self.history.last().transaction_type == TransactionType::Chargeback))
        &&& (forall|tid: u32|
            #[trigger] self.transactions.contains_key(tid) ==> {
                &&& 0 <= self.transactions[tid].amount@ <= MAX_UNITS as int
                &&& (self.transactions[tid].transaction_type == TransactionType::Deposit
                    || self.transactions[tid].transaction_type == TransactionType::Withdrawal)
                &&& self.transactions[tid].transaction_id@ == tid
            })
        &&& (forall|i: int|
            0 <= i < self.disputes.len() ==> self.transactions.contains_key(
                #[trigger] self.disputes[i],
            ))
        &&& (forall|i: int, j: int|
            0 <= i < j < self.disputes.len() ==> #[trigger] self.disputes[i]
                != #[trigger] self.disputes[j])
        &&& self.held == sum_disputed(self.transactions, self.disputes)
        &&& self == replay(self.client_id, self.history)
    }
}

/// The transition for a deposit, after the common guards have passed; the
/// history entry is appended by [`spec_apply`].
pub open spec fn spec_apply_deposit(a: AccountModel, t: Transaction) -> Result<
    AccountModel,
    ErrorKind,
> {
    let tid = t.transaction_id@;
    let amt = t.amount@;
    if a.transactions.contains_key(tid) {
        Err(ErrorKind::DuplicateTransaction)
    } else if a.total + amt > MAX_UNITS as int {
        Err(ErrorKind::AmountOutOfRange)
    } else {
        Ok(
            AccountModel {
                transactions: a.transactions.insert(tid, t),
                available: a.available + amt,
                total: a.total + amt,
                ..a
            },
        )
    }
}

/// The transition for a withdrawal, after the common guards have passed; the
/// history entry is appended by [`spec_apply`].
pub open spec fn spec_apply_withdrawal(a: AccountModel, t: Transaction) -> Result<
    AccountModel,
    ErrorKind,
> {
    let tid = t.transaction_id@;
    let amt = t.amount@;
    if a.transactions.contains_key(tid) {
        Err(ErrorKind::DuplicateTransaction)
    } else if a.available < amt {
        Err(ErrorKind::InsufficientFunds)
    } else {
        Ok(
            AccountModel {
                transactions: a.transactions.insert(tid, t),
                available: a.available - amt,
                total: a.total - amt,
                ..a
            },
        )
    }
}

/// The transition for a dispute, after the common guards have passed; the
/// history entry is appended by [`spec_apply`].
pub open spec fn spec_apply_dispute(a: AccountModel, t: Transaction) -> Result<
    AccountModel,
    ErrorKind,
> {
    let tid = t.transaction_id@;
    if !a.transactions.contains_key(tid) {
        Err(ErrorKind::TransactionNotFound)
    } else if a.disputes.contains(tid) {
        Err(ErrorKind::AlreadyDisputed)
    } else if a.held + a.transactions[tid].amount@ > MAX_UNITS as int {
        Err(ErrorKind::AmountOutOfRange)
    } else {
        let amt = a.transactions[tid].amount@;
        Ok(
            AccountModel {
                disputes: a.disputes.push(tid),
                available: a.available - amt,
                held: a.held + amt,
                ..a
            },
        )
    }
}

/// The transition for a resolve, after the common guards have passed; the
/// history entry is appended by [`spec_apply`].
///
/// Settling a dispute closes it: the id leaves the disputed set, so the same
/// dispute cannot be resolved or charged back twice — settling one dispute
/// twice could drive the held balance below zero. The id stays indexed, so
/// it may be disputed anew later.
pub open spec fn spec_apply_resolve(a: AccountModel, t: Transaction) -> Result<
    AccountModel,
    ErrorKind,
> {
    let tid = t.transaction_id@;
    if !a.disputes.contains(tid) {
        Err(ErrorKind::NotDisputed)
    } else if !a.transactions.contains_key(tid) {
        Err(ErrorKind::TransactionNotFound)
    } else {
        let amt = a.transactions[tid].amount@;
        Ok(
            AccountModel {
                disputes: a.disputes.remove_value(tid),
                available: a.available + amt,
                held: a.held - amt,
                ..a
            },
        )
    }
}

/// The transition for a chargeback, after the common guards have passed; the
/// history entry is appended by [`spec_apply`].
///
/// As with a resolve, settling the dispute removes its id from the disputed
/// set; the account is then locked, so nothing further is accepted anyway.
pub open spec fn spec_apply_chargeback(a: AccountModel, t: Transaction) -> Result<
    AccountModel,
    ErrorKind,
> {
    let tid = t.transaction_id@;
    if !a.disputes.contains(tid) {
        Err(ErrorKind::NotDisputed)
    } else if !a.transactions.contains_key(tid) {
        Err(ErrorKind::TransactionNotFound)
    } else {
        let amt = a.transactions[tid].amount@;
        Ok(
            AccountModel {
                disputes: a.disputes.remove_value(tid),
                held: a.held - amt,
                total: a.total - amt,
                locked: true,
                ..a
            },
        )
    }
}

/// The guarded transition of one transaction against one account.
///
/// Validation precedes mutation: an `Err` leaves the account exactly as it
/// was, an `Ok` carries the complete successor state, with the applied
/// transaction appended to the history.
pub open spec fn spec_apply(a: AccountModel, t: Transaction) -> Result<AccountModel, ErrorKind> {
    if a.locked {
        Err(ErrorKind::AccountLocked)
    } else if t.amount@ < 0 {
        Err(ErrorKind::InvalidAmount)
    } else {
        let stepped = match t.transaction_type {
            TransactionType::Deposit => spec_apply_deposit(a, t),
            TransactionType::Withdrawal => spec_apply_withdrawal(a, t),
            TransactionType::Dispute => spec_apply_dispute(a, t),
            TransactionType::Resolve => spec_apply_resolve(a, t),
            TransactionType::Chargeback => spec_apply_chargeback(a, t),
        };
        match stepped {
            Ok(next) => Ok(AccountModel { history: a.history.push(t), ..next }),
            Err(e) => Err(e),
        }
    }
}

/// The state reached by replaying `history` in order from a fresh account
/// with the given client id, skipping entries the transition rejects.
pub open spec fn replay(client_id: u16, history: Seq<Transaction>) -> AccountModel
    decreases history.len(),
{
    if history.len() == 0 {
        AccountModel::fresh(client_id)
    } else {
        let prev = replay(client_id, history.drop_last());
        match spec_apply(prev, history.last()) {
            Ok(next) => next,
            Err(_) => prev,
        }
    }
}

/// The mathematical state of the account store: the set of known accounts,
/// keyed by client id, and the order in which they were created.
#[verifier::ext_equal]
pub struct StoreModel {
    /// Client ids in account-creation order.
    pub order: Seq<u16>,
    /// The per-client account states.
    pub accounts: Map<u16, AccountModel>,
}

impl StoreModel {
    /// A store with no accounts.
    pub open spec fn empty() -> StoreModel {
        StoreModel { order: Seq::empty(), accounts: Map::empty() }
    }

    /// The store invariants: the creation order lists exactly the known
    /// clients, once each, and every account is valid and keyed by its own
    /// client id.
    pub open spec fn inv(self) -> bool {
        &&& (forall|k: u16| self.accounts.contains_key(k) <==> self.order.contains(k))
        &&& (forall|i: int, j: int|
            0 <= i < j < self.order.len() ==> #[trigger] self.order[i] != #[trigger] self.order[j])
        &&& (forall|k: u16|
            #[trigger] self.accounts.contains_key(k) ==> self.accounts[k].inv()
                && self.accounts[k].client_id == k)
    }

    /// The account a transaction for `client_id` is applied to: the known
    /// account, or a fresh one created on first reference.
    pub open spec fn account_of(self, client_id: u16) -> AccountModel {
        if self.accounts.contains_key(client_id) {
            self.accounts[client_id]
        } else {
            AccountModel::fresh(client_id)
        }
    }

    /// The store after the lazy, creation-on-first-reference lookup of
    /// `client_id`.
    pub open spec fn with_account(self, client_id: u16) -> StoreModel {
        if self.accounts.contains_key(client_id) {
            self
        } else {
            StoreModel {
                order: self.order.push(client_id),
                accounts: self.accounts.insert(client_id, AccountModel::fresh(client_id)),
            }
        }
    }

    /// The store after one transaction: the targeted account is created if
    /// unknown, then transitioned by [`spec_apply`]; a rejected transaction
    /// leaves the (possibly just created) account unchanged.
    pub open spec fn step(self, t: Transaction) -> StoreModel {
        let cid = t.client_id@;
        let created = self.with_account(cid);
        match spec_apply(self.account_of(cid), t) {
            Ok(m) => StoreModel { order: created.order, accounts: created.accounts.insert(cid, m) },
            Err(_) => created,
        }
    }

    /// The store after a whole feed of transactions, applied strictly in
    /// submission order, rejected transactions dropped.
    pub open spec fn run(self, transactions: Seq<Transaction>) -> StoreModel
        decreases transactions.len(),
    {
        if transactions.len() == 0 {
            self
        } else {
            self.run(transactions.drop_last()).step(transactions.last())
        }
    }
}

/// The empty store satisfies the store invariants.
pub proof fn lemma_store_empty_inv()
    ensures
        StoreModel::empty().inv(),
{
    assert(StoreModel::empty().order =~= Seq::<u16>::empty());
}

/// Appending a new id to a duplicate-free order keeps it duplicate-free, and
/// the appended order holds exactly the old ids and the new one.
pub proof fn lemma_order_push(order: Seq<u16>, cid: u16)
    requires
        forall|i: int, j: int|
            0 <= i < j < order.len() ==> #[trigger] order[i] != #[trigger] order[j],
        !order.contains(cid),
    ensures
        forall|i: int, j: int|
            0 <= i < j < order.push(cid).len() ==> #[trigger] order.push(cid)[i]
                != #[trigger] order.push(cid)[j],
        forall|k: u16| #[trigger] order.push(cid).contains(k) <==> (k == cid || order.contains(k)),
{
    let pushed = order.push(cid);
    assert forall|k: u16| #[trigger] pushed.contains(k) implies (k == cid || order.contains(
        k,
    )) by {
        let w = choose|w: int| 0 <= w < pushed.len() && pushed[w] == k;
        if w < order.len() {
            assert(order[w] == k);
        }
    }
    assert forall|k: u16| k == cid || order.contains(k) implies #[trigger] pushed.contains(k) by {
        if k == cid {
            assert(pushed[order.len() as int] == k);
        } else {
            let w = choose|w: int| 0 <= w < order.len() && order[w] == k;
            assert(pushed[w] == k);
        }
    }
    assert forall|i: int, j: int|
        0 <= i < j < pushed.len() implies #[trigger] pushed[i] != #[trigger] pushed[j] by {
        if j == order.len() as int {
            assert(pushed[i] == order[i]);
            if order[i] == cid {
                assert(order.contains(cid));
            }
        }
    }
}

/// The lazy creation of an account preserves the store invariants.
pub proof fn lemma_store_with_account_inv(s: StoreModel, cid: u16)
    requires
        s.inv(),
    ensures
        s.with_account(cid).inv(),
        s.with_account(cid).accounts.contains_key(cid),
        s.with_account(cid).accounts[cid] == s.account_of(cid),
{
    if !s.accounts.contains_key(cid) {
        lemma_fresh_inv(cid);
        lemma_order_push(s.order, cid);
    }
}

/// One store step preserves the store invariants.
pub proof fn lemma_store_step_inv(s: StoreModel, t: Transaction)
    requires
        s.inv(),
    ensures
        s.step(t).inv(),
{
    let cid = t.client_id@;
    lemma_store_with_account_inv(s, cid);
    lemma_spec_apply_preserves_inv(s.account_of(cid), t);
}

/// Inserting a binding for an id that is not disputed leaves the disputed sum
/// unchanged.
proof fn lemma_sum_insert_absent(
    transactions: Map<u32, Transaction>,
    disputes: Seq<u32>,
    tid: u32,
    t: Transaction,
)
    requires
        !disputes.contains(tid),
    ensures
        sum_disputed(transactions.insert(tid, t), disputes) == sum_disputed(
            transactions,
            disputes,
        ),
    decreases disputes.len(),
{
    if disputes.len() > 0 {
        assert(!disputes.drop_last().contains(tid)) by {
            assert(forall|i: int|
                0 <= i < disputes.drop_last().len() ==> disputes.drop_last()[i] == disputes[i]);
        }
        lemma_sum_insert_absent(transactions, disputes.drop_last(), tid, t);
        assert(disputes.contains(disputes.last()));
    }
}

/// Removing the entry at index `i` subtracts exactly its amount from the
/// disputed sum.
proof fn lemma_sum_remove(transactions: Map<u32, Transaction>, disputes: Seq<u32>, i: int)
    requires
        0 <= i < disputes.len(),
    ensures
        sum_disputed(transactions, disputes.remove(i)) == sum_disputed(transactions, disputes)
            - transactions[disputes[i]].amount@,
    decreases disputes.len(),
{
    if i == disputes.len() - 1 {
        assert(disputes.remove(i) =~= disputes.drop_last());
    } else {
        let removed = disputes.remove(i);
        assert(removed.drop_last() =~= disputes.drop_last().remove(i));
        assert(removed.last() == disputes.last());
        lemma_sum_remove(transactions, disputes.drop_last(), i);
    }
}

/// A disputed sum over non-negative amounts is non-negative.
proof fn lemma_sum_nonneg(transactions: Map<u32, Transaction>, disputes: Seq<u32>)
    requires
        forall|j: int| 0 <= j < disputes.len() ==> transactions[#[trigger] disputes[j]].amount@ >= 0,
    ensures
        sum_disputed(transactions, disputes) >= 0,
    decreases disputes.len(),
{
    if disputes.len() > 0 {
        lemma_sum_nonneg(transactions, disputes.drop_last());
    }
}

/// Each disputed amount is at most the disputed sum, when all amounts are
/// non-negative.
proof fn lemma_sum_element_bound(transactions: Map<u32, Transaction>, disputes: Seq<u32>, i: int)
    requires
        0 <= i < disputes.len(),
        forall|j: int| 0 <= j < disputes.len() ==> transactions[#[trigger] disputes[j]].amount@ >= 0,
    ensures
        transactions[disputes[i]].amount@ <= sum_disputed(transactions, disputes),
    decreases disputes.len(),
{
    if i == disputes.len() - 1 {
        lemma_sum_nonneg(transactions, disputes.drop_last());
    } else {
        lemma_sum_element_bound(transactions, disputes.drop_last(), i);
    }
}

/// In a valid account, the amount of any disputed transaction is covered by
/// the held balance.
pub proof fn lemma_disputed_amount_covered(a: AccountModel, tid: u32)
    requires
        a.inv(),
        a.disputes.contains(tid),
    ensures
        a.transactions.contains_key(tid),
        0 <= a.transactions[tid].amount@ <= a.held,
    decreases a.disputes.len(),
{
    let i = choose|i: int| 0 <= i < a.disputes.len() && a.disputes[i] == tid;
    lemma_sum_element_bound(a.transactions, a.disputes, i);
}

/// The fresh account satisfies the account invariants.
pub proof fn lemma_fresh_inv(client_id: u16)
    ensures
        AccountModel::fresh(client_id).inv(),
{
    assert(AccountModel::fresh(client_id).history =~= Seq::<Transaction>::empty());
}

/// Appending one transaction to a history replays as one transition on the
/// replayed prefix.
pub proof fn lemma_replay_push(client_id: u16, history: Seq<Transaction>, t: Transaction)
    ensures
        replay(client_id, history.push(t)) == (match spec_apply(replay(client_id, history), t) {
            Ok(next) => next,
            Err(_) => replay(client_id, history),
        }),
{
    let pushed = history.push(t);
    assert(pushed.drop_last() =~= history);
    assert(pushed.last() == t);
}

/// The transition preserves the account invariants: every state reachable
/// from a fresh account through `spec_apply` satisfies them. This covers the
/// balance law `available == total - held` with `held >= 0`, and the law that
/// an account is locked exactly when its last applied transaction is a
/// chargeback.
pub proof fn lemma_spec_apply_preserves_inv(a: AccountModel, t: Transaction)
    requires
        a.inv(),
    ensures
        spec_apply(a, t) is Ok ==> spec_apply(a, t)->Ok_0.inv(),
{
    if spec_apply(a, t) is Ok {
        let next = spec_apply(a, t)->Ok_0;
        let tid = t.transaction_id@;
        lemma_replay_push(a.client_id, a.history, t);
        match t.transaction_type {
            TransactionType::Deposit | TransactionType::Withdrawal => {
                assert(!a.disputes.contains(tid));
                lemma_sum_insert_absent(a.transactions, a.disputes, tid, t);
            },
            TransactionType::Dispute => {
                let ds = a.disputes.push(tid);
                assert(ds.drop_last() =~= a.disputes);
                assert(forall|i: int, j: int|
                    0 <= i < j < ds.len() ==> #[trigger] ds[i] != #[trigger] ds[j]) by {
                    assert(forall|i: int| 0 <= i < a.disputes.len() ==> ds[i] == a.disputes[i]);
                }
            },
            TransactionType::Resolve | TransactionType::Chargeback => {
                a.disputes.index_of_first_ensures(tid);
                let i = a.disputes.index_of_first(tid)->Some_0;
                lemma_sum_remove(a.transactions, a.disputes, i);
                lemma_disputed_amount_covered(a, tid);
                let ds = a.disputes.remove(i);
                a.disputes.remove_ensures(i);
                assert(forall|p: int|
                    0 <= p < ds.len() ==> a.transactions.contains_key(#[trigger] ds[p]));
                assert(next.disputes == ds);
            },
        }
    }
}

/// In every valid account state — and the transition preserves validity, so
/// in every reachable one — the available balance is exactly the total less
/// the held funds, and the held funds are never negative.
pub proof fn lemma_balances_consistent(a: AccountModel)
    requires
        a.inv(),
    ensures
        a.available == a.total - a.held,
        a.held >= 0,
{
}

/// In every valid account state, the account is locked exactly when the last
/// entry of its history is a chargeback.
pub proof fn lemma_locked_iff_last_chargeback(a: AccountModel)
    requires
        a.inv(),
    ensures
        a.locked <==> (a.history.len() > 0 && a.history.last().transaction_type
            == TransactionType::Chargeback),
{
}

/// Replaying an account's full history from a fresh account with the same
/// client id reproduces the account's state exactly.
pub proof fn lemma_replay_reproduces(a: AccountModel)
    requires
        a.inv(),
    ensures
        replay(a.client_id, a.history) == a,
{
}

/// A deposit or withdrawal whose transaction id is already indexed always
/// fails with `DuplicateTransaction`; the guards ahead of the duplicate check
/// (a locked account, a negative amount) are excluded by the preconditions.
/// By the contract of `apply_transaction`, any rejected transaction leaves
/// the account unchanged.
pub proof fn lemma_duplicate_id_rejected(a: AccountModel, t: Transaction)
    requires
        !a.locked,
        t.amount@ >= 0,
        t.transaction_type == TransactionType::Deposit || t.transaction_type
            == TransactionType::Withdrawal,
        a.transactions.contains_key(t.transaction_id@),
    ensures
        spec_apply(a, t) == Err::<AccountModel, ErrorKind>(ErrorKind::DuplicateTransaction),
{
}

/// A withdrawal asking for more than the available balance always fails with
/// `InsufficientFunds`; the guards checked ahead of the balance (a locked
/// account, a negative amount, a duplicate id) are excluded by the
/// preconditions.
pub proof fn lemma_overdraft_rejected(a: AccountModel, t: Transaction)
    requires
        !a.locked,
        t.amount@ >= 0,
        t.transaction_type == TransactionType::Withdrawal,
        !a.transactions.contains_key(t.transaction_id@),
        t.amount@ > a.available,
    ensures
        spec_apply(a, t) == Err::<AccountModel, ErrorKind>(ErrorKind::InsufficientFunds),
{
}

/// A dispute referencing a transaction id that was never indexed always
/// fails with `TransactionNotFound`; the guards checked ahead of the lookup
/// (a locked account, a negative amount) are excluded by the preconditions.
pub proof fn lemma_unknown_dispute_rejected(a: AccountModel, t: Transaction)
    requires
        !a.locked,
        t.amount@ >= 0,
        t.transaction_type == TransactionType::Dispute,
        !a.transactions.contains_key(t.transaction_id@),
    ensures
        spec_apply(a, t) == Err::<AccountModel, ErrorKind>(ErrorKind::TransactionNotFound),
{
}

} // verus!
