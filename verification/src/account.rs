//! Per-client account state and the keyed account store.

use std::collections::HashMap;

use vstd::prelude::*;

use crate::codec::{all_digits, digits_value, parse_digits_capped};
use crate::currency::Currency;
use crate::errors::{ErrorKind, ParseError};
use crate::model::{
    lemma_fresh_inv, lemma_store_empty_inv, lemma_store_step_inv, lemma_store_with_account_inv,
    replay, spec_apply, AccountModel, StoreModel,
};
use crate::processor::apply_transaction;
use crate::transaction::{Transaction, TransactionType};

verus! {

broadcast use vstd::std_specs::hash::group_hash_axioms;

/// Opaque unsigned identity of a client; stable, never reused.
#[derive(Debug, Clone, Copy, PartialEq, Eq, Hash, Structural)]
pub struct ClientId {
    id: u16,
}

impl View for ClientId {
    type V = u16;

    /// The underlying integer identity.
    closed spec fn view(&self) -> u16 {
        self.id
    }
}

impl ClientId {
    /// The underlying integer identity.
    pub fn value(&self) -> (v: u16)
        ensures
            v == self@,
    {
        self.id
    }
}

impl ClientId {
    /// The identity wrapping the given integer.
    pub fn from(value: u16) -> (r: ClientId)
        ensures
            r@ == value,
    {
        ClientId { id: value }
    }

    /// Parse a client id from its decimal digits; fails with
    /// `InvalidClientId` on anything but an in-range unsigned integer.
    pub fn parse(s: &[u8]) -> (r: Result<ClientId, ParseError>)
        ensures
            match r {
                Ok(c) => {
                    &&& s@.len() > 0
                    &&& all_digits(s@)
                    &&& digits_value(s@) <= u16::MAX as int
                    &&& c@ == digits_value(s@)
                },
                Err(e) => {
                    &&& e == ParseError::InvalidClientId
                    &&& !{
                        &&& s@.len() > 0
                        &&& all_digits(s@)
                        &&& digits_value(s@) <= u16::MAX as int
                    }
                },
            },
    {
        proof {
            assert(s@.subrange(0, s@.len() as int) =~= s@);
        }
        match parse_digits_capped(s, 0, s.len(), 65535) {
            Some(v) => Ok(ClientId { id: v as u16 }),
            None => Err(ParseError::InvalidClientId),
        }
    }
}

/// Whether an account still accepts transactions.
///
/// The transition is monotonic: `Active` moves to `Locked` only through a
/// successful chargeback, and a locked account never becomes active again.
#[derive(Debug, Clone, Copy, PartialEq, Eq, Structural)]
pub enum AccountStatus {
    /// The account accepts transactions.
    Active,
    /// A chargeback has frozen the account; every transaction is rejected.
    Locked,
}

/// Per-client ledger state: balances, status, transaction index, dispute
/// list and audit history.
///
/// The type itself enforces no business rules beyond bookkeeping: every
/// mutation after creation happens through the transaction-application
/// algorithm, which maintains [`AccountModel::inv`] on the view.
#[derive(Debug)]
pub struct Account {
    /// The owning client; fixed at creation.
    pub client_id: ClientId,
    /// Full copy of this account's transaction history, in application
    /// order, for auditing purposes.
    pub history: Vec<Transaction>,
    /// Index of applied deposits and withdrawals, for dispute lookups;
    /// insertion-only.
    pub transactions: HashMap<u32, Transaction>,
    /// Ids currently under dispute, in the order the disputes were opened.
    pub disputes: Vec<u32>,
    /// Funds the client may currently withdraw.
    pub available: Currency,
    /// Funds frozen by open disputes.
    pub held: Currency,
    /// Full balance: available plus held.
    pub total: Currency,
    /// Whether a chargeback has frozen the account; mutated only by
    /// [`Account::freeze`].
    pub status: AccountStatus,
}

impl View for Account {
    type V = AccountModel;

    open spec fn view(&self) -> AccountModel {
        AccountModel {
            client_id: self.client_id@,
            history: self.history@,
            transactions: self.transactions@,
            disputes: self.disputes@,
            available: self.available@,
            held: self.held@,
            total: self.total@,
            locked: self.status is Locked,
        }
    }
}

impl Account {
    /// The account is well formed: its view satisfies the ledger invariants.
    pub open spec fn wf(&self) -> bool {
        self@.inv()
    }

    /// A freshly created, zero-balance, active account for `client_id`.
    pub fn new(client_id: ClientId) -> (a: Account)
        ensures
            a@ == AccountModel::fresh(client_id@),
            a.wf(),
    {
        let a = Account {
            client_id,
            history: Vec::new(),
            transactions: HashMap::new(),
            disputes: Vec::new(),
            available: Currency::zero(),
            held: Currency::zero(),
            total: Currency::zero(),
            status: AccountStatus::Active,
        };
        proof {
            assert(a@ =~= AccountModel::fresh(client_id@)) by {
                assert(a.history@ =~= Seq::<Transaction>::empty());
                assert(a.disputes@ =~= Seq::<u32>::empty());
            }
            lemma_fresh_inv(client_id@);
        }
        a
    }

    /// Whether a chargeback has locked the account.
    pub fn is_locked(&self) -> (r: bool)
        ensures
            r == self@.locked,
    {
        self.status == AccountStatus::Locked
    }

    /// Transition the account to `Locked`; called only by the chargeback
    /// branch of the transaction-application algorithm.
    pub fn freeze(&mut self)
        ensures
            final(self)@ == (AccountModel { locked: true, ..old(self)@ }),
    {
        self.status = AccountStatus::Locked
    }

    /// Audit this account against the ledger invariants: the balances are
    /// consistent, the lock status agrees with the history, and replaying the
    /// full history through the application algorithm, from a fresh account
    /// with the same client id, reproduces this account's state exactly.
    pub fn sanity_check(&self)
        requires
            self.wf(),
    {
        assert(self@.available == self@.total - self@.held);
        assert(self@.held >= 0);
        assert(self@.locked <==> (self@.history.len() > 0
            && self@.history.last().transaction_type == TransactionType::Chargeback));

        let mut replayed = Account::new(self.client_id);
        let mut i: usize = 0;
        while i < self.history.len()
            invariant
                0 <= i <= self.history@.len(),
                replayed.wf(),
                replayed@ == replay(self.client_id@, self.history@.take(i as int)),
            decreases self.history@.len() - i,
        {
            proof {
                let prefix = self.history@.take(i as int + 1);
                assert(prefix.drop_last() =~= self.history@.take(i as int));
                assert(prefix.last() == self.history@[i as int]);
            }
            let _ = apply_transaction(self.history[i], &mut replayed);
            i += 1;
        }
        proof {
            assert(self.history@.take(self.history@.len() as int) =~= self.history@);
        }
        assert(replayed@ == self@);
    }
}

/// One row of a ledger snapshot: a client's balances and lock status at the
/// moment the account was read.
#[derive(Debug, Clone, Copy, PartialEq, Eq, Structural)]
pub struct SnapshotRow {
    /// The client the row describes.
    pub client: ClientId,
    /// Funds the client may currently withdraw.
    pub available: Currency,
    /// Funds frozen by open disputes.
    pub held: Currency,
    /// Full balance: available plus held.
    pub total: Currency,
    /// Whether a chargeback has locked the account.
    pub locked: bool,
}

/// Whether `row` reports exactly the state of account `a`.
pub open spec fn row_reports(row: SnapshotRow, client_id: u16, a: AccountModel) -> bool {
    &&& row.client@ == client_id
    &&& row.available@ == a.available
    &&& row.held@ == a.held
    &&& row.total@ == a.total
    &&& row.locked == a.locked
}

/// The store of all known accounts, keyed by client id and created lazily:
/// the first transaction for an unknown client creates a zero-balance,
/// active account. Entries are never removed.
pub struct AccountDatabase {
    /// Account data, keyed by client id.
    pub data: HashMap<u16, Account>,
    /// Client ids in account-creation order; drives snapshot iteration.
    pub clients: Vec<u16>,
}

impl View for AccountDatabase {
    type V = StoreModel;

    open spec fn view(&self) -> StoreModel {
        StoreModel {
            order: self.clients@,
            accounts: Map::new(
                |k: u16| self.data@.contains_key(k),
                |k: u16| self.data@[k]@,
            ),
        }
    }
}

impl AccountDatabase {
    /// The store is well formed: its view satisfies the store invariants.
    pub open spec fn wf(&self) -> bool {
        self@.inv()
    }

    /// An empty store.
    pub fn new() -> (db: AccountDatabase)
        ensures
            db@ == StoreModel::empty(),
            db.wf(),
    {
        let db = AccountDatabase { data: HashMap::new(), clients: Vec::new() };
        proof {
            assert(db@.accounts =~= Map::<u16, AccountModel>::empty());
            assert(db@ =~= StoreModel::empty());
            lemma_store_empty_inv();
        }
        db
    }

    /// Look the client's account up, creating a fresh one on first reference.
    pub fn account(&mut self, client_id: ClientId) -> (a: &Account)
        requires
            old(self).wf(),
        ensures
            final(self).wf(),
            final(self)@ == old(self)@.with_account(client_id@),
            a@ == old(self)@.account_of(client_id@),
    {
        let cid = client_id.value();
        if !self.data.contains_key(&cid) {
            let fresh = Account::new(client_id);
            self.clients.push(cid);
            self.data.insert(cid, fresh);
            proof {
                lemma_store_with_account_inv(old(self)@, cid);
                assert(self@.accounts =~= old(self)@.with_account(cid).accounts);
                assert(self@ =~= old(self)@.with_account(cid));
            }
        }
        match self.data.get(&cid) {
            Some(account) => account,
            None => vstd::pervasive::unreached(),
        }
    }

    /// Validate and apply one transaction to its client's account, creating
    /// the account on first reference. A rejected transaction returns the
    /// transition's error and leaves the (possibly just created) account
    /// unchanged.
    pub fn process(&mut self, transaction: Transaction) -> (r: Result<(), ErrorKind>)
        requires
            old(self).wf(),
        ensures
            final(self).wf(),
            final(self)@ == old(self)@.step(transaction),
            match spec_apply(old(self)@.account_of(transaction.client_id@), transaction) {
                Ok(_) => r is Ok,
                Err(e) => r == Err::<(), ErrorKind>(e),
            },
    {
        let cid = transaction.client_id.value();
        let mut account = match self.data.remove(&cid) {
            Some(existing) => existing,
            None => {
                self.clients.push(cid);
                Account::new(transaction.client_id)
            },
        };
        proof {
            lemma_store_with_account_inv(old(self)@, cid);
        }
        let r = apply_transaction(transaction, &mut account);
        self.data.insert(cid, account);
        proof {
            lemma_store_step_inv(old(self)@, transaction);
            assert(self@.accounts =~= old(self)@.step(transaction).accounts);
            assert(self@ =~= old(self)@.step(transaction));
        }
        r
    }

    /// Apply a whole feed of transactions strictly in submission order,
    /// dropping rejected transactions, as the serializing ingestion worker
    /// does.
    pub fn process_all(&mut self, transactions: &Vec<Transaction>)
        requires
            old(self).wf(),
        ensures
            final(self).wf(),
            final(self)@ == old(self)@.run(transactions@),
    {
        let ghost orig = old(self)@;
        let mut i: usize = 0;
        while i < transactions.len()
            invariant
                0 <= i <= transactions@.len(),
                self.wf(),
                self@ == orig.run(transactions@.take(i as int)),
            decreases transactions@.len() - i,
        {
            proof {
                let prefix = transactions@.take(i as int + 1);
                assert(prefix.drop_last() =~= transactions@.take(i as int));
                assert(prefix.last() == transactions@[i as int]);
            }
            let _ = self.process(transactions[i]);
            i += 1;
        }
        proof {
            assert(transactions@.take(transactions@.len() as int) =~= transactions@);
        }
    }

    /// A point-in-time export of every account's balances and lock status,
    /// one row per known client, in account-creation order.
    pub fn snapshot(&self) -> (rows: Vec<SnapshotRow>)
        requires
            self.wf(),
        ensures
            rows@.len() == self@.order.len(),
            forall|i: int|
                0 <= i < rows@.len() ==> row_reports(
                    #[trigger] rows@[i],
                    self@.order[i],
                    self@.accounts[self@.order[i]],
                ),
    {
        let mut rows: Vec<SnapshotRow> = Vec::new();
        let mut i: usize = 0;
        while i < self.clients.len()
            invariant
                0 <= i <= self.clients@.len(),
                self.wf(),
                rows@.len() == i,
                forall|j: int|
                    0 <= j < i ==> row_reports(
                        #[trigger] rows@[j],
                        self@.order[j],
                        self@.accounts[self@.order[j]],
                    ),
            decreases self.clients@.len() - i,
        {
            let cid = self.clients[i];
            proof {
                assert(self@.order.contains(cid)) by {
                    assert(self@.order[i as int] == cid);
                }
            }
            let account = match self.data.get(&cid) {
                Some(account) => account,
                None => vstd::pervasive::unreached(),
            };
            let row = SnapshotRow {
                client: account.client_id,
                available: account.available,
                held: account.held,
                total: account.total,
                locked: account.is_locked(),
            };
            rows.push(row);
            i += 1;
        }
        rows
    }
}

} // verus!
