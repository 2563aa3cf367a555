//! The transaction-application state machine.
//!
//! [`apply_transaction`] validates one transaction against one account and
//! either mutates the account into exactly the successor state of the model
//! transition [`spec_apply`], or returns the transition's error and leaves
//! the account unchanged.

use vstd::prelude::*;

use crate::account::Account;
use crate::currency::MAX_UNITS;
use crate::errors::ErrorKind;
use crate::model::{
    lemma_disputed_amount_covered, lemma_spec_apply_preserves_inv, spec_apply, spec_apply_chargeback,
    spec_apply_deposit, spec_apply_dispute, spec_apply_resolve, spec_apply_withdrawal, AccountModel,
};
use crate::transaction::{Transaction, TransactionType};

verus! {

broadcast use vstd::std_specs::hash::group_hash_axioms;

/// Whether `tid` is among the currently disputed ids.
fn disputes_contains(disputes: &Vec<u32>, tid: u32) -> (r: bool)
    ensures
        r == disputes@.contains(tid),
{
    let mut i: usize = 0;
    while i < disputes.len()
        invariant
            0 <= i <= disputes@.len(),
            forall|j: int| 0 <= j < i ==> disputes@[j] != tid,
        decreases disputes@.len() - i,
    {
        if disputes[i] == tid {
            assert(disputes@[i as int] == tid);
            return true;
        }
        i += 1;
    }
    false
}

/// Remove the first occurrence of `tid` from the disputed ids.
fn disputes_remove_first(disputes: &mut Vec<u32>, tid: u32)
    requires
        old(disputes)@.contains(tid),
    ensures
        final(disputes)@ == old(disputes)@.remove_value(tid),
{
    let ghost orig = disputes@;
    let i = first_disputed_index(disputes, tid);
    disputes.remove(i);
    proof {
        orig.index_of_first_ensures(tid);
    }
}

/// The index of the first occurrence of `tid` among the disputed ids.
fn first_disputed_index(disputes: &Vec<u32>, tid: u32) -> (i: usize)
    requires
        disputes@.contains(tid),
    ensures
        0 <= i < disputes@.len(),
        disputes@[i as int] == tid,
        disputes@.index_of_first(tid) == Some(i as int),
{
    let mut i: usize = 0;
    while i < disputes.len()
        invariant
            0 <= i <= disputes@.len(),
            disputes@.contains(tid),
            forall|j: int| 0 <= j < i ==> disputes@[j] != tid,
        decreases disputes@.len() - i,
    {
        if disputes[i] == tid {
            proof {
                disputes@.index_of_first_ensures(tid);
                let first = disputes@.index_of_first(tid)->Some_0;
                assert(disputes@[first] == tid);
                assert(disputes@[i as int] == tid);
            }
            return i;
        }
        i += 1;
    }
    proof {
        let w = choose|w: int| 0 <= w < disputes@.len() && disputes@[w] == tid;
        assert(disputes@[w] != tid);
    }
    vstd::pervasive::unreached()
}

/// Reject a deposit or withdrawal whose transaction id is already indexed.
fn ensure_transaction_does_not_exist(transaction: &Transaction, account: &Account) -> (r: Result<
    (),
    ErrorKind,
>)
    ensures
        r is Ok <==> !account@.transactions.contains_key(transaction.transaction_id@),
        r is Err ==> r == Err::<(), ErrorKind>(ErrorKind::DuplicateTransaction),
{
    let tid = transaction.transaction_id.value();
    if account.transactions.contains_key(&tid) {
        Err(ErrorKind::DuplicateTransaction)
    } else {
        Ok(())
    }
}

/// Credit the available and total balances and index the transaction.
fn apply_deposit(transaction: &Transaction, account: &mut Account) -> (r: Result<(), ErrorKind>)
    requires
        old(account).wf(),
        !old(account)@.locked,
        transaction.amount@ >= 0,
    ensures
        match spec_apply_deposit(old(account)@, *transaction) {
            Ok(m) => r is Ok && final(account)@ == m,
            Err(e) => r == Err::<(), ErrorKind>(e) && *final(account) == *old(account),
        },
{
    match ensure_transaction_does_not_exist(transaction, account) {
        Ok(()) => (),
        Err(e) => {
            return Err(e);
        },
    }

    if MAX_UNITS - account.total.units() < transaction.amount.units() {
        return Err(ErrorKind::AmountOutOfRange);
    }

    account.available = account.available.add(transaction.amount);
    account.total = account.total.add(transaction.amount);

    let tid = transaction.transaction_id.value();
    account.transactions.insert(tid, *transaction);

    Ok(())
}

/// Debit the available and total balances and index the transaction.
fn apply_withdrawal(transaction: &Transaction, account: &mut Account) -> (r: Result<(), ErrorKind>)
    requires
        old(account).wf(),
        !old(account)@.locked,
        transaction.amount@ >= 0,
    ensures
        match spec_apply_withdrawal(old(account)@, *transaction) {
            Ok(m) => r is Ok && final(account)@ == m,
            Err(e) => r == Err::<(), ErrorKind>(e) && *final(account) == *old(account),
        },
{
    match ensure_transaction_does_not_exist(transaction, account) {
        Ok(()) => (),
        Err(e) => {
            return Err(e);
        },
    }

    if account.available.lt(&transaction.amount) {
        return Err(ErrorKind::InsufficientFunds);
    }

    account.total = account.total.sub(transaction.amount);
    account.available = account.available.sub(transaction.amount);

    let tid = transaction.transaction_id.value();
    account.transactions.insert(tid, *transaction);

    Ok(())
}

/// Open a dispute: move the referenced amount from available to held.
fn apply_dispute(transaction: &Transaction, account: &mut Account) -> (r: Result<(), ErrorKind>)
    requires
        old(account).wf(),
        !old(account)@.locked,
        transaction.amount@ >= 0,
    ensures
        match spec_apply_dispute(old(account)@, *transaction) {
            Ok(m) => r is Ok && final(account)@ == m,
            Err(e) => r == Err::<(), ErrorKind>(e) && *final(account) == *old(account),
        },
{
    let tid = transaction.transaction_id.value();
    let disputed_amount = match account.transactions.get(&tid) {
        Some(disputed) => disputed.amount,
        None => {
            return Err(ErrorKind::TransactionNotFound);
        },
    };

    if disputes_contains(&account.disputes, tid) {
        return Err(ErrorKind::AlreadyDisputed);
    }

    if MAX_UNITS - account.held.units() < disputed_amount.units() {
        return Err(ErrorKind::AmountOutOfRange);
    }

    account.disputes.push(tid);
    account.held = account.held.add(disputed_amount);
    account.available = account.available.sub(disputed_amount);
    Ok(())
}

/// Close a dispute in the client's favour: release the held amount back to
/// available.
fn apply_resolve(transaction: &Transaction, account: &mut Account) -> (r: Result<(), ErrorKind>)
    requires
        old(account).wf(),
        !old(account)@.locked,
        transaction.amount@ >= 0,
    ensures
        match spec_apply_resolve(old(account)@, *transaction) {
            Ok(m) => r is Ok && final(account)@ == m,
            Err(e) => r == Err::<(), ErrorKind>(e) && *final(account) == *old(account),
        },
{
    let tid = transaction.transaction_id.value();
    if !disputes_contains(&account.disputes, tid) {
        return Err(ErrorKind::NotDisputed);
    }

    let disputed_amount = match account.transactions.get(&tid) {
        Some(disputed) => disputed.amount,
        None => {
            return Err(ErrorKind::TransactionNotFound);
        },
    };

    proof {
        lemma_disputed_amount_covered(old(account)@, tid);
    }
    account.held = account.held.sub(disputed_amount);
    account.available = account.available.add(disputed_amount);
    disputes_remove_first(&mut account.disputes, tid);

    Ok(())
}

/// Close a dispute against the client: withdraw the held amount and lock the
/// account.
fn apply_chargeback(transaction: &Transaction, account: &mut Account) -> (r: Result<(), ErrorKind>)
    requires
        old(account).wf(),
        !old(account)@.locked,
        transaction.amount@ >= 0,
    ensures
        match spec_apply_chargeback(old(account)@, *transaction) {
            Ok(m) => r is Ok && final(account)@ == m,
            Err(e) => r == Err::<(), ErrorKind>(e) && *final(account) == *old(account),
        },
{
    let tid = transaction.transaction_id.value();
    if !disputes_contains(&account.disputes, tid) {
        return Err(ErrorKind::NotDisputed);
    }

    let disputed_amount = match account.transactions.get(&tid) {
        Some(disputed) => disputed.amount,
        None => {
            return Err(ErrorKind::TransactionNotFound);
        },
    };

    proof {
        lemma_disputed_amount_covered(old(account)@, tid);
    }
    account.held = account.held.sub(disputed_amount);
    account.total = account.total.sub(disputed_amount);
    account.freeze();
    disputes_remove_first(&mut account.disputes, tid);
    Ok(())
}

/// Validate and apply one transaction to one account.
///
/// The account moves to exactly the successor state that the model
/// transition [`spec_apply`] gives, with the transaction appended to the
/// history; on any validation failure the transition's error is returned and
/// the account is left unchanged. Validation precedes mutation, so each call
/// is atomic with respect to the account it targets.
pub fn apply_transaction(transaction: Transaction, account: &mut Account) -> (r: Result<
    (),
    ErrorKind,
>)
    requires
        old(account).wf(),
    ensures
        final(account).wf(),
        match spec_apply(old(account)@, transaction) {
            Ok(m) => r is Ok && final(account)@ == m,
            Err(e) => r == Err::<(), ErrorKind>(e) && *final(account) == *old(account),
        },
{
    proof {
        lemma_spec_apply_preserves_inv(old(account)@, transaction);
    }

    if account.is_locked() {
        return Err(ErrorKind::AccountLocked);
    }

    if transaction.amount.is_negative() {
        return Err(ErrorKind::InvalidAmount);
    }

    let stepped = match transaction.transaction_type {
        TransactionType::Deposit => apply_deposit(&transaction, account),
        TransactionType::Withdrawal => apply_withdrawal(&transaction, account),
        TransactionType::Dispute => apply_dispute(&transaction, account),
        TransactionType::Resolve => apply_resolve(&transaction, account),
        TransactionType::Chargeback => apply_chargeback(&transaction, account),
    };

    match stepped {
        Ok(()) => {
            account.history.push(transaction);
            Ok(())
        },
        Err(e) => Err(e),
    }
}

} // verus!

