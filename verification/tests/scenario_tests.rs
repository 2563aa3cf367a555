use ledger::account::{Account, AccountDatabase, ClientId};
use ledger::currency::{Currency, MAX_UNITS};
use ledger::errors::ErrorKind;
use ledger::processor::apply_transaction;
use ledger::transaction::{Transaction, TransactionId, TransactionType};

fn tx(
    transaction_type: TransactionType,
    client: u16,
    id: u32,
    units: i128,
) -> Transaction {
    Transaction::new(
        transaction_type,
        ClientId::from(client),
        TransactionId::from(id),
        Currency::from_units(units),
    )
}

#[test]
fn scenario_deposits_and_withdrawals() {
    // Two clients deposit; one withdrawal succeeds, one is rejected for
    // insufficient funds and leaves its account untouched.
    let mut db = AccountDatabase::new();
    let feed = vec![
        tx(TransactionType::Deposit, 1, 1, 10_000),
        tx(TransactionType::Deposit, 2, 2, 20_000),
        tx(TransactionType::Deposit, 1, 3, 20_000),
        tx(TransactionType::Withdrawal, 1, 4, 15_000),
        tx(TransactionType::Withdrawal, 2, 5, 30_000),
    ];
    db.process_all(&feed);

    let rows = db.snapshot();
    assert_eq!(rows.len(), 2);

    assert_eq!(rows[0].client.value(), 1);
    assert_eq!(rows[0].available, Currency::from_units(15_000));
    assert_eq!(rows[0].held, Currency::zero());
    assert_eq!(rows[0].total, Currency::from_units(15_000));
    assert!(!rows[0].locked);

    assert_eq!(rows[1].client.value(), 2);
    assert_eq!(rows[1].available, Currency::from_units(20_000));
    assert_eq!(rows[1].held, Currency::zero());
    assert_eq!(rows[1].total, Currency::from_units(20_000));
    assert!(!rows[1].locked);
}

#[test]
fn scenario_dispute_chargeback_locks() {
    let mut db = AccountDatabase::new();
    assert!(db.process(tx(TransactionType::Deposit, 1, 1, 1_000_000)).is_ok());

    assert!(db.process(tx(TransactionType::Dispute, 1, 1, 0)).is_ok());
    let rows = db.snapshot();
    assert_eq!(rows[0].available, Currency::zero());
    assert_eq!(rows[0].held, Currency::from_units(1_000_000));
    assert_eq!(rows[0].total, Currency::from_units(1_000_000));

    assert!(db.process(tx(TransactionType::Chargeback, 1, 1, 0)).is_ok());
    let rows = db.snapshot();
    assert_eq!(rows[0].available, Currency::zero());
    assert_eq!(rows[0].held, Currency::zero());
    assert_eq!(rows[0].total, Currency::zero());
    assert!(rows[0].locked);

    // The locked account rejects everything, balances stay at zero.
    let rejected = db.process(tx(TransactionType::Deposit, 1, 2, 10_000));
    assert_eq!(rejected, Err(ErrorKind::AccountLocked));
    let rows = db.snapshot();
    assert_eq!(rows[0].available, Currency::zero());
    assert_eq!(rows[0].held, Currency::zero());
    assert_eq!(rows[0].total, Currency::zero());
    assert!(rows[0].locked);
}

#[test]
fn scenario_dispute_resolve_releases() {
    let mut db = AccountDatabase::new();
    assert!(db.process(tx(TransactionType::Deposit, 1, 1, 1_000_000)).is_ok());
    assert!(db.process(tx(TransactionType::Dispute, 1, 1, 0)).is_ok());

    let rows = db.snapshot();
    assert_eq!(rows[0].available, Currency::zero());
    assert_eq!(rows[0].held, Currency::from_units(1_000_000));

    assert!(db.process(tx(TransactionType::Resolve, 1, 1, 0)).is_ok());
    let rows = db.snapshot();
    assert_eq!(rows[0].available, Currency::from_units(1_000_000));
    assert_eq!(rows[0].held, Currency::zero());
    assert_eq!(rows[0].total, Currency::from_units(1_000_000));
    assert!(!rows[0].locked);
}

#[test]
fn duplicate_id_rejected_and_account_unchanged() {
    let mut account = Account::new(ClientId::from(7));
    apply_transaction(tx(TransactionType::Deposit, 7, 1, 50_000), &mut account).unwrap();

    let before_available = account.available;
    let before_total = account.total;
    let before_history = account.history.len();

    let err = apply_transaction(tx(TransactionType::Deposit, 7, 1, 10_000), &mut account);
    assert_eq!(err, Err(ErrorKind::DuplicateTransaction));
    let err = apply_transaction(tx(TransactionType::Withdrawal, 7, 1, 10_000), &mut account);
    assert_eq!(err, Err(ErrorKind::DuplicateTransaction));

    assert_eq!(account.available, before_available);
    assert_eq!(account.total, before_total);
    assert_eq!(account.history.len(), before_history);
    account.sanity_check();
}

#[test]
fn overdraft_rejected_and_account_unchanged() {
    let mut account = Account::new(ClientId::from(7));
    apply_transaction(tx(TransactionType::Deposit, 7, 1, 50_000), &mut account).unwrap();

    let err = apply_transaction(tx(TransactionType::Withdrawal, 7, 2, 50_001), &mut account);
    assert_eq!(err, Err(ErrorKind::InsufficientFunds));

    assert_eq!(account.available, Currency::from_units(50_000));
    assert_eq!(account.total, Currency::from_units(50_000));
    assert_eq!(account.history.len(), 1);
    account.sanity_check();
}

#[test]
fn unknown_dispute_rejected_and_account_unchanged() {
    let mut account = Account::new(ClientId::from(7));
    apply_transaction(tx(TransactionType::Deposit, 7, 1, 50_000), &mut account).unwrap();

    let err = apply_transaction(tx(TransactionType::Dispute, 7, 9, 0), &mut account);
    assert_eq!(err, Err(ErrorKind::TransactionNotFound));
    let err = apply_transaction(tx(TransactionType::Resolve, 7, 9, 0), &mut account);
    assert_eq!(err, Err(ErrorKind::NotDisputed));
    let err = apply_transaction(tx(TransactionType::Chargeback, 7, 9, 0), &mut account);
    assert_eq!(err, Err(ErrorKind::NotDisputed));

    assert_eq!(account.available, Currency::from_units(50_000));
    assert_eq!(account.held, Currency::zero());
    assert_eq!(account.history.len(), 1);
    account.sanity_check();
}

#[test]
fn negative_amount_rejected() {
    let mut account = Account::new(ClientId::from(7));
    let err = apply_transaction(tx(TransactionType::Deposit, 7, 1, -1), &mut account);
    assert_eq!(err, Err(ErrorKind::InvalidAmount));
    assert_eq!(account.history.len(), 0);
    account.sanity_check();
}

#[test]
fn deposit_beyond_range_rejected() {
    let mut account = Account::new(ClientId::from(7));
    apply_transaction(tx(TransactionType::Deposit, 7, 1, MAX_UNITS), &mut account).unwrap();

    let err = apply_transaction(tx(TransactionType::Deposit, 7, 2, 1), &mut account);
    assert_eq!(err, Err(ErrorKind::AmountOutOfRange));
    assert_eq!(account.total, Currency::from_units(MAX_UNITS));
    assert_eq!(account.history.len(), 1);
    account.sanity_check();
}

#[test]
fn resolve_closes_the_dispute() {
    // A resolved dispute leaves the disputed set: a second resolve or a
    // chargeback of the same id is rejected, and the id can be disputed
    // again.
    let mut account = Account::new(ClientId::from(7));
    apply_transaction(tx(TransactionType::Deposit, 7, 1, 50_000), &mut account).unwrap();
    apply_transaction(tx(TransactionType::Dispute, 7, 1, 0), &mut account).unwrap();
    apply_transaction(tx(TransactionType::Resolve, 7, 1, 0), &mut account).unwrap();

    let err = apply_transaction(tx(TransactionType::Resolve, 7, 1, 0), &mut account);
    assert_eq!(err, Err(ErrorKind::NotDisputed));
    let err = apply_transaction(tx(TransactionType::Chargeback, 7, 1, 0), &mut account);
    assert_eq!(err, Err(ErrorKind::NotDisputed));
    assert_eq!(account.held, Currency::zero());
    assert_eq!(account.available, Currency::from_units(50_000));

    // The id is indexed forever, so it can enter a new dispute.
    apply_transaction(tx(TransactionType::Dispute, 7, 1, 0), &mut account).unwrap();
    assert_eq!(account.held, Currency::from_units(50_000));
    assert_eq!(account.available, Currency::zero());
    account.sanity_check();
}

#[test]
fn balances_stay_consistent_across_a_mixed_feed() {
    // available == total - held and held >= 0 after every step, and the
    // audit replay reproduces the final state.
    let mut account = Account::new(ClientId::from(3));
    let feed = vec![
        tx(TransactionType::Deposit, 3, 1, 100_000),
        tx(TransactionType::Deposit, 3, 2, 5_000),
        tx(TransactionType::Withdrawal, 3, 3, 30_000),
        tx(TransactionType::Dispute, 3, 3, 0),
        tx(TransactionType::Dispute, 3, 2, 0),
        tx(TransactionType::Resolve, 3, 2, 0),
        tx(TransactionType::Withdrawal, 3, 4, 20_000),
    ];
    for t in feed {
        let _ = apply_transaction(t, &mut account);
        assert_eq!(
            account.available.units(),
            account.total.units() - account.held.units()
        );
        assert!(account.held.units() >= 0);
        let last_is_chargeback = account
            .history
            .last()
            .map(|t| t.transaction_type == TransactionType::Chargeback)
            .unwrap_or(false);
        assert_eq!(account.is_locked(), last_is_chargeback);
    }
    account.sanity_check();
}

#[test]
fn account_lookup_creates_lazily() {
    let mut db = AccountDatabase::new();
    let account = db.account(ClientId::from(9));
    assert_eq!(account.client_id.value(), 9);
    assert_eq!(account.available, Currency::zero());
    assert_eq!(account.total, Currency::zero());
    assert!(!account.is_locked());

    // The same client maps to the same account, not a second one.
    db.process(tx(TransactionType::Deposit, 9, 1, 5_000)).unwrap();
    let account = db.account(ClientId::from(9));
    assert_eq!(account.available, Currency::from_units(5_000));
    assert_eq!(db.snapshot().len(), 1);
}
