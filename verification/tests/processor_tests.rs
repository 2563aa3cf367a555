use ledger::account::{Account, ClientId};
use ledger::currency::Currency;
use ledger::processor::apply_transaction;
use ledger::transaction::{Transaction, TransactionId, TransactionType};

fn from_f64(value: f64) -> Currency {
    Currency::from_units((value * 10000.0).round() as i128)
}

fn init_account(initial_balance: f64) -> Account {
    let mut account = Account::new(ClientId::from(1));
    let amount = from_f64(initial_balance);
    let transaction = Transaction::new(
        TransactionType::Deposit,
        ClientId::from(1),
        TransactionId::from(1),
        amount,
    );
    apply_transaction(transaction.clone(), &mut account).unwrap();
    account
}

#[test]
fn test_deposit() {
    let mut account = Account::new(ClientId::from(1));
    let amount = from_f64(100.0);

    let mut transaction = Transaction::new(
        TransactionType::Deposit,
        ClientId::from(1),
        TransactionId::from(1),
        amount,
    );

    apply_transaction(transaction.clone(), &mut account).unwrap();
    assert_eq!(account.available, amount);
    assert_eq!(account.total, account.available);

    // Duplicate transaction should be rejected.
    apply_transaction(transaction.clone(), &mut account)
        .expect_err("duplicate transaction should be rejected");

    // Apply with new transaction id, should succeed.
    transaction.transaction_id = TransactionId::from(2);
    apply_transaction(transaction, &mut account).unwrap();
    assert_eq!(account.available, amount.add(amount));
    assert_eq!(account.total, account.available);
    account.sanity_check();
}

#[test]
fn test_withdrawal() {
    let mut account = init_account(100.0);

    let mut transaction = Transaction::new(
        TransactionType::Withdrawal,
        ClientId::from(1),
        TransactionId::from(2),
        from_f64(42.0),
    );

    apply_transaction(transaction.clone(), &mut account).unwrap();
    assert_eq!(account.available, from_f64(100.0 - 42.0));
    assert_eq!(account.total, account.available);

    // Duplicate transaction should be rejected.
    apply_transaction(transaction.clone(), &mut account)
        .expect_err("duplicate transaction should be rejected");

    // Apply with new transaction id, should succeed.
    transaction.transaction_id = TransactionId::from(3);
    apply_transaction(transaction, &mut account).unwrap();
    assert_eq!(account.available, from_f64(100.0 - (42.0 * 2.0)));
    assert_eq!(account.total, account.available);
    account.sanity_check();
}

#[test]
fn test_dispute_resolve() {
    let mut account = init_account(100.0);

    let mut transaction = Transaction::new(
        TransactionType::Dispute,
        ClientId::from(1),
        TransactionId::from(1),
        Currency::zero(),
    );

    apply_transaction(transaction.clone(), &mut account).unwrap();
    assert_eq!(account.available, from_f64(0.));
    assert_eq!(account.held, from_f64(100.));
    assert_eq!(account.total, from_f64(100.0));

    // Duplicate dispute should be rejected.
    apply_transaction(transaction.clone(), &mut account)
        .expect_err("duplicate dispute should be rejected");

    // Apply with new transaction id, should fail to find the transaction.
    transaction.transaction_id = TransactionId::from(2);
    apply_transaction(transaction, &mut account)
        .expect_err("disputing a missing transaction fail");

    // Resolve the dispute.
    let transaction = Transaction::new(
        TransactionType::Resolve,
        ClientId::from(1),
        TransactionId::from(1),
        Currency::zero(),
    );

    apply_transaction(transaction.clone(), &mut account).unwrap();
    assert_eq!(account.available, from_f64(100.));
    assert_eq!(account.held, from_f64(0.));
    assert_eq!(account.total, from_f64(100.0));
    account.sanity_check();
}

#[test]
fn test_dispute_chargeback() {
    let mut account = init_account(100.0);

    let mut transaction = Transaction::new(
        TransactionType::Dispute,
        ClientId::from(1),
        TransactionId::from(1),
        Currency::zero(),
    );

    apply_transaction(transaction.clone(), &mut account).unwrap();
    assert_eq!(account.available, from_f64(0.));
    assert_eq!(account.held, from_f64(100.));
    assert_eq!(account.total, from_f64(100.0));

    // Duplicate dispute should be rejected.
    apply_transaction(transaction.clone(), &mut account)
        .expect_err("duplicate dispute should be rejected");

    // Apply with new transaction id, should fail to find the transaction.
    transaction.transaction_id = TransactionId::from(2);
    apply_transaction(transaction, &mut account)
        .expect_err("disputing a missing transaction fail");

    // Issue chargeback.
    let transaction = Transaction::new(
        TransactionType::Chargeback,
        ClientId::from(1),
        TransactionId::from(1),
        Currency::zero(),
    );

    apply_transaction(transaction.clone(), &mut account).unwrap();
    assert_eq!(account.available, from_f64(0.));
    assert_eq!(account.held, from_f64(0.));
    assert_eq!(account.total, from_f64(0.0));
    assert!(account.is_locked());
    account.sanity_check();

    // New transactions should be rejected.
    let transaction = Transaction::new(
        TransactionType::Deposit,
        ClientId::from(1),
        TransactionId::from(3),
        from_f64(1.0),
    );

    apply_transaction(transaction.clone(), &mut account)
        .expect_err("transactions should be rejected if account is locked");
}

#[test]
fn test_all() {
    let mut account = init_account(100.0);
    let amount0 = from_f64(100.0);

    // Deposit1 - to be disputed and resolved
    let amount1 = from_f64(42.0);
    let mut transaction1 = Transaction::new(
        TransactionType::Deposit,
        ClientId::from(1),
        TransactionId::from(2),
        amount1,
    );

    apply_transaction(transaction1.clone(), &mut account).unwrap();

    // Deposit2 - to be disputed and chargeback
    let amount2 = from_f64(3.14);
    let mut transaction2 = Transaction::new(
        TransactionType::Deposit,
        ClientId::from(1),
        TransactionId::from(3),
        amount2,
    );

    apply_transaction(transaction2.clone(), &mut account).unwrap();

    // Deposit3 - to be disputed
    let amount3 = from_f64(9.87);
    let mut transaction3 = Transaction::new(
        TransactionType::Deposit,
        ClientId::from(1),
        TransactionId::from(4),
        amount3,
    );

    apply_transaction(transaction3.clone(), &mut account).unwrap();

    assert_eq!(
        account.available,
        amount0.add(amount1).add(amount2).add(amount3)
    );
    assert_eq!(account.held, from_f64(0.));
    assert_eq!(account.total, account.available);

    // Dispute all 3.
    transaction1.transaction_type = TransactionType::Dispute;
    apply_transaction(transaction1.clone(), &mut account).unwrap();
    transaction2.transaction_type = TransactionType::Dispute;
    apply_transaction(transaction2.clone(), &mut account).unwrap();
    transaction3.transaction_type = TransactionType::Dispute;
    apply_transaction(transaction3.clone(), &mut account).unwrap();

    // Deposit one more.
    let amount4 = from_f64(12.34);
    let transaction4 = Transaction::new(
        TransactionType::Deposit,
        ClientId::from(1),
        TransactionId::from(5),
        amount4,
    );

    apply_transaction(transaction4.clone(), &mut account).unwrap();

    // Resolve 1
    transaction1.transaction_type = TransactionType::Resolve;
    apply_transaction(transaction1.clone(), &mut account).unwrap();
    // Reject 2.
    transaction2.transaction_type = TransactionType::Chargeback;
    apply_transaction(transaction2.clone(), &mut account).unwrap();

    // Verify.
    assert_eq!(account.available, amount0.add(amount1).add(amount4));
    assert_eq!(account.held, amount3);
    assert_eq!(
        account.total,
        amount0.add(amount1).add(amount3).add(amount4)
    );
    assert!(account.is_locked());
    account.sanity_check();
}
