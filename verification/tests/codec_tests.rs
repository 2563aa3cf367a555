use ledger::account::ClientId;
use ledger::currency::{Currency, MAX_UNITS};
use ledger::errors::ParseError;
use ledger::transaction::{TransactionId, TransactionType};

#[test]
fn parse_amount_exact_values() {
    assert_eq!(Currency::parse(b"1.5").unwrap(), Currency::from_units(15_000));
    assert_eq!(Currency::parse(b"100.0").unwrap(), Currency::from_units(1_000_000));
    assert_eq!(Currency::parse(b"0").unwrap(), Currency::zero());
    assert_eq!(Currency::parse(b"-3.14").unwrap(), Currency::from_units(-31_400));
    assert_eq!(Currency::parse(b"1.2345").unwrap(), Currency::from_units(12_345));
    assert_eq!(Currency::parse(b"2.0000").unwrap(), Currency::from_units(20_000));
    assert_eq!(Currency::parse(b"0.500").unwrap(), Currency::from_units(5_000));
    assert_eq!(Currency::parse(b"1.23450000").unwrap(), Currency::from_units(12_345));
    assert_eq!(Currency::parse(b"007").unwrap(), Currency::from_units(70_000));
}

#[test]
fn parse_amount_rejects_malformed_input() {
    assert_eq!(Currency::parse(b""), Err(ParseError::InvalidAmount));
    assert_eq!(Currency::parse(b"-"), Err(ParseError::InvalidAmount));
    assert_eq!(Currency::parse(b"."), Err(ParseError::InvalidAmount));
    assert_eq!(Currency::parse(b".5"), Err(ParseError::InvalidAmount));
    assert_eq!(Currency::parse(b"1."), Err(ParseError::InvalidAmount));
    assert_eq!(Currency::parse(b"1.2.3"), Err(ParseError::InvalidAmount));
    assert_eq!(Currency::parse(b"abc"), Err(ParseError::InvalidAmount));
    assert_eq!(Currency::parse(b"1,5"), Err(ParseError::InvalidAmount));
    // Finer precision than a ten-thousandth cannot be held exactly.
    assert_eq!(Currency::parse(b"0.00001"), Err(ParseError::InvalidAmount));
    // Magnitudes beyond the representable range are rejected.
    assert_eq!(
        Currency::parse(b"8000000000000000000000000"),
        Err(ParseError::InvalidAmount)
    );
}

#[test]
fn parse_amount_roundtrips_through_render() {
    for text in [
        &b"1.5"[..],
        b"0",
        b"-3.14",
        b"12.34",
        b"0.0005",
        b"42",
        b"7922816251426433759354395.0335",
    ] {
        let amount = Currency::parse(text).unwrap();
        assert_eq!(amount.render(), text.to_vec());
    }
}

#[test]
fn render_canonical_text() {
    assert_eq!(Currency::from_units(15_000).render(), b"1.5".to_vec());
    assert_eq!(Currency::from_units(20_000).render(), b"2".to_vec());
    assert_eq!(Currency::zero().render(), b"0".to_vec());
    assert_eq!(Currency::from_units(-31_400).render(), b"-3.14".to_vec());
    assert_eq!(Currency::from_units(123_400).render(), b"12.34".to_vec());
    assert_eq!(Currency::from_units(5).render(), b"0.0005".to_vec());
    assert_eq!(Currency::from_units(MAX_UNITS).render(), b"7922816251426433759354395.0335".to_vec());
}

#[test]
fn parse_client_id_bounds() {
    assert_eq!(ClientId::parse(b"0").unwrap().value(), 0);
    assert_eq!(ClientId::parse(b"65535").unwrap().value(), 65535);
    assert_eq!(ClientId::parse(b"65536"), Err(ParseError::InvalidClientId));
    assert_eq!(ClientId::parse(b""), Err(ParseError::InvalidClientId));
    assert_eq!(ClientId::parse(b"1a"), Err(ParseError::InvalidClientId));
    assert_eq!(ClientId::parse(b"-1"), Err(ParseError::InvalidClientId));
}

#[test]
fn parse_transaction_id_bounds() {
    assert_eq!(TransactionId::parse(b"42").unwrap().value(), 42);
    assert_eq!(TransactionId::parse(b"4294967295").unwrap().value(), 4294967295);
    assert_eq!(
        TransactionId::parse(b"4294967296"),
        Err(ParseError::InvalidTransactionId)
    );
    assert_eq!(TransactionId::parse(b""), Err(ParseError::InvalidTransactionId));
    assert_eq!(TransactionId::parse(b"9.1"), Err(ParseError::InvalidTransactionId));
}

#[test]
fn parse_transaction_type_tokens() {
    assert_eq!(
        TransactionType::parse(b"deposit").unwrap(),
        TransactionType::Deposit
    );
    assert_eq!(
        TransactionType::parse(b"withdrawal").unwrap(),
        TransactionType::Withdrawal
    );
    assert_eq!(
        TransactionType::parse(b"dispute").unwrap(),
        TransactionType::Dispute
    );
    assert_eq!(
        TransactionType::parse(b"resolve").unwrap(),
        TransactionType::Resolve
    );
    assert_eq!(
        TransactionType::parse(b"chargeback").unwrap(),
        TransactionType::Chargeback
    );
    // Tokens match case-insensitively.
    assert_eq!(
        TransactionType::parse(b"DePoSiT").unwrap(),
        TransactionType::Deposit
    );
    assert_eq!(
        TransactionType::parse(b"CHARGEBACK").unwrap(),
        TransactionType::Chargeback
    );
    assert_eq!(
        TransactionType::parse(b"refund"),
        Err(ParseError::InvalidTransactionType)
    );
    assert_eq!(
        TransactionType::parse(b""),
        Err(ParseError::InvalidTransactionType)
    );
}
