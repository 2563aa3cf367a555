//! Typed errors for the ledger core and for the record codecs.

use vstd::prelude::*;

verus! {

/// A business-rule failure while applying one transaction to an account.
///
/// These errors are recoverable: the offending transaction is dropped and the
/// targeted account is left unchanged.
#[derive(Debug, Clone, Copy, PartialEq, Eq, Structural)]
pub enum ErrorKind {
    /// The account has been locked by a chargeback; nothing more is accepted.
    AccountLocked,
    /// The transaction carries a negative amount.
    InvalidAmount,
    /// A deposit or withdrawal reuses a transaction id already indexed.
    DuplicateTransaction,
    /// A withdrawal asks for more than the available balance.
    InsufficientFunds,
    /// A dispute, resolve or chargeback references an unknown transaction id.
    TransactionNotFound,
    /// A dispute references a transaction that is already under dispute.
    AlreadyDisputed,
    /// A resolve or chargeback references a transaction not under dispute.
    NotDisputed,
    /// Applying the transaction would push a balance outside the
    /// representable currency range.
    AmountOutOfRange,
}

/// A failure while decoding one textual field of an input record.
///
/// These errors are fatal to ingestion of the remaining feed; transactions
/// already applied are retained.
#[derive(Debug, Clone, Copy, PartialEq, Eq, Structural)]
pub enum ParseError {
    /// The client field is not an unsigned integer in range.
    InvalidClientId,
    /// The tx field is not an unsigned integer in range.
    InvalidTransactionId,
    /// The amount field is not a decimal number the currency type can hold.
    InvalidAmount,
    /// The type field is not one of the five transaction-type tokens.
    InvalidTransactionType,
}

} // verus!
