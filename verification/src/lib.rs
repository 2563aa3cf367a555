//! A verified per-client transaction ledger.
//!
//! The library ingests deposit, withdrawal, dispute, resolve and chargeback
//! transactions, validates each against the targeted account, and maintains
//! balances that provably satisfy the ledger invariants: `available ==
//! total - held`, `held >= 0`, an account is locked exactly when its last
//! applied transaction is a chargeback, and replaying an account's history
//! from a fresh account reproduces its state.

pub mod account;
pub mod codec;
pub mod currency;
pub mod errors;
pub mod model;
pub mod processor;
pub mod transaction;
