//! Per-client account ledgers over fixed-point decimal balances.
//!
//! A ledger stores one client's transaction history and derives its final
//! `available`, `held` and `total` balances by a single replay pass that
//! applies deposit, withdrawal, dispute, resolve and chargeback semantics.
//! The `amount` module models the decimal arithmetic, `transaction` and
//! `account` hold the core data model and replay, `registry` maps client
//! ids to ledgers, and `laws` proves the properties that hold of every
//! replay.
pub mod account;
pub mod amount;
pub mod laws;
pub mod registry;
pub mod transaction;
