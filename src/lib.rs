//! A ledger of client accounts driven by a stream of transaction records:
//! deposits, withdrawals and the dispute lifecycle (dispute, resolve,
//! chargeback). Amounts are exact fixed-point numbers, so balances never drift.

pub mod entities;
pub mod service;
pub mod laws;
