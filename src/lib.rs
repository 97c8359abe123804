//! Per-client account balances derived from a stream of deposits,
//! withdrawals and the dispute lifecycle (dispute, resolve, chargeback).

pub mod amount;
pub mod ids;
pub mod positive_decimal;
pub mod client;
pub mod processor;
pub mod transaction;
pub mod raw_transaction;
pub mod guarantees;
