//! A first-in-first-out (FIFO) cost-basis ledger for asset transactions.
//!
//! The library consumes an ordered sequence of transactions (buys, swaps,
//! sales, interest, airdrops, transfers, ...) and produces a per-transaction
//! cost-basis breakdown together with a yearly income/loss summary.  All
//! amounts are exact rational numbers, so the lot-consumption algorithm and
//! its conservation laws are verified without any floating-point slack.

pub mod amount;
pub mod csv;
pub mod laws;
pub mod ledger;
pub mod prepare;
pub mod price;
pub mod projection;
pub mod report;
pub mod types;
pub mod validation;
