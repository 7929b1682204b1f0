//! Event-driven order books and market-day replay for SH/SZ stocks and ETFs.
//!
//! Apply typed [`BookEvent`](market_data::BookEvent) values to
//! [`OrderBook`](order_book::OrderBook); every operation carries a machine-checked
//! contract over the mathematical model of the book.
//!
//! A whole market day goes through [`replay_market_day`](production::replay::replay_market_day),
//! which takes the rows of each channel in sequence and returns snapshots and a report, or
//! through [`validate_market_day`](production::validate_market_day), which also compares the
//! books that it rebuilds with published references. The [`legacy`] modules replay order and
//! trade records of an older feed.

pub mod legacy;
pub mod market_data;
pub mod order_book;
pub mod production;
pub mod sums;
pub mod text;
