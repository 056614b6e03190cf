//! A verified core for a flash-crash sniper bot: the exchange's message
//! protocol (framing, authentication signature, subscribe and order
//! packets) and the tick-driven strategy engine (price windows, buy
//! signals, position lifecycle, risk gate, balance cache).
//!
//! All prices and balances are fixed-point integers scaled by
//! [`PRICE_SCALE`]; the transport and the event loop that feed the engine
//! live outside the library.

use vstd::prelude::*;

pub mod config;
pub mod decimal;
pub mod json;
pub mod okx;
pub mod strategy;

verus! {

/// Scale of all fixed-point price and balance values: one quote-currency
/// unit is represented as `PRICE_SCALE` integer units, so eight decimal
/// places survive the decimal-string round trip.
pub const PRICE_SCALE: u64 = 100_000_000;

} // verus!
