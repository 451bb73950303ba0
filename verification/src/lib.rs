//! A continuous double-auction market: per-instrument order books matched
//! under price-time priority, and the roll-up of executed trades into
//! second, minute, hour and day bars.
//!
//! - `price`: prices as totally ordered keys.
//! - `order`: orders and the priority between them.
//! - `book`: the order book, matching and the sweep of expired orders.
//! - `transaction`: executed trades.
//! - `history`: bars, their ingestion from trades and their compression.
//! - `recent`: the bounded window of recent trades.
//! - `record`: what is kept for one instrument.
//! - `registry`: the table of listed instruments.
//! - `market`: the operations on listed instruments.
//! - `agents`: the periodic tasks and their pacing.
//! - `time`, `globals`: market time and its resolutions.
//!
//! Prices are compared and copied, never computed with; what needs
//! arithmetic on prices, such as averages and indicators, is left to the
//! caller. The library holds no lock: an operation has the market, the
//! record or the book to itself for as long as it runs, and sharing between
//! threads is the caller's to arrange.

pub mod agents;
pub mod book;
pub mod globals;
pub mod history;
pub mod market;
pub mod order;
pub mod price;
pub mod recent;
pub mod record;
pub mod registry;
pub mod time;
pub mod transaction;
