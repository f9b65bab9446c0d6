//! Local order-book maintenance for an exchange depth stream: buffering of
//! diff events until a snapshot arrives, resynchronisation from a snapshot,
//! gap detection on the update-id chain, and the canonical market-data
//! schema that the book emits.

pub mod binance;
pub mod config;
pub mod feed;
pub mod ieee;
pub mod laws;
pub mod meaning;
pub mod orderbook;
pub mod schema;
pub mod text;
