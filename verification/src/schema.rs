//! The canonical market-data schema every consumer reads: book deltas,
//! trades and full book snapshots. Exchange-specific wire formats are
//! turned into these types at the edge, so nothing downstream depends on
//! the venue's field names.
//!
//! Prices and quantities are carried as IEEE-754 bit patterns (see
//! `crate::ieee`).

use vstd::prelude::*;

verus! {

/// A symbol such as `btcusdt`.
pub type Symbol = String;

/// One price level of a book side: the bit patterns of its price and of
/// the quantity resting at that price.
#[derive(Debug, Clone, Copy, PartialEq, Eq, Structural)]
pub struct PriceLevel {
    pub price_bits: u64,
    pub quantity_bits: u64,
}

/// A book delta. `first_update_id` / `final_update_id` /
/// `prev_final_update_id` mirror the exchange's `U` / `u` / `pu` fields,
/// which are what a consumer needs to detect a gap and resync.
#[derive(Debug, Clone, PartialEq)]
pub struct DepthUpdate {
    pub symbol: Symbol,
    pub event_time_ms: u64,
    pub first_update_id: u64,
    pub final_update_id: u64,
    pub prev_final_update_id: Option<u64>,
    pub bids: Vec<PriceLevel>,
    pub asks: Vec<PriceLevel>,
}

/// A public trade.
#[derive(Debug, Clone, Copy, PartialEq, Eq, Structural)]
pub struct Trade {
    pub trade_id: u64,
    pub event_time_ms: u64,
    pub price_bits: u64,
    pub quantity_bits: u64,
    pub is_buyer_maker: bool,
}

/// The absolute book state at the moment a resync completed. Deltas alone
/// give no starting state; replaying a `Snapshot` and then the `Depth`
/// events that follow it rebuilds the book the live system had.
#[derive(Debug, Clone, PartialEq)]
pub struct Snapshot {
    pub symbol: Symbol,
    pub event_time_ms: u64,
    pub last_update_id: u64,
    pub bids: Vec<PriceLevel>,
    pub asks: Vec<PriceLevel>,
}

/// One line of the canonical event stream.
#[derive(Debug, Clone, PartialEq)]
pub enum MarketEvent {
    Snapshot(Snapshot),
    Depth(DepthUpdate),
    Trade { symbol: Symbol, trade: Trade },
}

impl MarketEvent {
    /// The symbol the event is about.
    pub open spec fn symbol_view(&self) -> Seq<char> {
        match self {
            MarketEvent::Snapshot(s) => s.symbol@,
            MarketEvent::Depth(d) => d.symbol@,
            MarketEvent::Trade { symbol, .. } => symbol@,
        }
    }

    /// The exchange time of the event, in milliseconds.
    pub open spec fn time_view(&self) -> u64 {
        match self {
            MarketEvent::Snapshot(s) => s.event_time_ms,
            MarketEvent::Depth(d) => d.event_time_ms,
            MarketEvent::Trade { trade, .. } => trade.event_time_ms,
        }
    }

    pub fn symbol(&self) -> (r: &str)
        ensures
            r@ == self.symbol_view(),
    {
        match self {
            MarketEvent::Snapshot(s) => s.symbol.as_str(),
            MarketEvent::Depth(d) => d.symbol.as_str(),
            MarketEvent::Trade { symbol, .. } => symbol.as_str(),
        }
    }

    pub fn event_time_ms(&self) -> (r: u64)
        ensures
            r == self.time_view(),
    {
        match self {
            MarketEvent::Snapshot(s) => s.event_time_ms,
            MarketEvent::Depth(d) => d.event_time_ms,
            MarketEvent::Trade { trade, .. } => trade.event_time_ms,
        }
    }
}

} // verus!
