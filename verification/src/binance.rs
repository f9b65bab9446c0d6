//! The exchange's wire types (spot combined stream and REST depth
//! snapshot) and their conversion into the canonical schema. The
//! venue-specific shapes stay in this one module, so everything downstream
//! stays venue-agnostic.
//!
//! A wire price level is a pair of decimal texts. Here each text arrives
//! already read as an IEEE-754 bit pattern, `None` where the text is not a
//! number; which levels are kept, dropped, inserted or removed is decided
//! in this library.

use vstd::prelude::*;
use crate::schema::{DepthUpdate, PriceLevel, Symbol, Trade};
use crate::text::{concat, decimal, decimal_string, lowercased, to_lowercase, to_uppercase, uppercased};

verus! {

/// One `[price, quantity]` pair of the wire format, each text read as a
/// bit pattern, `None` where the text did not parse as a number.
#[derive(Debug, Clone, Copy, PartialEq, Eq, Structural)]
pub struct RawLevel {
    pub price: Option<u64>,
    pub quantity: Option<u64>,
}

/// A `depthUpdate` event of the diff-depth stream.
#[derive(Debug, Clone)]
pub struct RawDepthUpdate {
    pub event_time_ms: u64,
    pub symbol: String,
    pub first_update_id: u64,
    pub final_update_id: u64,
    pub bids: Vec<RawLevel>,
    pub asks: Vec<RawLevel>,
}

/// A `trade` event of the trade stream.
#[derive(Debug, Clone)]
pub struct RawTrade {
    pub event_time_ms: u64,
    pub symbol: String,
    pub trade_id: u64,
    pub price: Option<u64>,
    pub quantity: Option<u64>,
    pub is_buyer_maker: bool,
}

/// The REST depth snapshot.
#[derive(Debug, Clone)]
pub struct RestDepthSnapshot {
    pub last_update_id: u64,
    pub bids: Vec<RawLevel>,
    pub asks: Vec<RawLevel>,
}

/// The payload of a combined-stream message, told apart by its `e` tag.
#[derive(Debug, Clone)]
pub enum RawEvent {
    DepthUpdate(RawDepthUpdate),
    Trade(RawTrade),
}

/// A combined-stream message: the stream name and its payload.
#[derive(Debug, Clone)]
pub struct CombinedStreamEnvelope {
    pub stream: String,
    pub data: RawEvent,
}

/// The levels whose price and quantity both parsed, in wire order.
pub open spec fn parsed_levels(levels: Seq<RawLevel>) -> Seq<PriceLevel>
    decreases levels.len(),
{
    if levels.len() == 0 {
        Seq::empty()
    } else {
        let rest = parsed_levels(levels.drop_last());
        match (levels.last().price, levels.last().quantity) {
            (Some(p), Some(q)) => rest.push(PriceLevel { price_bits: p, quantity_bits: q }),
            _ => rest,
        }
    }
}

/// Keeps the levels whose price and quantity both parsed, in order.
pub fn parse_levels(levels: &[RawLevel]) -> (r: Vec<PriceLevel>)
    ensures
        r@ == parsed_levels(levels@),
{
    let mut out: Vec<PriceLevel> = Vec::new();
    let mut i: usize = 0;
    while i < levels.len()
        invariant
            i <= levels@.len(),
            out@ == parsed_levels(levels@.take(i as int)),
        decreases levels@.len() - i,
    {
        proof {
            assert(levels@.take(i as int + 1).drop_last() =~= levels@.take(i as int));
        }
        let l = levels[i];
        match (l.price, l.quantity) {
            (Some(p), Some(q)) => {
                out.push(PriceLevel { price_bits: p, quantity_bits: q });
            },
            _ => {},
        }
        i = i + 1;
    }
    proof {
        assert(levels@.take(levels@.len() as int) =~= levels@);
    }
    out
}

/// The canonical delta for a depth event, under a given symbol.
pub open spec fn canonical_depth(e: RawDepthUpdate, symbol: Seq<char>, d: DepthUpdate) -> bool {
    &&& d.symbol@ == symbol
    &&& d.event_time_ms == e.event_time_ms
    &&& d.first_update_id == e.first_update_id
    &&& d.final_update_id == e.final_update_id
    &&& d.prev_final_update_id is None
    &&& d.bids@ == parsed_levels(e.bids@)
    &&& d.asks@ == parsed_levels(e.asks@)
}

impl RawDepthUpdate {
    /// The canonical delta under the given symbol. `prev_final_update_id`
    /// stays `None`: spot diff-depth events carry no `pu` field; gap
    /// detection compares this event's `U` with the previous `u` instead
    /// (see `crate::orderbook::OrderBook`).
    pub fn canonical_with_symbol(&self, symbol: Symbol) -> (r: DepthUpdate)
        ensures
            canonical_depth(*self, symbol@, r),
    {
        DepthUpdate {
            symbol,
            event_time_ms: self.event_time_ms,
            first_update_id: self.first_update_id,
            final_update_id: self.final_update_id,
            prev_final_update_id: None,
            bids: parse_levels(self.bids.as_slice()),
            asks: parse_levels(self.asks.as_slice()),
        }
    }

    /// The canonical delta, under the lowercased symbol.
    pub fn into_canonical(&self) -> (r: DepthUpdate)
        ensures
            canonical_depth(*self, lowercased(self.symbol@), r),
    {
        let symbol = to_lowercase(self.symbol.as_str());
        self.canonical_with_symbol(symbol)
    }
}

/// The canonical trade, under a given symbol: a price or quantity that did
/// not parse becomes `+0.0` (pattern 0).
pub open spec fn canonical_trade(t: RawTrade, symbol: Seq<char>, r: (Symbol, Trade)) -> bool {
    &&& r.0@ == symbol
    &&& r.1.trade_id == t.trade_id
    &&& r.1.event_time_ms == t.event_time_ms
    &&& r.1.price_bits == (match t.price { Some(p) => p, None => 0 })
    &&& r.1.quantity_bits == (match t.quantity { Some(q) => q, None => 0 })
    &&& r.1.is_buyer_maker == t.is_buyer_maker
}

impl RawTrade {
    /// The canonical trade under the given symbol.
    pub fn canonical_with_symbol(&self, symbol: Symbol) -> (r: (Symbol, Trade))
        ensures
            canonical_trade(*self, symbol@, r),
    {
        (
            symbol,
            Trade {
                trade_id: self.trade_id,
                event_time_ms: self.event_time_ms,
                price_bits: self.price.unwrap_or(0),
                quantity_bits: self.quantity.unwrap_or(0),
                is_buyer_maker: self.is_buyer_maker,
            },
        )
    }

    /// The canonical trade, under the lowercased symbol.
    pub fn into_canonical(&self) -> (r: (Symbol, Trade))
        ensures
            canonical_trade(*self, lowercased(self.symbol@), r),
    {
        let symbol = to_lowercase(self.symbol.as_str());
        self.canonical_with_symbol(symbol)
    }
}

impl RestDepthSnapshot {
    /// The bid levels that parsed, in wire order.
    pub fn bids(&self) -> (r: Vec<PriceLevel>)
        ensures
            r@ == parsed_levels(self.bids@),
    {
        parse_levels(self.bids.as_slice())
    }

    /// The ask levels that parsed, in wire order.
    pub fn asks(&self) -> (r: Vec<PriceLevel>)
        ensures
            r@ == parsed_levels(self.asks@),
    {
        parse_levels(self.asks.as_slice())
    }
}

/// The REST depth-snapshot URL for an already uppercased symbol:
/// `{base}/api/v3/depth?symbol={SYMBOL}&limit={limit}`.
pub open spec fn depth_url(base: Seq<char>, upper_symbol: Seq<char>, limit: nat) -> Seq<char> {
    base + "/api/v3/depth?symbol="@ + upper_symbol + "&limit="@ + decimal(limit)
}

/// Builds the snapshot URL from an already uppercased symbol.
pub fn depth_snapshot_url_for(rest_base_url: &str, upper_symbol: &str, limit: u32) -> (r: String)
    ensures
        r@ == depth_url(rest_base_url@, upper_symbol@, limit as nat),
{
    let a = concat(rest_base_url, "/api/v3/depth?symbol=");
    let b = concat(a.as_str(), upper_symbol);
    let c = concat(b.as_str(), "&limit=");
    let digits = decimal_string(limit as u64);
    concat(c.as_str(), digits.as_str())
}

/// The URL that `fetch_depth_snapshot` requests: the symbol is uppercased.
pub fn depth_snapshot_url(rest_base_url: &str, symbol: &str, limit: u32) -> (r: String)
    ensures
        r@ == depth_url(rest_base_url@, uppercased(symbol@), limit as nat),
{
    let upper = to_uppercase(symbol);
    depth_snapshot_url_for(rest_base_url, upper.as_str(), limit)
}

} // verus!
