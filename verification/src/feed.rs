//! The decisions of the feed loop. The loop itself (stream connection,
//! snapshot requests, printing) is outside work; each time it receives
//! something it hands it here, together with the book, and carries out
//! what comes back.

use vstd::prelude::*;
use std::time::{Duration, SystemTime, SystemTimeError};
use crate::binance::{canonical_depth, canonical_trade, RawEvent, RestDepthSnapshot};
use crate::binance::{parsed_levels, RawDepthUpdate};
use crate::laws::law_exported_levels_rebuild_the_book;
use crate::orderbook::{
    continues, indexed, lists_side, side_applied, synced_from, BookState, GapDetected, OrderBook,
};
use crate::schema::{MarketEvent, PriceLevel, Snapshot, Trade};
use crate::text::{concat, decimal, decimal_string, lowercased};

verus! {

#[verifier::external_type_specification]
#[verifier::external_body]
pub struct ExSystemTime(SystemTime);

#[verifier::external_type_specification]
#[verifier::external_body]
pub struct ExSystemTimeError(SystemTimeError);

/// What the loop does after a stream payload.
#[derive(Debug)]
pub enum FeedAction {
    /// Print this canonical event.
    Emit(MarketEvent),
    /// The diff was held until the pending snapshot arrives.
    Buffered,
    /// A gap in the update ids: the book was reset and the offending diff
    /// buffered; the loop must request a fresh snapshot.
    Resync(GapDetected),
}

/// The book as the feed's decisions see it.
pub struct BookModel {
    pub state: BookState,
    pub last_update_id: u64,
    pub bids: Map<u64, PriceLevel>,
    pub asks: Map<u64, PriceLevel>,
    pub pending: Seq<RawDepthUpdate>,
}

/// The model of a book.
pub open spec fn book_model(b: OrderBook) -> BookModel {
    BookModel {
        state: b.state_view(),
        last_update_id: b.last_id(),
        bids: b.bid_levels(),
        asks: b.ask_levels(),
        pending: b.pending(),
    }
}

/// What the feed loop receives: a stream payload, a snapshot, or the news
/// that a snapshot request failed (which leaves the book as it is and, while
/// the book awaits a snapshot, asks for a fresh one).
pub enum FeedInput {
    Stream(RawEvent),
    SnapshotArrived(RestDepthSnapshot),
    SnapshotFailed,
}

/// What one step of the loop prints or does. A snapshot line carries the
/// sides as the levels it lists index to; a depth line carries its update
/// ids and canonical levels.
pub enum FeedLine {
    Snapshot { last_update_id: u64, bids: Map<u64, PriceLevel>, asks: Map<u64, PriceLevel> },
    Depth { first_update_id: u64, final_update_id: u64, bids: Seq<PriceLevel>, asks: Seq<PriceLevel> },
    Trade,
    Buffered,
    Resync,
    Refetch,
    FetchFailed,
}

/// The book and the line after a stream payload (`on_stream_event`).
pub open spec fn stream_step(m: BookModel, e: RawEvent) -> (BookModel, FeedLine) {
    match e {
        RawEvent::DepthUpdate(raw) => if m.state == BookState::AwaitingSnapshot {
            (BookModel { pending: m.pending.push(raw), ..m }, FeedLine::Buffered)
        } else if continues(m.last_update_id, raw) {
            (
                BookModel {
                    last_update_id: raw.final_update_id,
                    bids: side_applied(m.bids, raw.bids@),
                    asks: side_applied(m.asks, raw.asks@),
                    ..m
                },
                FeedLine::Depth {
                    first_update_id: raw.first_update_id,
                    final_update_id: raw.final_update_id,
                    bids: parsed_levels(raw.bids@),
                    asks: parsed_levels(raw.asks@),
                },
            )
        } else {
            (
                BookModel {
                    state: BookState::AwaitingSnapshot,
                    bids: Map::empty(),
                    asks: Map::empty(),
                    pending: seq![raw],
                    ..m
                },
                FeedLine::Resync,
            )
        },
        RawEvent::Trade(_) => (m, FeedLine::Trade),
    }
}

/// The book and the line after a snapshot arrives (`on_snapshot`).
pub open spec fn snapshot_step(m: BookModel, s: RestDepthSnapshot) -> (BookModel, FeedLine) {
    let r = synced_from(s, m.pending);
    (
        BookModel {
            state: BookState::Synced,
            last_update_id: r.last_update_id,
            bids: r.bids,
            asks: r.asks,
            pending: Seq::empty(),
        },
        FeedLine::Snapshot { last_update_id: r.last_update_id, bids: r.bids, asks: r.asks },
    )
}

/// The book and the line after a snapshot request failed
/// (`on_snapshot_failed`): a book that awaits a snapshot asks again.
pub open spec fn failed_fetch_step(m: BookModel) -> (BookModel, FeedLine) {
    if m.state == BookState::AwaitingSnapshot {
        (m, FeedLine::Refetch)
    } else {
        (m, FeedLine::FetchFailed)
    }
}

/// One step of the feed loop.
pub open spec fn feed_step(m: BookModel, i: FeedInput) -> (BookModel, FeedLine) {
    match i {
        FeedInput::Stream(e) => stream_step(m, e),
        FeedInput::SnapshotArrived(s) => snapshot_step(m, s),
        FeedInput::SnapshotFailed => failed_fetch_step(m),
    }
}

/// The line a stream decision stands for.
pub open spec fn action_line(a: FeedAction) -> FeedLine {
    match a {
        FeedAction::Emit(MarketEvent::Depth(d)) => FeedLine::Depth {
            first_update_id: d.first_update_id,
            final_update_id: d.final_update_id,
            bids: d.bids@,
            asks: d.asks@,
        },
        FeedAction::Emit(MarketEvent::Trade { .. }) => FeedLine::Trade,
        FeedAction::Emit(MarketEvent::Snapshot(s)) => FeedLine::Snapshot {
            last_update_id: s.last_update_id,
            bids: indexed(s.bids@),
            asks: indexed(s.asks@),
        },
        FeedAction::Buffered => FeedLine::Buffered,
        FeedAction::Resync(_) => FeedLine::Resync,
    }
}

/// What the loop does after a snapshot request failed.
#[derive(Debug, Clone, Copy, PartialEq, Eq, Structural)]
pub enum AfterFailedFetch {
    /// Request a fresh snapshot: the book still awaits one.
    Refetch,
    /// Nothing: the book is already synced.
    Ignore,
}

/// Handles a failed snapshot request. A book that awaits a snapshot would
/// otherwise never sync (its buffer only grows), so it asks for a fresh one;
/// a synced book needs none. The book is left as it is.
pub fn on_snapshot_failed(book: &OrderBook) -> (r: AfterFailedFetch)
    ensures
        (r == AfterFailedFetch::Refetch) == (book.state_view() == BookState::AwaitingSnapshot),
        (match r {
            AfterFailedFetch::Refetch => FeedLine::Refetch,
            AfterFailedFetch::Ignore => FeedLine::FetchFailed,
        }) == failed_fetch_step(book_model(*book)).1,
{
    match book.current_state() {
        BookState::AwaitingSnapshot => AfterFailedFetch::Refetch,
        BookState::Synced => AfterFailedFetch::Ignore,
    }
}

/// Handles a depth or trade payload from the combined stream.
///
/// A diff is buffered while the book awaits a snapshot. On a synced book a
/// diff that continues the update-id chain is applied and emitted as a
/// canonical `Depth` event; one that does not is a gap: the book is reset,
/// the diff buffered, and a resync requested. A trade is emitted as a
/// canonical `Trade` event and leaves the book alone.
pub fn on_stream_event(book: &mut OrderBook, event: RawEvent) -> (r: FeedAction)
    requires
        event is DepthUpdate && old(book).state_view() == BookState::Synced ==> old(book).last_id()
            < u64::MAX,
    ensures
        final(book).symbol_view() == old(book).symbol_view(),
        book_model(*final(book)) == stream_step(book_model(*old(book)), event).0,
        action_line(r) == stream_step(book_model(*old(book)), event).1,
        r matches FeedAction::Emit(MarketEvent::Depth(d)) ==> d.first_update_id == old(book).last_id()
            + 1 && final(book).last_id() == d.final_update_id,
        match event {
            RawEvent::DepthUpdate(raw) => {
                if old(book).state_view() == BookState::AwaitingSnapshot {
                    &&& r is Buffered
                    &&& final(book).pending() == old(book).pending().push(raw)
                    &&& final(book).state_view() == old(book).state_view()
                    &&& final(book).last_id() == old(book).last_id()
                    &&& final(book).bid_levels() == old(book).bid_levels()
                    &&& final(book).ask_levels() == old(book).ask_levels()
                } else if continues(old(book).last_id(), raw) {
                    &&& r matches FeedAction::Emit(MarketEvent::Depth(d))
                    &&& canonical_depth(raw, lowercased(raw.symbol@), d)
                    &&& final(book).state_view() == BookState::Synced
                    &&& final(book).last_id() == raw.final_update_id
                    &&& final(book).bid_levels() == side_applied(old(book).bid_levels(), raw.bids@)
                    &&& final(book).ask_levels() == side_applied(old(book).ask_levels(), raw.asks@)
                    &&& final(book).pending() == old(book).pending()
                } else {
                    &&& r == FeedAction::Resync(
                        (GapDetected {
                            expected_first_update_id: (old(book).last_id() + 1) as u64,
                            got_first_update_id: raw.first_update_id,
                        }),
                    )
                    &&& final(book).state_view() == BookState::AwaitingSnapshot
                    &&& final(book).bid_levels() == Map::<u64, crate::schema::PriceLevel>::empty()
                    &&& final(book).ask_levels() == Map::<u64, crate::schema::PriceLevel>::empty()
                    &&& final(book).pending() == seq![raw]
                    &&& final(book).last_id() == old(book).last_id()
                }
            },
            RawEvent::Trade(t) => {
                &&& r matches FeedAction::Emit(MarketEvent::Trade { symbol, trade })
                &&& canonical_trade(t, lowercased(t.symbol@), (symbol, trade))
                &&& final(book).state_view() == old(book).state_view()
                &&& final(book).last_id() == old(book).last_id()
                &&& final(book).bid_levels() == old(book).bid_levels()
                &&& final(book).ask_levels() == old(book).ask_levels()
                &&& final(book).pending() == old(book).pending()
            },
        },
{
    match event {
        RawEvent::DepthUpdate(raw) => {
            match book.current_state() {
                BookState::AwaitingSnapshot => {
                    book.buffer_event(raw);
                    FeedAction::Buffered
                },
                BookState::Synced => {
                    match book.apply_event(&raw) {
                        Ok(()) => FeedAction::Emit(MarketEvent::Depth(raw.into_canonical())),
                        Err(gap) => {
                            book.reset_for_resync();
                            book.buffer_event(raw);
                            FeedAction::Resync(gap)
                        },
                    }
                },
            }
        },
        RawEvent::Trade(t) => {
            let (symbol, trade) = t.into_canonical();
            FeedAction::Emit(MarketEvent::Trade { symbol, trade })
        },
    }
}

/// Handles a snapshot that arrived: syncs the book from it and the
/// buffered diffs, and returns the `Snapshot` event that carries the full
/// book as it stands afterwards, stamped with `now_ms`.
pub fn on_snapshot(book: &mut OrderBook, snapshot: RestDepthSnapshot, now_ms: u64) -> (r: Snapshot)
    ensures
        ({
            let s = synced_from(snapshot, old(book).pending());
            &&& final(book).last_id() == s.last_update_id
            &&& final(book).bid_levels() == s.bids
            &&& final(book).ask_levels() == s.asks
        }),
        final(book).state_view() == BookState::Synced,
        final(book).pending() == Seq::<crate::binance::RawDepthUpdate>::empty(),
        final(book).symbol_view() == old(book).symbol_view(),
        final(book).wf(),
        r.symbol@ == old(book).symbol_view(),
        r.event_time_ms == now_ms,
        r.last_update_id == final(book).last_id(),
        lists_side(final(book).bid_levels(), r.bids@),
        lists_side(final(book).ask_levels(), r.asks@),
        book_model(*final(book)) == snapshot_step(book_model(*old(book)), snapshot).0,
        (FeedLine::Snapshot {
            last_update_id: r.last_update_id,
            bids: indexed(r.bids@),
            asks: indexed(r.asks@),
        }) == snapshot_step(book_model(*old(book)), snapshot).1,
{
    book.apply_snapshot(snapshot);
    let (bids, asks) = book.export_levels();
    proof {
        law_exported_levels_rebuild_the_book(*book, bids@, asks@);
    }
    Snapshot {
        symbol: book.symbol_text(),
        event_time_ms: now_ms,
        last_update_id: book.current_last_id(),
        bids,
        asks,
    }
}

/// The combined-stream URL for one symbol:
/// `{base}?streams={symbol}@depth@{speed}ms/{symbol}@trade`.
pub open spec fn stream_url_text(base: Seq<char>, symbol: Seq<char>, speed_ms: nat) -> Seq<char> {
    base + "?streams="@ + symbol + "@depth@"@ + decimal(speed_ms) + "ms/"@ + symbol + "@trade"@
}

/// Builds the combined-stream URL the feed connects to.
pub fn stream_url(stream_base_url: &str, symbol: &str, depth_update_speed_ms: u64) -> (r: String)
    ensures
        r@ == stream_url_text(stream_base_url@, symbol@, depth_update_speed_ms as nat),
{
    let speed = decimal_string(depth_update_speed_ms);
    let a = concat(stream_base_url, "?streams=");
    let b = concat(a.as_str(), symbol);
    let c = concat(b.as_str(), "@depth@");
    let d = concat(c.as_str(), speed.as_str());
    let e = concat(d.as_str(), "ms/");
    let f = concat(e.as_str(), symbol);
    concat(f.as_str(), "@trade")
}

/// Calls `SystemTime::now`. Nothing is claimed of the result: it is the
/// machine's clock.
#[verifier::external_body]
fn system_now() -> SystemTime {
    SystemTime::now()
}

/// Calls `SystemTime::duration_since` with `UNIX_EPOCH`. Nothing is
/// claimed: `SystemTime` is opaque here, and the call fails for a time
/// before the epoch.
#[verifier::external_body]
fn since_unix_epoch(t: &SystemTime) -> Result<Duration, SystemTimeError> {
    t.duration_since(std::time::UNIX_EPOCH)
}

/// Calls `Duration::as_millis`. Nothing is claimed: `Duration` is opaque
/// here.
#[verifier::external_body]
fn whole_millis(d: &Duration) -> u128 {
    d.as_millis()
}

/// The event timestamp made from the time since the epoch: the whole
/// milliseconds cut to their low 64 bits (as `as u64` does), or 0 when the
/// clock reads before the epoch.
pub fn epoch_millis(since_epoch: Option<u128>) -> (r: u64)
    ensures
        r == match since_epoch {
            Some(ms) => ms % 0x1_0000_0000_0000_0000,
            None => 0,
        },
{
    match since_epoch {
        Some(ms) => (ms % 0x1_0000_0000_0000_0000) as u64,
        None => 0,
    }
}

/// The current wall-clock time in milliseconds since the Unix epoch (0 if
/// the clock reads before it). Nothing is claimed of the value: it is the
/// machine's clock.
pub fn now_ms() -> u64 {
    let t = system_now();
    let since = match since_unix_epoch(&t) {
        Ok(d) => Some(whole_millis(&d)),
        Err(_) => None,
    };
    epoch_millis(since)
}

} // verus!
