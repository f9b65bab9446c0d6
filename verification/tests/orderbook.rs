use feed_handler::binance::{RawDepthUpdate, RawLevel, RestDepthSnapshot};
use feed_handler::orderbook::{BookState, OrderBook};

fn bits(text: &str) -> Option<u64> {
    text.parse::<f64>().ok().map(f64::to_bits)
}

fn level(price: &str, qty: &str) -> RawLevel {
    RawLevel { price: bits(price), quantity: bits(qty) }
}

fn diff(first: u64, final_: u64, bids: Vec<RawLevel>, asks: Vec<RawLevel>) -> RawDepthUpdate {
    RawDepthUpdate {
        event_time_ms: 0,
        symbol: "BTCUSDT".to_string(),
        first_update_id: first,
        final_update_id: final_,
        bids,
        asks,
    }
}

fn snapshot(last_update_id: u64) -> RestDepthSnapshot {
    RestDepthSnapshot {
        last_update_id,
        bids: vec![level("100.0", "1.0")],
        asks: vec![level("101.0", "1.0")],
    }
}

#[test]
fn buffers_events_until_snapshot_arrives() {
    let mut book = OrderBook::new("btcusdt");
    assert_eq!(book.state, BookState::AwaitingSnapshot);
    book.buffer_event(diff(101, 105, vec![], vec![]));
    // Still awaiting: nothing applied yet.
    assert_eq!(book.depth(), (0, 0));
}

#[test]
fn drops_buffered_events_older_than_snapshot_then_applies_the_rest() {
    let mut book = OrderBook::new("btcusdt");
    // Snapshot will report lastUpdateId = 100.
    book.buffer_event(diff(50, 90, vec![level("99.0", "5.0")], vec![])); // stale, must be dropped
    book.buffer_event(diff(95, 102, vec![level("100.5", "2.0")], vec![])); // straddles snapshot: U<=101<=u
    book.buffer_event(diff(103, 104, vec![level("100.6", "3.0")], vec![])); // contiguous after

    book.apply_snapshot(snapshot(100));

    assert_eq!(book.state, BookState::Synced);
    assert_eq!(book.last_update_id, 104);
    // Snapshot level + the two applied diffs = 3 bid levels.
    assert_eq!(book.depth(), (3, 1));
}

#[test]
fn synced_book_applies_contiguous_events() {
    let mut book = OrderBook::new("btcusdt");
    book.apply_snapshot(snapshot(100));

    let result = book.apply_event(&diff(101, 103, vec![level("100.5", "1.0")], vec![]));
    assert!(result.is_ok());
    assert_eq!(book.last_update_id, 103);
}

#[test]
fn detects_gap_and_reports_expected_vs_actual() {
    let mut book = OrderBook::new("btcusdt");
    book.apply_snapshot(snapshot(100));

    // Expected next U is 101, but this event starts at 110: a gap.
    let err = book
        .apply_event(&diff(110, 115, vec![], vec![]))
        .unwrap_err();
    assert_eq!(err.expected_first_update_id, 101);
    assert_eq!(err.got_first_update_id, 110);
}

#[test]
fn zero_quantity_removes_the_price_level() {
    let mut book = OrderBook::new("btcusdt");
    book.apply_snapshot(snapshot(100));
    assert_eq!(book.depth(), (1, 1));

    book.apply_event(&diff(101, 102, vec![level("100.0", "0")], vec![]))
        .unwrap();
    assert_eq!(book.depth(), (0, 1));
}

#[test]
fn reset_for_resync_clears_state_back_to_awaiting_snapshot() {
    let mut book = OrderBook::new("btcusdt");
    book.apply_snapshot(snapshot(100));
    book.reset_for_resync();
    assert_eq!(book.state, BookState::AwaitingSnapshot);
    assert_eq!(book.depth(), (0, 0));
}
