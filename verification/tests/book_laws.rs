use feed_handler::binance::{RawDepthUpdate, RawEvent, RawLevel, RestDepthSnapshot};
use feed_handler::feed::{on_snapshot, on_stream_event, FeedAction};
use feed_handler::schema::MarketEvent;
use std::collections::HashMap;
use feed_handler::orderbook::{BookState, OrderBook};
use feed_handler::schema::PriceLevel;

fn bits(text: &str) -> Option<u64> {
    text.parse::<f64>().ok().map(f64::to_bits)
}

fn level(price: &str, qty: &str) -> RawLevel {
    RawLevel { price: bits(price), quantity: bits(qty) }
}

fn diff(first: u64, final_: u64, bids: Vec<RawLevel>, asks: Vec<RawLevel>) -> RawDepthUpdate {
    RawDepthUpdate {
        event_time_ms: 7,
        symbol: "BTCUSDT".to_string(),
        first_update_id: first,
        final_update_id: final_,
        bids,
        asks,
    }
}

fn snap(last_update_id: u64, bids: Vec<RawLevel>, asks: Vec<RawLevel>) -> RestDepthSnapshot {
    RestDepthSnapshot { last_update_id, bids, asks }
}

fn price_of(l: &PriceLevel) -> f64 {
    f64::from_bits(l.price_bits)
}

fn sorted_prices(levels: &[PriceLevel]) -> Vec<f64> {
    let mut v: Vec<f64> = levels.iter().map(price_of).collect();
    v.sort_by(|a, b| a.partial_cmp(b).unwrap());
    v
}

#[test]
fn new_book_is_empty_and_awaits_a_snapshot() {
    let book = OrderBook::new("ethusdt");
    assert_eq!(book.symbol, "ethusdt");
    assert_eq!(book.state, BookState::AwaitingSnapshot);
    assert_eq!(book.last_update_id, 0);
    assert_eq!(book.depth(), (0, 0));
    assert!(book.best_bid().is_none());
    assert!(book.best_ask().is_none());
}

#[test]
fn stale_event_anywhere_in_the_buffer_changes_nothing() {
    let run = |with_stale: bool| {
        let mut book = OrderBook::new("btcusdt");
        book.buffer_event(diff(99, 101, vec![level("98.0", "1.0")], vec![]));
        if with_stale {
            book.buffer_event(diff(40, 60, vec![level("97.0", "1.0")], vec![]));
        }
        book.buffer_event(diff(102, 102, vec![], vec![level("102.0", "4.0")]));
        book.apply_snapshot(snap(100, vec![level("100.0", "1.0")], vec![level("101.0", "1.0")]));
        let (b, a) = book.export_levels();
        (book.last_update_id, sorted_prices(&b), sorted_prices(&a))
    };
    assert_eq!(run(true), run(false));
    assert_eq!(run(true), (102, vec![98.0, 100.0], vec![101.0, 102.0]));
}

#[test]
fn without_a_straddling_event_the_book_is_the_snapshot() {
    let mut book = OrderBook::new("btcusdt");
    // Neither event covers id 101: one ends before it, one starts after it.
    book.buffer_event(diff(90, 100, vec![level("1.0", "1.0")], vec![]));
    book.buffer_event(diff(105, 110, vec![level("2.0", "1.0")], vec![]));
    book.apply_snapshot(snap(100, vec![level("100.0", "1.0")], vec![level("101.0", "1.0")]));
    assert_eq!(book.state, BookState::Synced);
    assert_eq!(book.last_update_id, 100);
    assert_eq!(book.depth(), (1, 1));
}

#[test]
fn events_before_the_first_straddling_one_are_dropped_and_later_ones_applied() {
    let mut book = OrderBook::new("btcusdt");
    // 102..103 is newer than the snapshot but does not cover 101: dropped.
    book.buffer_event(diff(102, 103, vec![level("1.0", "1.0")], vec![]));
    // Covers 101: first applied.
    book.buffer_event(diff(100, 101, vec![level("2.0", "1.0")], vec![]));
    // Continues the chain (U = 101 + 1): applied.
    book.buffer_event(diff(102, 104, vec![level("3.0", "1.0")], vec![]));
    book.apply_snapshot(snap(100, vec![], vec![]));
    let (b, _) = book.export_levels();
    assert_eq!(sorted_prices(&b), vec![2.0, 3.0]);
    assert_eq!(book.last_update_id, 104);
}

#[test]
fn a_missed_message_in_the_buffer_stops_the_replay_and_the_next_event_reports_the_gap() {
    let mut book = OrderBook::new("btcusdt");
    book.buffer_event(diff(95, 102, vec![level("100.5", "2.0")], vec![]));
    // 103..109 never arrived: this one does not continue the chain.
    book.buffer_event(diff(110, 112, vec![level("100.7", "3.0")], vec![]));
    // Nor is anything after the break applied, even if it chains onto it.
    book.buffer_event(diff(113, 114, vec![level("100.8", "3.0")], vec![]));
    book.apply_snapshot(snap(100, vec![level("100.0", "1.0")], vec![level("101.0", "1.0")]));
    assert_eq!(book.state, BookState::Synced);
    assert_eq!(book.last_update_id, 102);
    assert_eq!(book.depth(), (2, 1));
    let (b, _) = book.export_levels();
    assert_eq!(sorted_prices(&b), vec![100.0, 100.5]);
    let err = book.apply_event(&diff(115, 116, vec![], vec![])).unwrap_err();
    assert_eq!((err.expected_first_update_id, err.got_first_update_id), (103, 115));
}

#[test]
fn gap_leaves_the_book_untouched() {
    let mut book = OrderBook::new("btcusdt");
    book.apply_snapshot(snap(100, vec![level("100.0", "1.0")], vec![level("101.0", "1.0")]));
    let before = book.export_levels();
    let err = book.apply_event(&diff(103, 104, vec![level("50.0", "1.0")], vec![])).unwrap_err();
    assert_eq!((err.expected_first_update_id, err.got_first_update_id), (101, 103));
    assert_eq!(book.last_update_id, 100);
    assert_eq!(book.state, BookState::Synced);
    assert_eq!(book.export_levels(), before);
}

#[test]
fn contiguous_events_chain_on_final_update_id() {
    let mut book = OrderBook::new("btcusdt");
    book.apply_snapshot(snap(100, vec![], vec![]));
    assert!(book.apply_event(&diff(101, 105, vec![], vec![])).is_ok());
    assert!(book.apply_event(&diff(106, 106, vec![], vec![])).is_ok());
    let err = book.apply_event(&diff(106, 107, vec![], vec![])).unwrap_err();
    assert_eq!(err.expected_first_update_id, 107);
    assert_eq!(book.last_update_id, 106);
}

#[test]
fn reset_keeps_the_last_update_id_and_drops_the_buffer() {
    let mut book = OrderBook::new("btcusdt");
    book.apply_snapshot(snap(100, vec![level("1.0", "1.0")], vec![]));
    book.apply_event(&diff(101, 120, vec![], vec![])).unwrap();
    book.reset_for_resync();
    assert_eq!(book.last_update_id, 120);
    // The buffer was cleared: a snapshot now applies nothing else.
    book.apply_snapshot(snap(200, vec![], vec![]));
    assert_eq!(book.last_update_id, 200);
    assert_eq!(book.depth(), (0, 0));
}

#[test]
fn levels_that_do_not_parse_are_skipped_and_zero_of_either_sign_removes() {
    let mut book = OrderBook::new("btcusdt");
    book.apply_snapshot(snap(
        10,
        vec![level("1.0", "1.0"), level("2.0", "1.0"), level("abc", "1.0")],
        vec![level("3.0", "x")],
    ));
    assert_eq!(book.depth(), (2, 0));
    book.apply_event(&diff(11, 11, vec![level("1.0", "-0.0"), level("2.0", "0.00000"), level("4.0", "nope")], vec![]))
        .unwrap();
    assert_eq!(book.depth(), (0, 0));
}

#[test]
fn a_later_level_at_the_same_price_replaces_the_earlier() {
    let mut book = OrderBook::new("btcusdt");
    book.apply_snapshot(snap(10, vec![level("1.0", "1.0"), level("1.00", "5.0")], vec![]));
    let (b, _) = book.export_levels();
    assert_eq!(b.len(), 1);
    assert_eq!(f64::from_bits(b[0].quantity_bits), 5.0);
    book.apply_event(&diff(11, 11, vec![level("1.0", "7.5")], vec![])).unwrap();
    let (b, _) = book.export_levels();
    assert_eq!(f64::from_bits(b[0].quantity_bits), 7.5);
}

#[test]
fn best_bid_is_the_highest_and_best_ask_the_lowest() {
    let mut book = OrderBook::new("btcusdt");
    book.apply_snapshot(snap(
        10,
        vec![level("99.5", "1.0"), level("100.25", "2.0"), level("98.0", "3.0"), level("-1.0", "1.0")],
        vec![level("101.0", "1.0"), level("100.5", "4.0"), level("1000.0", "1.0")],
    ));
    let bid = book.best_bid().unwrap();
    assert_eq!(f64::from_bits(bid.price_bits), 100.25);
    assert_eq!(f64::from_bits(bid.quantity_bits), 2.0);
    let ask = book.best_ask().unwrap();
    assert_eq!(f64::from_bits(ask.price_bits), 100.5);
    assert_eq!(f64::from_bits(ask.quantity_bits), 4.0);
}

#[test]
fn exported_levels_rebuild_the_same_book() {
    let mut book = OrderBook::new("btcusdt");
    book.apply_snapshot(snap(
        10,
        vec![level("1.0", "1.0"), level("2.0", "2.0"), level("3.0", "3.0")],
        vec![level("4.0", "4.0")],
    ));
    book.apply_event(&diff(11, 12, vec![level("2.0", "0"), level("5.0", "5.0")], vec![level("6.0", "1.0")]))
        .unwrap();
    let (bids, asks) = book.export_levels();
    let to_raw = |levels: &Vec<PriceLevel>| -> Vec<RawLevel> {
        levels
            .iter()
            .map(|l| RawLevel { price: Some(l.price_bits), quantity: Some(l.quantity_bits) })
            .collect()
    };
    let mut rebuilt = OrderBook::new("btcusdt");
    rebuilt.apply_snapshot(snap(12, to_raw(&bids), to_raw(&asks)));
    let (b2, a2) = rebuilt.export_levels();
    assert_eq!(sorted_prices(&bids), sorted_prices(&b2));
    assert_eq!(sorted_prices(&asks), sorted_prices(&a2));
    assert_eq!(sorted_prices(&bids), vec![1.0, 3.0, 5.0]);
    assert_eq!(sorted_prices(&asks), vec![4.0, 6.0]);
    assert_eq!(book.depth(), rebuilt.depth());
}

#[test]
fn snapshot_then_depth_events_replay_to_the_live_book() {
    let mut book = OrderBook::new("btcusdt");
    let s = on_snapshot(
        &mut book,
        snap(10, vec![level("1.0", "1.0"), level("2.0", "2.0")], vec![level("5.0", "1.0")]),
        0,
    );
    let mut replayed_bids: HashMap<u64, PriceLevel> = s.bids.iter().map(|l| (l.price_bits, *l)).collect();
    let mut replayed_asks: HashMap<u64, PriceLevel> = s.asks.iter().map(|l| (l.price_bits, *l)).collect();
    let events = vec![
        diff(11, 12, vec![level("1.0", "0"), level("3.0", "1.5"), level("bad", "1")], vec![level("6.0", "2")]),
        diff(13, 13, vec![level("2.0", "9.0")], vec![level("5.0", "0.0")]),
    ];
    for e in events {
        match on_stream_event(&mut book, RawEvent::DepthUpdate(e)) {
            FeedAction::Emit(MarketEvent::Depth(d)) => {
                for (side, levels) in [(&mut replayed_bids, &d.bids), (&mut replayed_asks, &d.asks)] {
                    for l in levels.iter() {
                        if f64::from_bits(l.quantity_bits) == 0.0 {
                            side.remove(&l.price_bits);
                        } else {
                            side.insert(l.price_bits, *l);
                        }
                    }
                }
            },
            other => panic!("unexpected {other:?}"),
        }
    }
    let (bids, asks) = book.export_levels();
    let rb: Vec<PriceLevel> = replayed_bids.values().copied().collect();
    let ra: Vec<PriceLevel> = replayed_asks.values().copied().collect();
    assert_eq!(sorted_prices(&bids), sorted_prices(&rb));
    assert_eq!(sorted_prices(&asks), sorted_prices(&ra));
    assert_eq!(sorted_prices(&bids), vec![2.0, 3.0]);
    assert_eq!(sorted_prices(&asks), vec![6.0]);
    assert_eq!(replayed_bids[&2.0f64.to_bits()].quantity_bits, 9.0f64.to_bits());
}

#[test]
fn synced_book_is_never_behind_the_snapshot() {
    let mut book = OrderBook::new("btcusdt");
    book.buffer_event(diff(101, 150, vec![], vec![]));
    book.buffer_event(diff(120, 130, vec![], vec![]));
    book.apply_snapshot(snap(100, vec![], vec![]));
    assert_eq!(book.last_update_id, 150);
    assert!(book.last_update_id >= 100);
}

#[test]
fn buffering_then_syncing_equals_syncing_then_applying() {
    let events = vec![
        diff(101, 103, vec![level("1.0", "1.0"), level("100.0", "0")], vec![level("7.0", "2.0")]),
        diff(104, 104, vec![level("2.0", "3.0")], vec![]),
        diff(105, 109, vec![level("1.0", "4.0")], vec![level("7.0", "0")]),
    ];
    let s = || snap(100, vec![level("100.0", "1.0")], vec![level("101.0", "1.0")]);
    let mut a = OrderBook::new("btcusdt");
    for e in events.iter() {
        a.buffer_event(e.clone());
    }
    a.apply_snapshot(s());
    let mut b = OrderBook::new("btcusdt");
    b.apply_snapshot(s());
    for e in events.iter() {
        assert!(b.apply_event(e).is_ok());
    }
    assert_eq!(a.state, b.state);
    assert_eq!(a.last_update_id, 109);
    assert_eq!(a.last_update_id, b.last_update_id);
    let (ab, aa) = a.export_levels();
    let (bb, ba) = b.export_levels();
    assert_eq!(sorted_prices(&ab), sorted_prices(&bb));
    assert_eq!(sorted_prices(&aa), sorted_prices(&ba));
    assert_eq!(sorted_prices(&ab), vec![1.0, 2.0]);
    assert_eq!(sorted_prices(&aa), vec![101.0]);
}

#[test]
fn applying_the_same_levels_twice_is_applying_them_once() {
    let levels = vec![level("1.0", "1.0"), level("1.0", "0"), level("2.0", "0"), level("2.0", "5.0"), level("3.0", "0")];
    let mut once = OrderBook::new("btcusdt");
    once.apply_snapshot(snap(10, vec![level("3.0", "1.0"), level("4.0", "1.0")], vec![]));
    once.apply_event(&diff(11, 11, levels.clone(), vec![])).unwrap();
    let mut twice = OrderBook::new("btcusdt");
    twice.apply_snapshot(snap(10, vec![level("3.0", "1.0"), level("4.0", "1.0")], vec![]));
    twice.apply_event(&diff(11, 11, levels.clone(), vec![])).unwrap();
    twice.apply_event(&diff(12, 12, levels, vec![])).unwrap();
    let (o, _) = once.export_levels();
    let (t, _) = twice.export_levels();
    assert_eq!(sorted_prices(&o), sorted_prices(&t));
    assert_eq!(sorted_prices(&o), vec![2.0, 4.0]);
}

#[test]
fn a_feed_run_prints_no_gaps_rebuilds_the_book_and_keeps_one_request_open() {
    let mut book = OrderBook::new("btcusdt");
    let mut open_requests = 1i32;
    let mut rebuilt: Option<(u64, HashMap<u64, PriceLevel>)> = None;
    let mut check = |book: &OrderBook, open: i32| {
        assert!((0..=1).contains(&open));
        if open == 1 {
            assert_eq!(book.state, BookState::AwaitingSnapshot);
        }
        if book.state == BookState::Synced {
            assert_eq!(open, 0);
        }
    };
    let stream = vec![
        RawEvent::DepthUpdate(diff(99, 101, vec![level("1.0", "1.0")], vec![])),
        RawEvent::DepthUpdate(diff(102, 102, vec![level("2.0", "1.0")], vec![])),
    ];
    for e in stream {
        assert!(matches!(on_stream_event(&mut book, e), FeedAction::Buffered));
        check(&book, open_requests);
    }
    let s = on_snapshot(&mut book, snap(100, vec![level("3.0", "1.0")], vec![]), 0);
    open_requests -= 1;
    rebuilt = Some((s.last_update_id, s.bids.iter().map(|l| (l.price_bits, *l)).collect()));
    check(&book, open_requests);
    let live = vec![
        diff(103, 104, vec![level("1.0", "0")], vec![]),
        diff(105, 105, vec![level("4.0", "2.0")], vec![]),
        diff(107, 108, vec![level("5.0", "2.0")], vec![]),
    ];
    for e in live {
        match on_stream_event(&mut book, RawEvent::DepthUpdate(e)) {
            FeedAction::Emit(MarketEvent::Depth(d)) => {
                let (id, side) = rebuilt.as_mut().unwrap();
                assert_eq!(d.first_update_id, *id + 1);
                *id = d.final_update_id;
                for l in d.bids.iter() {
                    if f64::from_bits(l.quantity_bits) == 0.0 {
                        side.remove(&l.price_bits);
                    } else {
                        side.insert(l.price_bits, *l);
                    }
                }
                let (bids, _) = book.export_levels();
                let rb: Vec<PriceLevel> = side.values().copied().collect();
                assert_eq!(sorted_prices(&bids), sorted_prices(&rb));
                assert_eq!(book.last_update_id, *id);
            },
            FeedAction::Resync(_) => open_requests += 1,
            other => panic!("unexpected {other:?}"),
        }
        check(&book, open_requests);
    }
    assert_eq!(open_requests, 1);
    assert_eq!(rebuilt.unwrap().0, 105);
}
