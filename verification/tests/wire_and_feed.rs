use feed_handler::binance::{
    depth_snapshot_url, depth_snapshot_url_for, parse_levels, RawDepthUpdate, RawEvent, RawLevel,
    RawTrade, RestDepthSnapshot,
};
use feed_handler::config::{Credentials, CredentialsError};
use feed_handler::feed::{
    epoch_millis, now_ms, on_snapshot, on_snapshot_failed, on_stream_event, stream_url, AfterFailedFetch,
    FeedAction,
};
use feed_handler::ieee::{price_greater, price_less, quantity_is_zero};
use feed_handler::orderbook::{BookState, GapDetected, OrderBook};
use feed_handler::schema::{MarketEvent, PriceLevel, Trade};
use feed_handler::text::decimal_string;

fn bits(text: &str) -> Option<u64> {
    text.parse::<f64>().ok().map(f64::to_bits)
}

fn level(price: &str, qty: &str) -> RawLevel {
    RawLevel { price: bits(price), quantity: bits(qty) }
}

fn diff(first: u64, final_: u64, bids: Vec<RawLevel>) -> RawDepthUpdate {
    RawDepthUpdate {
        event_time_ms: 42,
        symbol: "BTCUSDT".to_string(),
        first_update_id: first,
        final_update_id: final_,
        bids,
        asks: vec![],
    }
}

#[test]
fn zero_test_on_bit_patterns() {
    assert!(quantity_is_zero(0.0f64.to_bits()));
    assert!(quantity_is_zero((-0.0f64).to_bits()));
    assert!(!quantity_is_zero(1.0f64.to_bits()));
    assert!(!quantity_is_zero(f64::MIN_POSITIVE.to_bits()));
}

#[test]
fn price_comparison_matches_the_numbers() {
    let cases = [1.0f64, -1.0, 0.0, -0.0, 2.5, -2.5, 1e300, -1e300, f64::INFINITY, f64::NEG_INFINITY, f64::NAN];
    for a in cases {
        for b in cases {
            assert_eq!(price_greater(a.to_bits(), b.to_bits()), a > b, "{a} > {b}");
            assert_eq!(price_less(a.to_bits(), b.to_bits()), a < b, "{a} < {b}");
        }
    }
}

#[test]
fn parse_levels_keeps_only_complete_levels_in_order() {
    let levels = vec![level("1.5", "2"), level("x", "2"), level("3", "y"), level("4", "0")];
    let parsed = parse_levels(&levels);
    assert_eq!(
        parsed,
        vec![
            PriceLevel { price_bits: 1.5f64.to_bits(), quantity_bits: 2.0f64.to_bits() },
            PriceLevel { price_bits: 4.0f64.to_bits(), quantity_bits: 0.0f64.to_bits() },
        ]
    );
}

#[test]
fn depth_update_becomes_canonical_with_a_lowercased_symbol() {
    let raw = RawDepthUpdate {
        event_time_ms: 5,
        symbol: "BTCUSDT".to_string(),
        first_update_id: 7,
        final_update_id: 9,
        bids: vec![level("1", "2"), level("bad", "1")],
        asks: vec![level("3", "4")],
    };
    let d = raw.into_canonical();
    assert_eq!(d.symbol, "btcusdt");
    assert_eq!((d.event_time_ms, d.first_update_id, d.final_update_id), (5, 7, 9));
    assert_eq!(d.prev_final_update_id, None);
    assert_eq!(d.bids.len(), 1);
    assert_eq!(d.asks, vec![PriceLevel { price_bits: 3.0f64.to_bits(), quantity_bits: 4.0f64.to_bits() }]);
    let same = raw.canonical_with_symbol("X".to_string());
    assert_eq!(same.symbol, "X");
}

#[test]
fn trade_becomes_canonical_and_unparsable_numbers_become_zero() {
    let raw = RawTrade {
        event_time_ms: 11,
        symbol: "ETHUSDT".to_string(),
        trade_id: 99,
        price: bits("2500.5"),
        quantity: bits("oops"),
        is_buyer_maker: true,
    };
    let (symbol, trade) = raw.into_canonical();
    assert_eq!(symbol, "ethusdt");
    assert_eq!(
        trade,
        Trade {
            trade_id: 99,
            event_time_ms: 11,
            price_bits: 2500.5f64.to_bits(),
            quantity_bits: 0,
            is_buyer_maker: true,
        }
    );
}

#[test]
fn snapshot_sides_are_the_parsed_levels() {
    let s = RestDepthSnapshot { last_update_id: 1, bids: vec![level("1", "1"), level("?", "1")], asks: vec![] };
    assert_eq!(s.bids().len(), 1);
    assert!(s.asks().is_empty());
}

#[test]
fn urls_are_built_as_the_exchange_expects() {
    assert_eq!(
        depth_snapshot_url("https://testnet.binance.vision", "btcusdt", 1000),
        "https://testnet.binance.vision/api/v3/depth?symbol=BTCUSDT&limit=1000"
    );
    assert_eq!(depth_snapshot_url_for("h", "ABC", 0), "h/api/v3/depth?symbol=ABC&limit=0");
    assert_eq!(
        stream_url("wss://stream.testnet.binance.vision/stream", "btcusdt", 100),
        "wss://stream.testnet.binance.vision/stream?streams=btcusdt@depth@100ms/btcusdt@trade"
    );
}

#[test]
fn decimal_rendering() {
    assert_eq!(decimal_string(0), "0");
    assert_eq!(decimal_string(7), "7");
    assert_eq!(decimal_string(10), "10");
    assert_eq!(decimal_string(1234567890), "1234567890");
    assert_eq!(decimal_string(u64::MAX), u64::MAX.to_string());
}

#[test]
fn epoch_millis_truncates_to_64_bits() {
    assert_eq!(epoch_millis(None), 0);
    assert_eq!(epoch_millis(Some(1_700_000_000_123)), 1_700_000_000_123);
    assert_eq!(epoch_millis(Some((1u128 << 64) + 5)), 5);
    // The clock reads after 2020.
    assert!(now_ms() > 1_577_836_800_000);
}

#[test]
fn credentials_need_both_variables_and_the_key_is_checked_first() {
    let ok = Credentials::from_env_values(Some("k".to_string()), Some("s".to_string())).ok().unwrap();
    assert_eq!((ok.api_key.as_str(), ok.api_secret.as_str()), ("k", "s"));
    let e1 = Credentials::from_env_values(None, None).err().unwrap();
    assert_eq!(e1, CredentialsError::MissingApiKey);
    assert_eq!(e1.message(), "BINANCE_API_KEY not set");
    let e2 = Credentials::from_env_values(Some("k".to_string()), None).err().unwrap();
    assert_eq!(e2, CredentialsError::MissingApiSecret);
    assert_eq!(e2.message(), "BINANCE_API_SECRET not set");
}

#[test]
fn market_event_accessors() {
    let t = MarketEvent::Trade {
        symbol: "btcusdt".to_string(),
        trade: Trade { trade_id: 1, event_time_ms: 77, price_bits: 0, quantity_bits: 0, is_buyer_maker: false },
    };
    assert_eq!(t.symbol(), "btcusdt");
    assert_eq!(t.event_time_ms(), 77);
    let d = MarketEvent::Depth(diff(1, 2, vec![]).into_canonical());
    assert_eq!(d.symbol(), "btcusdt");
    assert_eq!(d.event_time_ms(), 42);
}

#[test]
fn feed_buffers_until_snapshot_then_emits_and_resyncs_on_gap() {
    let mut book = OrderBook::new("btcusdt");
    let a = on_stream_event(&mut book, RawEvent::DepthUpdate(diff(99, 101, vec![level("1", "1")])));
    assert!(matches!(a, FeedAction::Buffered));

    let snap = on_snapshot(
        &mut book,
        RestDepthSnapshot { last_update_id: 100, bids: vec![level("2", "1")], asks: vec![] },
        1234,
    );
    assert_eq!(snap.symbol, "btcusdt");
    assert_eq!(snap.event_time_ms, 1234);
    assert_eq!(snap.last_update_id, 101);
    assert_eq!(snap.bids.len(), 2);
    assert_eq!(book.state, BookState::Synced);

    match on_stream_event(&mut book, RawEvent::DepthUpdate(diff(102, 103, vec![level("3", "1")]))) {
        FeedAction::Emit(MarketEvent::Depth(d)) => {
            assert_eq!(d.symbol, "btcusdt");
            assert_eq!(d.final_update_id, 103);
        },
        other => panic!("unexpected {other:?}"),
    }
    assert_eq!(book.last_update_id, 103);

    match on_stream_event(&mut book, RawEvent::DepthUpdate(diff(110, 111, vec![level("9", "1")]))) {
        FeedAction::Resync(gap) => {
            assert_eq!(gap, GapDetected { expected_first_update_id: 104, got_first_update_id: 110 })
        },
        other => panic!("unexpected {other:?}"),
    }
    assert_eq!(book.state, BookState::AwaitingSnapshot);
    assert_eq!(book.depth(), (0, 0));

    // The offending diff was kept: the next snapshot applies it.
    let snap = on_snapshot(&mut book, RestDepthSnapshot { last_update_id: 109, bids: vec![], asks: vec![] }, 1);
    assert_eq!(snap.last_update_id, 111);
    assert_eq!(snap.bids, vec![PriceLevel { price_bits: 9.0f64.to_bits(), quantity_bits: 1.0f64.to_bits() }]);
}

#[test]
fn feed_emits_trades_whatever_the_book_state() {
    let mut book = OrderBook::new("btcusdt");
    let t = RawTrade {
        event_time_ms: 3,
        symbol: "BTCUSDT".to_string(),
        trade_id: 8,
        price: bits("10"),
        quantity: bits("2"),
        is_buyer_maker: false,
    };
    match on_stream_event(&mut book, RawEvent::Trade(t)) {
        FeedAction::Emit(MarketEvent::Trade { symbol, trade }) => {
            assert_eq!(symbol, "btcusdt");
            assert_eq!(trade.trade_id, 8);
        },
        other => panic!("unexpected {other:?}"),
    }
    assert_eq!(book.state, BookState::AwaitingSnapshot);
}

#[test]
fn a_failed_snapshot_request_is_made_again_while_the_book_awaits_one() {
    let mut book = OrderBook::new("btcusdt");
    assert_eq!(on_snapshot_failed(&book), AfterFailedFetch::Refetch);
    book.buffer_event(diff(101, 102, vec![level("1", "1")]));
    // The failure leaves the book and its buffer as they were.
    assert_eq!(on_snapshot_failed(&book), AfterFailedFetch::Refetch);
    assert_eq!(book.state, BookState::AwaitingSnapshot);
    let s = on_snapshot(&mut book, RestDepthSnapshot { last_update_id: 100, bids: vec![], asks: vec![] }, 0);
    assert_eq!(s.last_update_id, 102);
    assert_eq!(on_snapshot_failed(&book), AfterFailedFetch::Ignore);
}
