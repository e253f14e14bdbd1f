use binance_feed_handler::book::{try_parse_levels, Action, BookState, Levels};
use binance_feed_handler::books::{take_stale_books, Books};
use binance_feed_handler::decimal::Decimal;
use binance_feed_handler::feed_handler::{
    apply_message, book_event, idle_shards, latency, Outcome, ShardInfo, STALE_THRESHOLD,
};
use binance_feed_handler::json::{parse_json, Json};
use binance_feed_handler::messages::{decode_message, read_message, StreamEvent};
use binance_feed_handler::pacing::{apply_snapshot, DepthSnapshot, SyncAction};
use binance_feed_handler::report::Report;
use binance_feed_handler::shard::{frame_action, Frame, FrameAction, Session};

const SECOND: u64 = 1_000_000;

fn d(text: &str) -> Decimal {
    Decimal::parse(text).unwrap()
}

fn names(symbols: &[&str]) -> Vec<String> {
    symbols.iter().map(|s| s.to_string()).collect()
}

/// A live book of a symbol whose last diff came at a time.
fn live_books(symbol: &str, last_update_time: u64) -> Books {
    let mut books = Books::from_symbols(&names(&[symbol]));
    books.on_depth(symbol, last_update_time, 1, 10, 0, vec![], vec![]);
    books.on_snapshot(symbol, 100, &[(d("100"), d("1"))], &[(d("101"), d("1"))]);
    books
}

fn state(books: &Books, symbol: &str) -> BookState {
    books.get(symbol).unwrap().state
}

#[test]
fn test_stale_book_is_marked_for_resync() {
    let mut books = live_books("STALE", 0);
    let stale = take_stale_books(&mut books, 100 * SECOND, 30 * SECOND);
    assert_eq!(stale, vec!["STALE".to_string()]);
    // Buffering (not Uninitialized) is what makes a snapshot be fetched.
    assert_eq!(state(&books, "STALE"), BookState::Buffering);
}

#[test]
fn test_fresh_book_is_left_alone() {
    let mut books = live_books("FRESH", 90 * SECOND);
    assert!(take_stale_books(&mut books, 100 * SECOND, 30 * SECOND).is_empty());
    assert_eq!(state(&books, "FRESH"), BookState::Live);
}

#[test]
fn test_non_live_book_is_not_swept() {
    let mut books = Books::from_symbols(&names(&["BUFFERING"]));
    books.on_depth("BUFFERING", 0, 1, 10, 0, vec![], vec![]);
    assert!(take_stale_books(&mut books, 1_000_000_000 * SECOND, 30 * SECOND).is_empty());
}

#[test]
fn test_sweep_does_not_refire_on_the_next_tick() {
    // A symbol whose stream is dead must not re-snapshot every sweep: the
    // trigger pushes last_update_time forward, and the book is no longer Live.
    let mut books = live_books("DEAD", 0);
    assert_eq!(take_stale_books(&mut books, 100 * SECOND, 30 * SECOND).len(), 1);
    assert!(take_stale_books(&mut books, 115 * SECOND, 30 * SECOND).is_empty());
}

#[test]
fn silence_of_exactly_the_threshold_is_not_stale() {
    let mut books = live_books("EDGE", 70 * SECOND);
    assert!(take_stale_books(&mut books, 100 * SECOND, STALE_THRESHOLD).is_empty());
    assert_eq!(take_stale_books(&mut books, 100 * SECOND + 1, STALE_THRESHOLD).len(), 1);
    assert_eq!(books.get("EDGE").unwrap().last_update_time, 100 * SECOND + 1);
}

#[test]
fn a_clock_that_went_back_is_not_stale() {
    let mut books = live_books("BACK", 100 * SECOND);
    assert!(take_stale_books(&mut books, 50 * SECOND, 30 * SECOND).is_empty());
}

#[test]
fn books_are_kept_in_the_order_of_symbols() {
    let books = Books::from_symbols(&names(&["ETHUSDT", "BTCUSDT", "ETHUSDT", "AAVEUSDT"]));
    assert_eq!(books.len(), 3);
    let listed: Vec<String> = (0..books.len()).map(|i| books.book(i).symbol.clone()).collect();
    assert_eq!(listed, vec!["AAVEUSDT", "BTCUSDT", "ETHUSDT"]);
    assert!(books.get("BTCUSDT").is_some());
    assert!(books.get("XRPUSDT").is_none());
}

#[test]
fn symbols_without_a_book_are_passed_over() {
    let mut books = Books::from_symbols(&names(&["BTCUSDT"]));
    assert_eq!(books.on_depth("XRPUSDT", 1, 1, 10, 0, vec![], vec![]), Action::None_);
    assert!(!books.on_snapshot("XRPUSDT", 1, &[], &[]));
    assert!(!books.is_buffering("XRPUSDT"));
    assert!(books.has_depth_room("XRPUSDT") && books.has_snapshot_room("XRPUSDT"));
    assert_eq!(state(&books, "BTCUSDT"), BookState::Uninitialized);
}

#[test]
fn resetting_touches_the_named_symbols_only() {
    let mut books = Books::from_symbols(&names(&["A", "B"]));
    for symbol in ["A", "B"] {
        books.on_depth(symbol, 5, 1, 10, 0, vec![], vec![]);
        assert!(books.on_snapshot(symbol, 100, &[(d("100"), d("1"))], &[(d("101"), d("1"))]));
    }
    books.reset(&names(&["B", "C"]));
    assert_eq!(state(&books, "A"), BookState::Live);
    assert_eq!(state(&books, "B"), BookState::Uninitialized);
    assert_eq!(books.get("B").unwrap().snapshot_count, 1);
}

// Messages.

const DEPTH: &str = r#"{"e":"depthUpdate","E":1700000000123,"s":"BTCUSDT","U":11,"u":20,"pu":10,
    "b":[["100","1"],["99.50","0"]],"a":[["101.0","2"]]}"#;

const TICKER: &str = r#"{"e":"bookTicker","E":5,"s":"BTCUSDT","b":"100","B":"1.5","a":"101","A":"2"}"#;

#[test]
fn depth_messages_are_read() {
    let message = decode_message(DEPTH).unwrap();
    assert_eq!(message.symbol, "BTCUSDT");
    assert_eq!(message.event_time.unwrap().unsigned, Some(1700000000123));
    match message.event {
        StreamEvent::Depth { first_id, last_id, prev_id, bids, asks } => {
            assert_eq!((first_id, last_id, prev_id), (11, 20, 10));
            assert_eq!(
                bids,
                vec![
                    ("100".to_string(), "1".to_string()),
                    ("99.50".to_string(), "0".to_string()),
                ]
            );
            assert_eq!(asks, vec![("101.0".to_string(), "2".to_string())]);
        }
        _ => panic!("not a depth diff"),
    }
}

#[test]
fn ticker_messages_are_read() {
    match decode_message(TICKER).unwrap().event {
        StreamEvent::Ticker { bid_price, bid_qty, ask_price, ask_qty } => {
            assert_eq!(bid_price, "100");
            assert_eq!(bid_qty, "1.5");
            assert_eq!(ask_price, "101");
            assert_eq!(ask_qty, "2");
        }
        _ => panic!("not a ticker"),
    }
}

#[test]
fn missing_parts_have_defaults() {
    match decode_message(r#"{"e":"depthUpdate","s":"X","U":-1,"u":"5"}"#).unwrap().event {
        StreamEvent::Depth { first_id, last_id, prev_id, bids, asks } => {
            assert_eq!((first_id, last_id, prev_id), (0, 0, 0));
            assert!(bids.is_empty() && asks.is_empty());
        }
        _ => panic!("not a depth diff"),
    }
    match decode_message(r#"{"e":"bookTicker","s":"X","b":1}"#).unwrap().event {
        StreamEvent::Ticker { bid_price, bid_qty, ask_price, ask_qty } => {
            assert_eq!((bid_price, bid_qty), ("0".to_string(), "0".to_string()));
            assert_eq!((ask_price, ask_qty), ("0".to_string(), "0".to_string()));
        }
        _ => panic!("not a ticker"),
    }
}

#[test]
fn answers_and_strangers_are_no_messages() {
    assert!(decode_message("not json").is_none());
    assert!(decode_message(r#"{"result":null,"id":1}"#).is_none());
    assert!(decode_message(r#"{"result":1,"e":"depthUpdate","s":"X"}"#).is_none());
    assert!(decode_message(r#"{"id":1,"s":"X"}"#).is_none());
    assert!(decode_message(r#"{"e":"depthUpdate"}"#).is_none());
    assert!(decode_message(r#"{"e":"depthUpdate","s":5}"#).is_none());
    assert!(decode_message("[1,2]").is_none());
}

#[test]
fn an_id_beside_an_event_is_a_message() {
    let message = decode_message(r#"{"id":1,"e":"bookTicker","s":"X"}"#).unwrap();
    assert!(matches!(message.event, StreamEvent::Ticker { .. }));
}

#[test]
fn other_events_are_passed_over() {
    let message = decode_message(r#"{"s":"X","E":7}"#).unwrap();
    assert!(matches!(message.event, StreamEvent::Other));
    assert_eq!(message.event_time.unwrap().unsigned, Some(7));
    let message = decode_message(r#"{"s":"X","e":"trade"}"#).unwrap();
    assert!(matches!(message.event, StreamEvent::Other));
    assert!(message.event_time.is_none());
}

#[test]
fn entries_that_are_no_levels() {
    // Not a list, or not two texts: passed over.
    let text = r#"{"e":"depthUpdate","s":"X","b":[5,[1,"2"],["1",2],["1","2","3"]],"a":7}"#;
    match decode_message(text).unwrap().event {
        StreamEvent::Depth { bids, asks, .. } => {
            assert_eq!(bids, vec![("1".to_string(), "2".to_string())]);
            assert!(asks.is_empty());
        }
        _ => panic!("not a depth diff"),
    }
    // A list that ends too early: broken.
    for text in [
        r#"{"e":"depthUpdate","s":"X","b":[[]]}"#,
        r#"{"e":"depthUpdate","s":"X","a":[["1"]]}"#,
    ] {
        assert!(matches!(decode_message(text).unwrap().event, StreamEvent::BrokenDepth));
    }
    // A number alone is no price, so the missing quantity does not matter.
    let text = r#"{"e":"depthUpdate","s":"X","b":[[1]]}"#;
    assert!(matches!(decode_message(text).unwrap().event, StreamEvent::Depth { .. }));
}

#[test]
fn json_values_are_looked_at() {
    let value = parse_json(r#"{"b":true,"n":null,"t":"x","l":[1,-2,2.5],"u":18446744073709551615}"#).unwrap();
    assert!(matches!(value.get("b"), Some(Json::Bool(true))));
    assert!(matches!(value.get("n"), Some(Json::Null)));
    assert_eq!(value.get("t").unwrap().as_text(), Some("x"));
    assert_eq!(value.get("u").unwrap().as_unsigned(), Some(u64::MAX));
    assert!(value.get("missing").is_none());
    assert!(value.as_text().is_none());
    match value.get("l") {
        Some(Json::Array(items)) => {
            assert_eq!(items[0].as_unsigned(), Some(1));
            assert_eq!(items[1].as_unsigned(), None);
            match &items[1] {
                Json::Number(n) => assert_eq!(n.signed, Some(-2)),
                _ => panic!("not a number"),
            }
            match &items[2] {
                Json::Number(n) => assert_eq!(n.float_bits, Some(2.5f64.to_bits())),
                _ => panic!("not a number"),
            }
        }
        _ => panic!("not a list"),
    }
    assert!(parse_json("{").is_none());
    assert!(parse_json("{} x").is_none());
}

#[test]
fn messages_are_read_from_values() {
    let value = Json::Object(vec![
        ("s".to_string(), Json::Text("X".to_string())),
        ("e".to_string(), Json::Text("bookTicker".to_string())),
        ("b".to_string(), Json::Text("7".to_string())),
    ]);
    let message = read_message(&value).unwrap();
    assert_eq!(message.symbol, "X");
    assert!(matches!(message.event, StreamEvent::Ticker { bid_price, .. } if bid_price == "7"));
    assert!(read_message(&Json::Null).is_none());
}

// What messages do to the books.

fn feed(books: &mut Books, text: &str, now: u64) -> Outcome {
    apply_message(books, decode_message(text).unwrap(), now)
}

fn depth(symbol: &str, first: u64, last: u64, prev: u64, bids: &str, asks: &str) -> String {
    format!(
        r#"{{"e":"depthUpdate","s":"{}","U":{},"u":{},"pu":{},"b":{},"a":{}}}"#,
        symbol, first, last, prev, bids, asks
    )
}

#[test]
fn a_live_book_is_published() {
    let mut books = live_books("BTCUSDT", 0);
    let text = depth("BTCUSDT", 101, 110, 100, r#"[["99.0","2.50"]]"#, "[]");
    match feed(&mut books, &text, 77) {
        Outcome::Book(event) => {
            assert_eq!(event.symbol, "BTCUSDT");
            assert_eq!(event.last_update_id, 110);
            assert_eq!(event.ts, 77);
            assert_eq!(
                event.bids,
                vec![
                    ("100".to_string(), "1".to_string()),
                    ("99.0".to_string(), "2.50".to_string()),
                ]
            );
            assert_eq!(event.asks, vec![("101".to_string(), "1".to_string())]);
            match event.report() {
                Report::Record(fields) => {
                    let listed: Vec<&str> = fields.iter().map(|f| f.0.as_str()).collect();
                    assert_eq!(listed, vec!["symbol", "bids", "asks", "last_update_id", "ts"]);
                }
                _ => panic!("not a record"),
            }
        }
        _ => panic!("not published"),
    }
    assert_eq!(books.get("BTCUSDT").unwrap().last_update_time, 77);
}

#[test]
fn twenty_levels_are_published() {
    let mut books = Books::from_symbols(&names(&["X"]));
    books.on_depth("X", 0, 1, 10, 0, vec![], vec![]);
    let bids: Levels = (1..31).map(|p| (Decimal::new(p, 0), d("1"))).collect();
    let asks: Levels = (31..61).map(|p| (Decimal::new(p, 0), d("1"))).collect();
    assert!(books.on_snapshot("X", 100, &bids, &asks));
    let event = book_event(books.get("X").unwrap(), 1);
    assert_eq!(event.bids.len(), 20);
    assert_eq!(event.asks.len(), 20);
    assert_eq!(event.bids[0].0, "30");
    assert_eq!(event.bids[19].0, "11");
    assert_eq!(event.asks[0].0, "31");
    assert_eq!(event.asks[19].0, "50");
}

#[test]
fn the_first_diff_asks_for_a_snapshot() {
    let mut books = Books::from_symbols(&names(&["BTCUSDT"]));
    assert!(matches!(feed(&mut books, DEPTH, 1), Outcome::NeedSnapshot));
    assert!(matches!(feed(&mut books, DEPTH, 2), Outcome::Nothing));
    assert!(books.is_buffering("BTCUSDT"));
}

#[test]
fn unreadable_levels_change_nothing() {
    let mut books = Books::from_symbols(&names(&["X"]));
    let text = depth("X", 1, 10, 0, r#"[["one","2"]]"#, "[]");
    assert!(matches!(feed(&mut books, &text, 9), Outcome::Unreadable));
    let text = depth("X", 1, 10, 0, "[]", r#"[["1","two"]]"#);
    assert!(matches!(feed(&mut books, &text, 9), Outcome::Unreadable));
    let text = depth("X", 1, 10, 0, "[[]]", "[]");
    assert!(matches!(feed(&mut books, &text, 9), Outcome::Unreadable));
    assert_eq!(state(&books, "X"), BookState::Uninitialized);
    assert_eq!(books.get("X").unwrap().last_update_time, 0);
    assert!(try_parse_levels(&[("1".to_string(), "".to_string())]).is_none());
}

#[test]
fn best_prices_are_published_for_any_symbol() {
    let mut books = Books::new();
    match feed(&mut books, TICKER, 3) {
        Outcome::Bbo(event) => {
            assert_eq!(event.symbol, "BTCUSDT");
            assert_eq!(event.bid_price, "100");
            assert_eq!(event.bid_qty, "1.5");
            assert_eq!(event.ask_price, "101");
            assert_eq!(event.ask_qty, "2");
            assert_eq!(event.ts, 3);
            match event.report() {
                Report::Record(fields) => assert_eq!(fields.len(), 6),
                _ => panic!("not a record"),
            }
        }
        _ => panic!("not published"),
    }
}

#[test]
fn ten_mismatches_against_the_ticker_ask_for_a_snapshot() {
    let mut books = live_books("X", 0);
    feed(&mut books, r#"{"e":"bookTicker","s":"X","b":"99","a":"102"}"#, 1);
    let mut id = 100;
    for k in 0..10 {
        let outcome = feed(&mut books, &depth("X", id + 1, id + 10, id, "[]", "[]"), 2);
        id += 10;
        if k < 9 {
            assert!(matches!(outcome, Outcome::Book(_)));
        } else {
            assert!(matches!(outcome, Outcome::NeedSnapshot));
        }
    }
}

#[test]
fn a_ticker_that_is_no_number_is_unknown() {
    let mut books = live_books("X", 0);
    feed(&mut books, r#"{"e":"bookTicker","s":"X","b":"x","a":"102"}"#, 1);
    let mut id = 100;
    for _ in 0..20 {
        let outcome = feed(&mut books, &depth("X", id + 1, id + 10, id, "[]", "[]"), 2);
        id += 10;
        assert!(matches!(outcome, Outcome::Book(_)));
    }
}

#[test]
fn messages_leave_other_symbols_alone() {
    let mut books = Books::from_symbols(&names(&["A", "B"]));
    feed(&mut books, &depth("A", 1, 10, 0, "[]", "[]"), 1);
    assert_eq!(state(&books, "A"), BookState::Buffering);
    assert_eq!(state(&books, "B"), BookState::Uninitialized);
}

// A gap and a lost connection, from the stream to the books.

fn snapshot(last_update_id: u64) -> DepthSnapshot {
    let pair = |p: &str, q: &str| (p.to_string(), q.to_string());
    DepthSnapshot {
        last_update_id,
        bids: vec![pair("100", "1"), pair("99", "2")],
        asks: vec![pair("101", "1"), pair("102", "3")],
    }
}

fn venue_depth(last: &mut u64, gap: bool) -> String {
    let prev = *last + if gap { 100 } else { 0 };
    *last = prev + 10;
    depth(
        "TESTUSDT",
        prev + 1,
        *last,
        prev,
        r#"[["100","1"],["99","2"]]"#,
        r#"[["101","1"],["102","3"]]"#,
    )
}

#[test]
fn gaps_and_lost_connections_heal() {
    let symbols = names(&["TESTUSDT"]);
    let mut books = Books::from_symbols(&symbols);
    let mut shards = idle_shards(1);
    let mut session = Session::new(symbols);
    let mut last = 0;

    // A cold start.
    session.connecting(&mut books);
    session.connected(&mut shards[0]);
    assert!(matches!(feed(&mut books, &venue_depth(&mut last, false), 1), Outcome::NeedSnapshot));
    assert_eq!(apply_snapshot(&mut books, "TESTUSDT", &snapshot(last)), SyncAction::Done);
    assert!(matches!(feed(&mut books, &venue_depth(&mut last, false), 2), Outcome::Book(_)));
    assert_eq!(books.get("TESTUSDT").unwrap().gap_count, 0);

    // A gap costs exactly one gap, and heals.
    assert!(matches!(feed(&mut books, &venue_depth(&mut last, true), 3), Outcome::NeedSnapshot));
    assert_eq!(books.get("TESTUSDT").unwrap().gap_count, 1);
    assert_eq!(apply_snapshot(&mut books, "TESTUSDT", &snapshot(last)), SyncAction::Done);
    assert!(matches!(feed(&mut books, &venue_depth(&mut last, false), 4), Outcome::Book(_)));

    // A lost connection takes the book out of service at once, and is no gap.
    let wait = session.disconnected(&mut books, &mut shards[0], 5);
    assert_eq!(wait, 1_000_005);
    assert!(!shards[0].connected);
    assert_eq!(state(&books, "TESTUSDT"), BookState::Uninitialized);
    last += 1000;
    session.connecting(&mut books);
    session.connected(&mut shards[0]);
    assert!(matches!(feed(&mut books, &venue_depth(&mut last, false), 5), Outcome::NeedSnapshot));
    assert_eq!(apply_snapshot(&mut books, "TESTUSDT", &snapshot(last)), SyncAction::Done);
    let book = books.get("TESTUSDT").unwrap();
    assert_eq!(book.state, BookState::Live);
    assert_eq!(book.gap_count, 1);
    assert_eq!(book.crossed_count, 0);
    assert_eq!(book.buffer_dropped, 0);
    assert_eq!(book.snapshot_count, 3);
}

// Connections.

#[test]
fn waits_double_and_start_anew() {
    let mut books = Books::new();
    let mut shard = ShardInfo {
        id: 0,
        connected: false,
        msg_count: 0,
        last_msg_time: 0,
        latency_us: 0,
    };
    let mut session = Session::new(names(&["A"]));
    assert_eq!(session.symbols(), &["A".to_string()]);
    let waits: Vec<u64> = (0..7)
        .map(|_| session.disconnected(&mut books, &mut shard, 0) / SECOND)
        .collect();
    assert_eq!(waits, vec![1, 2, 4, 8, 16, 30, 30]);
    session.connected(&mut shard);
    assert!(shard.connected);
    assert_eq!(session.disconnected(&mut books, &mut shard, 999_999), 1_999_999);
}

#[test]
fn frames() {
    assert_eq!(frame_action(Frame::Text), FrameAction::Read);
    assert_eq!(frame_action(Frame::Ping), FrameAction::Answer);
    assert_eq!(frame_action(Frame::Close), FrameAction::Disconnect);
    assert_eq!(frame_action(Frame::Error), FrameAction::Disconnect);
    assert_eq!(frame_action(Frame::Other), FrameAction::Ignore);
}

#[test]
fn messages_are_counted_by_connection() {
    let mut shards = idle_shards(3);
    assert_eq!(shards.len(), 3);
    assert_eq!(shards[2].id, 2);
    shards[1].on_message(42);
    shards[1].on_message(43);
    assert_eq!(shards[1].msg_count, 2);
    assert_eq!(shards[1].last_msg_time, 43);
    assert_eq!(shards[0].msg_count, 0);
}

#[test]
fn latency_is_the_time_under_way() {
    let time = |text: &str| decode_message(text).unwrap().event_time.unwrap();
    let sent = time(r#"{"s":"X","E":1700000000123}"#);
    assert_eq!(latency(1700000000168_000, &sent), Some(45_000));
    assert_eq!(latency(1700000000100_500, &sent), Some(-22_500));
    assert_eq!(latency(0, &time(r#"{"s":"X","E":-3}"#)), Some(3000));
    assert_eq!(latency(0, &time(r#"{"s":"X","E":1.5}"#)), None);
}
