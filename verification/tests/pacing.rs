use binance_feed_handler::books::Books;
use binance_feed_handler::pacing::{
    apply_snapshot, parse_number, read_answer, snapshot_wait, Answer, Backoff, DepthSnapshot,
    SyncAction, SNAPSHOT_INTERVAL, SNAPSHOT_REJECTED_WAIT, SNAPSHOT_RETRY_BASE, SNAPSHOT_RETRY_MAX,
};

fn pairs(list: &[(&str, &str)]) -> Vec<(String, String)> {
    list.iter().map(|(p, q)| (p.to_string(), q.to_string())).collect()
}

fn buffering(symbol: &str) -> Books {
    let mut books = Books::from_symbols(&[symbol.to_string()]);
    books.on_depth(symbol, 0, 200, 210, 190, vec![], vec![]);
    books
}

#[test]
fn failed_snapshots_are_tried_again_later_and_later() {
    let mut backoff = Backoff::new(SNAPSHOT_RETRY_BASE, SNAPSHOT_RETRY_MAX);
    let waits: Vec<u64> = (0..6).map(|_| backoff.failed() / 1_000_000).collect();
    assert_eq!(waits, vec![1, 2, 4, 8, 10, 10]);
    backoff.succeeded();
    assert_eq!(backoff.failed(), 1_000_000);
}

#[test]
fn waits_do_not_overflow() {
    let mut backoff = Backoff::new(u64::MAX - 1, u64::MAX);
    assert_eq!(backoff.failed(), u64::MAX - 1);
    assert_eq!(backoff.failed(), u64::MAX);
    assert_eq!(backoff.failed(), u64::MAX);
}

#[test]
fn requests_are_spaced() {
    assert_eq!(snapshot_wait(0, 0), SNAPSHOT_INTERVAL as u128);
    assert_eq!(snapshot_wait(1_000_000, 1_100_000), 233_334);
    assert_eq!(snapshot_wait(1_000_000, 1_333_333), 1);
    assert_eq!(snapshot_wait(1_000_000, 1_333_334), 0);
    assert_eq!(snapshot_wait(1_000_000, 9_000_000), 0);
    // A clock that went back.
    assert_eq!(snapshot_wait(1_000_000, 0), 1_333_334);
    assert_eq!(snapshot_wait(u64::MAX, 0), u64::MAX as u128 + 333_334);
}

#[test]
fn numbers_in_texts() {
    assert_eq!(parse_number("0"), Some(0));
    assert_eq!(parse_number("10"), Some(10));
    assert_eq!(parse_number("+7"), Some(7));
    assert_eq!(parse_number("007"), Some(7));
    assert_eq!(parse_number("18446744073709551615"), Some(u64::MAX));
    for text in ["", "+", "-1", "1.5", " 1", "1 ", "abc", "++1", "1_000", "18446744073709551616",
        "99999999999999999999999"] {
        assert_eq!(parse_number(text), None, "{}", text);
        assert!(text.parse::<u64>().is_err(), "{}", text);
    }
}

#[test]
fn too_many_requests() {
    assert_eq!(read_answer(200, None), Answer::Body);
    assert_eq!(read_answer(200, Some("5")), Answer::Body);
    assert_eq!(read_answer(418, Some("5")), Answer::Body);
    assert_eq!(read_answer(429, Some("5")), Answer::RateLimited(5));
    assert_eq!(read_answer(429, Some("soon")), Answer::RateLimited(10));
    assert_eq!(read_answer(429, None), Answer::RateLimited(10));
}

#[test]
fn snapshots_bring_books_to_life() {
    let mut books = buffering("X");
    let good = DepthSnapshot {
        last_update_id: 205,
        bids: pairs(&[("100", "1")]),
        asks: pairs(&[("101", "1")]),
    };
    assert_eq!(apply_snapshot(&mut books, "X", &good), SyncAction::Done);
    assert!(!books.is_buffering("X"));
    // A book that is live already wants no snapshot.
    assert_eq!(apply_snapshot(&mut books, "X", &good), SyncAction::Done);
    assert_eq!(books.get("X").unwrap().snapshot_count, 1);
}

#[test]
fn snapshots_that_are_too_old_are_rejected() {
    let mut books = buffering("X");
    let old = DepthSnapshot { last_update_id: 100, bids: vec![], asks: vec![] };
    assert_eq!(
        apply_snapshot(&mut books, "X", &old),
        SyncAction::Retry(SNAPSHOT_REJECTED_WAIT)
    );
    assert!(books.is_buffering("X"));
    assert_eq!(SNAPSHOT_REJECTED_WAIT, 500_000);
}

#[test]
fn snapshots_of_emptied_books_change_nothing() {
    let mut books = buffering("X");
    books.reset(&["X".to_string()]);
    let late = DepthSnapshot { last_update_id: 205, bids: pairs(&[("1", "1")]), asks: vec![] };
    assert_eq!(
        apply_snapshot(&mut books, "X", &late),
        SyncAction::Retry(SNAPSHOT_REJECTED_WAIT)
    );
    assert!(!books.is_buffering("X"));
    assert_eq!(books.get("X").unwrap().snapshot_count, 0);
}

#[test]
fn snapshots_of_unknown_symbols_are_tried_again() {
    let mut books = Books::new();
    let any = DepthSnapshot { last_update_id: 1, bids: vec![], asks: vec![] };
    assert_eq!(
        apply_snapshot(&mut books, "X", &any),
        SyncAction::Retry(SNAPSHOT_REJECTED_WAIT)
    );
}

#[test]
fn unreadable_snapshots_change_nothing() {
    let mut books = buffering("X");
    for bad in [
        DepthSnapshot { last_update_id: 205, bids: pairs(&[("x", "1")]), asks: vec![] },
        DepthSnapshot { last_update_id: 205, bids: vec![], asks: pairs(&[("1", "")]) },
    ] {
        assert_eq!(apply_snapshot(&mut books, "X", &bad), SyncAction::Unreadable);
    }
    assert!(books.is_buffering("X"));
    assert_eq!(books.get("X").unwrap().snapshot_count, 0);
}
