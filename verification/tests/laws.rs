use binance_feed_handler::book::{parse_levels, Action, Book, BookState, Levels};
use binance_feed_handler::decimal::Decimal;

fn d(text: &str) -> Decimal {
    Decimal::parse(text).unwrap()
}

fn levels(pairs: &[(&str, &str)]) -> Levels {
    pairs.iter().map(|(p, q)| (d(p), d(q))).collect()
}

fn texts(levels: &Levels) -> Vec<(String, String)> {
    levels.iter().map(|(p, q)| (p.to_text(), q.to_text())).collect()
}

fn shown(book: &Book) -> (Vec<(String, String)>, Vec<(String, String)>, u64, BookState) {
    let (bids, asks) = book.top_levels(100);
    (texts(&bids), texts(&asks), book.last_update_id, book.state)
}

fn buffering() -> Book {
    let mut book = Book::new("X".to_string());
    book.on_depth(95, 105, 94, levels(&[("99", "1")]), vec![]);
    book
}

fn live() -> Book {
    let mut book = buffering();
    assert!(book.on_snapshot(100, &levels(&[("100", "1")]), &levels(&[("101", "1")])));
    book
}

#[test]
fn the_last_change_of_a_price_decides() {
    let mut book = live();
    let changes = levels(&[("98", "1"), ("98.0", "0"), ("98.00", "7"), ("97", "3"), ("97", "0")]);
    assert_eq!(book.on_depth(106, 110, 105, changes, vec![]), Action::Publish);
    assert_eq!(book.bids.get(&d("98")), Some(&d("7")));
    assert!(!book.bids.contains_key(&d("97")));
    assert_eq!(book.bids.get(&d("100")), Some(&d("1")));
}

#[test]
fn the_same_changes_twice_are_the_same_as_once() {
    let changes = [("100", "0"), ("98", "4")];
    let mut once = live();
    once.on_depth(106, 110, 105, levels(&changes), vec![]);
    let mut twice = live();
    twice.on_depth(106, 108, 105, levels(&changes), vec![]);
    twice.on_depth(109, 110, 108, levels(&changes), vec![]);
    assert_eq!(shown(&once), shown(&twice));
}

#[test]
fn replaying_and_applying_give_the_same_book() {
    let bids = levels(&[("100", "1"), ("98", "2")]);
    let asks = levels(&[("101", "1")]);
    let change = || levels(&[("98", "0"), ("97", "5")]);
    let mut replayed = buffering();
    replayed.on_depth(106, 110, 105, change(), vec![]);
    assert!(replayed.on_snapshot(100, &bids, &asks));
    let mut applied = buffering();
    assert!(applied.on_snapshot(100, &bids, &asks));
    assert_eq!(applied.on_depth(106, 110, 105, change(), vec![]), Action::Publish);
    assert_eq!(shown(&replayed), shown(&applied));
}

#[test]
fn a_live_book_is_its_snapshot_with_every_diff() {
    let mut book = live();
    for k in 0..5u64 {
        let price = format!("{}", 90 + k);
        let diff = levels(&[(price.as_str(), "2")]);
        let (first, last, prev) = (106 + k * 10, 115 + k * 10, 105 + k * 10);
        assert_eq!(book.on_depth(first, last, prev, diff, vec![]), Action::Publish);
    }
    let (bids, _, last, _) = shown(&book);
    let prices: Vec<String> = bids.into_iter().map(|l| l.0).collect();
    assert_eq!(prices, vec!["100", "99", "94", "93", "92", "91", "90"]);
    assert_eq!(last, 155);
}

#[test]
fn no_live_book_is_crossed_or_has_empty_levels() {
    let mut book = buffering();
    // The snapshot itself is crossed.
    assert!(!book.on_snapshot(100, &levels(&[("101", "1")]), &levels(&[("101", "1")])));
    assert_eq!(book.state, BookState::Buffering);
    assert_eq!(book.crossed_count, 1);
    // A negative quantity is listed by no snapshot.
    let mut book = buffering();
    assert!(book.on_snapshot(100, &levels(&[("100", "-1")]), &levels(&[("101", "0.0")])));
    assert_eq!(shown(&book).0, vec![("99".to_string(), "1".to_string())]);
    assert!(book.asks.is_empty());
}

#[test]
fn a_crossed_book_is_not_published() {
    let mut book = live();
    let before = book.snapshot_count;
    assert_eq!(
        book.on_depth(106, 110, 105, levels(&[("101.0", "1")]), vec![]),
        Action::NeedSnapshot
    );
    assert_eq!(book.state, BookState::Buffering);
    assert_eq!(book.crossed_count, 1);
    assert_eq!(book.snapshot_count, before);
}

#[test]
fn a_gap_leaves_the_levels_and_heals() {
    let mut book = live();
    let before = shown(&book);
    assert_eq!(
        book.on_depth(206, 210, 205, levels(&[("98", "1")]), vec![]),
        Action::NeedSnapshot
    );
    assert_eq!(shown(&book).0, before.0);
    assert_eq!(book.gap_count, 1);
    assert!(book.on_snapshot(208, &levels(&[("100", "1")]), &levels(&[("101", "1")])));
    assert_eq!(book.last_update_id, 210);
    assert!(book.bids.contains_key(&d("98")));
    assert_eq!(book.gap_count, 1);
}

#[test]
fn resets_keep_the_counters() {
    let mut book = live();
    book.on_depth(206, 210, 205, vec![], vec![]);
    book.reset();
    assert_eq!((book.gap_count, book.snapshot_count), (1, 1));
    // However the stream goes on, nothing counts as a gap before a snapshot has come.
    for k in 0..20u64 {
        book.on_depth(1000 * k + 1, 1000 * k + 5, 7, vec![], vec![]);
    }
    assert_eq!(book.gap_count, 1);
    assert_eq!(book.state, BookState::Buffering);
    book.mark_for_resync();
    assert_eq!((book.gap_count, book.snapshot_count), (1, 1));
    assert_eq!(book.state, BookState::Buffering);
}

#[test]
fn an_unverified_bridge_takes_one_diff_unseen() {
    let mut book = Book::new("X".to_string());
    book.on_depth(1, 10, 0, vec![], vec![]);
    assert!(book.on_snapshot(100, &levels(&[("100", "1")]), &levels(&[("101", "1")])));
    assert_eq!(book.unverified_bridge_count, 1);
    assert_eq!(book.on_depth(501, 510, 500, vec![], vec![]), Action::Publish);
    assert_eq!(book.on_depth(601, 610, 600, vec![], vec![]), Action::NeedSnapshot);
    assert_eq!(book.gap_count, 1);
}

#[test]
fn a_full_buffer_keeps_the_newest_diffs() {
    let mut book = Book::new("X".to_string());
    for i in 0..5010u64 {
        book.on_depth(i * 10 + 1, i * 10 + 10, i * 10, vec![], vec![]);
    }
    assert_eq!(book.buffer_dropped, 10);
    // The diffs up to id 100 are lost: a snapshot from before is rejected.
    assert!(!book.on_snapshot(50, &[], &[]));
}

#[test]
fn counters_have_room() {
    let mut book = Book::new("X".to_string());
    assert!(book.has_depth_room() && book.has_snapshot_room());
    // A book counts gaps and crossings only while it is live.
    book.gap_count = u64::MAX;
    book.snapshot_count = u64::MAX;
    assert!(book.has_depth_room() && book.has_snapshot_room());
    let mut book = live();
    book.gap_count = u64::MAX;
    assert!(!book.has_depth_room() && book.has_snapshot_room());
    book.gap_count = 0;
    book.crossed_count = u64::MAX;
    assert!(!book.has_depth_room() && book.has_snapshot_room());
    // It counts snapshots only while it buffers, and losses only while its buffer is full.
    let mut book = buffering();
    book.buffer_dropped = u64::MAX;
    assert!(book.has_depth_room());
    book.snapshot_count = u64::MAX;
    assert!(!book.has_snapshot_room());
    let mut book = Book::new("X".to_string());
    for i in 0..5000u64 {
        book.on_depth(i + 1, i + 1, i, vec![], vec![]);
    }
    assert!(book.has_depth_room());
    book.buffer_dropped = u64::MAX;
    assert!(!book.has_depth_room());
}

#[test]
fn a_snapshot_says_whether_the_book_is_live() {
    let mut book = Book::new("X".to_string());
    assert!(!book.on_snapshot(5, &[], &[]));
    assert_eq!(book.state, BookState::Uninitialized);
    assert_eq!(book.snapshot_count, 0);
    let mut book = live();
    assert!(book.on_snapshot(5, &[], &[]));
    assert_eq!(book.state, BookState::Live);
    book.reset();
    assert!(!book.on_snapshot(5, &levels(&[("1", "1")]), &[]));
    assert!(book.bids.is_empty());
}

#[test]
fn a_rejected_snapshot_uses_up_the_buffer() {
    let mut book = buffering();
    // The diff that waits starts after this snapshot.
    assert!(!book.on_snapshot(50, &levels(&[("100", "1")]), &levels(&[("101", "1")])));
    assert_eq!(book.unverified_bridge_count, 0);
    assert!(!book.on_snapshot(60, &levels(&[("100", "1")]), &levels(&[("100", "1")])));
    assert_eq!(book.unverified_bridge_count, 1);
    assert!(book.on_snapshot(70, &levels(&[("100", "1")]), &levels(&[("101", "1")])));
    assert_eq!(book.unverified_bridge_count, 2);
    assert_eq!(book.last_update_id, 70);
    assert!(!book.bids.contains_key(&d("99")));
}

#[test]
fn actions_go_with_the_states() {
    let mut book = Book::new("X".to_string());
    assert_eq!(book.on_depth(95, 105, 94, vec![], vec![]), Action::NeedSnapshot);
    assert_eq!(book.on_depth(106, 110, 105, vec![], vec![]), Action::None_);
    assert_eq!(book.state, BookState::Buffering);
    let mut book = live();
    assert_eq!(book.on_depth(106, 110, 105, vec![], vec![]), Action::Publish);
    assert_eq!(book.on_depth(106, 110, 105, vec![], vec![]), Action::None_);
    assert_eq!(book.state, BookState::Live);
    assert_eq!(book.on_depth(206, 210, 205, vec![], vec![]), Action::NeedSnapshot);
    assert_eq!(book.state, BookState::Buffering);
}

#[test]
fn written_prices_stay_when_a_diff_comes_twice() {
    let changes = [("100.0", "3"), ("98.00", "1"), ("98.0", "0"), ("98.000", "2")];
    let mut book = live();
    book.on_depth(106, 108, 105, levels(&changes), vec![]);
    let once = shown(&book);
    book.on_depth(109, 110, 108, levels(&changes), vec![]);
    assert_eq!(shown(&book).0, once.0);
    assert_eq!(once.0[0], ("100".to_string(), "3".to_string()));
    assert_eq!(once.0[2], ("98.000".to_string(), "2".to_string()));
}

#[test]
fn levels_are_read_digit_by_digit() {
    let raw: Vec<(String, String)> = [("64000.50", "1.234"), ("63999.00", "0.5"), ("-7", "0")]
        .iter()
        .map(|(p, q)| (p.to_string(), q.to_string()))
        .collect();
    let read = parse_levels(&raw);
    let expected = [
        (Decimal::new(6400050, 2), Decimal::new(1234, 3)),
        (Decimal::new(6399900, 2), Decimal::new(5, 1)),
        (Decimal::new(-7, 0), Decimal::new(0, 0)),
    ];
    assert_eq!(read.len(), 3);
    for (got, want) in read.iter().zip(expected.iter()) {
        assert_eq!(got, want);
        assert_eq!(got.0.to_text(), want.0.to_text());
        assert_eq!(got.1.to_text(), want.1.to_text());
    }
    assert_ne!(read[0].0, Decimal::new(6400051, 2));
}

#[test]
fn a_resynced_book_needs_only_a_snapshot() {
    let mut book = live();
    book.last_update_time = 9;
    book.mark_for_resync();
    assert_eq!(book.state, BookState::Buffering);
    assert!(book.bids.is_empty() && book.asks.is_empty());
    assert_eq!((book.last_update_id, book.last_update_time, book.snapshot_count), (0, 9, 1));
    assert!(book.on_snapshot(300, &levels(&[("50", "1")]), &levels(&[("51", "1")])));
    assert_eq!(book.state, BookState::Live);
    assert_eq!((book.last_update_id, book.snapshot_count), (300, 2));
    assert_eq!(shown(&book).0, vec![("50".to_string(), "1".to_string())]);
    let mut book = live();
    book.mark_for_resync();
    assert!(!book.on_snapshot(300, &levels(&[("52", "1")]), &levels(&[("51", "1")])));
}
