use binance_feed_handler::books::Books;
use binance_feed_handler::decimal::Decimal;
use binance_feed_handler::feed_handler::{idle_shards, ShardInfo};
use binance_feed_handler::report::Report;
use binance_feed_handler::stats::{health, stats, stats_line, total_dropped, Counters, Stats};

fn d(text: &str) -> Decimal {
    Decimal::parse(text).unwrap()
}

/// Books of which the first `live` are live and the next `buffering` wait for a snapshot.
fn books(total: usize, live: usize, buffering: usize) -> Books {
    let symbols: Vec<String> = (0..total).map(|i| format!("S{:03}", i)).collect();
    let mut books = Books::from_symbols(&symbols);
    for i in 0..(live + buffering) {
        books.on_depth(&symbols[i], 1, 1, 10, 0, vec![], vec![]);
        if i < live {
            books.on_snapshot(&symbols[i], 100, &[(d("1"), d("1"))], &[(d("2"), d("1"))]);
        }
    }
    books
}

fn shards(n: usize, connected: usize) -> Vec<ShardInfo> {
    let mut shards = idle_shards(n);
    for shard in shards.iter_mut().take(connected) {
        shard.connected = true;
    }
    shards
}

fn counters() -> Counters {
    Counters {
        bbo_published: 92100,
        book_published: 45300,
        snapshots: 570,
        bbo_dropped: 1,
        book_dropped: 20,
        subscriber_dropped: 300,
        subscribers: 4,
    }
}

fn field<'a>(report: &'a Report, name: &str) -> &'a Report {
    match report {
        Report::Record(fields) => &fields.iter().find(|f| f.0 == name).unwrap().1,
        _ => panic!("not a record"),
    }
}

#[test]
fn health_needs_every_connection() {
    assert!(health(&books(2, 2, 0), &shards(2, 2)).healthy);
    assert!(!health(&books(2, 2, 0), &shards(2, 1)).healthy);
}

#[test]
fn health_needs_more_than_half_of_the_books() {
    assert!(!health(&books(4, 2, 2), &shards(1, 1)).healthy);
    assert!(health(&books(4, 3, 0), &shards(1, 1)).healthy);
    assert!(health(&books(3, 2, 0), &shards(1, 1)).healthy);
    assert!(!health(&books(3, 1, 2), &shards(1, 1)).healthy);
    assert!(!health(&books(0, 0, 0), &shards(0, 0)).healthy);
}

#[test]
fn health_is_reported() {
    let report = health(&books(12, 11, 0), &shards(3, 2)).report(77);
    assert!(matches!(field(&report, "healthy"), Report::Flag(false)));
    assert!(matches!(field(&report, "uptime_s"), Report::Count(77)));
    assert!(matches!(field(&report, "shards"), Report::Text(t) if t == "2/3 connected"));
    assert!(matches!(field(&report, "books"), Report::Text(t) if t == "11/12 live"));
}

#[test]
fn books_and_connections_are_counted() {
    let mut b = books(5, 2, 1);
    b.on_depth("S000", 2, 301, 310, 300, vec![], vec![]);
    b.on_depth("S000", 3, 401, 410, 400, vec![], vec![]);
    b.on_depth("S001", 2, 301, 310, 300, vec![(d("3"), d("1"))], vec![]);
    let mut s = shards(3, 2);
    s[0].on_message(1);
    s[2].on_message(1);
    s[2].on_message(2);
    s[0].latency_us = -5;
    s[1].latency_us = 45_000;
    s[2].latency_us = 44_999;
    let r = stats(&b, &s);
    assert_eq!((r.uninitialized, r.buffering, r.live), (2, 3, 0));
    assert_eq!((r.connected, r.shards, r.messages), (2, 3, 3));
    assert_eq!((r.gaps, r.crossed, r.snapshots, r.buffer_dropped), (1, 1, 2, 0));
    assert_eq!(r.max_latency_us, 45_000);
}

#[test]
fn latencies_below_zero_do_not_count() {
    let mut s = shards(1, 1);
    s[0].latency_us = -5;
    assert_eq!(stats(&Books::new(), &s).max_latency_us, 0);
}

fn some_stats() -> Stats {
    Stats {
        uninitialized: 0,
        buffering: 2,
        live: 568,
        connected: 6,
        shards: 6,
        messages: 184920,
        gaps: 0,
        crossed: 0,
        snapshots: 570,
        buffer_dropped: 4000,
        max_latency_us: 45_000,
    }
}

#[test]
fn everything_lost_is_added_up() {
    assert_eq!(total_dropped(&some_stats(), &counters()), Some(4321));
    let mut full = some_stats();
    full.buffer_dropped = u128::MAX;
    assert_eq!(total_dropped(&full, &counters()), None);
}

#[test]
fn statistics_in_a_line() {
    assert_eq!(
        stats_line(&some_stats(), &counters(), 0),
        "shards=6/6 | books: 568 live, 2 buffering | msgs=184920 | pub: 92100 bbo, 45300 book | snaps=570 | latency=45ms | gaps=0 crossed=0 dropped=0"
    );
}

#[test]
fn latencies_are_rounded() {
    for us in [0i128, 499, 500, 501, 999, 1499, 1500, 1501, 2500, 3500, 45_000, 123_456_789] {
        let mut s = some_stats();
        s.max_latency_us = us;
        let expected = format!("latency={:.0}ms", us as f64 / 1000.0);
        assert!(stats_line(&s, &counters(), 0).contains(&expected), "{}", us);
    }
}

#[test]
fn statistics_are_reported() {
    let s = shards(2, 1);
    let report = some_stats().report(&counters(), &s, 12);
    assert!(matches!(field(&report, "uptime_s"), Report::Count(12)));
    match field(&report, "book_states") {
        Report::Record(fields) => {
            assert_eq!(fields.len(), 2);
            assert_eq!(fields[0].0, "buffering");
            assert!(matches!(fields[0].1, Report::Count(2)));
            assert_eq!(fields[1].0, "live");
            assert!(matches!(fields[1].1, Report::Count(568)));
        }
        _ => panic!("not a record"),
    }
    match field(&report, "shards") {
        Report::List(items) => {
            assert_eq!(items.len(), 2);
            assert!(matches!(field(&items[0], "connected"), Report::Flag(true)));
            assert!(matches!(field(&items[1], "id"), Report::Count(1)));
            assert!(matches!(field(&items[1], "last_msg_time"), Report::Seconds(0)));
            assert!(matches!(field(&items[1], "latency_ms"), Report::Millis(0)));
        }
        _ => panic!("not a list"),
    }
    assert!(matches!(field(&report, "bbo_published"), Report::Count(92100)));
    assert!(matches!(field(&report, "book_published"), Report::Count(45300)));
    assert!(matches!(field(&report, "snapshots"), Report::Count(570)));
    assert!(matches!(field(&report, "total_gaps"), Report::Count(0)));
    assert!(matches!(field(&report, "total_snapshots_per_book"), Report::Count(570)));
    assert!(matches!(field(&report, "max_latency_ms"), Report::Millis(45_000)));
    let dropped = field(&report, "dropped");
    assert!(matches!(field(dropped, "bbo_queue"), Report::Count(1)));
    assert!(matches!(field(dropped, "book_queue"), Report::Count(20)));
    assert!(matches!(field(dropped, "subscriber_queue"), Report::Count(300)));
    assert!(matches!(field(dropped, "book_buffer"), Report::Count(4000)));
    assert!(matches!(field(&report, "subscribers"), Report::Count(4)));
}
