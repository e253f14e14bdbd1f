use binance_feed_handler::decimal::Decimal;
use binance_feed_handler::report::Report;
use binance_feed_handler::symbols::{
    select_symbols, shard_symbols, stream_names, subscribe_batches, subscribe_request,
    take_leaders, Listing, SymbolInfo,
};
use binance_feed_handler::text::{order_texts, sort_texts, TextOrder};

fn info(symbol: &str, contract_type: &str, status: &str) -> SymbolInfo {
    SymbolInfo {
        symbol: symbol.to_string(),
        contract_type: contract_type.to_string(),
        status: status.to_string(),
    }
}

fn perps(symbols: &[&str]) -> Vec<SymbolInfo> {
    symbols.iter().map(|s| info(s, "PERPETUAL", "TRADING")).collect()
}

fn volumes(list: &[(&str, &str)]) -> Vec<(String, String)> {
    list.iter().map(|(s, v)| (s.to_string(), v.to_string())).collect()
}

fn numbered(n: usize) -> Vec<String> {
    (0..n).map(|i| format!("S{}", i)).collect()
}

#[test]
fn only_traded_perpetuals_are_followed() {
    let infos = vec![
        info("TESTUSDT", "PERPETUAL", "TRADING"),
        info("TESTUSDT_260327", "CURRENT_QUARTER", "TRADING"),
        info("HALTEDUSDT", "PERPETUAL", "SETTLING"),
    ];
    assert_eq!(select_symbols(&infos, &[], vec![], None), vec!["TESTUSDT"]);
}

#[test]
fn symbols_are_followed_in_their_order() {
    let infos = perps(&["ETHUSDT", "BTCUSDT", "1000PEPEUSDT", "ADAUSDT"]);
    assert_eq!(
        select_symbols(&infos, &[], vec![], None),
        vec!["1000PEPEUSDT", "ADAUSDT", "BTCUSDT", "ETHUSDT"]
    );
}

#[test]
fn a_limit_takes_the_largest_volumes() {
    let infos = perps(&["ADAUSDT", "BTCUSDT", "DOGEUSDT", "ETHUSDT"]);
    let traded = volumes(&[
        ("BTCUSDT", "9000.5"),
        ("ETHUSDT", "10000"),
        ("ADAUSDT", "9000.50"),
        ("DOGEUSDT", "12"),
    ]);
    assert_eq!(select_symbols(&infos, &traded, vec![], Some(1)), vec!["ETHUSDT"]);
    assert_eq!(select_symbols(&infos, &traded, vec![], Some(2)), vec!["ADAUSDT", "ETHUSDT"]);
    assert_eq!(
        select_symbols(&infos, &traded, vec![], Some(3)),
        vec!["ADAUSDT", "BTCUSDT", "ETHUSDT"]
    );
    assert_eq!(select_symbols(&infos, &traded, vec![], Some(9)).len(), 4);
    assert!(select_symbols(&infos, &traded, vec![], Some(0)).is_empty());
}

#[test]
fn leaders_are_taken_by_volume() {
    let listing = |symbol: &str, volume: i64| Listing {
        volume: Decimal::new(volume, 1),
        symbol: symbol.to_string(),
    };
    let list = || vec![listing("C", 15), listing("A", -3), listing("D", 20), listing("B", 15)];
    assert_eq!(take_leaders(list(), 1), vec!["D"]);
    assert_eq!(take_leaders(list(), 2), vec!["B", "D"]);
    assert_eq!(take_leaders(list(), 3), vec!["B", "C", "D"]);
    assert_eq!(take_leaders(list(), 4), vec!["A", "B", "C", "D"]);
}

#[test]
fn unknown_volumes_count_as_nothing() {
    let infos = perps(&["C", "B", "A"]);
    let traded = volumes(&[("B", "x"), ("C", "1"), ("C", "0")]);
    assert_eq!(select_symbols(&infos, &traded, vec![], Some(2)), vec!["A", "C"]);
    assert_eq!(select_symbols(&infos, &[], vec![], Some(2)), vec!["A", "B"]);
}

#[test]
fn requested_symbols_are_taken_as_they_are() {
    let infos = perps(&["BTCUSDT"]);
    let wanted = vec!["ETHUSDT".to_string(), "BTCUSDT".to_string()];
    assert_eq!(
        select_symbols(&infos, &[], wanted, Some(1)),
        vec!["ETHUSDT", "BTCUSDT"]
    );
}

#[test]
fn a_connection_follows_at_most_a_hundred_symbols() {
    assert!(shard_symbols(&[]).is_empty());
    let sizes = |n: usize| -> Vec<usize> { shard_symbols(&numbered(n)).iter().map(|s| s.len()).collect() };
    assert_eq!(sizes(1), vec![1]);
    assert_eq!(sizes(100), vec![100]);
    assert_eq!(sizes(101), vec![100, 1]);
    assert_eq!(sizes(570), vec![100, 100, 100, 100, 100, 70]);
    let all: Vec<String> = shard_symbols(&numbered(570)).concat();
    assert_eq!(all, numbered(570));
}

#[test]
fn a_request_takes_at_most_fifty_streams() {
    let batches = subscribe_batches(&numbered(120));
    let sizes: Vec<usize> = batches.iter().map(|b| b.len()).collect();
    assert_eq!(sizes, vec![50, 50, 20]);
    assert_eq!(batches.concat(), numbered(120));
}

#[test]
fn every_symbol_has_a_depth_and_a_ticker_stream() {
    let symbols = vec!["BTCUSDT".to_string(), "1000PEPEUSDT".to_string()];
    assert_eq!(
        stream_names(&symbols),
        vec![
            "btcusdt@depth@100ms",
            "btcusdt@bookTicker",
            "1000pepeusdt@depth@100ms",
            "1000pepeusdt@bookTicker",
        ]
    );
    assert_eq!(stream_names(&["\u{c4}B".to_string()])[0], "\u{e4}b@depth@100ms");
    assert!(stream_names(&[]).is_empty());
}

#[test]
fn requests_name_their_streams() {
    match subscribe_request(&["a".to_string(), "b".to_string()]) {
        Report::Record(fields) => {
            assert_eq!(fields[0].0, "method");
            assert!(matches!(&fields[0].1, Report::Text(t) if t == "SUBSCRIBE"));
            assert_eq!(fields[1].0, "params");
            match &fields[1].1 {
                Report::List(items) => assert_eq!(items.len(), 2),
                _ => panic!("not a list"),
            }
            assert_eq!(fields[2].0, "id");
            assert!(matches!(fields[2].1, Report::Count(1)));
        }
        _ => panic!("not a record"),
    }
}

#[test]
fn texts_are_ordered_as_strings_are() {
    let list = ["", "A", "AA", "AB", "B", "a", "\u{e4}", "\u{1F600}", "Z"];
    for a in list {
        for b in list {
            let expected = if a < b {
                TextOrder::Before
            } else if a == b {
                TextOrder::Same
            } else {
                TextOrder::After
            };
            assert_eq!(order_texts(a, b), expected);
        }
    }
    let mut strings: Vec<String> = list.iter().map(|s| s.to_string()).collect();
    let sorted = sort_texts(strings.clone());
    strings.sort();
    assert_eq!(sorted, strings);
}
