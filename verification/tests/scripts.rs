use binance_feed_handler::fuzz::{run, Lcg};
use binance_feed_handler::report::{count_text, Report};
use binance_feed_handler::scenarios::{
    run_all, scenario_basic_lifecycle, scenario_bbo_divergence, scenario_crossed_book,
    scenario_reset_and_resync, scenario_top_levels_ordering,
};

/// The value in compact JSON, its fields in order.
fn render(report: &Report) -> String {
    match report {
        Report::Null => "null".to_string(),
        Report::Flag(b) => format!("{}", b),
        Report::Count(n) => format!("{}", n),
        Report::Text(s) => format!("\"{}\"", s),
        Report::Seconds(t) => format!("{}us", t),
        Report::Millis(t) => format!("{}us", t),
        Report::List(items) => {
            let parts: Vec<String> = items.iter().map(render).collect();
            format!("[{}]", parts.join(","))
        }
        Report::Record(fields) => {
            let parts: Vec<String> = fields
                .iter()
                .map(|(name, value)| format!("\"{}\":{}", name, render(value)))
                .collect();
            format!("{{{}}}", parts.join(","))
        }
    }
}

/// The 64-bit FNV-1a hash of a text.
fn hash(text: &str) -> u64 {
    let mut h: u64 = 0xcbf29ce484222325;
    for byte in text.bytes() {
        h = (h ^ byte as u64).wrapping_mul(0x100000001b3);
    }
    h
}

#[test]
fn generator_gives_upper_bits() {
    let mut rng = Lcg(0);
    assert_eq!(rng.next(), 1442695040888963407u64 >> 33);
    let second = 1442695040888963407u64
        .wrapping_mul(6364136223846793005)
        .wrapping_add(1442695040888963407);
    assert_eq!(rng.next(), second >> 33);
    assert_eq!(rng.0, second);
}

#[test]
fn generator_stays_below() {
    let mut rng = Lcg(u64::MAX);
    for n in 1..200u64 {
        assert!(rng.below(n) < n);
    }
}

#[test]
fn fuzz_starts_as_known() {
    assert_eq!(
        render(&run(1, 2)),
        concat(&[
            "{\"seed\":1,\"steps\":2,\"digest\":[",
            "{\"step\":0,\"op\":\"depth_gap\",\"action\":\"need_snapshot\",\"state\":\"buffering\",",
            "\"last_update_id\":0,\"bids\":0,\"asks\":0,\"top_bids\":[],\"top_asks\":[],\"gaps\":0,",
            "\"crossed\":0,\"snapshots\":0,\"unverified_bridges\":0,\"buffer_dropped\":0},",
            "{\"step\":1,\"op\":\"depth\",\"action\":null,\"state\":\"buffering\",",
            "\"last_update_id\":0,\"bids\":0,\"asks\":0,\"top_bids\":[],\"top_asks\":[],\"gaps\":0,",
            "\"crossed\":0,\"snapshots\":0,\"unverified_bridges\":0,\"buffer_dropped\":0}]}",
        ])
    );
}

fn concat(parts: &[&str]) -> String {
    parts.concat()
}

#[test]
fn fuzz_of_seed_1() {
    let text = render(&run(1, 2000));
    assert_eq!(text.len(), 471948);
    assert_eq!(hash(&text), 6810917051616727820);
}

#[test]
fn fuzz_of_seed_7() {
    let text = render(&run(7, 2000));
    assert_eq!(text.len(), 466467);
    assert_eq!(hash(&text), 9929660537576470229);
}

#[test]
fn fuzz_of_seed_2024() {
    let text = render(&run(2024, 500));
    assert_eq!(text.len(), 114254);
    assert_eq!(hash(&text), 936681445229761050);
}

#[test]
fn lifecycle_scenario() {
    assert_eq!(
        render(&scenario_basic_lifecycle()),
        concat(&[
            "[{\"step\":\"first_depth\",\"action\":\"need_snapshot\",\"state\":\"buffering\"},",
            "{\"step\":\"buffer_depth\",\"action\":null,\"state\":\"buffering\"},",
            "{\"step\":\"snapshot\",\"ok\":true,\"state\":\"live\",\"bid_count\":2,\"ask_count\":2,",
            "\"last_update_id\":100},",
            "{\"step\":\"first_live_depth\",\"action\":\"publish\",\"state\":\"live\",",
            "\"top_bids\":[[\"64000.00\",\"1.5\"],[\"63999.00\",\"2.0\"],[\"63998.00\",\"1.0\"]],",
            "\"top_asks\":[[\"64001.00\",\"1.0\"],[\"64002.00\",\"3.0\"]]},",
            "{\"step\":\"apply_diff\",\"action\":\"publish\",\"has_64000\":false,",
            "\"has_64001_50\":true},",
            "{\"step\":\"sequence_gap\",\"action\":\"need_snapshot\",\"state\":\"buffering\",",
            "\"gap_count\":1}]",
        ])
    );
}

#[test]
fn crossed_scenario() {
    assert_eq!(
        render(&scenario_crossed_book()),
        "{\"action\":\"need_snapshot\",\"state\":\"buffering\",\"crossed_count\":1}"
    );
}

#[test]
fn divergence_scenario() {
    assert_eq!(
        render(&scenario_bbo_divergence()),
        concat(&[
            "{\"all_live_during_warmup\":true,\"final_action\":\"need_snapshot\",",
            "\"final_state\":\"buffering\"}",
        ])
    );
}

#[test]
fn resync_scenario() {
    assert_eq!(
        render(&scenario_reset_and_resync()),
        concat(&[
            "{\"pre_reset\":{\"state\":\"live\",\"bid_count\":1,\"last_update_id\":110},",
            "\"post_reset\":{\"state\":\"uninitialized\",\"bid_count\":0,\"last_update_id\":0},",
            "\"after_depth_action\":\"need_snapshot\",\"after_depth_state\":\"buffering\"}",
        ])
    );
}

#[test]
fn ordering_scenario() {
    assert_eq!(
        render(&scenario_top_levels_ordering()),
        concat(&[
            "{\"top_3_bid_prices\":[\"31.00\",\"30.00\",\"29.00\"],",
            "\"top_3_ask_prices\":[\"32.00\",\"33.00\",\"34.00\"]}",
        ])
    );
}

#[test]
fn all_scenarios_together() {
    let all = run_all();
    let names: Vec<String> = match &all {
        Report::Record(fields) => fields.iter().map(|(name, _)| name.clone()).collect(),
        _ => vec![],
    };
    assert_eq!(
        names,
        vec![
            "basic_lifecycle",
            "crossed_book",
            "bbo_divergence",
            "reset_and_resync",
            "top_levels_ordering",
        ]
    );
    assert!(render(&all).contains(&render(&scenario_basic_lifecycle())));
    assert!(render(&all).contains(&render(&scenario_top_levels_ordering())));
}

#[test]
fn counts_in_digits() {
    assert_eq!(count_text(0), "0");
    assert_eq!(count_text(9), "9");
    assert_eq!(count_text(10), "10");
    assert_eq!(count_text(1234567890), "1234567890");
    assert_eq!(count_text(u128::MAX), format!("{}", u128::MAX));
}

#[test]
fn only_records_take_fields() {
    let r = Report::Flag(true).with("name", Report::Null);
    assert!(matches!(r, Report::Flag(true)));
}
