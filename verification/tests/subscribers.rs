use binance_feed_handler::json::Json;
use binance_feed_handler::publisher::{
    client_action, on_client_text, stream_filter, subscribe, unsubscribe, ClientAction,
    StreamFilter, Subscribers,
};
use binance_feed_handler::report::Report;

fn names(symbols: &[&str]) -> Option<Vec<String>> {
    Some(symbols.iter().map(|s| s.to_string()).collect())
}

#[test]
fn streams_have_names() {
    assert_eq!(stream_filter("bbo"), StreamFilter::Bbo);
    assert_eq!(stream_filter("book"), StreamFilter::Book);
    assert_eq!(stream_filter("all"), StreamFilter::All);
    assert_eq!(stream_filter("anything"), StreamFilter::All);
    assert_eq!(stream_filter("BBO"), StreamFilter::All);
}

#[test]
fn events_go_to_those_who_asked() {
    let mut subscribers = Subscribers::new();
    assert!(subscribers.has_room());
    let all = subscribe(&mut subscribers, "all", None);
    let bbo = subscribe(&mut subscribers, "bbo", None);
    let btc = subscribe(&mut subscribers, "book", names(&["BTCUSDT", "BTCUSDT"]));
    let nothing = subscribe(&mut subscribers, "all", names(&[]));
    assert_eq!(subscribers.len(), 4);
    assert_eq!((all, bbo, btc, nothing), (0, 1, 2, 3));
    assert_eq!(subscribers.recipients(StreamFilter::Bbo, "BTCUSDT"), vec![all, bbo]);
    assert_eq!(subscribers.recipients(StreamFilter::Book, "BTCUSDT"), vec![all, btc]);
    assert_eq!(subscribers.recipients(StreamFilter::Book, "ETHUSDT"), vec![all]);
}

#[test]
fn unsubscribed_means_no_events() {
    let mut subscribers = Subscribers::new();
    let a = subscribe(&mut subscribers, "all", None);
    let b = subscribe(&mut subscribers, "all", None);
    let c = subscribe(&mut subscribers, "all", None);
    unsubscribe(&mut subscribers, b);
    assert_eq!(subscribers.recipients(StreamFilter::Bbo, "X"), vec![a, c]);
    unsubscribe(&mut subscribers, b);
    assert_eq!(subscribers.len(), 2);
    let d = subscribe(&mut subscribers, "all", None);
    assert_eq!(d, 3);
    assert_eq!(subscribers.recipients(StreamFilter::Bbo, "X"), vec![a, c, d]);
}

fn fields(report: &Report) -> Vec<(String, String)> {
    match report {
        Report::Record(fields) => fields
            .iter()
            .map(|(name, value)| (name.clone(), format!("{:?}", value)))
            .collect(),
        _ => vec![],
    }
}

fn field(name: &str, value: &str) -> (String, String) {
    (name.to_string(), value.to_string())
}

#[test]
fn clients_subscribe() {
    let text = r#"{"action":"subscribe","stream":"bbo","symbols":["BTCUSDT",5,"ETHUSDT"]}"#;
    match on_client_text(false, text) {
        ClientAction::Subscribe { stream, symbols, answer } => {
            assert_eq!(stream, "bbo");
            assert_eq!(symbols, names(&["BTCUSDT", "ETHUSDT"]));
            assert_eq!(
                fields(&answer),
                vec![
                    field("status", "Text(\"subscribed\")"),
                    field("stream", "Text(\"bbo\")"),
                    field("symbols", "List([Text(\"BTCUSDT\"), Text(\"ETHUSDT\")])"),
                ]
            );
        }
        _ => panic!("not subscribed"),
    }
}

#[test]
fn clients_subscribe_to_everything() {
    for text in [
        r#"{"action":"subscribe"}"#,
        r#"{"action":"subscribe","stream":7,"symbols":"BTCUSDT"}"#,
    ] {
        match on_client_text(false, text) {
            ClientAction::Subscribe { stream, symbols, answer } => {
                assert_eq!(stream, "all");
                assert!(symbols.is_none());
                assert_eq!(fields(&answer)[2], field("symbols", "Null"));
            }
            _ => panic!("not subscribed"),
        }
    }
}

#[test]
fn clients_are_told_of_invalid_json() {
    match on_client_text(false, "{oops") {
        ClientAction::Answer(answer) => {
            assert_eq!(fields(&answer), vec![field("error", "Text(\"invalid JSON\")")]);
        }
        _ => panic!("no answer"),
    }
    assert!(matches!(on_client_text(true, "{oops"), ClientAction::Ignore));
}

#[test]
fn clients_unsubscribe() {
    match on_client_text(true, r#"{"action":"unsubscribe"}"#) {
        ClientAction::Unsubscribe(answer) => {
            assert_eq!(fields(&answer), vec![field("status", "Text(\"unsubscribed\")")]);
        }
        _ => panic!("not unsubscribed"),
    }
    assert!(matches!(on_client_text(false, r#"{"action":"unsubscribe"}"#), ClientAction::Ignore));
}

#[test]
fn everything_else_is_ignored() {
    for text in [r#"{"action":"dance"}"#, "{}", "5", r#"{"action":1}"#] {
        assert!(matches!(on_client_text(false, text), ClientAction::Ignore));
        assert!(matches!(on_client_text(true, text), ClientAction::Ignore));
    }
    assert!(matches!(
        on_client_text(true, r#"{"action":"subscribe","stream":"book"}"#),
        ClientAction::Ignore
    ));
}

#[test]
fn requests_are_read_from_values() {
    let value = Json::Object(vec![("action".to_string(), Json::Text("subscribe".to_string()))]);
    assert!(matches!(client_action(false, Some(&value)), ClientAction::Subscribe { .. }));
    assert!(matches!(client_action(true, Some(&value)), ClientAction::Ignore));
    assert!(matches!(client_action(false, None), ClientAction::Answer(_)));
}
