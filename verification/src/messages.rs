//! The messages of the venue's streams.
use vstd::prelude::*;

use crate::json::{parse_json, Json, JsonModel, JsonNumber};
use crate::text::{same_text, text_pairs};

verus! {

/// What a stream tells about a symbol.
#[derive(Debug)]
pub enum StreamEvent {
    /// A depth diff; levels are (price, quantity).
    Depth {
        first_id: u64,
        last_id: u64,
        prev_id: u64,
        bids: Vec<(String, String)>,
        asks: Vec<(String, String)>,
    },
    /// A depth diff with a level that lacks its price or its quantity.
    BrokenDepth,
    /// The best bid and ask.
    Ticker { bid_price: String, bid_qty: String, ask_price: String, ask_qty: String },
    /// Anything else.
    Other,
}

/// A message that concerns a symbol, with the time in milliseconds at which the venue
/// says that it happened.
#[derive(Debug)]
pub struct StreamMessage {
    pub symbol: String,
    pub event_time: Option<JsonNumber>,
    pub event: StreamEvent,
}

/// What a stream tells about a symbol, as mathematics.
pub enum StreamEventModel {
    Depth {
        first_id: u64,
        last_id: u64,
        prev_id: u64,
        bids: Seq<(Seq<char>, Seq<char>)>,
        asks: Seq<(Seq<char>, Seq<char>)>,
    },
    BrokenDepth,
    Ticker {
        bid_price: Seq<char>,
        bid_qty: Seq<char>,
        ask_price: Seq<char>,
        ask_qty: Seq<char>,
    },
    Other,
}

/// A message, as mathematics.
pub struct MessageModel {
    pub symbol: Seq<char>,
    pub event_time: Option<JsonNumber>,
    pub event: StreamEventModel,
}

impl View for StreamEvent {
    type V = StreamEventModel;

    open spec fn view(&self) -> StreamEventModel {
        match self {
            StreamEvent::Depth { first_id, last_id, prev_id, bids, asks } =>
                StreamEventModel::Depth {
                    first_id: *first_id,
                    last_id: *last_id,
                    prev_id: *prev_id,
                    bids: text_pairs(bids@),
                    asks: text_pairs(asks@),
                },
            StreamEvent::BrokenDepth => StreamEventModel::BrokenDepth,
            StreamEvent::Ticker { bid_price, bid_qty, ask_price, ask_qty } =>
                StreamEventModel::Ticker {
                    bid_price: bid_price@,
                    bid_qty: bid_qty@,
                    ask_price: ask_price@,
                    ask_qty: ask_qty@,
                },
            StreamEvent::Other => StreamEventModel::Other,
        }
    }
}

impl View for StreamMessage {
    type V = MessageModel;

    open spec fn view(&self) -> MessageModel {
        MessageModel {
            symbol: self.symbol@,
            event_time: self.event_time,
            event: self.event@,
        }
    }
}

/// What an entry of a list of levels is.
pub enum EntryModel {
    /// A price and a quantity.
    Level(Seq<char>, Seq<char>),
    /// Something that is passed over: no list, or not two texts.
    Skipped,
    /// A list that ends before its price or its quantity.
    Broken,
}

/// The text that the item at a position is.
pub open spec fn text_at(items: Seq<JsonModel>, i: int) -> Option<Seq<char>> {
    crate::json::text_of(Some(items[i]))
}

/// What an entry of a list of levels is.
pub open spec fn entry_of(value: JsonModel) -> EntryModel {
    match value {
        JsonModel::Array(items) => {
            if items.len() == 0 {
                EntryModel::Broken
            } else {
                match text_at(items, 0) {
                    None => EntryModel::Skipped,
                    Some(price) => if items.len() == 1 {
                        EntryModel::Broken
                    } else {
                        match text_at(items, 1) {
                            None => EntryModel::Skipped,
                            Some(qty) => EntryModel::Level(price, qty),
                        }
                    },
                }
            }
        },
        _ => EntryModel::Skipped,
    }
}

/// The levels in a list of entries.
pub open spec fn levels_in(entries: Seq<JsonModel>) -> Seq<(Seq<char>, Seq<char>)>
    decreases entries.len(),
{
    if entries.len() == 0 {
        Seq::empty()
    } else {
        match entry_of(entries.last()) {
            EntryModel::Level(price, qty) => levels_in(entries.drop_last()).push((price, qty)),
            _ => levels_in(entries.drop_last()),
        }
    }
}

/// The levels that a member of a message lists. There are none where it is no list, and
/// nothing is known where one of its entries is broken.
pub open spec fn listed_levels(value: Option<JsonModel>) -> Option<Seq<(Seq<char>, Seq<char>)>> {
    match value {
        Some(JsonModel::Array(entries)) => if exists|i: int|
            0 <= i < entries.len() && #[trigger] entry_of(entries[i]) is Broken {
            None
        } else {
            Some(levels_in(entries))
        },
        _ => Some(Seq::empty()),
    }
}

/// An unsigned integer in a message; 0 where it is missing.
pub open spec fn unsigned_or_zero(value: JsonModel, name: Seq<char>) -> u64 {
    match crate::json::unsigned_of(crate::json::member(value, name)) {
        Some(n) => n,
        None => 0,
    }
}

/// A text in a message; `0` where it is missing.
pub open spec fn text_or_zero(value: JsonModel, name: Seq<char>) -> Seq<char> {
    match crate::json::text_of(crate::json::member(value, name)) {
        Some(text) => text,
        None => "0"@,
    }
}

/// The event that a message reports.
pub open spec fn event_in(value: JsonModel) -> StreamEventModel {
    match crate::json::text_of(crate::json::member(value, "e"@)) {
        Some(kind) => if kind == "depthUpdate"@ {
            match (
                listed_levels(crate::json::member(value, "b"@)),
                listed_levels(crate::json::member(value, "a"@)),
            ) {
                (Some(bids), Some(asks)) => StreamEventModel::Depth {
                    first_id: unsigned_or_zero(value, "U"@),
                    last_id: unsigned_or_zero(value, "u"@),
                    prev_id: unsigned_or_zero(value, "pu"@),
                    bids,
                    asks,
                },
                _ => StreamEventModel::BrokenDepth,
            }
        } else if kind == "bookTicker"@ {
            StreamEventModel::Ticker {
                bid_price: text_or_zero(value, "b"@),
                bid_qty: text_or_zero(value, "B"@),
                ask_price: text_or_zero(value, "a"@),
                ask_qty: text_or_zero(value, "A"@),
            }
        } else {
            StreamEventModel::Other
        },
        None => StreamEventModel::Other,
    }
}

/// The message that a JSON value is. Answers to a request are none: they have a `result`,
/// or an `id` and no event. Neither is anything that names no symbol.
pub open spec fn message_in(value: JsonModel) -> Option<MessageModel> {
    if crate::json::member(value, "result"@) is Some {
        None
    } else if crate::json::member(value, "id"@) is Some && crate::json::member(
        value,
        "e"@,
    ) is None {
        None
    } else {
        match crate::json::text_of(crate::json::member(value, "s"@)) {
            None => None,
            Some(symbol) => Some(
                MessageModel {
                    symbol,
                    event_time: match crate::json::member(value, "E"@) {
                        Some(JsonModel::Number(number)) => Some(number),
                        _ => None,
                    },
                    event: event_in(value),
                },
            ),
        }
    }
}

/// What comes of one entry of a list of levels.
enum Entry {
    Level(String, String),
    Skipped,
    Broken,
}

impl View for Entry {
    type V = EntryModel;

    closed spec fn view(&self) -> EntryModel {
        match self {
            Entry::Level(price, qty) => EntryModel::Level(price@, qty@),
            Entry::Skipped => EntryModel::Skipped,
            Entry::Broken => EntryModel::Broken,
        }
    }
}

/// Reads one entry of a list of levels.
fn read_entry(value: &Json) -> (r: Entry)
    ensures
        r@ == entry_of(value.model()),
{
    match value {
        Json::Array(items) => {
            let ghost m = value.model()->Array_0;
            assert(m.len() == items@.len());
            if items.len() == 0 {
                return Entry::Broken;
            }
            assert(m[0] == items@[0].model());
            let price = match items[0].as_text() {
                Some(price) => price,
                None => {
                    return Entry::Skipped;
                },
            };
            if items.len() == 1 {
                return Entry::Broken;
            }
            assert(m[1] == items@[1].model());
            match items[1].as_text() {
                Some(qty) => Entry::Level(price.to_owned(), qty.to_owned()),
                None => Entry::Skipped,
            }
        },
        _ => Entry::Skipped,
    }
}

/// The levels that a member of a message lists, or nothing where an entry is broken.
fn read_levels(value: Option<&Json>) -> (r: Option<Vec<(String, String)>>)
    ensures
        match r {
            Some(levels) => listed_levels(
                match value {
                    Some(v) => Some(v.model()),
                    None => None,
                },
            ) == Some(text_pairs(levels@)),
            None => listed_levels(
                match value {
                    Some(v) => Some(v.model()),
                    None => None,
                },
            ) is None,
        },
{
    let mut levels: Vec<(String, String)> = Vec::new();
    match value {
        Some(Json::Array(entries)) => {
            let ghost m = value->0.model()->Array_0;
            assert(m.take(0) =~= Seq::<JsonModel>::empty());
            assert(text_pairs(levels@) =~= Seq::<(Seq<char>, Seq<char>)>::empty());
            for i in 0..entries.len()
                invariant
                    m.len() == entries@.len(),
                    forall|j: int| 0 <= j < m.len() ==> m[j] == entries@[j].model(),
                    value == Some(&Json::Array(*entries)),
                    m == value->0.model()->Array_0,
                    forall|j: int| 0 <= j < i ==> !(#[trigger] entry_of(m[j]) is Broken),
                    text_pairs(levels@) == levels_in(m.take(i as int)),
            {
                proof {
                    assert(m.take(i + 1).drop_last() =~= m.take(i as int));
                    assert(m.take(i + 1).last() == m[i as int]);
                }
                let ghost before = levels@;
                match read_entry(&entries[i]) {
                    Entry::Level(price, qty) => {
                        levels.push((price, qty));
                        assert(text_pairs(levels@) =~= text_pairs(before).push((price@, qty@)));
                    },
                    Entry::Skipped => {},
                    Entry::Broken => {
                        assert(entry_of(m[i as int]) is Broken);
                        return None;
                    },
                }
            }
            assert(m.take(m.len() as int) =~= m);
            Some(levels)
        },
        _ => {
            assert(text_pairs(levels@) =~= Seq::<(Seq<char>, Seq<char>)>::empty());
            Some(levels)
        },
    }
}

/// An unsigned integer in a message; 0 where it is missing.
fn read_unsigned(value: &Json, name: &str) -> (r: u64)
    ensures
        r == unsigned_or_zero(value.model(), name@),
{
    match value.get(name) {
        Some(v) => match v.as_unsigned() {
            Some(n) => n,
            None => 0,
        },
        None => 0,
    }
}

/// A text in a message, where it is there.
fn read_text<'a>(value: &'a Json, name: &str) -> (r: Option<&'a str>)
    ensures
        match r {
            Some(text) => crate::json::text_of(crate::json::member(value.model(), name@))
                == Some(text@),
            None => crate::json::text_of(crate::json::member(value.model(), name@)) is None,
        },
{
    match value.get(name) {
        Some(v) => v.as_text(),
        None => None,
    }
}

/// A text in a message; `0` where it is missing.
fn read_text_or_zero(value: &Json, name: &str) -> (r: String)
    ensures
        r@ == text_or_zero(value.model(), name@),
{
    match read_text(value, name) {
        Some(text) => text.to_owned(),
        None => "0".to_owned(),
    }
}

/// The event that a message reports.
fn read_event(value: &Json) -> (r: StreamEvent)
    ensures
        r@ == event_in(value.model()),
{
    let kind = match read_text(value, "e") {
        Some(kind) => kind,
        None => {
            return StreamEvent::Other;
        },
    };
    if same_text(kind, "depthUpdate") {
        let bids = read_levels(value.get("b"));
        let asks = read_levels(value.get("a"));
        match (bids, asks) {
            (Some(bids), Some(asks)) => StreamEvent::Depth {
                first_id: read_unsigned(value, "U"),
                last_id: read_unsigned(value, "u"),
                prev_id: read_unsigned(value, "pu"),
                bids,
                asks,
            },
            _ => StreamEvent::BrokenDepth,
        }
    } else if same_text(kind, "bookTicker") {
        StreamEvent::Ticker {
            bid_price: read_text_or_zero(value, "b"),
            bid_qty: read_text_or_zero(value, "B"),
            ask_price: read_text_or_zero(value, "a"),
            ask_qty: read_text_or_zero(value, "A"),
        }
    } else {
        StreamEvent::Other
    }
}

/// The message that a JSON value is, where it is one.
pub fn read_message(value: &Json) -> (r: Option<StreamMessage>)
    ensures
        match r {
            Some(message) => message_in(value.model()) == Some(message@),
            None => message_in(value.model()) is None,
        },
{
    if value.get("result").is_some() {
        return None;
    }
    if value.get("id").is_some() && value.get("e").is_none() {
        return None;
    }
    let symbol = match read_text(value, "s") {
        Some(symbol) => symbol.to_owned(),
        None => {
            return None;
        },
    };
    let event_time = match value.get("E") {
        Some(Json::Number(number)) => Some(*number),
        _ => None,
    };
    Some(StreamMessage { symbol, event_time, event: read_event(value) })
}

/// The message that a text from a stream holds, where it holds one.
pub fn decode_message(text: &str) -> (r: Option<StreamMessage>)
    ensures
        match r {
            Some(message) => crate::json::json_text(text@) is Some && message_in(
                crate::json::json_text(text@)->0,
            ) == Some(message@),
            None => crate::json::json_text(text@) is None || message_in(
                crate::json::json_text(text@)->0,
            ) is None,
        },
{
    match parse_json(text) {
        Some(value) => read_message(&value),
        None => None,
    }
}

} // verus!
