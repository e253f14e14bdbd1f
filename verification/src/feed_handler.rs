//! The feed: what a message of the venue does to the order books, and what comes of it.
use vstd::prelude::*;

use crate::book::{all_readable, levels_read, try_parse_levels, Action};
use crate::books::{books_depth_step, place_of, room_for_depth, with_book, Books};
use crate::decimal::Decimal;
use crate::json::JsonNumber;
use crate::levels::{highest_first, listing, lowest_first};
use crate::messages::{MessageModel, StreamEvent, StreamEventModel, StreamMessage};
use crate::model::{BookModel, DepthModel};
use crate::report::{level_texts, pair_items, print_levels, reads_back, Report, ReportModel};
use crate::text::text_pairs;

verus! {

/// Where the venue's streams are found.
pub const BINANCE_WS_DEFAULT: &'static str = "wss://fstream.binance.com/ws";

/// Where the venue answers requests.
pub const BINANCE_FAPI_DEFAULT: &'static str = "https://fapi.binance.com";

/// How many levels of each side are published.
pub const PUBLISHED_LEVELS: usize = 20;

/// How many events of a kind wait to be published at most.
pub const QUEUE_MAX: usize = 100_000;

/// How long a live book may be silent, in microseconds.
pub const STALE_THRESHOLD: u64 = 30_000_000;

/// The best bid and ask of a symbol.
#[derive(Debug)]
pub struct BboEvent {
    pub symbol: String,
    pub bid_price: String,
    pub bid_qty: String,
    pub ask_price: String,
    pub ask_qty: String,
    /// The time at which it was published, in microseconds.
    pub ts: u64,
}

/// The best levels of a symbol's book.
#[derive(Debug)]
pub struct BookEvent {
    pub symbol: String,
    pub bids: Vec<(String, String)>,
    pub asks: Vec<(String, String)>,
    pub last_update_id: u64,
    /// The time at which it was published, in microseconds.
    pub ts: u64,
}

/// The best bid and ask of a symbol, as mathematics.
pub struct BboModel {
    pub symbol: Seq<char>,
    pub bid_price: Seq<char>,
    pub bid_qty: Seq<char>,
    pub ask_price: Seq<char>,
    pub ask_qty: Seq<char>,
    pub ts: u64,
}

/// The best levels of a symbol's book, as mathematics.
pub struct BookEventModel {
    pub symbol: Seq<char>,
    pub bids: Seq<(Seq<char>, Seq<char>)>,
    pub asks: Seq<(Seq<char>, Seq<char>)>,
    pub last_update_id: u64,
    pub ts: u64,
}

impl View for BboEvent {
    type V = BboModel;

    open spec fn view(&self) -> BboModel {
        BboModel {
            symbol: self.symbol@,
            bid_price: self.bid_price@,
            bid_qty: self.bid_qty@,
            ask_price: self.ask_price@,
            ask_qty: self.ask_qty@,
            ts: self.ts,
        }
    }
}

impl View for BookEvent {
    type V = BookEventModel;

    open spec fn view(&self) -> BookEventModel {
        BookEventModel {
            symbol: self.symbol@,
            bids: text_pairs(self.bids@),
            asks: text_pairs(self.asks@),
            last_update_id: self.last_update_id,
            ts: self.ts,
        }
    }
}

/// The best bid and ask as they are written down.
pub open spec fn bbo_report(event: BboModel) -> ReportModel {
    ReportModel::Record(
        seq![
            ("symbol"@, ReportModel::Text(event.symbol)),
            ("bid_price"@, ReportModel::Text(event.bid_price)),
            ("bid_qty"@, ReportModel::Text(event.bid_qty)),
            ("ask_price"@, ReportModel::Text(event.ask_price)),
            ("ask_qty"@, ReportModel::Text(event.ask_qty)),
            ("ts"@, ReportModel::Seconds(event.ts as int)),
        ],
    )
}

/// The best levels as they are written down.
pub open spec fn book_report(event: BookEventModel) -> ReportModel {
    ReportModel::Record(
        seq![
            ("symbol"@, ReportModel::Text(event.symbol)),
            ("bids"@, ReportModel::List(pair_items(event.bids))),
            ("asks"@, ReportModel::List(pair_items(event.asks))),
            ("last_update_id"@, ReportModel::Count(event.last_update_id as int)),
            ("ts"@, ReportModel::Seconds(event.ts as int)),
        ],
    )
}

impl BboEvent {
    /// The event as it is written down.
    pub fn report(&self) -> (r: Report)
        ensures
            r.model() == bbo_report(self@),
    {
        let r = Report::record().with("symbol", Report::text(self.symbol.as_str())).with(
            "bid_price",
            Report::text(self.bid_price.as_str()),
        ).with("bid_qty", Report::text(self.bid_qty.as_str())).with(
            "ask_price",
            Report::text(self.ask_price.as_str()),
        ).with("ask_qty", Report::text(self.ask_qty.as_str())).with("ts", Report::Seconds(self.ts));
        assert(r.model()->Record_0 =~= bbo_report(self@)->Record_0);
        r
    }
}

impl BookEvent {
    /// The event as it is written down.
    pub fn report(&self) -> (r: Report)
        ensures
            r.model() == book_report(self@),
    {
        let r = Report::record().with("symbol", Report::text(self.symbol.as_str())).with(
            "bids",
            Report::pairs(self.bids.as_slice()),
        ).with("asks", Report::pairs(self.asks.as_slice())).with(
            "last_update_id",
            Report::number(self.last_update_id),
        ).with("ts", Report::Seconds(self.ts));
        assert(r.model()->Record_0 =~= book_report(self@)->Record_0);
        r
    }
}

/// What comes of a message.
#[derive(Debug)]
pub enum Outcome {
    /// Nothing is to be done.
    Nothing,
    /// The message holds a level that is none. The books stay as they were.
    Unreadable,
    /// A snapshot of the symbol is to be fetched.
    NeedSnapshot,
    /// The best levels are to be published.
    Book(BookEvent),
    /// The best bid and ask are to be published.
    Bbo(BboEvent),
}

/// What comes of a message, as mathematics.
pub enum OutcomeModel {
    Nothing,
    Unreadable,
    NeedSnapshot,
    Book(BookEventModel),
    Bbo(BboModel),
}

impl View for Outcome {
    type V = OutcomeModel;

    open spec fn view(&self) -> OutcomeModel {
        match self {
            Outcome::Nothing => OutcomeModel::Nothing,
            Outcome::Unreadable => OutcomeModel::Unreadable,
            Outcome::NeedSnapshot => OutcomeModel::NeedSnapshot,
            Outcome::Book(event) => OutcomeModel::Book(event@),
            Outcome::Bbo(event) => OutcomeModel::Bbo(event@),
        }
    }
}

/// What is published of a book: its best bids, highest first, and its best asks, lowest
/// first, in plain notation.
pub open spec fn published(m: BookModel, now: u64) -> BookEventModel {
    BookEventModel {
        symbol: m.symbol,
        bids: level_texts(highest_first(listing(m.bids), PUBLISHED_LEVELS as nat)),
        asks: level_texts(lowest_first(listing(m.asks), PUBLISHED_LEVELS as nat)),
        last_update_id: m.last_update_id,
        ts: now,
    }
}

/// What a message that came at the time `now` makes of the books, and what is to be done
/// about it. The best prices of a ticker are published whether or not the symbol has a
/// book; a price that is no number counts as unknown.
pub open spec fn message_step(
    books: Seq<BookModel>,
    message: MessageModel,
    now: u64,
) -> (Seq<BookModel>, OutcomeModel) {
    match message.event {
        StreamEventModel::Depth { first_id, last_id, prev_id, bids, asks } => if !all_readable(bids)
            || !all_readable(asks) {
            (books, OutcomeModel::Unreadable)
        } else {
            let (after, action) = books_depth_step(
                books,
                message.symbol,
                now,
                DepthModel {
                    first_id,
                    last_id,
                    prev_id,
                    bids: levels_read(bids),
                    asks: levels_read(asks),
                },
            );
            (
                after,
                match action {
                    Action::NeedSnapshot => OutcomeModel::NeedSnapshot,
                    Action::Publish => OutcomeModel::Book(
                        published(after[place_of(books, message.symbol)->0], now),
                    ),
                    Action::None_ => OutcomeModel::Nothing,
                },
            )
        },
        StreamEventModel::BrokenDepth => (books, OutcomeModel::Unreadable),
        StreamEventModel::Ticker { bid_price, bid_qty, ask_price, ask_qty } => (
            with_book(
                books,
                message.symbol,
                |m: BookModel|
                    BookModel {
                        ticker_bid: crate::decimal::decimal_or_zero(bid_price).units(),
                        ticker_ask: crate::decimal::decimal_or_zero(ask_price).units(),
                        ..m
                    },
            ),
            OutcomeModel::Bbo(
                BboModel {
                    symbol: message.symbol,
                    bid_price,
                    bid_qty,
                    ask_price,
                    ask_qty,
                    ts: now,
                },
            ),
        ),
        StreamEventModel::Other => (books, OutcomeModel::Nothing),
    }
}

/// What is published of a book. The texts can be read back.
pub fn book_event(book: &crate::book::Book, now: u64) -> (r: BookEvent)
    requires
        book.wf(),
    ensures
        r@ == published(book@, now),
        reads_back(highest_first(listing(book@.bids), PUBLISHED_LEVELS as nat)),
        reads_back(lowest_first(listing(book@.asks), PUBLISHED_LEVELS as nat)),
{
    let (bids, asks) = book.top_levels(PUBLISHED_LEVELS);
    BookEvent {
        symbol: book.symbol.clone(),
        bids: print_levels(bids.as_slice()),
        asks: print_levels(asks.as_slice()),
        last_update_id: book.last_update_id,
        ts: now,
    }
}

/// Gives a message that came at the time `now` to the books.
pub fn apply_message(books: &mut Books, message: StreamMessage, now: u64) -> (r: Outcome)
    requires
        old(books).wf(),
        message@.event is Depth ==> room_for_depth(old(books)@, message@.symbol),
    ensures
        final(books).wf(),
        (final(books)@, r@) == message_step(old(books)@, message@, now),
{
    let symbol = message.symbol;
    match message.event {
        StreamEvent::Depth { first_id, last_id, prev_id, bids, asks } => {
            let (bids, asks) = match (
                try_parse_levels(bids.as_slice()),
                try_parse_levels(asks.as_slice()),
            ) {
                (Some(bids), Some(asks)) => (bids, asks),
                _ => {
                    return Outcome::Unreadable;
                },
            };
            let action = books.on_depth(
                symbol.as_str(),
                now,
                first_id,
                last_id,
                prev_id,
                bids,
                asks,
            );
            match action {
                Action::NeedSnapshot => Outcome::NeedSnapshot,
                Action::Publish => {
                    proof {
                        let at = place_of(old(books)@, symbol@)->0;
                        assert(crate::books::book_at(old(books)@, at, symbol@));
                        books.lemma_order();
                        crate::books::lemma_place(books@, at);
                    }
                    match books.get(symbol.as_str()) {
                        Some(book) => Outcome::Book(book_event(book, now)),
                        None => Outcome::Nothing,
                    }
                },
                Action::None_ => Outcome::Nothing,
            }
        },
        StreamEvent::BrokenDepth => Outcome::Unreadable,
        StreamEvent::Ticker { bid_price, bid_qty, ask_price, ask_qty } => {
            let bid = Decimal::parse_or_zero(bid_price.as_str());
            let ask = Decimal::parse_or_zero(ask_price.as_str());
            books.set_ticker_bbo(symbol.as_str(), bid, ask);
            proof {
                assert(books@ =~= message_step(old(books)@, message@, now).0);
            }
            Outcome::Bbo(BboEvent { symbol, bid_price, bid_qty, ask_price, ask_qty, ts: now })
        },
        StreamEvent::Other => Outcome::Nothing,
    }
}

/// A connection to the venue.
#[derive(Debug)]
pub struct ShardInfo {
    pub id: usize,
    pub connected: bool,
    pub msg_count: u64,
    /// The time of the last message, in microseconds.
    pub last_msg_time: u64,
    /// How long the last message was under way, in microseconds.
    pub latency_us: i128,
}

/// A connection that was not made yet.
pub open spec fn idle_shard(id: usize) -> ShardInfo {
    ShardInfo { id, connected: false, msg_count: 0, last_msg_time: 0, latency_us: 0 }
}

/// Connections that were not made yet.
pub fn idle_shards(n: usize) -> (r: Vec<ShardInfo>)
    ensures
        r@ == Seq::new(n as nat, |i: int| idle_shard(i as usize)),
{
    let mut r: Vec<ShardInfo> = Vec::new();
    for i in 0..n
        invariant
            r@ == Seq::new(i as nat, |j: int| idle_shard(j as usize)),
    {
        r.push(
            ShardInfo { id: i, connected: false, msg_count: 0, last_msg_time: 0, latency_us: 0 },
        );
        assert(r@ =~= Seq::new((i + 1) as nat, |j: int| idle_shard(j as usize)));
    }
    r
}

impl ShardInfo {
    /// Takes down that a message came.
    pub fn on_message(&mut self, now: u64)
        requires
            old(self).msg_count < u64::MAX,
        ensures
            *final(self) == (ShardInfo {
                msg_count: (old(self).msg_count + 1) as u64,
                last_msg_time: now,
                ..*old(self)
            }),
    {
        self.msg_count = self.msg_count + 1;
        self.last_msg_time = now;
    }
}

/// How long a message was under way, in microseconds: it came at the time `now`, and the
/// venue says in whole milliseconds when it happened.
pub open spec fn latency_of(now: u64, event_time: JsonNumber) -> Option<int> {
    match (event_time.unsigned, event_time.signed) {
        (Some(sent), _) => Some(now - sent * 1000),
        (None, Some(sent)) => Some(now - sent * 1000),
        (None, None) => None,
    }
}

/// How long a message was under way, where the venue gave the time as a whole number.
pub fn latency(now: u64, event_time: &JsonNumber) -> (r: Option<i128>)
    ensures
        match r {
            Some(us) => latency_of(now, *event_time) == Some(us as int),
            None => latency_of(now, *event_time) is None,
        },
{
    match (event_time.unsigned, event_time.signed) {
        (Some(sent), _) => Some(now as i128 - sent as i128 * 1000),
        (None, Some(sent)) => Some(now as i128 - sent as i128 * 1000),
        (None, None) => None,
    }
}

} // verus!
