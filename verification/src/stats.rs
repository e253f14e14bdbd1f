//! How the feed is doing: its health, and what it counted.
use vstd::prelude::*;

use crate::book::BookState;
use crate::books::Books;
use crate::decimal::digits_of;
use crate::feed_handler::ShardInfo;
use crate::model::BookModel;
use crate::report::{count_text, models, Report, ReportModel};

verus! {

/// How many books are in a state.
pub open spec fn count_in(books: Seq<BookModel>, state: BookState) -> nat
    decreases books.len(),
{
    if books.len() == 0 {
        0
    } else {
        count_in(books.drop_last(), state) + if books.last().state == state {
            1nat
        } else {
            0nat
        }
    }
}

/// What the books counted, all in all.
pub open spec fn sum_of(books: Seq<BookModel>, counter: spec_fn(BookModel) -> int) -> int
    decreases books.len(),
{
    if books.len() == 0 {
        0
    } else {
        sum_of(books.drop_last(), counter) + counter(books.last())
    }
}

/// How many connections are made.
pub open spec fn connected_in(shards: Seq<ShardInfo>) -> nat
    decreases shards.len(),
{
    if shards.len() == 0 {
        0
    } else {
        connected_in(shards.drop_last()) + if shards.last().connected {
            1nat
        } else {
            0nat
        }
    }
}

/// How many messages came over all connections.
pub open spec fn messages_in(shards: Seq<ShardInfo>) -> int
    decreases shards.len(),
{
    if shards.len() == 0 {
        0
    } else {
        messages_in(shards.drop_last()) + shards.last().msg_count
    }
}

/// The longest time that a last message was under way; 0 where none was positive.
pub open spec fn longest_latency(shards: Seq<ShardInfo>) -> int
    decreases shards.len(),
{
    if shards.len() == 0 {
        0
    } else {
        let before = longest_latency(shards.drop_last());
        if shards.last().latency_us > before {
            shards.last().latency_us as int
        } else {
            before
        }
    }
}

/// Whether the feed is healthy: every connection is made, and more than half of the books
/// are live.
pub open spec fn is_healthy(books: Seq<BookModel>, shards: Seq<ShardInfo>) -> bool {
    connected_in(shards) == shards.len() && count_in(books, BookState::Live) > books.len() / 2
}

/// How the feed is doing.
#[derive(Debug)]
pub struct Health {
    pub healthy: bool,
    pub connected: usize,
    pub shards: usize,
    pub live: usize,
    pub books: usize,
}

/// What the books and the connections counted.
#[derive(Debug)]
pub struct Stats {
    pub uninitialized: usize,
    pub buffering: usize,
    pub live: usize,
    pub connected: usize,
    pub shards: usize,
    pub messages: u128,
    pub gaps: u128,
    pub crossed: u128,
    pub snapshots: u128,
    pub buffer_dropped: u128,
    pub max_latency_us: i128,
}

/// What else the feed counted: events published and lost, snapshots asked for, and
/// subscribers.
#[derive(Debug)]
pub struct Counters {
    pub bbo_published: u64,
    pub book_published: u64,
    pub snapshots: u64,
    pub bbo_dropped: u64,
    pub book_dropped: u64,
    pub subscriber_dropped: u64,
    pub subscribers: usize,
}

/// Counts the connections that are made.
fn count_connected(shards: &[ShardInfo]) -> (r: usize)
    ensures
        r == connected_in(shards@),
        r <= shards@.len(),
{
    let mut r: usize = 0;
    assert(shards@.take(0) =~= Seq::<ShardInfo>::empty());
    for i in 0..shards.len()
        invariant
            r == connected_in(shards@.take(i as int)),
            r <= i,
    {
        assert(shards@.take(i + 1).drop_last() =~= shards@.take(i as int));
        assert(shards@.take(i + 1).last() == shards@[i as int]);
        if shards[i].connected {
            r = r + 1;
        }
    }
    assert(shards@.take(shards@.len() as int) =~= shards@);
    r
}

/// Counts the books in a state.
fn count_books(books: &Books, state: BookState) -> (r: usize)
    requires
        books.wf(),
    ensures
        r == count_in(books@, state),
        r <= books@.len(),
{
    let mut r: usize = 0;
    assert(books@.take(0) =~= Seq::<BookModel>::empty());
    let n: usize = books.len();
    for i in 0..n
        invariant
            books.wf(),
            n == books@.len(),
            r == count_in(books@.take(i as int), state),
            r <= i,
    {
        assert(books@.take(i + 1).drop_last() =~= books@.take(i as int));
        assert(books@.take(i + 1).last() == books@[i as int]);
        if books.book(i).state == state {
            r = r + 1;
        }
    }
    assert(books@.take(books@.len() as int) =~= books@);
    r
}

/// How the feed is doing.
pub fn health(books: &Books, shards: &[ShardInfo]) -> (r: Health)
    requires
        books.wf(),
    ensures
        r.healthy == is_healthy(books@, shards@),
        r.connected == connected_in(shards@),
        r.shards == shards@.len(),
        r.live == count_in(books@, BookState::Live),
        r.books == books@.len(),
{
    let connected = count_connected(shards);
    let live = count_books(books, BookState::Live);
    let total = books.len();
    Health {
        healthy: connected == shards.len() && live > total / 2,
        connected,
        shards: shards.len(),
        live,
        books: total,
    }
}

/// `part` of `whole`, and what is counted.
pub open spec fn share_text(part: nat, whole: nat, what: Seq<char>) -> Seq<char> {
    digits_of(part) + "/"@ + digits_of(whole) + what
}

/// `part` of `whole`, and what is counted.
fn share(part: usize, whole: usize, what: &str) -> (r: String)
    ensures
        r@ == share_text(part as nat, whole as nat, what@),
{
    count_text(part as u128).concat("/").concat(count_text(whole as u128).as_str()).concat(what)
}

/// The health of the feed as it is written down.
pub open spec fn health_report(health: Health, uptime_s: u64) -> ReportModel {
    ReportModel::Record(
        seq![
            ("healthy"@, ReportModel::Flag(health.healthy)),
            ("uptime_s"@, ReportModel::Count(uptime_s as int)),
            (
                "shards"@,
                ReportModel::Text(
                    share_text(health.connected as nat, health.shards as nat, " connected"@),
                ),
            ),
            (
                "books"@,
                ReportModel::Text(share_text(health.live as nat, health.books as nat, " live"@)),
            ),
        ],
    )
}

impl Health {
    /// The health as it is written down.
    pub fn report(&self, uptime_s: u64) -> (r: Report)
        ensures
            r.model() == health_report(*self, uptime_s),
    {
        let r = Report::record().with("healthy", Report::Flag(self.healthy)).with(
            "uptime_s",
            Report::number(uptime_s),
        ).with("shards", Report::Text(share(self.connected, self.shards, " connected"))).with(
            "books",
            Report::Text(share(self.live, self.books, " live")),
        );
        assert(r.model()->Record_0 =~= health_report(*self, uptime_s)->Record_0);
        r
    }
}

/// Whether `r` is what the books and the connections counted.
pub open spec fn counts(r: Stats, books: Seq<BookModel>, shards: Seq<ShardInfo>) -> bool {
    &&& r.uninitialized == count_in(books, BookState::Uninitialized)
    &&& r.buffering == count_in(books, BookState::Buffering)
    &&& r.live == count_in(books, BookState::Live)
    &&& r.connected == connected_in(shards)
    &&& r.shards == shards.len()
    &&& r.messages == messages_in(shards)
    &&& r.gaps == sum_of(books, |m: BookModel| m.gap_count)
    &&& r.crossed == sum_of(books, |m: BookModel| m.crossed_count)
    &&& r.snapshots == sum_of(books, |m: BookModel| m.snapshot_count)
    &&& r.buffer_dropped == sum_of(books, |m: BookModel| m.buffer_dropped)
    &&& r.max_latency_us == longest_latency(shards)
}

/// What the books and the connections counted.
pub fn stats(books: &Books, shards: &[ShardInfo]) -> (r: Stats)
    requires
        books.wf(),
    ensures
        counts(r, books@, shards@),
        r.max_latency_us >= 0,
{
    let mut gaps: u128 = 0;
    let mut crossed: u128 = 0;
    let mut snapshots: u128 = 0;
    let mut buffer_dropped: u128 = 0;
    assert(books@.take(0) =~= Seq::<BookModel>::empty());
    let n: usize = books.len();
    for i in 0..n
        invariant
            books.wf(),
            n == books@.len(),
            gaps == sum_of(books@.take(i as int), |m: BookModel| m.gap_count),
            crossed == sum_of(books@.take(i as int), |m: BookModel| m.crossed_count),
            snapshots == sum_of(books@.take(i as int), |m: BookModel| m.snapshot_count),
            buffer_dropped == sum_of(books@.take(i as int), |m: BookModel| m.buffer_dropped),
            gaps <= i * u64::MAX,
            crossed <= i * u64::MAX,
            snapshots <= i * u64::MAX,
            buffer_dropped <= i * u64::MAX,
    {
        assert(books@.take(i + 1).drop_last() =~= books@.take(i as int));
        assert(books@.take(i + 1).last() == books@[i as int]);
        let book = books.book(i);
        gaps = gaps + book.gap_count as u128;
        crossed = crossed + book.crossed_count as u128;
        snapshots = snapshots + book.snapshot_count as u128;
        buffer_dropped = buffer_dropped + book.buffer_dropped as u128;
    }
    assert(books@.take(books@.len() as int) =~= books@);
    let mut messages: u128 = 0;
    let mut max_latency_us: i128 = 0;
    assert(shards@.take(0) =~= Seq::<ShardInfo>::empty());
    for i in 0..shards.len()
        invariant
            messages == messages_in(shards@.take(i as int)),
            messages <= i * u64::MAX,
            max_latency_us == longest_latency(shards@.take(i as int)),
            max_latency_us >= 0,
    {
        assert(shards@.take(i + 1).drop_last() =~= shards@.take(i as int));
        assert(shards@.take(i + 1).last() == shards@[i as int]);
        messages = messages + shards[i].msg_count as u128;
        if shards[i].latency_us > max_latency_us {
            max_latency_us = shards[i].latency_us;
        }
    }
    assert(shards@.take(shards@.len() as int) =~= shards@);
    Stats {
        uninitialized: count_books(books, BookState::Uninitialized),
        buffering: count_books(books, BookState::Buffering),
        live: count_books(books, BookState::Live),
        connected: count_connected(shards),
        shards: shards.len(),
        messages,
        gaps,
        crossed,
        snapshots,
        buffer_dropped,
        max_latency_us,
    }
}

/// Everything that was lost: events that found a queue full, and diffs that found a
/// book's buffer full.
pub open spec fn all_dropped(stats: Stats, counters: Counters) -> int {
    counters.bbo_dropped + counters.book_dropped + counters.subscriber_dropped
        + stats.buffer_dropped
}

/// Everything that was lost, where that number fits.
pub fn total_dropped(stats: &Stats, counters: &Counters) -> (r: Option<u128>)
    ensures
        match r {
            Some(n) => n == all_dropped(*stats, *counters),
            None => all_dropped(*stats, *counters) > u128::MAX,
        },
{
    let queues: u128 = counters.bbo_dropped as u128 + counters.book_dropped as u128
        + counters.subscriber_dropped as u128;
    queues.checked_add(stats.buffer_dropped)
}

/// A field for a state that books are in, behind other fields; no field where no book is
/// in that state.
pub open spec fn with_state(
    fields: Seq<(Seq<char>, ReportModel)>,
    name: Seq<char>,
    n: usize,
) -> Seq<(Seq<char>, ReportModel)> {
    if n > 0 {
        fields.push((name, ReportModel::Count(n as int)))
    } else {
        fields
    }
}

/// The states that books are in, each with the number of books.
pub open spec fn states_report(stats: Stats) -> ReportModel {
    ReportModel::Record(
        with_state(
            with_state(
                with_state(seq![], "uninitialized"@, stats.uninitialized),
                "buffering"@,
                stats.buffering,
            ),
            "live"@,
            stats.live,
        ),
    )
}

/// A connection as it is written down.
pub open spec fn shard_report(shard: ShardInfo) -> ReportModel {
    ReportModel::Record(
        seq![
            ("id"@, ReportModel::Count(shard.id as int)),
            ("connected"@, ReportModel::Flag(shard.connected)),
            ("msg_count"@, ReportModel::Count(shard.msg_count as int)),
            ("last_msg_time"@, ReportModel::Seconds(shard.last_msg_time as int)),
            ("latency_ms"@, ReportModel::Millis(shard.latency_us as int)),
        ],
    )
}

/// What was lost, by the place where it was lost.
pub open spec fn dropped_report(stats: Stats, counters: Counters) -> ReportModel {
    ReportModel::Record(
        seq![
            ("bbo_queue"@, ReportModel::Count(counters.bbo_dropped as int)),
            ("book_queue"@, ReportModel::Count(counters.book_dropped as int)),
            ("subscriber_queue"@, ReportModel::Count(counters.subscriber_dropped as int)),
            ("book_buffer"@, ReportModel::Count(stats.buffer_dropped as int)),
        ],
    )
}

/// Everything that was counted, as it is written down.
pub open spec fn stats_report(
    stats: Stats,
    counters: Counters,
    shards: Seq<ShardInfo>,
    uptime_s: u64,
) -> ReportModel {
    ReportModel::Record(
        seq![
            ("uptime_s"@, ReportModel::Count(uptime_s as int)),
            ("book_states"@, states_report(stats)),
            (
                "shards"@,
                ReportModel::List(shards.map_values(|shard: ShardInfo| shard_report(shard))),
            ),
            ("bbo_published"@, ReportModel::Count(counters.bbo_published as int)),
            ("book_published"@, ReportModel::Count(counters.book_published as int)),
            ("snapshots"@, ReportModel::Count(counters.snapshots as int)),
            ("total_gaps"@, ReportModel::Count(stats.gaps as int)),
            ("total_crossed"@, ReportModel::Count(stats.crossed as int)),
            ("total_snapshots_per_book"@, ReportModel::Count(stats.snapshots as int)),
            ("max_latency_ms"@, ReportModel::Millis(stats.max_latency_us as int)),
            ("dropped"@, dropped_report(stats, counters)),
            ("subscribers"@, ReportModel::Count(counters.subscribers as int)),
        ],
    )
}

/// A record with a field for a state, where books are in it.
fn add_state(record: Report, name: &str, n: usize) -> (r: Report)
    requires
        record.model() is Record,
    ensures
        r.model() == ReportModel::Record(with_state(record.model()->Record_0, name@, n)),
{
    if n > 0 {
        record.with(name, Report::count(n))
    } else {
        record
    }
}

impl ShardInfo {
    /// The connection as it is written down.
    pub fn report(&self) -> (r: Report)
        ensures
            r.model() == shard_report(*self),
    {
        let r = Report::record().with("id", Report::count(self.id)).with(
            "connected",
            Report::Flag(self.connected),
        ).with("msg_count", Report::number(self.msg_count)).with(
            "last_msg_time",
            Report::Seconds(self.last_msg_time),
        ).with("latency_ms", Report::Millis(self.latency_us));
        assert(r.model()->Record_0 =~= shard_report(*self)->Record_0);
        r
    }
}

impl Stats {
    /// Everything that was counted, as it is written down.
    pub fn report(&self, counters: &Counters, shards: &[ShardInfo], uptime_s: u64) -> (r: Report)
        ensures
            r.model() == stats_report(*self, *counters, shards@, uptime_s),
    {
        let states = add_state(
            add_state(
                add_state(Report::record(), "uninitialized", self.uninitialized),
                "buffering",
                self.buffering,
            ),
            "live",
            self.live,
        );
        let ghost all = shards@.map_values(|shard: ShardInfo| shard_report(shard));
        let mut items: Vec<Report> = Vec::new();
        for i in 0..shards.len()
            invariant
                all == shards@.map_values(|shard: ShardInfo| shard_report(shard)),
                models(items@) == all.take(i as int),
        {
            let ghost before = models(items@);
            let item = shards[i].report();
            let ghost m = item.model();
            items.push(item);
            assert(models(items@) =~= before.push(m));
            assert(m == all[i as int]);
            assert(models(items@) =~= all.take(i + 1));
        }
        assert(models(items@) =~= all);
        let dropped = Report::record().with("bbo_queue", Report::number(counters.bbo_dropped)).with(
            "book_queue",
            Report::number(counters.book_dropped),
        ).with("subscriber_queue", Report::number(counters.subscriber_dropped)).with(
            "book_buffer",
            Report::Count(self.buffer_dropped),
        );
        assert(dropped.model()->Record_0 =~= dropped_report(*self, *counters)->Record_0);
        let r = Report::record().with("uptime_s", Report::number(uptime_s)).with(
            "book_states",
            states,
        ).with("shards", Report::list(items)).with(
            "bbo_published",
            Report::number(counters.bbo_published),
        ).with("book_published", Report::number(counters.book_published)).with(
            "snapshots",
            Report::number(counters.snapshots),
        ).with("total_gaps", Report::Count(self.gaps)).with(
            "total_crossed",
            Report::Count(self.crossed),
        ).with("total_snapshots_per_book", Report::Count(self.snapshots)).with(
            "max_latency_ms",
            Report::Millis(self.max_latency_us),
        ).with("dropped", dropped).with("subscribers", Report::count(counters.subscribers));
        assert(r.model()->Record_0 =~= stats_report(
            *self,
            *counters,
            shards@,
            uptime_s,
        )->Record_0);
        r
    }
}

/// Microseconds in whole milliseconds, to the nearest; from the middle to the even one.
pub open spec fn rounded_ms(us: int) -> int {
    let (whole, rest) = (us / 1000, us % 1000);
    if rest > 500 || (rest == 500 && whole % 2 == 1) {
        whole + 1
    } else {
        whole
    }
}

/// The line of statistics.
pub open spec fn line_text(stats: Stats, counters: Counters, dropped: nat) -> Seq<char> {
    "shards="@ + digits_of(stats.connected as nat) + "/"@ + digits_of(stats.shards as nat)
        + " | books: "@ + digits_of(stats.live as nat) + " live, "@ + digits_of(
        stats.buffering as nat,
    ) + " buffering | msgs="@ + digits_of(stats.messages as nat) + " | pub: "@ + digits_of(
        counters.bbo_published as nat,
    ) + " bbo, "@ + digits_of(counters.book_published as nat) + " book | snaps="@ + digits_of(
        counters.snapshots as nat,
    ) + " | latency="@ + digits_of(rounded_ms(stats.max_latency_us as int) as nat) + "ms | gaps="@
        + digits_of(stats.gaps as nat) + " crossed="@ + digits_of(stats.crossed as nat)
        + " dropped="@ + digits_of(dropped)
}

/// The line of statistics. `dropped` is the number of all things lost.
pub fn stats_line(stats: &Stats, counters: &Counters, dropped: u128) -> (r: String)
    requires
        stats.max_latency_us >= 0,
    ensures
        r@ == line_text(*stats, *counters, dropped as nat),
{
    let us: u128 = stats.max_latency_us as u128;
    let (whole, rest): (u128, u128) = (us / 1000, us % 1000);
    let ms: u128 = if rest > 500 || (rest == 500 && whole % 2 == 1) {
        whole + 1
    } else {
        whole
    };
    let mut r: String = "shards=".to_owned();
    r.append(count_text(stats.connected as u128).as_str());
    r.append("/");
    r.append(count_text(stats.shards as u128).as_str());
    r.append(" | books: ");
    r.append(count_text(stats.live as u128).as_str());
    r.append(" live, ");
    r.append(count_text(stats.buffering as u128).as_str());
    r.append(" buffering | msgs=");
    r.append(count_text(stats.messages).as_str());
    r.append(" | pub: ");
    r.append(count_text(counters.bbo_published as u128).as_str());
    r.append(" bbo, ");
    r.append(count_text(counters.book_published as u128).as_str());
    r.append(" book | snaps=");
    r.append(count_text(counters.snapshots as u128).as_str());
    r.append(" | latency=");
    r.append(count_text(ms).as_str());
    r.append("ms | gaps=");
    r.append(count_text(stats.gaps).as_str());
    r.append(" crossed=");
    r.append(count_text(stats.crossed).as_str());
    r.append(" dropped=");
    r.append(count_text(dropped).as_str());
    r
}

} // verus!
