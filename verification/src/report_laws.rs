//! What reports say, field by field.
use vstd::prelude::*;

use crate::book::{Book, BookState, DepthEvent};
use crate::decimal::{decimal_text, digits_of, Decimal};
use crate::feed_handler::{
    bbo_report, book_report, latency_of, published, BboEvent, BboModel, BookEvent, BookEventModel,
    Outcome, OutcomeModel, ShardInfo,
};
use crate::json::JsonNumber;
use crate::messages::{StreamEvent, StreamEventModel, StreamMessage};
use crate::model::BookModel;
use crate::publisher::{
    invalid_answer, subscribed_answer, unsubscribed_answer, ClientAction, ClientModel,
};
use crate::report::{level_texts, models, pair_items, text_items, Report, ReportModel};
use crate::stats::{
    all_dropped, connected_in, count_in, counts, dropped_report, health_report, line_text,
    longest_latency, messages_in, rounded_ms, shard_report, states_report, stats_report, sum_of,
    Counters, Health, Stats,
};
use crate::symbols::subscribe_report;
use crate::text::{text_pairs, texts};

verus! {

/// Whether a report is a record that has no name twice.
pub open spec fn names_once(r: ReportModel) -> bool {
    r matches ReportModel::Record(fields) && forall|i: int, j: int|
        0 <= i < j < fields.len() ==> (#[trigger] fields[i]).0 != (#[trigger] fields[j]).0
}

/// Whether a record has a field of a name.
pub open spec fn has_field(r: ReportModel, name: Seq<char>) -> bool {
    r matches ReportModel::Record(fields) && exists|i: int|
        0 <= i < fields.len() && (#[trigger] fields[i]).0 == name
}

/// Whether a record has a field of a name, once, and it holds that value.
pub open spec fn says(r: ReportModel, name: Seq<char>, value: ReportModel) -> bool {
    &&& names_once(r)
    &&& r matches ReportModel::Record(fields) && exists|i: int|
        0 <= i < fields.len() && #[trigger] fields[i] == (name, value)
}

/// Whether a value lists pairs of texts: each as a list of two, in the order of the pairs.
pub open spec fn lists_pairs(value: ReportModel, pairs: Seq<(Seq<char>, Seq<char>)>) -> bool {
    value matches ReportModel::List(items) && {
        &&& items.len() == pairs.len()
        &&& forall|k: int|
            0 <= k < pairs.len() ==> {
                &&& #[trigger] items[k] is List
                &&& items[k]->List_0.len() == 2
                &&& items[k]->List_0[0] == ReportModel::Text(pairs[k].0)
                &&& items[k]->List_0[1] == ReportModel::Text(pairs[k].1)
            }
    }
}

/// Whether a value lists texts, in their order.
pub open spec fn lists_texts(value: ReportModel, list: Seq<Seq<char>>) -> bool {
    value matches ReportModel::List(items) && {
        &&& items.len() == list.len()
        &&& forall|k: int| 0 <= k < list.len() ==> #[trigger] items[k] == ReportModel::Text(list[k])
    }
}

/// A report of best prices says each part of the event under its own name.
pub proof fn best_prices_are_reported_by_name(event: BboModel)
    ensures
        says(bbo_report(event), "symbol"@, ReportModel::Text(event.symbol)),
        says(bbo_report(event), "bid_price"@, ReportModel::Text(event.bid_price)),
        says(bbo_report(event), "bid_qty"@, ReportModel::Text(event.bid_qty)),
        says(bbo_report(event), "ask_price"@, ReportModel::Text(event.ask_price)),
        says(bbo_report(event), "ask_qty"@, ReportModel::Text(event.ask_qty)),
        says(bbo_report(event), "ts"@, ReportModel::Seconds(event.ts as int)),
        bbo_report(event)->Record_0.len() == 6,
{
    reveal_strlit("symbol");
    reveal_strlit("bid_price");
    reveal_strlit("bid_qty");
    reveal_strlit("ask_price");
    reveal_strlit("ask_qty");
    reveal_strlit("ts");
    let fields = bbo_report(event)->Record_0;
    assert(fields[0] == ("symbol"@, ReportModel::Text(event.symbol)));
    assert(fields[1] == ("bid_price"@, ReportModel::Text(event.bid_price)));
    assert(fields[2] == ("bid_qty"@, ReportModel::Text(event.bid_qty)));
    assert(fields[3] == ("ask_price"@, ReportModel::Text(event.ask_price)));
    assert(fields[4] == ("ask_qty"@, ReportModel::Text(event.ask_qty)));
    assert(fields[5] == ("ts"@, ReportModel::Seconds(event.ts as int)));
    assert(fields[0].0.len() == 6 && fields[0].0[0] == 's');
    assert(fields[1].0.len() == 9 && fields[1].0[0] == 'b');
    assert(fields[2].0.len() == 7 && fields[2].0[0] == 'b');
    assert(fields[3].0.len() == 9 && fields[3].0[0] == 'a');
    assert(fields[4].0.len() == 7 && fields[4].0[0] == 'a');
    assert(fields[5].0.len() == 2 && fields[5].0[0] == 't');
    assert(names_once(bbo_report(event)));
}

/// A report of best levels lists the event's bids under `bids` and its asks under `asks`,
/// each level as a list of price and quantity, and says the rest under its own name.
pub proof fn best_levels_are_reported_by_name(event: BookEventModel) -> (r: (
    ReportModel,
    ReportModel,
))
    ensures
        says(book_report(event), "bids"@, r.0),
        lists_pairs(r.0, event.bids),
        says(book_report(event), "asks"@, r.1),
        lists_pairs(r.1, event.asks),
        says(book_report(event), "symbol"@, ReportModel::Text(event.symbol)),
        says(
            book_report(event),
            "last_update_id"@,
            ReportModel::Count(event.last_update_id as int),
        ),
        says(book_report(event), "ts"@, ReportModel::Seconds(event.ts as int)),
        book_report(event)->Record_0.len() == 5,
{
    reveal_strlit("symbol");
    reveal_strlit("bids");
    reveal_strlit("asks");
    reveal_strlit("last_update_id");
    reveal_strlit("ts");
    let fields = book_report(event)->Record_0;
    assert(fields[0] == ("symbol"@, ReportModel::Text(event.symbol)));
    assert(fields[1].0 == "bids"@);
    assert(fields[2].0 == "asks"@);
    assert(fields[3] == ("last_update_id"@, ReportModel::Count(event.last_update_id as int)));
    assert(fields[4] == ("ts"@, ReportModel::Seconds(event.ts as int)));
    assert(fields[0].0.len() == 6 && fields[0].0[0] == 's');
    assert(fields[1].0.len() == 4 && fields[1].0[0] == 'b');
    assert(fields[2].0.len() == 4 && fields[2].0[0] == 'a');
    assert(fields[3].0.len() == 14 && fields[3].0[0] == 'l');
    assert(fields[4].0.len() == 2 && fields[4].0[0] == 't');
    assert(names_once(book_report(event)));
    (fields[1].1, fields[2].1)
}

/// What is reported of a book in which every bid is lower than every ask: under `bids` its
/// best bids, and under `asks` its best asks, so that every price under `bids` is lower than
/// every price under `asks`. The levels are given, the bids first.
pub proof fn reported_bids_are_below_reported_asks(m: BookModel, now: u64) -> (r: (
    Seq<(Decimal, Decimal)>,
    Seq<(Decimal, Decimal)>,
    ReportModel,
    ReportModel,
))
    requires
        m.bids.dom().finite(),
        m.asks.dom().finite(),
        forall|p: int| #[trigger] m.bids.contains_key(p) ==> m.bids[p].0.units() == p,
        forall|p: int| #[trigger] m.asks.contains_key(p) ==> m.asks[p].0.units() == p,
        forall|bid: int, ask: int|
            #[trigger] m.bids.contains_key(bid) && #[trigger] m.asks.contains_key(ask) ==> bid
                < ask,
    ensures
        says(book_report(published(m, now)), "bids"@, r.2),
        says(book_report(published(m, now)), "asks"@, r.3),
        r.2 is List && r.3 is List,
        r.2->List_0.len() == r.0.len(),
        r.3->List_0.len() == r.1.len(),
        forall|k: int|
            0 <= k < r.0.len() ==> {
                &&& (#[trigger] r.2->List_0[k])->List_0[0] == ReportModel::Text(r.0[k].0.text())
                &&& r.2->List_0[k]->List_0[1] == ReportModel::Text(r.0[k].1.text())
            },
        forall|k: int|
            0 <= k < r.1.len() ==> {
                &&& (#[trigger] r.3->List_0[k])->List_0[0] == ReportModel::Text(r.1[k].0.text())
                &&& r.3->List_0[k]->List_0[1] == ReportModel::Text(r.1[k].1.text())
            },
        crate::event_laws::best_twenty(r.0, m.bids, |a: int, b: int| a > b),
        crate::event_laws::best_twenty(r.1, m.asks, |a: int, b: int| a < b),
        forall|k: int, l: int|
            0 <= k < r.0.len() && 0 <= l < r.1.len() ==> (#[trigger] r.0[k]).0.units() < (
            #[trigger] r.1[l]).0.units(),
{
    let (bids, asks) = crate::event_laws::the_best_twenty_are_published(m, now);
    let (listed_bids, listed_asks) = best_levels_are_reported_by_name(published(m, now));
    assert forall|k: int| 0 <= k < bids.len() implies {
        &&& (#[trigger] listed_bids->List_0[k])->List_0[0] == ReportModel::Text(bids[k].0.text())
        &&& listed_bids->List_0[k]->List_0[1] == ReportModel::Text(bids[k].1.text())
    } by {
        assert(published(m, now).bids[k] == (bids[k].0.text(), bids[k].1.text()));
    }
    assert forall|k: int| 0 <= k < asks.len() implies {
        &&& (#[trigger] listed_asks->List_0[k])->List_0[0] == ReportModel::Text(asks[k].0.text())
        &&& listed_asks->List_0[k]->List_0[1] == ReportModel::Text(asks[k].1.text())
    } by {
        assert(published(m, now).asks[k] == (asks[k].0.text(), asks[k].1.text()));
    }
    (bids, asks, listed_bids, listed_asks)
}

/// A report of health says each part under its own name: how many connections are made of
/// all, and how many books are live of all.
pub proof fn health_is_reported_by_name(health: Health, uptime_s: u64)
    ensures
        ({
            let r = health_report(health, uptime_s);
            &&& says(r, "healthy"@, ReportModel::Flag(health.healthy))
            &&& says(r, "uptime_s"@, ReportModel::Count(uptime_s as int))
            &&& says(
                r,
                "shards"@,
                ReportModel::Text(
                    digits_of(health.connected as nat) + "/"@ + digits_of(health.shards as nat)
                        + " connected"@,
                ),
            )
            &&& says(
                r,
                "books"@,
                ReportModel::Text(
                    digits_of(health.live as nat) + "/"@ + digits_of(health.books as nat)
                        + " live"@,
                ),
            )
            &&& r->Record_0.len() == 4
        }),
{
    reveal_strlit("healthy");
    reveal_strlit("uptime_s");
    reveal_strlit("shards");
    reveal_strlit("books");
    let fields = health_report(health, uptime_s)->Record_0;
    assert(fields[0] == ("healthy"@, ReportModel::Flag(health.healthy)));
    assert(fields[1] == ("uptime_s"@, ReportModel::Count(uptime_s as int)));
    assert(fields[2].0 == "shards"@);
    assert(fields[3].0 == "books"@);
    assert(fields[0].0.len() == 7 && fields[0].0[0] == 'h');
    assert(fields[1].0.len() == 8 && fields[1].0[0] == 'u');
    assert(fields[2].0.len() == 6 && fields[2].0[0] == 's');
    assert(fields[3].0.len() == 5 && fields[3].0[0] == 'b');
    assert(names_once(health_report(health, uptime_s)));
}

/// A report of a connection says each part under its own name.
pub proof fn connections_are_reported_by_name(shard: ShardInfo)
    ensures
        says(shard_report(shard), "id"@, ReportModel::Count(shard.id as int)),
        says(shard_report(shard), "connected"@, ReportModel::Flag(shard.connected)),
        says(shard_report(shard), "msg_count"@, ReportModel::Count(shard.msg_count as int)),
        says(
            shard_report(shard),
            "last_msg_time"@,
            ReportModel::Seconds(shard.last_msg_time as int),
        ),
        says(shard_report(shard), "latency_ms"@, ReportModel::Millis(shard.latency_us as int)),
        shard_report(shard)->Record_0.len() == 5,
{
    reveal_strlit("id");
    reveal_strlit("connected");
    reveal_strlit("msg_count");
    reveal_strlit("last_msg_time");
    reveal_strlit("latency_ms");
    let fields = shard_report(shard)->Record_0;
    assert(fields[0] == ("id"@, ReportModel::Count(shard.id as int)));
    assert(fields[1] == ("connected"@, ReportModel::Flag(shard.connected)));
    assert(fields[2] == ("msg_count"@, ReportModel::Count(shard.msg_count as int)));
    assert(fields[3] == ("last_msg_time"@, ReportModel::Seconds(shard.last_msg_time as int)));
    assert(fields[4] == ("latency_ms"@, ReportModel::Millis(shard.latency_us as int)));
    assert(fields[0].0.len() == 2 && fields[0].0[0] == 'i');
    assert(fields[1].0.len() == 9 && fields[1].0[0] == 'c');
    assert(fields[2].0.len() == 9 && fields[2].0[0] == 'm');
    assert(fields[3].0.len() == 13 && fields[3].0[0] == 'l');
    assert(fields[4].0.len() == 10 && fields[4].0[0] == 'l');
    assert(names_once(shard_report(shard)));
}

/// A report of losses says each place under its own name, and all of them together are what
/// was lost.
pub proof fn losses_are_reported_by_name(stats: Stats, counters: Counters)
    ensures
        ({
            let r = dropped_report(stats, counters);
            &&& says(r, "bbo_queue"@, ReportModel::Count(counters.bbo_dropped as int))
            &&& says(r, "book_queue"@, ReportModel::Count(counters.book_dropped as int))
            &&& says(
                r,
                "subscriber_queue"@,
                ReportModel::Count(counters.subscriber_dropped as int),
            )
            &&& says(r, "book_buffer"@, ReportModel::Count(stats.buffer_dropped as int))
            &&& r->Record_0.len() == 4
            &&& all_dropped(stats, counters) == r->Record_0[0].1->Count_0
                + r->Record_0[1].1->Count_0 + r->Record_0[2].1->Count_0
                + r->Record_0[3].1->Count_0
        }),
        all_dropped(stats, counters) == counters.bbo_dropped + counters.book_dropped
            + counters.subscriber_dropped + stats.buffer_dropped,
{
    reveal_strlit("bbo_queue");
    reveal_strlit("book_queue");
    reveal_strlit("subscriber_queue");
    reveal_strlit("book_buffer");
    let fields = dropped_report(stats, counters)->Record_0;
    assert(fields[0] == ("bbo_queue"@, ReportModel::Count(counters.bbo_dropped as int)));
    assert(fields[1] == ("book_queue"@, ReportModel::Count(counters.book_dropped as int)));
    assert(fields[2] == (
        "subscriber_queue"@,
        ReportModel::Count(counters.subscriber_dropped as int),
    ));
    assert(fields[3] == ("book_buffer"@, ReportModel::Count(stats.buffer_dropped as int)));
    assert(fields[0].0.len() == 9 && fields[0].0[0] == 'b');
    assert(fields[1].0.len() == 10 && fields[1].0[0] == 'b');
    assert(fields[2].0.len() == 16 && fields[2].0[0] == 's');
    assert(fields[3].0.len() == 11 && fields[3].0[0] == 'b');
    assert(names_once(dropped_report(stats, counters)));
}

/// A report of states says of each state in which there are books how many there are, and
/// nothing of the others.
pub proof fn states_are_reported_by_name(stats: Stats)
    ensures
        ({
            let r = states_report(stats);
            &&& stats.uninitialized > 0 ==> says(
                r,
                "uninitialized"@,
                ReportModel::Count(stats.uninitialized as int),
            )
            &&& stats.buffering > 0 ==> says(
                r,
                "buffering"@,
                ReportModel::Count(stats.buffering as int),
            )
            &&& stats.live > 0 ==> says(r, "live"@, ReportModel::Count(stats.live as int))
            &&& stats.uninitialized == 0 ==> !has_field(r, "uninitialized"@)
            &&& stats.buffering == 0 ==> !has_field(r, "buffering"@)
            &&& stats.live == 0 ==> !has_field(r, "live"@)
        }),
{
    reveal_strlit("uninitialized");
    reveal_strlit("buffering");
    reveal_strlit("live");
    let none = Seq::<(Seq<char>, ReportModel)>::empty();
    let one = crate::stats::with_state(none, "uninitialized"@, stats.uninitialized);
    let two = crate::stats::with_state(one, "buffering"@, stats.buffering);
    let all = crate::stats::with_state(two, "live"@, stats.live);
    assert(states_report(stats)->Record_0 =~= all);
    if stats.uninitialized > 0 {
        assert(all[0] == ("uninitialized"@, ReportModel::Count(stats.uninitialized as int)));
    }
    if stats.buffering > 0 {
        assert(all[one.len() as int] == (
            "buffering"@,
            ReportModel::Count(stats.buffering as int),
        ));
    }
    if stats.live > 0 {
        assert(all[two.len() as int] == ("live"@, ReportModel::Count(stats.live as int)));
    }
    assert forall|i: int| 0 <= i < all.len() implies (#[trigger] all[i]).0.len() == if i
        < one.len() {
        13int
    } else if i < two.len() {
        9int
    } else {
        4int
    } by {
        assert(i < two.len() ==> all[i] == two[i]);
        assert(i < one.len() ==> two[i] == one[i]);
    }
    assert(names_once(states_report(stats)));
}

/// The report of everything says each part under its own name, and lists the connections in
/// their order.
#[verifier::rlimit(40)]
pub proof fn all_counts_are_reported_by_name(
    stats: Stats,
    counters: Counters,
    shards: Seq<ShardInfo>,
    uptime_s: u64,
) -> (listed: ReportModel)
    ensures
        ({
            let r = stats_report(stats, counters, shards, uptime_s);
            &&& says(r, "uptime_s"@, ReportModel::Count(uptime_s as int))
            &&& says(r, "book_states"@, states_report(stats))
            &&& says(r, "shards"@, listed)
            &&& listed is List && listed->List_0.len() == shards.len()
            &&& forall|i: int|
                0 <= i < shards.len() ==> #[trigger] listed->List_0[i] == shard_report(shards[i])
            &&& says(r, "bbo_published"@, ReportModel::Count(counters.bbo_published as int))
            &&& says(r, "book_published"@, ReportModel::Count(counters.book_published as int))
            &&& says(r, "snapshots"@, ReportModel::Count(counters.snapshots as int))
            &&& says(r, "total_gaps"@, ReportModel::Count(stats.gaps as int))
            &&& says(r, "total_crossed"@, ReportModel::Count(stats.crossed as int))
            &&& says(r, "total_snapshots_per_book"@, ReportModel::Count(stats.snapshots as int))
            &&& says(r, "max_latency_ms"@, ReportModel::Millis(stats.max_latency_us as int))
            &&& says(r, "dropped"@, dropped_report(stats, counters))
            &&& says(r, "subscribers"@, ReportModel::Count(counters.subscribers as int))
            &&& r->Record_0.len() == 12
        }),
{
    reveal_strlit("uptime_s");
    reveal_strlit("book_states");
    reveal_strlit("shards");
    reveal_strlit("bbo_published");
    reveal_strlit("book_published");
    reveal_strlit("snapshots");
    reveal_strlit("total_gaps");
    reveal_strlit("total_crossed");
    reveal_strlit("total_snapshots_per_book");
    reveal_strlit("max_latency_ms");
    reveal_strlit("dropped");
    reveal_strlit("subscribers");
    let fields = stats_report(stats, counters, shards, uptime_s)->Record_0;
    assert(fields[0] == ("uptime_s"@, ReportModel::Count(uptime_s as int)));
    assert(fields[1] == ("book_states"@, states_report(stats)));
    assert(fields[2].0 == "shards"@);
    assert(fields[3] == ("bbo_published"@, ReportModel::Count(counters.bbo_published as int)));
    assert(fields[4] == ("book_published"@, ReportModel::Count(counters.book_published as int)));
    assert(fields[5] == ("snapshots"@, ReportModel::Count(counters.snapshots as int)));
    assert(fields[6] == ("total_gaps"@, ReportModel::Count(stats.gaps as int)));
    assert(fields[7] == ("total_crossed"@, ReportModel::Count(stats.crossed as int)));
    assert(fields[8] == (
        "total_snapshots_per_book"@,
        ReportModel::Count(stats.snapshots as int),
    ));
    assert(fields[9] == ("max_latency_ms"@, ReportModel::Millis(stats.max_latency_us as int)));
    assert(fields[10] == ("dropped"@, dropped_report(stats, counters)));
    assert(fields[11] == ("subscribers"@, ReportModel::Count(counters.subscribers as int)));
    assert(fields[0].0.len() == 8 && fields[0].0[0] == 'u');
    assert(fields[1].0.len() == 11 && fields[1].0[0] == 'b');
    assert(fields[2].0.len() == 6 && fields[2].0[0] == 's');
    assert(fields[3].0.len() == 13 && fields[3].0[0] == 'b');
    assert(fields[4].0.len() == 14 && fields[4].0[0] == 'b');
    assert(fields[5].0.len() == 9 && fields[5].0[0] == 's');
    assert(fields[6].0.len() == 10 && fields[6].0[0] == 't');
    assert(fields[7].0.len() == 13 && fields[7].0[0] == 't');
    assert(fields[8].0.len() == 24 && fields[8].0[0] == 't');
    assert(fields[9].0.len() == 14 && fields[9].0[0] == 'm');
    assert(fields[10].0.len() == 7 && fields[10].0[0] == 'd');
    assert(fields[11].0.len() == 11 && fields[11].0[0] == 's');
    assert(names_once(stats_report(stats, counters, shards, uptime_s)));
    fields[2].1
}

/// What is counted: of the books each state, and each of their counters by itself; of the
/// connections how many are made, their messages and the longest latency.
pub proof fn each_count_is_of_its_own_kind(r: Stats, books: Seq<BookModel>, shards: Seq<ShardInfo>)
    ensures
        counts(r, books, shards) <==> {
            &&& r.uninitialized == count_in(books, BookState::Uninitialized)
            &&& r.buffering == count_in(books, BookState::Buffering)
            &&& r.live == count_in(books, BookState::Live)
            &&& r.connected == connected_in(shards)
            &&& r.shards == shards.len()
            &&& r.messages == messages_in(shards)
            &&& r.gaps == sum_of(books, |m: BookModel| m.gap_count)
            &&& r.crossed == sum_of(books, |m: BookModel| m.crossed_count)
            &&& r.snapshots == sum_of(books, |m: BookModel| m.snapshot_count)
            &&& r.buffer_dropped == sum_of(books, |m: BookModel| m.buffer_dropped)
            &&& r.max_latency_us == longest_latency(shards)
        },
{
}

/// Milliseconds are rounded to the nearest: they are never off by more than half a one, and
/// from the middle they go to the even one. A duration that grows does not get shorter.
pub proof fn milliseconds_are_the_nearest(us: int, longer: int)
    requires
        us <= longer,
    ensures
        -500 <= 1000 * rounded_ms(us) - us <= 500,
        (1000 * rounded_ms(us) - us == 500 || us - 1000 * rounded_ms(us) == 500) ==> rounded_ms(us)
            % 2 == 0,
        rounded_ms(us) <= rounded_ms(longer),
{
}

/// The line of statistics says each number behind its own word: connections made and all,
/// books live and buffering, messages, events published of either kind, snapshots, the
/// longest latency, gaps, crossings and losses.
pub proof fn the_line_says_each_number_in_its_place(stats: Stats, counters: Counters, dropped: nat)
    ensures
        ({
            let line = line_text(stats, counters, dropped);
            let connections = "shards="@ + digits_of(stats.connected as nat) + "/"@ + digits_of(
                stats.shards as nat,
            );
            let books = " | books: "@ + digits_of(stats.live as nat) + " live, "@ + digits_of(
                stats.buffering as nat,
            ) + " buffering"@;
            let messages = " | msgs="@ + digits_of(stats.messages as nat);
            let events = " | pub: "@ + digits_of(counters.bbo_published as nat) + " bbo, "@
                + digits_of(counters.book_published as nat) + " book"@;
            let snapshots = " | snaps="@ + digits_of(counters.snapshots as nat);
            let latency = " | latency="@ + digits_of(
                rounded_ms(stats.max_latency_us as int) as nat,
            ) + "ms"@;
            let faults = " | gaps="@ + digits_of(stats.gaps as nat) + " crossed="@ + digits_of(
                stats.crossed as nat,
            ) + " dropped="@ + digits_of(dropped);
            line == connections + books + messages + events + snapshots + latency + faults
        }),
{
    reveal_strlit(" buffering | msgs=");
    reveal_strlit(" buffering");
    reveal_strlit(" | msgs=");
    reveal_strlit(" book | snaps=");
    reveal_strlit(" book");
    reveal_strlit(" | snaps=");
    reveal_strlit("ms | gaps=");
    reveal_strlit("ms");
    reveal_strlit(" | gaps=");
    assert(" buffering | msgs="@ =~= " buffering"@ + " | msgs="@);
    assert(" book | snaps="@ =~= " book"@ + " | snaps="@);
    assert("ms | gaps="@ =~= "ms"@ + " | gaps="@);
    let line = line_text(stats, counters, dropped);
    let connections = "shards="@ + digits_of(stats.connected as nat) + "/"@ + digits_of(
        stats.shards as nat,
    );
    let books = " | books: "@ + digits_of(stats.live as nat) + " live, "@ + digits_of(
        stats.buffering as nat,
    ) + " buffering"@;
    let messages = " | msgs="@ + digits_of(stats.messages as nat);
    let events = " | pub: "@ + digits_of(counters.bbo_published as nat) + " bbo, "@ + digits_of(
        counters.book_published as nat,
    ) + " book"@;
    let snapshots = " | snaps="@ + digits_of(counters.snapshots as nat);
    let latency = " | latency="@ + digits_of(rounded_ms(stats.max_latency_us as int) as nat)
        + "ms"@;
    let faults = " | gaps="@ + digits_of(stats.gaps as nat) + " crossed="@ + digits_of(
        stats.crossed as nat,
    ) + " dropped="@ + digits_of(dropped);
    assert(line =~= connections + books + messages + events + snapshots + latency + faults);
}

/// A message was under way from the time that the venue gives, in milliseconds, to the time
/// at which it came, in microseconds. A time that is no whole number tells nothing.
pub proof fn latency_runs_from_the_event_to_its_arrival(now: u64, event_time: JsonNumber)
    ensures
        event_time.unsigned matches Some(sent) ==> (latency_of(now, event_time) matches Some(us)
            && 1000 * sent + us == now),
        event_time.unsigned is None && event_time.signed is Some ==> (latency_of(
            now,
            event_time,
        ) matches Some(us) && 1000 * event_time.signed->0 + us == now),
        event_time.unsigned is None && event_time.signed is None ==> latency_of(
            now,
            event_time,
        ) is None,
{
}

/// The answers to a client: what was asked for is repeated under its own name, the symbols
/// in their order or as nothing where none were listed.
pub proof fn clients_are_answered_by_name(stream: Seq<char>, symbols: Option<Seq<Seq<char>>>) -> (
listed: ReportModel)
    ensures
        says(invalid_answer(), "error"@, ReportModel::Text("invalid JSON"@)),
        says(unsubscribed_answer(), "status"@, ReportModel::Text("unsubscribed"@)),
        ({
            let r = subscribed_answer(stream, symbols);
            &&& says(r, "status"@, ReportModel::Text("subscribed"@))
            &&& says(r, "stream"@, ReportModel::Text(stream))
            &&& says(r, "symbols"@, listed)
            &&& match symbols {
                Some(list) => lists_texts(listed, list),
                None => listed is Null,
            }
            &&& r->Record_0.len() == 3
        }),
        invalid_answer()->Record_0.len() == 1,
        unsubscribed_answer()->Record_0.len() == 1,
{
    reveal_strlit("status");
    reveal_strlit("stream");
    reveal_strlit("symbols");
    assert(invalid_answer()->Record_0[0] == ("error"@, ReportModel::Text("invalid JSON"@)));
    assert(unsubscribed_answer()->Record_0[0] == (
        "status"@,
        ReportModel::Text("unsubscribed"@),
    ));
    let fields = subscribed_answer(stream, symbols)->Record_0;
    assert(fields[0] == ("status"@, ReportModel::Text("subscribed"@)));
    assert(fields[1] == ("stream"@, ReportModel::Text(stream)));
    assert(fields[2].0 == "symbols"@);
    assert(fields[0].0.len() == 6 && fields[0].0[2] == 'a');
    assert(fields[1].0.len() == 6 && fields[1].0[2] == 'r');
    assert(fields[2].0.len() == 7);
    assert(names_once(subscribed_answer(stream, symbols)));
    fields[2].1
}

/// A request for streams lists all of them, in their order.
pub proof fn streams_are_requested_by_name(streams: Seq<Seq<char>>) -> (listed: ReportModel)
    ensures
        says(subscribe_report(streams), "method"@, ReportModel::Text("SUBSCRIBE"@)),
        says(subscribe_report(streams), "params"@, listed),
        lists_texts(listed, streams),
        says(subscribe_report(streams), "id"@, ReportModel::Count(1)),
        subscribe_report(streams)->Record_0.len() == 3,
{
    reveal_strlit("method");
    reveal_strlit("params");
    reveal_strlit("id");
    let fields = subscribe_report(streams)->Record_0;
    assert(fields[0] == ("method"@, ReportModel::Text("SUBSCRIBE"@)));
    assert(fields[1].0 == "params"@);
    assert(fields[2] == ("id"@, ReportModel::Count(1)));
    assert(fields[0].0.len() == 6 && fields[0].0[0] == 'm');
    assert(fields[1].0.len() == 6 && fields[1].0[0] == 'p');
    assert(fields[2].0.len() == 2);
    assert(names_once(subscribe_report(streams)));
    fields[1].1
}

/// Lists in reports are in the order of what they list, item by item.
pub proof fn lists_are_reported_in_order(
    list: Seq<Seq<char>>,
    pairs: Seq<(Seq<char>, Seq<char>)>,
    levels: Seq<(Decimal, Decimal)>,
    items: Seq<Report>,
)
    ensures
        lists_texts(ReportModel::List(text_items(list)), list),
        lists_pairs(ReportModel::List(pair_items(pairs)), pairs),
        level_texts(levels).len() == levels.len(),
        forall|i: int|
            0 <= i < levels.len() ==> #[trigger] level_texts(levels)[i] == (
                decimal_text(
                    levels[i].0.parts().0,
                    levels[i].0.parts().1,
                    levels[i].0.parts().2,
                ),
                decimal_text(
                    levels[i].1.parts().0,
                    levels[i].1.parts().1,
                    levels[i].1.parts().2,
                ),
            ),
        models(items).len() == items.len(),
        forall|i: int| 0 <= i < items.len() ==> #[trigger] models(items)[i] == items[i].model(),
{
}

/// What a report in the program's own hands says: the same, item for item and field for
/// field.
pub proof fn reports_are_what_they_hold(r: Report)
    ensures
        match r {
            Report::Null => r.model() is Null,
            Report::Flag(b) => r.model() == ReportModel::Flag(b),
            Report::Count(n) => r.model() == ReportModel::Count(n as int),
            Report::Text(s) => r.model() == ReportModel::Text(s@),
            Report::Seconds(t) => r.model() == ReportModel::Seconds(t as int),
            Report::Millis(t) => r.model() == ReportModel::Millis(t as int),
            Report::List(items) => {
                &&& r.model() is List
                &&& r.model()->List_0.len() == items@.len()
                &&& forall|i: int|
                    0 <= i < items@.len() ==> #[trigger] r.model()->List_0[i] == items@[i].model()
            },
            Report::Record(fields) => {
                &&& r.model() is Record
                &&& r.model()->Record_0.len() == fields@.len()
                &&& forall|i: int|
                    0 <= i < fields@.len() ==> #[trigger] r.model()->Record_0[i] == (
                        fields@[i].0@,
                        fields@[i].1.model(),
                    )
            },
        },
{
}

/// Events are taken for what their fields hold, each under its own name.
pub proof fn events_are_what_they_hold(bbo: BboEvent, book: BookEvent, outcome: Outcome)
    ensures
        bbo@.symbol == bbo.symbol@,
        bbo@.bid_price == bbo.bid_price@,
        bbo@.bid_qty == bbo.bid_qty@,
        bbo@.ask_price == bbo.ask_price@,
        bbo@.ask_qty == bbo.ask_qty@,
        bbo@.ts == bbo.ts,
        book@.symbol == book.symbol@,
        book@.bids == text_pairs(book.bids@),
        book@.asks == text_pairs(book.asks@),
        book@.last_update_id == book.last_update_id,
        book@.ts == book.ts,
        match outcome {
            Outcome::Nothing => outcome@ is Nothing,
            Outcome::Unreadable => outcome@ is Unreadable,
            Outcome::NeedSnapshot => outcome@ is NeedSnapshot,
            Outcome::Book(event) => outcome@ == OutcomeModel::Book(event@),
            Outcome::Bbo(event) => outcome@ == OutcomeModel::Bbo(event@),
        },
{
}

/// Messages and books are taken for what their fields hold, each under its own name.
pub proof fn messages_are_what_they_hold(message: StreamMessage, diff: DepthEvent, book: Book)
    ensures
        message@.symbol == message.symbol@,
        message@.event_time == message.event_time,
        match message.event {
            StreamEvent::Depth { first_id, last_id, prev_id, bids, asks } => message@.event == (
            StreamEventModel::Depth {
                first_id,
                last_id,
                prev_id,
                bids: text_pairs(bids@),
                asks: text_pairs(asks@),
            }),
            StreamEvent::BrokenDepth => message@.event is BrokenDepth,
            StreamEvent::Ticker { bid_price, bid_qty, ask_price, ask_qty } => message@.event == (
            StreamEventModel::Ticker {
                bid_price: bid_price@,
                bid_qty: bid_qty@,
                ask_price: ask_price@,
                ask_qty: ask_qty@,
            }),
            StreamEvent::Other => message@.event is Other,
        },
        diff@.first_id == diff.first_id,
        diff@.last_id == diff.last_id,
        diff@.prev_id == diff.prev_id,
        diff@.bids == diff.bids@,
        diff@.asks == diff.asks@,
        book@.symbol == book.symbol@,
        book@.bids == book.bids@,
        book@.asks == book.asks@,
        book@.last_update_id == book.last_update_id,
        book@.state == book.state,
        book@.last_update_time == book.last_update_time,
        book@.snapshot_count == book.snapshot_count,
        book@.gap_count == book.gap_count,
        book@.crossed_count == book.crossed_count,
        book@.buffer_dropped == book.buffer_dropped,
        book@.unverified_bridge_count == book.unverified_bridge_count,
{
}

/// What is to be done about a client's text is taken for what it holds.
pub proof fn client_actions_are_what_they_hold(action: ClientAction)
    ensures
        match action {
            ClientAction::Ignore => action@ is Ignore,
            ClientAction::Answer(answer) => action@ == ClientModel::Answer(answer.model()),
            ClientAction::Subscribe { stream, symbols, answer } => {
                &&& action@ is Subscribe
                &&& action@->stream == stream@
                &&& action@->answer == answer.model()
                &&& match symbols {
                    Some(list) => action@->symbols == Some(texts(list@)),
                    None => action@->symbols is None,
                }
            },
            ClientAction::Unsubscribe(answer) => action@ == ClientModel::Unsubscribe(
                answer.model(),
            ),
        },
{
}

} // verus!
