//! What is picked from lists, found in them and counted in them, by position.
use vstd::prelude::*;

use crate::book::BookState;
use crate::books::{stale_symbols, swept};
use crate::feed_handler::ShardInfo;
use crate::json::{member, JsonModel};
use crate::messages::{levels_in, listed_levels};
use crate::model::BookModel;
use crate::publisher::{
    recipients_of, texts_among, without, StreamFilter, SubscriberModel,
};
use crate::stats::{connected_in, count_in, messages_in, sum_of};
use crate::symbols::{tradable_symbols, volume_in, SymbolInfo};

verus! {

/// Whether positions below `n` are listed in their order, each once.
pub open spec fn rising_below(at: Seq<int>, n: int) -> bool {
    &&& forall|k: int| 0 <= k < at.len() ==> 0 <= #[trigger] at[k] < n
    &&& forall|k: int, l: int| 0 <= k < l < at.len() ==> #[trigger] at[k] < #[trigger] at[l]
}

/// Positions with one more, or without it.
spec fn picked_on(at: Seq<int>, n: int, keep: bool) -> Seq<int> {
    if keep {
        at.push(n)
    } else {
        at
    }
}

/// One more position is listed exactly where it is kept.
proof fn lemma_picked_on(at: Seq<int>, n: int, keep: bool)
    requires
        rising_below(at, n),
        0 <= n,
    ensures
        rising_below(picked_on(at, n, keep), n + 1),
        forall|i: int|
            i != n ==> (#[trigger] picked_on(at, n, keep).contains(i) <==> at.contains(i)),
        picked_on(at, n, keep).contains(n) <==> keep,
{
    let more = picked_on(at, n, keep);
    assert forall|i: int| i != n implies (#[trigger] more.contains(i) <==> at.contains(i)) by {
        if at.contains(i) {
            let k = choose|k: int| 0 <= k < at.len() && at[k] == i;
            assert(more[k] == i);
        }
        if more.contains(i) {
            let k = choose|k: int| 0 <= k < more.len() && more[k] == i;
            assert(at[k] == i);
        }
    }
    if keep {
        assert(more[at.len() as int] == n);
    } else if more.contains(n) {
        let k = choose|k: int| 0 <= k < at.len() && at[k] == n;
        assert(at[k] < n);
    }
}

/// What a sweep does to each book, whatever the book has counted: a live one whose last diff
/// is further back than the threshold is emptied, waits for a snapshot and is taken for
/// heard of now; any other stays as it is.
pub proof fn sweeps_empty_silent_live_books(books: Seq<BookModel>, now: u64, threshold: u64, i: int)
    requires
        0 <= i < books.len(),
    ensures
        ({
            let after = books.map_values(|m: BookModel| swept(m, now, threshold));
            let m = books[i];
            &&& after.len() == books.len()
            &&& m.state == BookState::Live && now - m.last_update_time > threshold ==> {
                &&& after[i].state == BookState::Buffering
                &&& after[i] == (BookModel {
                    bids: Map::empty(),
                    asks: Map::empty(),
                    last_update_id: 0,
                    state: BookState::Buffering,
                    last_update_time: now,
                    buffer: Seq::empty(),
                    need_first_event: false,
                    ticker_bid: 0,
                    ticker_ask: 0,
                    bbo_mismatch_count: 0,
                    ..m
                })
            }
            &&& m.state != BookState::Live || now - m.last_update_time <= threshold ==> after[i]
                == m
        }),
{
}

/// A sweep names the symbols of exactly the live books whose last diff is further back than
/// the threshold, each once, in the order of the books. `at` are their positions.
pub proof fn sweeps_name_silent_live_books(books: Seq<BookModel>, now: u64, threshold: u64) -> (at:
    Seq<int>)
    ensures
        rising_below(at, books.len() as int),
        forall|i: int|
            0 <= i < books.len() ==> (#[trigger] at.contains(i) <==> books[i].state
                == BookState::Live && now - books[i].last_update_time > threshold),
        stale_symbols(books, now, threshold).len() == at.len(),
        forall|k: int|
            0 <= k < at.len() ==> #[trigger] stale_symbols(books, now, threshold)[k]
                == books[at[k]].symbol,
    decreases books.len(),
{
    if books.len() == 0 {
        Seq::empty()
    } else {
        let n = books.len() - 1;
        let before = sweeps_name_silent_live_books(books.drop_last(), now, threshold);
        let keep = books[n].state == BookState::Live && now - books[n].last_update_time
            > threshold;
        lemma_picked_on(before, n, keep);
        let at = picked_on(before, n, keep);
        assert forall|i: int| 0 <= i < books.len() implies (#[trigger] at.contains(i)
            <==> books[i].state == BookState::Live && now - books[i].last_update_time
            > threshold) by {
            if i < n {
                assert(before.contains(i) <==> at.contains(i));
                assert(books.drop_last()[i] == books[i]);
            }
        }
        at
    }
}

/// Whether a subscriber is to get an event: they want its stream, or all, and its symbol is
/// at some position of their list, or they have none.
pub open spec fn is_listed(
    subscriber: SubscriberModel,
    stream: StreamFilter,
    symbol: Seq<char>,
) -> bool {
    &&& subscriber.stream == stream || subscriber.stream == StreamFilter::All
    &&& match subscriber.symbols {
        Some(symbols) => exists|i: int| 0 <= i < symbols.len() && #[trigger] symbols[i] == symbol,
        None => true,
    }
}

/// An event goes to exactly those who want its stream and have its symbol anywhere in their
/// list, each once, in the order in which they came. `at` are their positions.
pub proof fn events_go_to_those_who_list_the_symbol(
    subscribers: Seq<SubscriberModel>,
    stream: StreamFilter,
    symbol: Seq<char>,
) -> (at: Seq<int>)
    ensures
        rising_below(at, subscribers.len() as int),
        forall|i: int|
            0 <= i < subscribers.len() ==> (#[trigger] at.contains(i) <==> is_listed(
                subscribers[i],
                stream,
                symbol,
            )),
        recipients_of(subscribers, stream, symbol).len() == at.len(),
        forall|k: int|
            0 <= k < at.len() ==> #[trigger] recipients_of(subscribers, stream, symbol)[k]
                == subscribers[at[k]].id,
    decreases subscribers.len(),
{
    if subscribers.len() == 0 {
        Seq::empty()
    } else {
        let n = subscribers.len() - 1;
        let before = events_go_to_those_who_list_the_symbol(
            subscribers.drop_last(),
            stream,
            symbol,
        );
        let keep = is_listed(subscribers[n], stream, symbol);
        lemma_picked_on(before, n, keep);
        let at = picked_on(before, n, keep);
        if let Some(symbols) = subscribers[n].symbols {
            if exists|i: int| 0 <= i < symbols.len() && #[trigger] symbols[i] == symbol {
                assert(symbols.contains(symbol));
            }
        }
        assert forall|i: int| 0 <= i < subscribers.len() implies (#[trigger] at.contains(i)
            <==> is_listed(subscribers[i], stream, symbol)) by {
            if i < n {
                assert(before.contains(i) <==> at.contains(i));
                assert(subscribers.drop_last()[i] == subscribers[i]);
            }
        }
        at
    }
}

/// A subscriber with a list of symbols gets the events of the symbol at every position of
/// their list, and no event of a symbol at no position. One without a list gets those of
/// every symbol. All of it holds of their own stream, and of each where they want all.
pub proof fn every_listed_symbol_is_delivered(
    subscribers: Seq<SubscriberModel>,
    k: int,
    stream: StreamFilter,
    symbol: Seq<char>,
)
    requires
        0 <= k < subscribers.len(),
        forall|i: int, j: int|
            0 <= i < j < subscribers.len() ==> (#[trigger] subscribers[i]).id != (
            #[trigger] subscribers[j]).id,
    ensures
        ({
            let s = subscribers[k];
            let got = recipients_of(subscribers, stream, symbol).contains(s.id);
            let right = s.stream == stream || s.stream == StreamFilter::All;
            &&& !right ==> !got
            &&& right && s.symbols is None ==> got
            &&& s.symbols matches Some(symbols) ==> {
                &&& right ==> forall|i: int|
                    0 <= i < symbols.len() ==> #[trigger] recipients_of(
                        subscribers,
                        stream,
                        symbols[i],
                    ).contains(s.id)
                &&& (forall|i: int| 0 <= i < symbols.len() ==> #[trigger] symbols[i] != symbol)
                    ==> !got
            }
        }),
{
    let s = subscribers[k];
    lemma_gets(subscribers, k, stream, symbol);
    if let Some(symbols) = s.symbols {
        if s.stream == stream || s.stream == StreamFilter::All {
            assert forall|i: int| 0 <= i < symbols.len() implies #[trigger] recipients_of(
                subscribers,
                stream,
                symbols[i],
            ).contains(s.id) by {
                lemma_gets(subscribers, k, stream, symbols[i]);
            }
        }
    }
}

/// Who is listed is among the recipients, and nobody else.
proof fn lemma_gets(
    subscribers: Seq<SubscriberModel>,
    k: int,
    stream: StreamFilter,
    symbol: Seq<char>,
)
    requires
        0 <= k < subscribers.len(),
        forall|i: int, j: int|
            0 <= i < j < subscribers.len() ==> (#[trigger] subscribers[i]).id != (
            #[trigger] subscribers[j]).id,
    ensures
        recipients_of(subscribers, stream, symbol).contains(subscribers[k].id) <==> is_listed(
            subscribers[k],
            stream,
            symbol,
        ),
{
    let at = events_go_to_those_who_list_the_symbol(subscribers, stream, symbol);
    let all = recipients_of(subscribers, stream, symbol);
    if is_listed(subscribers[k], stream, symbol) {
        assert(at.contains(k));
        let p = choose|p: int| 0 <= p < at.len() && at[p] == k;
        assert(all[p] == subscribers[k].id);
    }
    if all.contains(subscribers[k].id) {
        let p = choose|p: int| 0 <= p < all.len() && all[p] == subscribers[k].id;
        assert(subscribers[at[p]].id == subscribers[k].id);
        assert(at[p] == k);
        assert(at.contains(k));
    }
}

/// The end of a subscription takes away those of that number, and nobody else; the others
/// keep their order. `at` are their positions.
pub proof fn others_stay_subscribed(subscribers: Seq<SubscriberModel>, id: u64) -> (at: Seq<int>)
    ensures
        rising_below(at, subscribers.len() as int),
        forall|i: int|
            0 <= i < subscribers.len() ==> (#[trigger] at.contains(i) <==> subscribers[i].id != id),
        without(subscribers, id).len() == at.len(),
        forall|k: int|
            0 <= k < at.len() ==> #[trigger] without(subscribers, id)[k] == subscribers[at[k]],
    decreases subscribers.len(),
{
    if subscribers.len() == 0 {
        Seq::empty()
    } else {
        let n = subscribers.len() - 1;
        let before = others_stay_subscribed(subscribers.drop_last(), id);
        lemma_picked_on(before, n, subscribers[n].id != id);
        let at = picked_on(before, n, subscribers[n].id != id);
        assert forall|i: int| 0 <= i < subscribers.len() implies (#[trigger] at.contains(i)
            <==> subscribers[i].id != id) by {
            if i < n {
                assert(before.contains(i) <==> at.contains(i));
                assert(subscribers.drop_last()[i] == subscribers[i]);
            }
        }
        at
    }
}

/// Of a list of values the texts are taken, all of them and in order; `at` are their
/// positions.
pub proof fn all_texts_are_taken(items: Seq<JsonModel>) -> (at: Seq<int>)
    ensures
        rising_below(at, items.len() as int),
        forall|i: int|
            0 <= i < items.len() ==> (#[trigger] at.contains(i) <==> items[i] is Text),
        texts_among(items).len() == at.len(),
        forall|k: int|
            0 <= k < at.len() ==> items[at[k]] == JsonModel::Text(#[trigger] texts_among(items)[k]),
    decreases items.len(),
{
    if items.len() == 0 {
        Seq::empty()
    } else {
        let n = items.len() - 1;
        let before = all_texts_are_taken(items.drop_last());
        lemma_picked_on(before, n, items[n] is Text);
        let at = picked_on(before, n, items[n] is Text);
        assert forall|i: int| 0 <= i < items.len() implies (#[trigger] at.contains(i)
            <==> items[i] is Text) by {
            if i < n {
                assert(before.contains(i) <==> at.contains(i));
                assert(items.drop_last()[i] == items[i]);
            }
        }
        assert forall|k: int| 0 <= k < at.len() implies items[at[k]] == JsonModel::Text(
            #[trigger] texts_among(items)[k],
        ) by {
            if k < before.len() {
                assert(items.drop_last()[before[k]] == items[before[k]]);
                assert(texts_among(items.drop_last())[k] == texts_among(items)[k]);
            }
        }
        at
    }
}

/// Whether a value is a list that starts with two texts: a price and a quantity.
pub open spec fn is_level(value: JsonModel) -> bool {
    value matches JsonModel::Array(items) && items.len() >= 2 && items[0] is Text
        && items[1] is Text
}

/// Whether a value is a list that ends before its price or its quantity: it is empty, or a
/// text is all there is.
pub open spec fn is_cut_off(value: JsonModel) -> bool {
    value matches JsonModel::Array(items) && (items.len() == 0 || (items.len() == 1
        && items[0] is Text))
}

/// Of a list of entries the levels are taken, all of them and in order: those that start
/// with two texts, the price and then the quantity. `at` are their positions.
pub proof fn all_levels_are_taken(entries: Seq<JsonModel>) -> (at: Seq<int>)
    ensures
        rising_below(at, entries.len() as int),
        forall|i: int|
            0 <= i < entries.len() ==> (#[trigger] at.contains(i) <==> is_level(entries[i])),
        levels_in(entries).len() == at.len(),
        forall|k: int|
            0 <= k < at.len() ==> {
                let (price, qty) = #[trigger] levels_in(entries)[k];
                &&& entries[at[k]]->Array_0[0] == JsonModel::Text(price)
                &&& entries[at[k]]->Array_0[1] == JsonModel::Text(qty)
            },
    decreases entries.len(),
{
    if entries.len() == 0 {
        Seq::empty()
    } else {
        let n = entries.len() - 1;
        let before = all_levels_are_taken(entries.drop_last());
        lemma_picked_on(before, n, is_level(entries[n]));
        let at = picked_on(before, n, is_level(entries[n]));
        assert forall|i: int| 0 <= i < entries.len() implies (#[trigger] at.contains(i)
            <==> is_level(entries[i])) by {
            if i < n {
                assert(before.contains(i) <==> at.contains(i));
                assert(entries.drop_last()[i] == entries[i]);
            }
        }
        assert forall|k: int| 0 <= k < at.len() implies {
            let (price, qty) = #[trigger] levels_in(entries)[k];
            &&& entries[at[k]]->Array_0[0] == JsonModel::Text(price)
            &&& entries[at[k]]->Array_0[1] == JsonModel::Text(qty)
        } by {
            if k < before.len() {
                assert(entries.drop_last()[before[k]] == entries[before[k]]);
                assert(levels_in(entries.drop_last())[k] == levels_in(entries)[k]);
            }
        }
        at
    }
}

/// A member that is no list has no levels. A list has the levels among its entries, unless
/// one of the entries is cut off: then nothing is known of it.
pub proof fn cut_off_levels_spoil_a_list(value: Option<JsonModel>)
    ensures
        match value {
            Some(JsonModel::Array(entries)) => {
                &&& listed_levels(value) is None <==> exists|i: int|
                    0 <= i < entries.len() && is_cut_off(#[trigger] entries[i])
                &&& listed_levels(value) matches Some(levels) ==> levels == levels_in(entries)
            },
            _ => listed_levels(value) matches Some(levels) && levels.len() == 0,
        },
{
    if let Some(JsonModel::Array(entries)) = value {
        if exists|i: int| 0 <= i < entries.len() && is_cut_off(#[trigger] entries[i]) {
            let i = choose|i: int| 0 <= i < entries.len() && is_cut_off(#[trigger] entries[i]);
            assert(crate::messages::entry_of(entries[i]) is Broken);
        }
        if exists|i: int|
            0 <= i < entries.len() && #[trigger] crate::messages::entry_of(
                entries[i],
            ) is Broken {
            let i = choose|i: int|
                0 <= i < entries.len() && #[trigger] crate::messages::entry_of(
                    entries[i],
                ) is Broken;
            assert(is_cut_off(entries[i]));
        }
    }
}

/// Tradable are the perpetual futures with the status of trading, all of them and in the
/// venue's order. `at` are their positions.
pub proof fn perpetuals_in_trading_are_tradable(infos: Seq<SymbolInfo>) -> (at: Seq<int>)
    ensures
        rising_below(at, infos.len() as int),
        forall|i: int|
            0 <= i < infos.len() ==> (#[trigger] at.contains(i) <==> infos[i].contract_type@
                == "PERPETUAL"@ && infos[i].status@ == "TRADING"@),
        tradable_symbols(infos).len() == at.len(),
        forall|k: int|
            0 <= k < at.len() ==> #[trigger] tradable_symbols(infos)[k] == infos[at[k]].symbol@,
    decreases infos.len(),
{
    if infos.len() == 0 {
        Seq::empty()
    } else {
        let n = infos.len() - 1;
        let before = perpetuals_in_trading_are_tradable(infos.drop_last());
        let keep = infos[n].contract_type@ == "PERPETUAL"@ && infos[n].status@ == "TRADING"@;
        lemma_picked_on(before, n, keep);
        let at = picked_on(before, n, keep);
        assert forall|i: int| 0 <= i < infos.len() implies (#[trigger] at.contains(i)
            <==> infos[i].contract_type@ == "PERPETUAL"@ && infos[i].status@ == "TRADING"@) by {
            if i < n {
                assert(before.contains(i) <==> at.contains(i));
                assert(infos.drop_last()[i] == infos[i]);
            }
        }
        at
    }
}

/// An object has a member of a name where one of its fields has that name, and the first
/// such field is the member. Nothing else has members.
pub proof fn the_first_field_of_a_name_is_the_member(value: JsonModel, name: Seq<char>)
    ensures
        value !is Object ==> member(value, name) is None,
        value matches JsonModel::Object(fields) ==> {
            &&& forall|i: int|
                0 <= i < fields.len() && (#[trigger] fields[i]).0 == name && (forall|j: int|
                    0 <= j < i ==> (#[trigger] fields[j]).0 != name) ==> member(value, name)
                    == Some(fields[i].1)
            &&& (forall|i: int| 0 <= i < fields.len() ==> (#[trigger] fields[i]).0 != name)
                ==> member(value, name) is None
        },
{
    if let JsonModel::Object(fields) = value {
        assert forall|i: int|
            0 <= i < fields.len() && (#[trigger] fields[i]).0 == name && (forall|j: int|
                0 <= j < i ==> (#[trigger] fields[j]).0 != name) implies member(value, name)
            == Some(fields[i].1) by {
            lemma_named(fields, name, i);
        }
        if forall|i: int| 0 <= i < fields.len() ==> (#[trigger] fields[i]).0 != name {
            lemma_not_named(fields, name);
        }
    }
}

proof fn lemma_named(fields: Seq<(Seq<char>, JsonModel)>, name: Seq<char>, i: int)
    requires
        0 <= i < fields.len(),
        fields[i].0 == name,
        forall|j: int| 0 <= j < i ==> (#[trigger] fields[j]).0 != name,
    ensures
        crate::json::named(fields, name) == Some(fields[i].1),
    decreases fields.len(),
{
    if i > 0 {
        assert(fields[0].0 != name);
        assert forall|j: int| 0 <= j < i - 1 implies (#[trigger] fields.drop_first()[j]).0
            != name by {
            assert(fields[j + 1].0 != name);
        }
        lemma_named(fields.drop_first(), name, i - 1);
    }
}

proof fn lemma_not_named(fields: Seq<(Seq<char>, JsonModel)>, name: Seq<char>)
    requires
        forall|i: int| 0 <= i < fields.len() ==> (#[trigger] fields[i]).0 != name,
    ensures
        crate::json::named(fields, name) is None,
    decreases fields.len(),
{
    if fields.len() > 0 {
        assert(fields[0].0 != name);
        assert forall|j: int| 0 <= j < fields.drop_first().len() implies (
        #[trigger] fields.drop_first()[j]).0 != name by {
            assert(fields[j + 1].0 != name);
        }
        lemma_not_named(fields.drop_first(), name);
    }
}

/// The volume of a symbol is what its first entry in the venue's list is worth, and 0 where
/// it has none or where that one is no number.
pub proof fn the_first_volume_of_a_symbol_counts(
    volumes: Seq<(Seq<char>, Seq<char>)>,
    symbol: Seq<char>,
)
    ensures
        forall|i: int|
            0 <= i < volumes.len() && (#[trigger] volumes[i]).0 == symbol && (forall|j: int|
                0 <= j < i ==> (#[trigger] volumes[j]).0 != symbol) ==> volume_in(volumes, symbol)
                == crate::reading_laws::worth(volumes[i].1),
        (forall|i: int| 0 <= i < volumes.len() ==> (#[trigger] volumes[i]).0 != symbol)
            ==> volume_in(volumes, symbol) == 0,
    decreases volumes.len(),
{
    if volumes.len() > 0 {
        let rest = volumes.drop_first();
        the_first_volume_of_a_symbol_counts(rest, symbol);
        assert forall|i: int|
            0 <= i < volumes.len() && (#[trigger] volumes[i]).0 == symbol && (forall|j: int|
                0 <= j < i ==> (#[trigger] volumes[j]).0 != symbol) implies volume_in(
            volumes,
            symbol,
        ) == crate::reading_laws::worth(volumes[i].1) by {
            if i == 0 {
                crate::reading_laws::unreadable_numbers_are_worth_nothing(volumes[0].1);
            } else {
                assert(volumes[0].0 != symbol);
                assert(rest[i - 1] == volumes[i]);
                assert forall|j: int| 0 <= j < i - 1 implies (#[trigger] rest[j]).0 != symbol by {
                    assert(volumes[j + 1].0 != symbol);
                }
            }
        }
        if forall|i: int| 0 <= i < volumes.len() ==> (#[trigger] volumes[i]).0 != symbol {
            assert(volumes[0].0 != symbol);
            assert forall|j: int| 0 <= j < rest.len() implies (#[trigger] rest[j]).0 != symbol by {
                assert(volumes[j + 1].0 != symbol);
            }
        }
    }
}

/// Each book is counted once in the state that it is in, and adds what it counted to the
/// sum; without books there is nothing.
pub proof fn each_book_counts_once(
    books: Seq<BookModel>,
    m: BookModel,
    state: BookState,
    counter: spec_fn(BookModel) -> int,
)
    ensures
        count_in(Seq::empty(), state) == 0,
        sum_of(Seq::empty(), counter) == 0,
        m.state == state ==> count_in(books.push(m), state) == count_in(books, state) + 1,
        m.state != state ==> count_in(books.push(m), state) == count_in(books, state),
        sum_of(books.push(m), counter) - sum_of(books, counter) == counter(m),
{
    assert(books.push(m).drop_last() =~= books);
}

/// Each connection is counted once where it is made, and adds its messages to the sum;
/// without connections there is nothing.
pub proof fn each_connection_counts_once(shards: Seq<ShardInfo>, shard: ShardInfo)
    ensures
        connected_in(Seq::empty()) == 0,
        messages_in(Seq::empty()) == 0,
        shard.connected ==> connected_in(shards.push(shard)) == connected_in(shards) + 1,
        !shard.connected ==> connected_in(shards.push(shard)) == connected_in(shards),
        messages_in(shards.push(shard)) - messages_in(shards) == shard.msg_count,
{
    assert(shards.push(shard).drop_last() =~= shards);
}

} // verus!
