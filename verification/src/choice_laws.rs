//! What clients, symbols and pauses are chosen to be.
use vstd::prelude::*;

use crate::book::{action_name, state_name, Action, BookState};
use crate::decimal::Decimal;
use crate::feed_handler::idle_shard;
use crate::json::{member, JsonModel};
use crate::levels::{by_price, is_highest, is_lowest, priced_at, with_level};
use crate::pacing::{answer_of, doubled, number_in, wait_after, Answer};
use crate::publisher::{
    client_step, filter_named, subscribed_answer, text_list, texts_among, ClientModel, StreamFilter,
};
use crate::symbols::{
    at_most, followed, leaders, liquidity_order, listings, lowercased, most_liquid, streams_of,
    text_lists, tradable_symbols, volume_in, with_volumes, Listing, SymbolInfo,
};
use crate::text::{sorted_texts, text_before, text_order, texts};

verus! {

/// A name stands for best prices or for books where it is theirs, and for all events where
/// it is any other.
pub proof fn streams_are_named(name: Seq<char>)
    ensures
        name == "bbo"@ ==> filter_named(name) == StreamFilter::Bbo,
        name == "book"@ ==> filter_named(name) == StreamFilter::Book,
        name != "bbo"@ && name != "book"@ ==> filter_named(name) == StreamFilter::All,
{
    reveal_strlit("bbo");
    reveal_strlit("book");
    assert("bbo"@.len() != "book"@.len());
}

/// What a client without a subscription gets: an answer to what is no JSON, a subscription
/// where the action is to subscribe, and nothing otherwise. The subscription is to the named
/// stream, or to all where no text names one, and to the symbols in the list of symbols, or
/// to all where there is no list.
pub proof fn clients_get_what_they_ask_for(value: Option<JsonModel>)
    ensures
        value is None ==> client_step(false, value) is Answer,
        value matches Some(v) ==> {
            let asked = member(v, "action"@) == Some(JsonModel::Text("subscribe"@));
            &&& !asked ==> client_step(false, value) is Ignore
            &&& asked ==> {
                let action = client_step(false, value);
                &&& action is Subscribe
                &&& match member(v, "stream"@) {
                    Some(JsonModel::Text(name)) => action->stream == name,
                    _ => action->stream == "all"@,
                }
                &&& match member(v, "symbols"@) {
                    Some(JsonModel::Array(items)) => action->symbols == Some(texts_among(items)),
                    _ => action->symbols is None,
                }
                &&& action->answer == subscribed_answer(action->stream, action->symbols)
            }
        },
{
}

/// What a client with a subscription gets: its end where the action is to unsubscribe, and
/// nothing otherwise.
pub proof fn clients_leave_when_they_ask_to(value: Option<JsonModel>)
    ensures
        client_step(true, value) is Unsubscribe <==> (value is Some && member(
            value->0,
            "action"@,
        ) == Some(JsonModel::Text("unsubscribe"@))),
        client_step(true, value) !is Unsubscribe ==> client_step(true, value) is Ignore,
        client_step(true, value) matches ClientModel::Unsubscribe(answer) ==> answer
            == crate::publisher::unsubscribed_answer(),
        value is None ==> client_step(false, value) == ClientModel::Answer(
            crate::publisher::invalid_answer(),
        ),
{
}

/// Symbols that were asked for are followed as they are. Otherwise the tradable ones are:
/// all of them, or as many as the limit lets through; in the order of their names.
pub proof fn requested_symbols_come_first(
    infos: Seq<SymbolInfo>,
    volumes: Seq<(Seq<char>, Seq<char>)>,
    requested: Seq<Seq<char>>,
    max: Option<usize>,
)
    ensures
        requested.len() > 0 ==> followed(infos, volumes, requested, max) == requested,
        requested.len() == 0 && max is None ==> followed(infos, volumes, requested, max)
            == sorted_texts(tradable_symbols(infos)),
        requested.len() == 0 ==> (max matches Some(n) ==> followed(infos, volumes, requested, max)
            == most_liquid(tradable_symbols(infos), volumes, n as nat)),
{
}

/// Sorted texts are in the order of texts, each at most as often as it was there.
pub proof fn sorted_texts_are_in_order(list: Seq<Seq<char>>)
    ensures
        sorted_texts(list).to_multiset() == list.to_multiset(),
        forall|i: int, j: int|
            0 <= i < j < sorted_texts(list).len() ==> #[trigger] sorted_texts(list)[i]
                == #[trigger] sorted_texts(list)[j] || text_before(
                sorted_texts(list)[i],
                sorted_texts(list)[j],
            ),
{
    crate::feed_laws::sorting_keeps_texts(list);
    assert forall|i: int, j: int| 0 <= i < j < sorted_texts(list).len() implies #[trigger]
        sorted_texts(list)[i] == #[trigger] sorted_texts(list)[j] || text_before(
        sorted_texts(list)[i],
        sorted_texts(list)[j],
    ) by {
        assert(text_order()(sorted_texts(list)[i], sorted_texts(list)[j]));
    }
}

/// A limit takes symbols from the front of a ranking: by volume, the largest first, and of
/// equal volumes by name. What it takes is in the order of names. The ranking is given.
pub proof fn a_limit_follows_the_ranking(
    symbols: Seq<Seq<char>>,
    volumes: Seq<(Seq<char>, Seq<char>)>,
    n: nat,
) -> (ranking: Seq<Seq<char>>)
    ensures
        ranking.to_multiset() == symbols.to_multiset(),
        ranking.len() == symbols.len(),
        forall|i: int, j: int|
            0 <= i < j < ranking.len() ==> {
                let (a, b) = (#[trigger] ranking[i], #[trigger] ranking[j]);
                ||| volume_in(volumes, a) > volume_in(volumes, b)
                ||| volume_in(volumes, a) == volume_in(volumes, b) && (a == b || text_before(a, b))
            },
        n < ranking.len() ==> most_liquid(symbols, volumes, n).to_multiset() == ranking.take(
            n as int,
        ).to_multiset(),
        n >= ranking.len() ==> most_liquid(symbols, volumes, n).to_multiset()
            == ranking.to_multiset(),
        forall|i: int, j: int|
            0 <= i < j < most_liquid(symbols, volumes, n).len() ==> {
                let (a, b) = (
                    #[trigger] most_liquid(symbols, volumes, n)[i],
                    #[trigger] most_liquid(symbols, volumes, n)[j],
                );
                a == b || text_before(a, b)
            },
{
    let listed = with_volumes(symbols, volumes);
    let order = listed.sort_by(liquidity_order());
    crate::feed_laws::lemma_ranking(symbols, volumes);
    let name = |item: (int, Seq<char>)| item.1;
    let ranking = order.map_values(name);
    crate::feed_laws::lemma_mapped_multisets(order, listed, name);
    assert(listed.map_values(name) =~= symbols);
    assert forall|i: int, j: int| 0 <= i < j < ranking.len() implies {
        let (a, b) = (#[trigger] ranking[i], #[trigger] ranking[j]);
        ||| volume_in(volumes, a) > volume_in(volumes, b)
        ||| volume_in(volumes, a) == volume_in(volumes, b) && (a == b || text_before(a, b))
    } by {
        assert(liquidity_order()(order[i], order[j]));
        assert(order[i].0 == volume_in(volumes, order[i].1));
        assert(order[j].0 == volume_in(volumes, order[j].1));
    }
    let chosen = at_most(order, n).map_values(name);
    assert(n < ranking.len() ==> chosen =~= ranking.take(n as int));
    assert(n >= ranking.len() ==> chosen =~= ranking);
    sorted_texts_are_in_order(chosen);
    assert(most_liquid(symbols, volumes, n) == sorted_texts(chosen));
    ranking
}

/// Of symbols with volumes, whatever they are, the first ones are taken from the front of a
/// ranking: the largest volume first, and of equal volumes by name. What is taken is in the
/// order of names. The ranking is given.
pub proof fn leaders_come_from_the_front(list: Seq<(int, Seq<char>)>, n: nat) -> (ranking: Seq<
    (int, Seq<char>),
>)
    ensures
        ranking.to_multiset() == list.to_multiset(),
        forall|i: int, j: int|
            0 <= i < j < ranking.len() ==> {
                let (a, b) = (#[trigger] ranking[i], #[trigger] ranking[j]);
                a.0 > b.0 || (a.0 == b.0 && (a.1 == b.1 || text_before(a.1, b.1)))
            },
        leaders(list, n).to_multiset() == Seq::new(
            if n < ranking.len() {
                n
            } else {
                ranking.len()
            },
            |i: int| ranking[i].1,
        ).to_multiset(),
        forall|i: int, j: int|
            0 <= i < j < leaders(list, n).len() ==> #[trigger] leaders(list, n)[i]
                == #[trigger] leaders(list, n)[j] || text_before(
                leaders(list, n)[i],
                leaders(list, n)[j],
            ),
{
    let ranking = list.sort_by(liquidity_order());
    crate::symbols::lemma_liquidity_order();
    list.lemma_sort_by_ensures(liquidity_order());
    assert forall|i: int, j: int| 0 <= i < j < ranking.len() implies {
        let (a, b) = (#[trigger] ranking[i], #[trigger] ranking[j]);
        a.0 > b.0 || (a.0 == b.0 && (a.1 == b.1 || text_before(a.1, b.1)))
    } by {
        assert(liquidity_order()(ranking[i], ranking[j]));
    }
    let count = if n < ranking.len() {
        n
    } else {
        ranking.len()
    };
    let chosen = at_most(ranking, n).map_values(|item: (int, Seq<char>)| item.1);
    assert(chosen =~= Seq::new(count, |i: int| ranking[i].1));
    sorted_texts_are_in_order(chosen);
    ranking
}

/// The streams of a symbol: its name in lower case, and behind it what it is a stream of;
/// the diffs first.
pub proof fn streams_are_named_after_their_symbols(symbols: Seq<Seq<char>>, i: int)
    requires
        0 <= i < symbols.len(),
    ensures
        streams_of(symbols).len() == 2 * symbols.len(),
        streams_of(symbols)[2 * i] == lowercased(symbols[i]) + "@depth@100ms"@,
        streams_of(symbols)[2 * i + 1] == lowercased(symbols[i]) + "@bookTicker"@,
{
    crate::feed_laws::every_symbol_has_two_streams(symbols, i);
}

/// Symbols with volumes, and lists of strings, are taken in their order.
pub proof fn listings_are_in_order(
    symbols: Seq<Seq<char>>,
    volumes: Seq<(Seq<char>, Seq<char>)>,
    list: Seq<Listing>,
    lists: Seq<Vec<String>>,
    names: Option<Vec<String>>,
)
    ensures
        with_volumes(symbols, volumes).len() == symbols.len(),
        forall|i: int|
            0 <= i < symbols.len() ==> #[trigger] with_volumes(symbols, volumes)[i] == (
                volume_in(volumes, symbols[i]),
                symbols[i],
            ),
        listings(list).len() == list.len(),
        forall|i: int|
            0 <= i < list.len() ==> #[trigger] listings(list)[i] == (
                list[i].volume.units(),
                list[i].symbol@,
            ),
        text_lists(lists).len() == lists.len(),
        forall|i: int| 0 <= i < lists.len() ==> #[trigger] text_lists(lists)[i] == texts(lists[i]@),
        match names {
            Some(names) => text_list(Some(names)) == Some(texts(names@)),
            None => text_list(names) is None,
        },
{
}

/// An answer with another status than that of too many requests has a body. One with that
/// status says how many seconds to wait, or else ten.
pub proof fn too_many_requests_have_to_wait(status: u16, retry_after: Option<Seq<char>>)
    ensures
        status != 429 <==> answer_of(status, retry_after) is Body,
        status == 429 ==> answer_of(status, retry_after) == Answer::RateLimited(
            match retry_after {
                Some(text) => match number_in(text) {
                    Some(seconds) => seconds,
                    None => 10,
                },
                None => 10,
            },
        ),
{
}

/// A request waits until a third of a second has passed since the last one, and no longer.
pub proof fn requests_wait_a_third_of_a_second(last: u64, now: u64)
    ensures
        now >= last + 333_334 ==> wait_after(last, now) == 0,
        now < last + 333_334 ==> now + wait_after(last, now) == last + 333_334,
{
}

/// A wait doubles, unless twice as long would reach the limit: then it is the limit.
pub proof fn waits_double(delay: u64, max: u64)
    ensures
        2 * delay < max ==> doubled(delay, max) == 2 * delay,
        2 * delay >= max ==> doubled(delay, max) == max,
{
}

/// A connection that was not made yet has its number, and nothing else.
pub proof fn idle_connections_are_empty(id: usize)
    ensures
        idle_shard(id).id == id,
        !idle_shard(id).connected,
        idle_shard(id).msg_count == 0,
        idle_shard(id).last_msg_time == 0,
        idle_shard(id).latency_us == 0,
{
}

/// States and actions are called by their names.
pub proof fn states_and_actions_have_names(state: BookState, action: Action)
    ensures
        match state {
            BookState::Uninitialized => state_name(state) == "uninitialized"@,
            BookState::Buffering => state_name(state) == "buffering"@,
            BookState::Live => state_name(state) == "live"@,
        },
        match action {
            Action::Publish => action_name(action) == Some("publish"@),
            Action::NeedSnapshot => action_name(action) == Some("need_snapshot"@),
            Action::None_ => action_name(action) is None,
        },
{
}

/// A side by price: it has a price exactly where one of its levels is worth that, and what
/// stands there is such a level; no price is higher than the highest or lower than the
/// lowest.
pub proof fn sides_hold_their_levels(
    levels: Seq<(Decimal, Decimal)>,
    side: Map<int, (Decimal, Decimal)>,
    price: int,
)
    ensures
        by_price(levels).contains_key(price) <==> exists|i: int|
            0 <= i < levels.len() && (#[trigger] levels[i]).0.units() == price,
        by_price(levels).contains_key(price) ==> levels.contains(by_price(levels)[price])
            && by_price(levels)[price].0.units() == price,
        is_highest(side, price) <==> side.contains_key(price) && (forall|p: int| #[trigger]
            side.contains_key(p) ==> p <= price),
        is_lowest(side, price) <==> side.contains_key(price) && (forall|p: int| #[trigger]
            side.contains_key(p) ==> p >= price),
{
    if exists|i: int| 0 <= i < levels.len() && (#[trigger] levels[i]).0.units() == price {
        let i = choose|i: int| 0 <= i < levels.len() && (#[trigger] levels[i]).0.units() == price;
        assert(priced_at(levels, i, price));
    }
    if by_price(levels).contains_key(price) {
        let i = choose|i: int| priced_at(levels, i, price);
        assert(priced_at(levels, i, price));
        assert(levels[i].0.units() == price);
        assert(by_price(levels)[price] == levels[i]);
    }
}

/// A level that is set is there with its quantity, at the price that it says; where the
/// price was there, it keeps the way it is written. Nothing else changes.
pub proof fn levels_are_set_at_their_price(
    side: Map<int, (Decimal, Decimal)>,
    price: Decimal,
    qty: Decimal,
    other: int,
)
    ensures
        with_level(side, price, qty).contains_key(price.units()),
        with_level(side, price, qty)[price.units()].1 == qty,
        side.contains_key(price.units()) ==> with_level(side, price, qty)[price.units()].0
            == side[price.units()].0,
        !side.contains_key(price.units()) ==> with_level(side, price, qty)[price.units()].0
            == price,
        other != price.units() ==> (with_level(side, price, qty).contains_key(other)
            <==> side.contains_key(other)),
        other != price.units() && side.contains_key(other) ==> with_level(side, price, qty)[other]
            == side[other],
{
}

/// The limits and the pauses in numbers; pauses are in microseconds. A sweep for silent
/// books comes twice within the silence that it looks for.
pub proof fn limits_and_pauses_are_known()
    ensures
        crate::book::BUFFER_MAX == 5000,
        crate::book::BBO_MISMATCH_THRESHOLD == 10,
        crate::feed_handler::PUBLISHED_LEVELS == 20,
        crate::feed_handler::QUEUE_MAX == 100_000,
        crate::feed_handler::STALE_THRESHOLD == 30_000_000,
        2 * crate::pacing::SWEEP_INTERVAL == crate::feed_handler::STALE_THRESHOLD,
        crate::pacing::STATS_INTERVAL == 10_000_000,
        crate::pacing::RECONNECT_BASE == 1_000_000,
        crate::pacing::RECONNECT_MAX == 30 * crate::pacing::RECONNECT_BASE,
        crate::pacing::RECONNECT_JITTER == crate::pacing::RECONNECT_BASE,
        crate::pacing::SNAPSHOT_RETRY_BASE == 1_000_000,
        crate::pacing::SNAPSHOT_RETRY_MAX == 10 * crate::pacing::SNAPSHOT_RETRY_BASE,
        crate::pacing::SNAPSHOT_REJECTED_WAIT == 500_000,
        crate::pacing::SUBSCRIBE_PAUSE == 250_000,
        crate::pacing::SNAPSHOT_LEVELS == 500,
        crate::publisher::SUBSCRIBER_QUEUE_MAX == 10_000,
        crate::symbols::MAX_SYMBOLS_PER_SHARD == 100,
        crate::symbols::SUBSCRIBE_BATCH_SIZE == 50,
{
}

} // verus!
