//! What holds of the feed around the order books.
use vstd::prelude::*;

use crate::book::BookState;
use crate::books::{book_at, is_stale, place_of, stale_symbols, swept, with_resets};
use crate::feed_handler::{message_step, published, OutcomeModel, ShardInfo, PUBLISHED_LEVELS};
use crate::json::JsonModel;
use crate::laws::{depth_run, sound};
use crate::levels::{highest_first, listing, lowest_first};
use crate::messages::{MessageModel, StreamEventModel};
use crate::model::{crossed, resyncing, BookModel, DepthModel};
use crate::pacing::{delay_after, sync_step, wait_after, DepthSnapshot, SNAPSHOT_INTERVAL};
use crate::publisher::{
    client_step, recipients_of, wants, without, StreamFilter, SubscriberModel,
};
use crate::stats::{connected_in, count_in, is_healthy, longest_latency};
use crate::symbols::{
    at_most, chunked, depth_stream, followed, liquidity_order, most_liquid, streams_of,
    ticker_stream, tradable_symbols, volume_in, with_volumes, SymbolInfo, MAX_SYMBOLS_PER_SHARD,
};
use crate::text::{sorted_texts, text_order};

verus! {

/// Chunks, one after the other, are the items: none is lost, none is moved, none is there
/// twice.
pub proof fn chunks_hold_all_items<A>(items: Seq<A>, size: nat)
    requires
        size > 0,
    ensures
        chunked(items, size).flatten() == items,
    decreases items.len(),
{
    if items.len() == 0 {
    } else if items.len() <= size {
        seq![items].lemma_flatten_one_element();
    } else {
        let first = items.take(size as int);
        let rest = items.skip(size as int);
        chunks_hold_all_items(rest, size);
        vstd::seq_lib::lemma_flatten_concat(seq![first], chunked(rest, size));
        seq![first].lemma_flatten_one_element();
        assert(first + rest =~= items);
    }
}

/// No chunk is empty or larger than the size, and only the last one may be smaller. So the
/// number of chunks is the smallest possible one.
pub proof fn chunks_are_full<A>(items: Seq<A>, size: nat)
    requires
        size > 0,
    ensures
        forall|i: int|
            0 <= i < chunked(items, size).len() ==> 0 < (#[trigger] chunked(items, size)[i]).len()
                <= size,
        forall|i: int|
            0 <= i < chunked(items, size).len() - 1 ==> (#[trigger] chunked(items, size)[i]).len()
                == size,
        chunked(items, size).len() == (items.len() + size - 1) / size as int,
    decreases items.len(),
{
    let chunks = chunked(items, size);
    if items.len() == 0 {
        assert((size - 1) / size as int == 0) by (nonlinear_arith)
            requires
                size > 0,
        ;
    } else if items.len() <= size {
        let n = items.len();
        assert((n + size - 1) / size as int == 1) by (nonlinear_arith)
            requires
                0 < n <= size,
        ;
    } else {
        let rest = items.skip(size as int);
        chunks_are_full(rest, size);
        let n = items.len();
        assert((n + size - 1) / size as int == (n - size + size - 1) / size as int + 1)
            by (nonlinear_arith)
            requires
                0 < size < n,
        ;
        assert forall|i: int| 0 <= i < chunks.len() implies 0 < (#[trigger] chunks[i]).len()
            <= size && (i < chunks.len() - 1 ==> chunks[i].len() == size) by {
            if i > 0 {
                assert(chunks[i] == chunked(rest, size)[i - 1]);
            }
        }
    }
}

/// Sorting texts neither loses nor adds one, and puts them into their order.
pub proof fn sorting_keeps_texts(list: Seq<Seq<char>>)
    ensures
        sorted_texts(list).to_multiset() == list.to_multiset(),
        sorted_texts(list).len() == list.len(),
        vstd::relations::sorted_by(sorted_texts(list), text_order()),
{
    crate::text::lemma_text_order();
    list.lemma_sort_by_ensures(text_order());
    broadcast use vstd::seq_lib::group_to_multiset_ensures;

    assert(sorted_texts(list).len() == sorted_texts(list).to_multiset().len());
}

proof fn lemma_sorted_contains(list: Seq<Seq<char>>, symbol: Seq<char>)
    ensures
        sorted_texts(list).contains(symbol) <==> list.contains(symbol),
{
    sorting_keeps_texts(list);
    broadcast use vstd::seq_lib::group_to_multiset_ensures;

    assert(list.contains(symbol) <==> list.to_multiset().count(symbol) > 0);
    assert(sorted_texts(list).contains(symbol) <==> sorted_texts(list).to_multiset().count(symbol)
        > 0);
}

proof fn lemma_tradable_contains(infos: Seq<SymbolInfo>, symbol: Seq<char>)
    ensures
        tradable_symbols(infos).contains(symbol) <==> exists|i: int|
            0 <= i < infos.len() && #[trigger] crate::symbols::is_tradable(infos[i])
                && infos[i].symbol@ == symbol,
    decreases infos.len(),
{
    if infos.len() > 0 {
        let less = infos.drop_last();
        let before = tradable_symbols(less);
        let after = tradable_symbols(infos);
        lemma_tradable_contains(less, symbol);
        let last = infos.len() - 1;
        if after.contains(symbol) {
            let j = choose|j: int| 0 <= j < after.len() && after[j] == symbol;
            if j < before.len() {
                assert(before[j] == symbol);
                let i = choose|i: int|
                    0 <= i < less.len() && #[trigger] crate::symbols::is_tradable(less[i])
                        && less[i].symbol@ == symbol;
                assert(crate::symbols::is_tradable(infos[i]));
            } else {
                assert(crate::symbols::is_tradable(infos[last]));
            }
        }
        if exists|i: int|
            0 <= i < infos.len() && #[trigger] crate::symbols::is_tradable(infos[i])
                && infos[i].symbol@ == symbol {
            let i = choose|i: int|
                0 <= i < infos.len() && #[trigger] crate::symbols::is_tradable(infos[i])
                    && infos[i].symbol@ == symbol;
            if i < last {
                assert(crate::symbols::is_tradable(less[i]));
                let j = choose|j: int| 0 <= j < before.len() && before[j] == symbol;
                assert(after[j] == symbol);
            } else {
                assert(after[after.len() - 1] == symbol);
            }
        }
    }
}

/// Where no symbols are asked for and their number has no limit, the followed symbols are
/// the perpetual futures that are being traded, and no others.
pub proof fn all_tradable_symbols_are_followed(
    infos: Seq<SymbolInfo>,
    volumes: Seq<(Seq<char>, Seq<char>)>,
    symbol: Seq<char>,
)
    ensures
        followed(infos, volumes, Seq::empty(), None).contains(symbol) <==> exists|i: int|
            0 <= i < infos.len() && #[trigger] crate::symbols::is_tradable(infos[i])
                && infos[i].symbol@ == symbol,
{
    lemma_sorted_contains(tradable_symbols(infos), symbol);
    lemma_tradable_contains(infos, symbol);
}

/// The first `n` symbols by volume, before they are put into the order of symbols.
spec fn chosen_symbols(
    symbols: Seq<Seq<char>>,
    volumes: Seq<(Seq<char>, Seq<char>)>,
    n: nat,
) -> Seq<Seq<char>> {
    at_most(with_volumes(symbols, volumes).sort_by(liquidity_order()), n).map_values(
        |item: (int, Seq<char>)| item.1,
    )
}

pub(crate) proof fn lemma_ranking(symbols: Seq<Seq<char>>, volumes: Seq<(Seq<char>, Seq<char>)>)
    ensures
        ({
            let order = with_volumes(symbols, volumes).sort_by(liquidity_order());
            &&& order.len() == symbols.len()
            &&& order.to_multiset() == with_volumes(symbols, volumes).to_multiset()
            &&& vstd::relations::sorted_by(order, liquidity_order())
            &&& forall|i: int|
                0 <= i < order.len() ==> (#[trigger] order[i]).0 == volume_in(volumes, order[i].1)
                    && symbols.contains(order[i].1)
        }),
{
    let listed = with_volumes(symbols, volumes);
    let order = listed.sort_by(liquidity_order());
    crate::symbols::lemma_liquidity_order();
    listed.lemma_sort_by_ensures(liquidity_order());
    broadcast use vstd::seq_lib::group_to_multiset_ensures;

    assert(order.len() == order.to_multiset().len());
    assert forall|i: int| 0 <= i < order.len() implies (#[trigger] order[i]).0 == volume_in(
        volumes,
        order[i].1,
    ) && symbols.contains(order[i].1) by {
        assert(order.contains(order[i]));
        assert(order.to_multiset().count(order[i]) > 0);
        assert(listed.contains(order[i]));
        let j = choose|j: int| 0 <= j < listed.len() && listed[j] == order[i];
        assert(symbols[j] == order[i].1);
    }
}

/// A limit is kept, and it leaves out the symbols of the smallest volumes: whatever was
/// left out traded no more than anything that was taken.
pub proof fn a_limit_takes_the_most_liquid(
    symbols: Seq<Seq<char>>,
    volumes: Seq<(Seq<char>, Seq<char>)>,
    n: nat,
    taken: Seq<char>,
    left_out: Seq<char>,
)
    ensures
        most_liquid(symbols, volumes, n).len() == if n < symbols.len() {
            n
        } else {
            symbols.len()
        },
        most_liquid(symbols, volumes, n).contains(taken) ==> symbols.contains(taken),
        most_liquid(symbols, volumes, n).contains(taken) && symbols.contains(left_out)
            && !most_liquid(symbols, volumes, n).contains(left_out) ==> volume_in(volumes, taken)
            >= volume_in(volumes, left_out),
{
    let listed = with_volumes(symbols, volumes);
    let order = listed.sort_by(liquidity_order());
    let chosen = chosen_symbols(symbols, volumes, n);
    lemma_ranking(symbols, volumes);
    sorting_keeps_texts(chosen);
    lemma_sorted_contains(chosen, taken);
    lemma_sorted_contains(chosen, left_out);
    if chosen.contains(taken) {
        let i = choose|i: int| 0 <= i < chosen.len() && chosen[i] == taken;
        assert(order[i].1 == taken);
        if symbols.contains(left_out) && !chosen.contains(left_out) {
            let k = choose|k: int| 0 <= k < symbols.len() && symbols[k] == left_out;
            let entry = listed[k];
            assert(listed.contains(entry));
            broadcast use vstd::seq_lib::group_to_multiset_ensures;

            assert(listed.to_multiset().count(entry) > 0);
            assert(order.contains(entry));
            let j = choose|j: int| 0 <= j < order.len() && order[j] == entry;
            if j < chosen.len() {
                assert(chosen[j] == left_out);
            }
            assert(liquidity_order()(order[i], order[j]));
        }
    }
}

pub(crate) proof fn lemma_mapped_multisets<A, B>(a: Seq<A>, b: Seq<A>, f: spec_fn(A) -> B)
    requires
        a.to_multiset() == b.to_multiset(),
    ensures
        a.map_values(f).to_multiset() == b.map_values(f).to_multiset(),
    decreases a.len(),
{
    broadcast use vstd::seq_lib::group_to_multiset_ensures;

    assert(a.len() == a.to_multiset().len());
    assert(b.len() == b.to_multiset().len());
    if a.len() == 0 {
        assert(a.map_values(f) =~= b.map_values(f));
    } else {
        let x = a.last();
        assert(a.contains(x));
        assert(a.to_multiset().count(x) > 0);
        assert(b.contains(x));
        let j = choose|j: int| 0 <= j < b.len() && b[j] == x;
        assert(a.remove(a.len() - 1) =~= a.drop_last());
        assert(a.drop_last().to_multiset() =~= b.remove(j).to_multiset());
        lemma_mapped_multisets(a.drop_last(), b.remove(j), f);
        crate::text::lemma_multiset_insert(b.remove(j).map_values(f), j, f(x));
        assert(b.map_values(f) =~= b.remove(j).map_values(f).insert(j, f(x)));
        assert(a.map_values(f) =~= a.drop_last().map_values(f).push(f(x)));
    }
}

/// Where no volume is known, a limit takes the symbols that come first.
pub proof fn without_volumes_the_first_symbols_are_taken(symbols: Seq<Seq<char>>, n: nat)
    ensures
        most_liquid(symbols, Seq::empty(), n) == at_most(sorted_texts(symbols), n),
{
    let none = Seq::<(Seq<char>, Seq<char>)>::empty();
    let listed = with_volumes(symbols, none);
    let order = listed.sort_by(liquidity_order());
    let sorted = sorted_texts(symbols);
    let zeroed = |symbol: Seq<char>| (volume_in(none, symbol), symbol);
    lemma_ranking(symbols, none);
    sorting_keeps_texts(symbols);
    lemma_mapped_multisets(sorted, symbols, zeroed);
    crate::symbols::lemma_liquidity_order();
    crate::text::lemma_text_order();
    let expected = sorted.map_values(zeroed);
    assert(vstd::relations::sorted_by(expected, liquidity_order())) by {
        assert forall|i: int, j: int| 0 <= i < j < expected.len() implies #[trigger]
            liquidity_order()(expected[i], expected[j]) by {
            assert(text_order()(sorted[i], sorted[j]));
        }
    }
    vstd::seq_lib::lemma_sorted_unique(order, expected, liquidity_order());
    let chosen = chosen_symbols(symbols, none, n);
    assert(chosen =~= at_most(sorted, n));
    assert(vstd::relations::sorted_by(chosen, text_order())) by {
        assert forall|i: int, j: int| 0 <= i < j < chosen.len() implies #[trigger] text_order()(
            chosen[i],
            chosen[j],
        ) by {
            assert(text_order()(sorted[i], sorted[j]));
        }
    }
    sorting_keeps_texts(chosen);
    vstd::seq_lib::lemma_sorted_unique(sorted_texts(chosen), chosen, text_order());
}

/// Every symbol has two streams, its depth diffs and its best prices, side by side.
pub proof fn every_symbol_has_two_streams(symbols: Seq<Seq<char>>, i: int)
    requires
        0 <= i < symbols.len(),
    ensures
        streams_of(symbols).len() == 2 * symbols.len(),
        streams_of(symbols)[2 * i] == depth_stream(symbols[i]),
        streams_of(symbols)[2 * i + 1] == ticker_stream(symbols[i]),
    decreases symbols.len(),
{
    if i < symbols.len() - 1 {
        every_symbol_has_two_streams(symbols.drop_last(), i);
    } else if symbols.len() > 1 {
        every_symbol_has_two_streams(symbols.drop_last(), 0);
    } else {
        reveal_with_fuel(streams_of, 2);
    }
}

/// No connection carries more than two hundred streams.
pub proof fn connections_carry_few_streams(symbols: Seq<Seq<char>>, i: int)
    requires
        0 <= i < chunked(symbols, MAX_SYMBOLS_PER_SHARD as nat).len(),
    ensures
        streams_of(chunked(symbols, MAX_SYMBOLS_PER_SHARD as nat)[i]).len() <= 200,
{
    chunks_are_full(symbols, MAX_SYMBOLS_PER_SHARD as nat);
    every_symbol_has_two_streams(chunked(symbols, MAX_SYMBOLS_PER_SHARD as nat)[i], 0);
}

/// Whether books are the same but for that of one symbol, and have the same symbols.
pub open spec fn same_but(before: Seq<BookModel>, after: Seq<BookModel>, symbol: Seq<char>) -> bool {
    &&& after.len() == before.len()
    &&& forall|i: int| 0 <= i < before.len() ==> (#[trigger] after[i]).symbol == before[i].symbol
    &&& forall|i: int|
        0 <= i < before.len() && before[i].symbol != symbol ==> #[trigger] after[i] == before[i]
}

/// Symbols do not touch each other: a message changes the book of its symbol and no other.
pub proof fn messages_change_one_book(books: Seq<BookModel>, message: MessageModel, now: u64)
    ensures
        same_but(books, message_step(books, message, now).0, message.symbol),
{
    if place_of(books, message.symbol) is Some {
        assert(book_at(books, place_of(books, message.symbol)->0, message.symbol));
    }
}

/// A snapshot changes the book of its symbol and no other.
pub proof fn snapshots_change_one_book(
    books: Seq<BookModel>,
    symbol: Seq<char>,
    snapshot: DepthSnapshot,
)
    ensures
        same_but(books, sync_step(books, symbol, snapshot).0, symbol),
{
    if place_of(books, symbol) is Some {
        assert(book_at(books, place_of(books, symbol)->0, symbol));
    }
}

/// Whether all books are sound.
pub open spec fn all_sound(books: Seq<BookModel>) -> bool {
    forall|i: int| 0 <= i < books.len() ==> sound(#[trigger] books[i])
}

/// Messages keep all books sound: in particular, no live book is crossed.
pub proof fn messages_keep_books_sound(books: Seq<BookModel>, message: MessageModel, now: u64)
    requires
        all_sound(books),
    ensures
        all_sound(message_step(books, message, now).0),
{
    messages_change_one_book(books, message, now);
    match place_of(books, message.symbol) {
        Some(i) => {
            assert(book_at(books, i, message.symbol));
            let timed = BookModel { last_update_time: now, ..books[i] };
            lemma_sound_by_parts(books[i], timed);
            match message.event {
                StreamEventModel::Depth { first_id, last_id, prev_id, bids, asks } => {
                    crate::laws::depth_keeps_books_sound(
                        timed,
                        DepthModel {
                            first_id,
                            last_id,
                            prev_id,
                            bids: crate::book::levels_read(bids),
                            asks: crate::book::levels_read(asks),
                        },
                    );
                },
                StreamEventModel::Ticker { bid_price, bid_qty, ask_price, ask_qty } => {
                    lemma_sound_by_parts(books[i], message_step(books, message, now).0[i]);
                },
                _ => {},
            }
        },
        None => {},
    }
}

/// Snapshots keep all books sound.
pub proof fn snapshots_keep_books_sound(
    books: Seq<BookModel>,
    symbol: Seq<char>,
    snapshot: DepthSnapshot,
)
    requires
        all_sound(books),
    ensures
        all_sound(sync_step(books, symbol, snapshot).0),
{
    snapshots_change_one_book(books, symbol, snapshot);
    match place_of(books, symbol) {
        Some(i) => {
            assert(book_at(books, i, symbol));
            crate::laws::snapshot_keeps_books_sound(
                books[i],
                snapshot.last_update_id,
                crate::book::levels_read(crate::text::text_pairs(snapshot.bids@)),
                crate::book::levels_read(crate::text::text_pairs(snapshot.asks@)),
            );
        },
        None => {},
    }
}

/// Sweeps and resets keep all books sound.
pub proof fn sweeps_and_resets_keep_books_sound(
    books: Seq<BookModel>,
    symbols: Seq<Seq<char>>,
    now: u64,
    threshold: u64,
)
    requires
        all_sound(books),
    ensures
        all_sound(books.map_values(|m: BookModel| swept(m, now, threshold))),
        all_sound(with_resets(books, symbols)),
{
    let after = books.map_values(|m: BookModel| swept(m, now, threshold));
    assert forall|i: int| 0 <= i < books.len() implies sound(#[trigger] after[i]) && sound(
        #[trigger] with_resets(books, symbols)[i],
    ) by {
        crate::laws::upkeep_keeps_books_sound(books[i], 0, 0);
        lemma_sound_by_parts(
            resyncing(books[i]),
            BookModel { last_update_time: now, ..resyncing(books[i]) },
        );
    }
    assert forall|i: int| 0 <= i < after.len() implies sound(#[trigger] after[i]) by {
        assert(sound(after[i]) && sound(with_resets(books, symbols)[i]));
    }
    assert forall|i: int| 0 <= i < books.len() implies sound(
        #[trigger] with_resets(books, symbols)[i],
    ) by {
        assert(sound(after[i]) && sound(with_resets(books, symbols)[i]));
    }
}

/// Whether a book is sound does not depend on times, counters and the ticker.
proof fn lemma_sound_by_parts(m: BookModel, t: BookModel)
    requires
        sound(m),
        t.bids == m.bids,
        t.asks == m.asks,
        t.state == m.state,
        t.buffer == m.buffer,
        t.last_update_id == m.last_update_id,
        t.bbo_mismatch_count == m.bbo_mismatch_count,
    ensures
        sound(t),
{
    if crossed(t) {
        let (bid, ask) = choose|bid: int, ask: int|
            #[trigger] t.bids.contains_key(bid) && #[trigger] t.asks.contains_key(ask) && bid
                >= ask;
        assert(m.bids.contains_key(bid) && m.asks.contains_key(ask));
    }
}

/// What is published of a book is that book after the message. It is live, and every bid
/// in it is lower than every ask.
pub proof fn published_levels_are_not_crossed(
    books: Seq<BookModel>,
    message: MessageModel,
    now: u64,
    i: int,
    j: int,
)
    requires
        all_sound(books),
        message_step(books, message, now).1 is Book,
    ensures
        ({
            let at = place_of(books, message.symbol)->0;
            let after = message_step(books, message, now).0[at];
            let bids = highest_first(listing(after.bids), PUBLISHED_LEVELS as nat);
            let asks = lowest_first(listing(after.asks), PUBLISHED_LEVELS as nat);
            &&& after.state == BookState::Live
            &&& message_step(books, message, now).1 == OutcomeModel::Book(published(after, now))
            &&& 0 <= i < bids.len() && 0 <= j < asks.len() ==> bids[i].0.units()
                < asks[j].0.units()
        }),
{
    let at = place_of(books, message.symbol)->0;
    let after = message_step(books, message, now).0[at];
    assert(book_at(books, at, message.symbol));
    match message.event {
        StreamEventModel::Depth { first_id, last_id, prev_id, bids, asks } => {
            let timed = BookModel { last_update_time: now, ..books[at] };
            lemma_sound_by_parts(books[at], timed);
            crate::laws::published_books_are_in_sequence(
                timed,
                DepthModel {
                    first_id,
                    last_id,
                    prev_id,
                    bids: crate::book::levels_read(bids),
                    asks: crate::book::levels_read(asks),
                },
            );
        },
        _ => {},
    }
    let bids = highest_first(listing(after.bids), PUBLISHED_LEVELS as nat);
    let asks = lowest_first(listing(after.asks), PUBLISHED_LEVELS as nat);
    if 0 <= i < bids.len() && 0 <= j < asks.len() {
        messages_keep_books_sound(books, message, now);
        crate::levels::lemma_listed(after.bids);
        crate::levels::lemma_listed(after.asks);
        let all_bids = listing(after.bids);
        let all_asks = listing(after.asks);
        let k = all_bids.len() - 1 - i;
        assert(bids[i] == all_bids[k]);
        assert(asks[j] == all_asks[j]);
        crate::levels::lemma_by_price_at(all_bids, k);
        crate::levels::lemma_by_price_at(all_asks, j);
        assert(after.bids.contains_key(bids[i].0.units()));
        assert(after.asks.contains_key(asks[j].0.units()));
    }
}

/// What cannot be read changes nothing.
pub proof fn unreadable_messages_change_nothing(
    books: Seq<BookModel>,
    message: MessageModel,
    now: u64,
)
    requires
        message_step(books, message, now).1 is Unreadable,
    ensures
        message_step(books, message, now).0 == books,
{
}

/// A sweep marks the live books that were silent for too long, and no others. A marked book
/// waits for a snapshot, and is not marked again before it is live again; and then only
/// after another silence of that length.
pub proof fn sweeps_mark_silent_books_once(m: BookModel, now: u64, later: u64, threshold: u64)
    ensures
        !is_stale(m, now, threshold) ==> swept(m, now, threshold) == m,
        m.state != BookState::Live ==> swept(m, now, threshold) == m,
        is_stale(m, now, threshold) ==> {
            let after = swept(m, now, threshold);
            &&& after.state == BookState::Buffering
            &&& after.last_update_time == now
            &&& !is_stale(after, later, threshold)
            &&& later - now <= threshold ==> !is_stale(
                BookModel { state: BookState::Live, ..after },
                later,
                threshold,
            )
        },
{
}

/// A sweep names the symbols of the books that it marks, and no others.
pub proof fn sweeps_name_the_marked_books(
    books: Seq<BookModel>,
    now: u64,
    threshold: u64,
    symbol: Seq<char>,
)
    ensures
        stale_symbols(books, now, threshold).contains(symbol) <==> exists|i: int|
            0 <= i < books.len() && #[trigger] is_stale(books[i], now, threshold)
                && books[i].symbol == symbol,
    decreases books.len(),
{
    if books.len() > 0 {
        let less = books.drop_last();
        let last = books.len() - 1;
        let before = stale_symbols(less, now, threshold);
        let after = stale_symbols(books, now, threshold);
        sweeps_name_the_marked_books(less, now, threshold, symbol);
        if after.contains(symbol) {
            let j = choose|j: int| 0 <= j < after.len() && after[j] == symbol;
            if j < before.len() {
                assert(before[j] == symbol);
                let i = choose|i: int|
                    0 <= i < less.len() && #[trigger] is_stale(less[i], now, threshold)
                        && less[i].symbol == symbol;
                assert(is_stale(books[i], now, threshold));
            } else {
                assert(is_stale(books[last], now, threshold));
            }
        }
        if exists|i: int|
            0 <= i < books.len() && #[trigger] is_stale(books[i], now, threshold)
                && books[i].symbol == symbol {
            let i = choose|i: int|
                0 <= i < books.len() && #[trigger] is_stale(books[i], now, threshold)
                    && books[i].symbol == symbol;
            if i < last {
                assert(is_stale(less[i], now, threshold));
                let j = choose|j: int| 0 <= j < before.len() && before[j] == symbol;
                assert(after[j] == symbol);
            } else {
                assert(after[after.len() - 1] == symbol);
            }
        }
    }
}

/// A lost connection takes its books out of service at once, touches no others, and is no
/// gap: however the stream goes on, none is counted before a snapshot has come.
pub proof fn lost_connections_are_no_gaps(
    books: Seq<BookModel>,
    symbols: Seq<Seq<char>>,
    i: int,
    events: Seq<DepthModel>,
)
    requires
        0 <= i < books.len(),
    ensures
        symbols.contains(books[i].symbol) ==> {
            let after = with_resets(books, symbols)[i];
            &&& after.state == BookState::Uninitialized
            &&& depth_run(after, events).gap_count == books[i].gap_count
            &&& depth_run(after, events).state != BookState::Live
        },
        !symbols.contains(books[i].symbol) ==> with_resets(books, symbols)[i] == books[i],
{
    crate::laws::resets_are_no_gaps(books[i], events);
}

/// Waits double with each failure, from the first one up to the limit.
pub proof fn waits_double_up_to_the_limit(base: u64, max: u64, failures: nat)
    requires
        0 < base <= max,
    ensures
        delay_after(base, max, failures) == if base * vstd::arithmetic::power2::pow2(failures)
            < max {
            base * vstd::arithmetic::power2::pow2(failures)
        } else {
            max as int
        },
        base <= delay_after(base, max, failures) <= max,
    decreases failures,
{
    if failures == 0 {
        vstd::arithmetic::power2::lemma2_to64();
    } else {
        let less = (failures - 1) as nat;
        waits_double_up_to_the_limit(base, max, less);
        vstd::arithmetic::power2::lemma_pow2_unfold(failures);
        let p = vstd::arithmetic::power2::pow2(less);
        assert(base * (2 * p) == 2 * (base * p)) by (nonlinear_arith);
    }
}

/// Requests for snapshots keep their distance: whoever waits as long as is asked comes at
/// least `SNAPSHOT_INTERVAL` after the one before, and nobody waits for longer than needed.
pub proof fn snapshot_requests_keep_their_distance(last: u64, now: u64, later: u64)
    ensures
        later >= now + wait_after(last, now) ==> later - last >= SNAPSHOT_INTERVAL,
        wait_after(last, now) > 0 ==> now + wait_after(last, now) - last == SNAPSHOT_INTERVAL,
{
}

/// Of any four requests for snapshots in a row, the last comes at least a second after the
/// first: there are at most three in a second. Request `k` was made at the time `made[k]`,
/// after a wait that was asked for at the time `asked[k]`.
pub proof fn at_most_three_requests_in_a_second(made: Seq<u64>, asked: Seq<u64>)
    requires
        made.len() == 4,
        asked.len() == 4,
        forall|k: int|
            0 < k < 4 ==> #[trigger] made[k] >= asked[k] + wait_after(made[k - 1], asked[k]),
    ensures
        made[3] - made[0] >= 1_000_000,
{
    assert forall|k: int| 0 < k < 4 implies #[trigger] made[k] - made[k - 1]
        >= SNAPSHOT_INTERVAL by {
        snapshot_requests_keep_their_distance(made[k - 1], asked[k], made[k]);
    }
    assert(made[1] - made[0] >= SNAPSHOT_INTERVAL);
    assert(made[2] - made[1] >= SNAPSHOT_INTERVAL);
    assert(made[3] - made[2] >= SNAPSHOT_INTERVAL);
}

/// Every book is in one of the three states.
pub proof fn states_add_up(books: Seq<BookModel>)
    ensures
        count_in(books, BookState::Uninitialized) + count_in(books, BookState::Buffering)
            + count_in(books, BookState::Live) == books.len(),
    decreases books.len(),
{
    if books.len() > 0 {
        states_add_up(books.drop_last());
    }
}

proof fn lemma_all_connected(shards: Seq<ShardInfo>)
    ensures
        connected_in(shards) <= shards.len(),
        connected_in(shards) == shards.len() <==> forall|i: int|
            0 <= i < shards.len() ==> (#[trigger] shards[i]).connected,
    decreases shards.len(),
{
    if shards.len() > 0 {
        let less = shards.drop_last();
        lemma_all_connected(less);
        assert forall|i: int| 0 <= i < less.len() implies less[i] == shards[i] by {}
        if connected_in(less) == less.len() && shards.last().connected {
            assert forall|i: int| 0 <= i < shards.len() implies (#[trigger] shards[i]).connected by {
                if i < less.len() {
                    assert(less[i].connected);
                }
            }
        }
        if forall|i: int| 0 <= i < shards.len() ==> (#[trigger] shards[i]).connected {
            assert forall|i: int| 0 <= i < less.len() implies (#[trigger] less[i]).connected by {
                assert(shards[i].connected);
            }
            assert(shards[shards.len() - 1].connected);
        }
    }
}

/// The feed is healthy where every connection is made and more than half of the books are
/// live; without books it never is.
pub proof fn health_needs_all_connections_and_most_books(
    books: Seq<BookModel>,
    shards: Seq<ShardInfo>,
)
    ensures
        is_healthy(books, shards) <==> (forall|i: int|
            0 <= i < shards.len() ==> (#[trigger] shards[i]).connected) && 2 * count_in(
            books,
            BookState::Live,
        ) > books.len(),
        books.len() == 0 ==> !is_healthy(books, shards),
{
    lemma_all_connected(shards);
}

/// The longest latency is that of a connection, or 0 where none is positive.
pub proof fn the_longest_latency_is_a_bound(shards: Seq<ShardInfo>)
    ensures
        longest_latency(shards) >= 0,
        forall|i: int|
            0 <= i < shards.len() ==> (#[trigger] shards[i]).latency_us <= longest_latency(shards),
        longest_latency(shards) > 0 ==> exists|i: int|
            0 <= i < shards.len() && (#[trigger] shards[i]).latency_us == longest_latency(shards),
    decreases shards.len(),
{
    if shards.len() > 0 {
        let less = shards.drop_last();
        the_longest_latency_is_a_bound(less);
        assert forall|i: int| 0 <= i < less.len() implies less[i] == shards[i] by {}
        assert forall|i: int| 0 <= i < shards.len() implies (#[trigger] shards[i]).latency_us
            <= longest_latency(shards) by {
            if i < less.len() {
                assert(less[i].latency_us <= longest_latency(less));
            }
        }
        if longest_latency(shards) > 0 {
            if shards.last().latency_us > longest_latency(less) {
                assert(shards[shards.len() - 1].latency_us == longest_latency(shards));
            } else {
                let i = choose|i: int|
                    0 <= i < less.len() && (#[trigger] less[i]).latency_us == longest_latency(less);
                assert(shards[i].latency_us == longest_latency(shards));
            }
        }
    }
}

/// An event goes to the subscribers who want it, and to no others.
pub proof fn events_go_to_those_who_want_them(
    subscribers: Seq<SubscriberModel>,
    stream: StreamFilter,
    symbol: Seq<char>,
    id: u64,
)
    ensures
        recipients_of(subscribers, stream, symbol).contains(id) <==> exists|i: int|
            0 <= i < subscribers.len() && #[trigger] wants(subscribers[i], stream, symbol)
                && subscribers[i].id == id,
    decreases subscribers.len(),
{
    if subscribers.len() > 0 {
        let less = subscribers.drop_last();
        let last = subscribers.len() - 1;
        let before = recipients_of(less, stream, symbol);
        let after = recipients_of(subscribers, stream, symbol);
        events_go_to_those_who_want_them(less, stream, symbol, id);
        if after.contains(id) {
            let j = choose|j: int| 0 <= j < after.len() && after[j] == id;
            if j < before.len() {
                assert(before[j] == id);
                let i = choose|i: int|
                    0 <= i < less.len() && #[trigger] wants(less[i], stream, symbol)
                        && less[i].id == id;
                assert(wants(subscribers[i], stream, symbol));
            } else {
                assert(wants(subscribers[last], stream, symbol));
            }
        }
        if exists|i: int|
            0 <= i < subscribers.len() && #[trigger] wants(subscribers[i], stream, symbol)
                && subscribers[i].id == id {
            let i = choose|i: int|
                0 <= i < subscribers.len() && #[trigger] wants(subscribers[i], stream, symbol)
                    && subscribers[i].id == id;
            if i < last {
                assert(wants(less[i], stream, symbol));
                let j = choose|j: int| 0 <= j < before.len() && before[j] == id;
                assert(after[j] == id);
            } else {
                assert(after[after.len() - 1] == id);
            }
        }
    }
}

/// Whoever has unsubscribed gets nothing more, and for all others nothing changes.
pub proof fn unsubscribing_ends_the_events(
    subscribers: Seq<SubscriberModel>,
    stream: StreamFilter,
    symbol: Seq<char>,
    id: u64,
)
    ensures
        !recipients_of(without(subscribers, id), stream, symbol).contains(id),
        recipients_of(without(subscribers, id), stream, symbol) == recipients_of(
            subscribers,
            stream,
            symbol,
        ).filter(|other: u64| other != id),
    decreases subscribers.len(),
{
    let others = |other: u64| other != id;
    reveal(Seq::filter);
    if subscribers.len() > 0 {
        let less = subscribers.drop_last();
        let last = subscribers.last();
        unsubscribing_ends_the_events(less, stream, symbol, id);
        let before = recipients_of(less, stream, symbol);
        if wants(last, stream, symbol) {
            assert(before.push(last.id).drop_last() =~= before);
        }
        if last.id != id {
            assert(without(less, id).push(last).drop_last() =~= without(less, id));
        }
    }
    let kept = recipients_of(without(subscribers, id), stream, symbol);
    assert(!kept.contains(id)) by {
        if kept.contains(id) {
            let all = recipients_of(subscribers, stream, symbol);
            let j = choose|j: int| 0 <= j < kept.len() && kept[j] == id;
            all.lemma_filter_pred(others, j);
        }
    }
}

/// A new subscriber gets exactly the events of their stream and symbols; for the others
/// nothing changes.
pub proof fn subscribing_starts_the_events(
    subscribers: Seq<SubscriberModel>,
    subscriber: SubscriberModel,
    stream: StreamFilter,
    symbol: Seq<char>,
)
    ensures
        recipients_of(subscribers.push(subscriber), stream, symbol) == if wants(
            subscriber,
            stream,
            symbol,
        ) {
            recipients_of(subscribers, stream, symbol).push(subscriber.id)
        } else {
            recipients_of(subscribers, stream, symbol)
        },
{
    assert(subscribers.push(subscriber).drop_last() =~= subscribers);
}

/// Streams are kept apart: who asked for best prices gets no books, who asked for books
/// gets no best prices, and who asked for all gets both.
pub proof fn streams_are_kept_apart(subscriber: SubscriberModel, symbol: Seq<char>)
    ensures
        subscriber.stream == StreamFilter::Bbo ==> !wants(subscriber, StreamFilter::Book, symbol),
        subscriber.stream == StreamFilter::Book ==> !wants(subscriber, StreamFilter::Bbo, symbol),
        subscriber.stream == StreamFilter::All && subscriber.symbols is None ==> wants(
            subscriber,
            StreamFilter::Bbo,
            symbol,
        ) && wants(subscriber, StreamFilter::Book, symbol),
{
}

/// A client subscribes only while they have no subscription, and ends one only while they
/// have one. While they have one, nothing else that they send is answered.
pub proof fn clients_have_one_subscription(value: Option<JsonModel>)
    ensures
        !(client_step(true, value) is Subscribe),
        !(client_step(true, value) is Answer),
        !(client_step(false, value) is Unsubscribe),
        client_step(false, value) is Answer <==> value is None,
{
}

} // verus!
