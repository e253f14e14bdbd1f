//! What messages, snapshots and lost connections do to the books of all symbols, book by
//! book.
use vstd::prelude::*;

use crate::book::{all_readable, levels_read, Action, BookState};
use crate::books::{
    book_at, has_book, in_symbol_order, place_of, room_for_depth, room_for_snapshot, with_resets,
};
use crate::decimal::{parsed_decimal, Decimal};
use crate::feed_handler::{message_step, published, OutcomeModel};
use crate::levels::{highest_first, listing, lowest_first, prices_agree};
use crate::messages::MessageModel;
use crate::model::{
    depth_room, depth_step, snapshot_room, snapshot_step, with_changes, BookModel, DepthModel,
};
use crate::pacing::{sync_step, DepthSnapshot, SyncAction};
use crate::reading_laws::worth;
use crate::text::{text_before, text_pairs};

verus! {

/// Whether position `i`, and no other, holds the book of a symbol.
pub open spec fn only_at(books: Seq<BookModel>, i: int, symbol: Seq<char>) -> bool {
    &&& 0 <= i < books.len()
    &&& books[i].symbol == symbol
    &&& forall|j: int|
        0 <= j < books.len() && j != i ==> (#[trigger] books[j]).symbol != symbol
}

/// Whether no position holds the book of a symbol.
pub open spec fn nowhere(books: Seq<BookModel>, symbol: Seq<char>) -> bool {
    forall|j: int| 0 <= j < books.len() ==> (#[trigger] books[j]).symbol != symbol
}

/// The book of a symbol is found where it stands, and none is found where none stands. In
/// the order of symbols, each symbol has at most one book.
pub proof fn books_are_found_by_their_symbol(books: Seq<BookModel>, symbol: Seq<char>, i: int)
    ensures
        only_at(books, i, symbol) ==> place_of(books, symbol) == Some(i) && has_book(books, symbol),
        nowhere(books, symbol) <==> place_of(books, symbol) is None,
        nowhere(books, symbol) <==> !has_book(books, symbol),
        in_symbol_order(books) && 0 <= i < books.len() ==> only_at(books, i, books[i].symbol),
        in_symbol_order(books) ==> forall|j: int, k: int|
            0 <= j < k < books.len() ==> text_before(
                (#[trigger] books[j]).symbol,
                (#[trigger] books[k]).symbol,
            ),
        only_at(books, i, symbol) ==> (room_for_depth(books, symbol) <==> depth_room(books[i])),
        only_at(books, i, symbol) ==> (room_for_snapshot(books, symbol) <==> snapshot_room(
            books[i],
        )),
        nowhere(books, symbol) ==> room_for_depth(books, symbol) && room_for_snapshot(
            books,
            symbol,
        ),
{
    if only_at(books, i, symbol) {
        assert(book_at(books, i, symbol));
        assert(book_at(books, place_of(books, symbol)->0, symbol));
    }
    if place_of(books, symbol) is Some {
        assert(book_at(books, place_of(books, symbol)->0, symbol));
    }
    if !nowhere(books, symbol) {
        let j = choose|j: int| 0 <= j < books.len() && (#[trigger] books[j]).symbol == symbol;
        assert(book_at(books, j, symbol));
    }
    if in_symbol_order(books) && 0 <= i < books.len() {
        assert forall|j: int| 0 <= j < books.len() && j != i implies (#[trigger] books[j]).symbol
            != books[i].symbol by {
            crate::text::lemma_before_irreflexive(books[i].symbol);
        }
    }
}

/// What a ticker message does: its bid price becomes the best bid that the book of its
/// symbol knows from the ticker, its ask price the best ask, each by what it is worth;
/// nothing else of that book changes, and no other book. The message is passed on as it is,
/// each part under its own name.
pub proof fn tickers_tell_both_best_prices(
    books: Seq<BookModel>,
    message: MessageModel,
    now: u64,
    i: int,
)
    requires
        message.event is Ticker,
    ensures
        ({
            let (after, outcome) = message_step(books, message, now);
            let bid_price = message.event->bid_price;
            let ask_price = message.event->ask_price;
            &&& after.len() == books.len()
            &&& only_at(books, i, message.symbol) ==> after[i].ticker_bid == worth(bid_price)
                && after[i].ticker_ask == worth(ask_price)
            &&& only_at(books, i, message.symbol) ==> after[i] == (BookModel {
                ticker_bid: worth(bid_price),
                ticker_ask: worth(ask_price),
                ..books[i]
            })
            &&& 0 <= i < books.len() && books[i].symbol != message.symbol ==> after[i] == books[i]
            &&& outcome is Bbo
            &&& outcome->Bbo_0.symbol == message.symbol
            &&& outcome->Bbo_0.bid_price == bid_price
            &&& outcome->Bbo_0.bid_qty == message.event->bid_qty
            &&& outcome->Bbo_0.ask_price == ask_price
            &&& outcome->Bbo_0.ask_qty == message.event->ask_qty
            &&& outcome->Bbo_0.ts == now
        }),
{
    books_are_found_by_their_symbol(books, message.symbol, i);
    crate::reading_laws::unreadable_numbers_are_worth_nothing(message.event->bid_price);
    crate::reading_laws::unreadable_numbers_are_worth_nothing(message.event->ask_price);
    crate::feed_laws::messages_change_one_book(books, message, now);
}

/// What a diff message does: the book of its symbol takes the diff, with the ids, the bids
/// and the asks of the message, and is heard of now; no other book changes. What is to be
/// published is that book after the diff.
pub proof fn diffs_go_to_the_book_of_their_symbol(
    books: Seq<BookModel>,
    message: MessageModel,
    now: u64,
    i: int,
)
    requires
        message.event is Depth,
        forall|k: int|
            0 <= k < message.event->bids.len() ==> parsed_decimal(
                (#[trigger] message.event->bids[k]).0,
            ) is Some && parsed_decimal(message.event->bids[k].1) is Some,
        forall|k: int|
            0 <= k < message.event->asks.len() ==> parsed_decimal(
                (#[trigger] message.event->asks[k]).0,
            ) is Some && parsed_decimal(message.event->asks[k].1) is Some,
    ensures
        ({
            let (after, outcome) = message_step(books, message, now);
            let diff = DepthModel {
                first_id: message.event->first_id,
                last_id: message.event->last_id,
                prev_id: message.event->prev_id,
                bids: levels_read(message.event->bids),
                asks: levels_read(message.event->asks),
            };
            let heard = BookModel { last_update_time: now, ..books[i] };
            &&& after.len() == books.len()
            &&& only_at(books, i, message.symbol) ==> {
                &&& after[i] == depth_step(heard, diff).0
                &&& match depth_step(heard, diff).1 {
                    Action::NeedSnapshot => outcome is NeedSnapshot,
                    Action::Publish => outcome == OutcomeModel::Book(published(after[i], now)),
                    Action::None_ => outcome is Nothing,
                }
            }
            &&& nowhere(books, message.symbol) ==> after == books && outcome is Nothing
            &&& 0 <= i < books.len() && books[i].symbol != message.symbol ==> after[i] == books[i]
        }),
{
    crate::reading_laws::levels_are_read_in_place(message.event->bids);
    crate::reading_laws::levels_are_read_in_place(message.event->asks);
    books_are_found_by_their_symbol(books, message.symbol, i);
    crate::feed_laws::messages_change_one_book(books, message, now);
}

/// A diff with a text that is no number, a broken diff, and an event of another kind change
/// no book. The first two are reported as unreadable, the last is not.
pub proof fn what_is_no_diff_changes_no_book(books: Seq<BookModel>, message: MessageModel, now: u64)
    ensures
        message.event is BrokenDepth ==> message_step(books, message, now) == (
            books,
            OutcomeModel::Unreadable,
        ),
        message.event is Other ==> message_step(books, message, now) == (
            books,
            OutcomeModel::Nothing,
        ),
        message.event is Depth && (exists|k: int|
            0 <= k < message.event->bids.len() && (parsed_decimal(
                (#[trigger] message.event->bids[k]).0,
            ) is None || parsed_decimal(message.event->bids[k].1) is None)) ==> message_step(
            books,
            message,
            now,
        ) == (books, OutcomeModel::Unreadable),
        message.event is Depth && (exists|k: int|
            0 <= k < message.event->asks.len() && (parsed_decimal(
                (#[trigger] message.event->asks[k]).0,
            ) is None || parsed_decimal(message.event->asks[k].1) is None)) ==> message_step(
            books,
            message,
            now,
        ) == (books, OutcomeModel::Unreadable),
{
    if message.event is Depth {
        crate::reading_laws::levels_are_read_in_place(message.event->bids);
        crate::reading_laws::levels_are_read_in_place(message.event->asks);
    }
}

/// The ticker and the diffs, one after the other: after a ticker message, the next diff that
/// leaves a live book with the bid and the ask of that message as its best prices ends the
/// row of mismatches; one that leaves it with another best bid or another best ask makes the
/// row longer by one, and the tenth asks for a snapshot.
pub proof fn diffs_are_checked_against_the_last_ticker(
    books: Seq<BookModel>,
    ticker: MessageModel,
    diff: MessageModel,
    then: u64,
    now: u64,
    i: int,
    bid: int,
    ask: int,
)
    requires
        ticker.event is Ticker,
        diff.event is Depth,
        only_at(books, i, ticker.symbol),
        diff.symbol == ticker.symbol,
        worth(ticker.event->bid_price) != 0,
        worth(ticker.event->ask_price) != 0,
        all_readable(diff.event->bids),
        all_readable(diff.event->asks),
        books[i].state == BookState::Live,
        diff.event->last_id > books[i].last_update_id,
        books[i].need_first_event || diff.event->prev_id == books[i].last_update_id,
        with_changes(books[i].bids, levels_read(diff.event->bids)).contains_key(bid),
        forall|p: int| #[trigger]
            with_changes(books[i].bids, levels_read(diff.event->bids)).contains_key(p) ==> p <= bid,
        with_changes(books[i].asks, levels_read(diff.event->asks)).contains_key(ask),
        forall|p: int| #[trigger]
            with_changes(books[i].asks, levels_read(diff.event->asks)).contains_key(p) ==> ask <= p,
        bid < ask,
    ensures
        ({
            let told = message_step(books, ticker, then).0;
            let (after, outcome) = message_step(told, diff, now);
            let agrees = bid == worth(ticker.event->bid_price) && ask == worth(
                ticker.event->ask_price,
            );
            &&& agrees ==> after[i].bbo_mismatch_count == 0 && after[i].state == BookState::Live
                && outcome is Book
            &&& !agrees && books[i].bbo_mismatch_count < 9 ==> after[i].bbo_mismatch_count
                == books[i].bbo_mismatch_count + 1 && after[i].state == BookState::Live
                && outcome is Book
            &&& !agrees && books[i].bbo_mismatch_count >= 9 ==> after[i].state
                == BookState::Buffering && outcome is NeedSnapshot
        }),
{
    let told = message_step(books, ticker, then).0;
    tickers_tell_both_best_prices(books, ticker, then, i);
    assert forall|j: int| 0 <= j < told.len() && j != i implies (#[trigger] told[j]).symbol
        != diff.symbol by {
        tickers_tell_both_best_prices(books, ticker, then, j);
        assert(books[j].symbol != ticker.symbol);
    }
    assert(only_at(told, i, diff.symbol));
    crate::reading_laws::levels_are_read_in_place(diff.event->bids);
    crate::reading_laws::levels_are_read_in_place(diff.event->asks);
    diffs_go_to_the_book_of_their_symbol(told, diff, now, i);
    let heard = BookModel { last_update_time: now, ..told[i] };
    let event = DepthModel {
        first_id: diff.event->first_id,
        last_id: diff.event->last_id,
        prev_id: diff.event->prev_id,
        bids: levels_read(diff.event->bids),
        asks: levels_read(diff.event->asks),
    };
    assert(heard.bids == books[i].bids && heard.asks == books[i].asks);
    crate::step_laws::the_ticker_checks_both_best_prices(heard, event, bid, ask);
}

/// What a snapshot does: the book of its symbol takes it, with its id, its bids and its
/// asks, and no other book changes. No more is to be done where that book is live then, and
/// otherwise it is tried again after half a second. A snapshot with a text that is no number
/// changes nothing.
pub proof fn snapshots_go_to_the_book_of_their_symbol(
    books: Seq<BookModel>,
    symbol: Seq<char>,
    snapshot: DepthSnapshot,
    i: int,
)
    ensures
        ({
            let (after, action) = sync_step(books, symbol, snapshot);
            let bids = text_pairs(snapshot.bids@);
            let asks = text_pairs(snapshot.asks@);
            let readable = (forall|k: int|
                0 <= k < bids.len() ==> parsed_decimal((#[trigger] bids[k]).0) is Some
                    && parsed_decimal(bids[k].1) is Some) && (forall|k: int|
                0 <= k < asks.len() ==> parsed_decimal((#[trigger] asks[k]).0) is Some
                    && parsed_decimal(asks[k].1) is Some);
            &&& after.len() == books.len()
            &&& !readable ==> after == books && action == SyncAction::Unreadable
            &&& readable && only_at(books, i, symbol) ==> {
                let (book, live) = snapshot_step(
                    books[i],
                    snapshot.last_update_id,
                    levels_read(bids),
                    levels_read(asks),
                );
                &&& after[i] == book
                &&& live ==> action == SyncAction::Done
                &&& !live ==> action == SyncAction::Retry(500_000)
            }
            &&& readable && nowhere(books, symbol) ==> after == books && action
                == SyncAction::Retry(500_000)
            &&& 0 <= i < books.len() && books[i].symbol != symbol ==> after[i] == books[i]
        }),
{
    crate::reading_laws::levels_are_read_in_place(text_pairs(snapshot.bids@));
    crate::reading_laws::levels_are_read_in_place(text_pairs(snapshot.asks@));
    books_are_found_by_their_symbol(books, symbol, i);
    crate::feed_laws::snapshots_change_one_book(books, symbol, snapshot);
}

/// A reset empties the books of the symbols at all positions of a list, whatever state they
/// are in: they start over, and keep only what they counted. It touches no other book.
pub proof fn resets_empty_every_listed_book(
    books: Seq<BookModel>,
    symbols: Seq<Seq<char>>,
    i: int,
)
    requires
        0 <= i < books.len(),
    ensures
        with_resets(books, symbols).len() == books.len(),
        (exists|k: int| 0 <= k < symbols.len() && #[trigger] symbols[k] == books[i].symbol)
            ==> with_resets(books, symbols)[i] == (BookModel {
            bids: Map::empty(),
            asks: Map::empty(),
            last_update_id: 0,
            state: BookState::Uninitialized,
            buffer: Seq::empty(),
            need_first_event: false,
            ticker_bid: 0,
            ticker_ask: 0,
            bbo_mismatch_count: 0,
            ..books[i]
        }),
        (forall|k: int| 0 <= k < symbols.len() ==> #[trigger] symbols[k] != books[i].symbol)
            ==> with_resets(books, symbols)[i] == books[i],
{
    if exists|k: int| 0 <= k < symbols.len() && #[trigger] symbols[k] == books[i].symbol {
        assert(symbols.contains(books[i].symbol));
    }
}

/// Whether levels are the best of a side, in the order of a comparison: each is a level of
/// the side as it stands there, and a price that is not listed is no better than any that
/// is. There are twenty, or all where there are fewer.
pub open spec fn best_twenty(
    levels: Seq<(Decimal, Decimal)>,
    side: Map<int, (Decimal, Decimal)>,
    better: spec_fn(int, int) -> bool,
) -> bool {
    &&& levels.len() == if side.dom().len() < 20 {
        side.dom().len()
    } else {
        20
    }
    &&& forall|k: int|
        0 <= k < levels.len() ==> {
            &&& side.contains_key((#[trigger] levels[k]).0.units())
            &&& side[levels[k].0.units()] == levels[k]
        }
    &&& forall|k: int, l: int|
        0 <= k < l < levels.len() ==> better(
            (#[trigger] levels[k]).0.units(),
            (#[trigger] levels[l]).0.units(),
        )
    &&& forall|p: int, k: int|
        #![trigger side.contains_key(p), levels[k]]
        side.contains_key(p) && 0 <= k < levels.len() && (forall|l: int|
            0 <= l < levels.len() ==> (#[trigger] levels[l]).0.units() != p) ==> better(
            levels[k].0.units(),
            p,
        )
}

/// What is published of a book: under `bids` its highest bids, falling, and under `asks` its
/// lowest asks, rising, twenty of each or all, with price and quantity in plain notation; and
/// its symbol, the id up to which it is synchronised, and the time. The levels are given.
pub proof fn the_best_twenty_are_published(m: BookModel, now: u64) -> (r: (
    Seq<(Decimal, Decimal)>,
    Seq<(Decimal, Decimal)>,
))
    requires
        m.bids.dom().finite(),
        m.asks.dom().finite(),
        forall|p: int| #[trigger] m.bids.contains_key(p) ==> m.bids[p].0.units() == p,
        forall|p: int| #[trigger] m.asks.contains_key(p) ==> m.asks[p].0.units() == p,
    ensures
        best_twenty(r.0, m.bids, |a: int, b: int| a > b),
        best_twenty(r.1, m.asks, |a: int, b: int| a < b),
        ({
            let event = published(m, now);
            &&& event.symbol == m.symbol
            &&& event.last_update_id == m.last_update_id
            &&& event.ts == now
            &&& event.bids.len() == r.0.len()
            &&& event.asks.len() == r.1.len()
            &&& forall|k: int|
                0 <= k < event.bids.len() ==> #[trigger] event.bids[k] == (
                    r.0[k].0.text(),
                    r.0[k].1.text(),
                )
            &&& forall|k: int|
                0 <= k < event.asks.len() ==> #[trigger] event.asks[k] == (
                    r.1[k].0.text(),
                    r.1[k].1.text(),
                )
        }),
{
    let bids = highest_first(listing(m.bids), 20);
    let asks = lowest_first(listing(m.asks), 20);
    lemma_best_bids(m.bids);
    lemma_best_asks(m.asks);
    (bids, asks)
}

proof fn lemma_best_bids(side: Map<int, (Decimal, Decimal)>)
    requires
        side.dom().finite(),
        prices_agree(side),
    ensures
        best_twenty(highest_first(listing(side), 20), side, |a: int, b: int| a > b),
{
    let all = listing(side);
    let levels = highest_first(all, 20);
    crate::levels::lemma_listed(side);
    crate::levels::lemma_by_price_len(all);
    assert forall|k: int| 0 <= k < levels.len() implies side.contains_key(
        (#[trigger] levels[k]).0.units(),
    ) && side[levels[k].0.units()] == levels[k] by {
        assert(levels[k] == all[all.len() - 1 - k]);
        crate::levels::lemma_by_price_at(all, all.len() - 1 - k);
    }
    assert forall|k: int, l: int| 0 <= k < l < levels.len() implies (
    #[trigger] levels[k]).0.units() > (#[trigger] levels[l]).0.units() by {
        assert(all[all.len() - 1 - l].0.units() < all[all.len() - 1 - k].0.units());
    }
    assert forall|p: int, k: int|
        #![trigger side.contains_key(p), levels[k]]
        side.contains_key(p) && 0 <= k < levels.len() && (forall|l: int|
            0 <= l < levels.len() ==> (#[trigger] levels[l]).0.units() != p) implies
        levels[k].0.units() > p by {
        let j = choose|j: int| crate::levels::priced_at(all, j, p);
        assert(crate::levels::priced_at(all, j, p));
        if j >= all.len() - levels.len() {
            assert(levels[all.len() - 1 - j].0.units() == p);
        }
        assert(all[j].0.units() < all[all.len() - 1 - k].0.units());
    }
}

proof fn lemma_best_asks(side: Map<int, (Decimal, Decimal)>)
    requires
        side.dom().finite(),
        prices_agree(side),
    ensures
        best_twenty(lowest_first(listing(side), 20), side, |a: int, b: int| a < b),
{
    let all = listing(side);
    let levels = lowest_first(all, 20);
    crate::levels::lemma_listed(side);
    crate::levels::lemma_by_price_len(all);
    assert forall|k: int| 0 <= k < levels.len() implies side.contains_key(
        (#[trigger] levels[k]).0.units(),
    ) && side[levels[k].0.units()] == levels[k] by {
        crate::levels::lemma_by_price_at(all, k);
    }
    assert forall|p: int, k: int|
        #![trigger side.contains_key(p), levels[k]]
        side.contains_key(p) && 0 <= k < levels.len() && (forall|l: int|
            0 <= l < levels.len() ==> (#[trigger] levels[l]).0.units() != p) implies
        levels[k].0.units() < p by {
        let j = choose|j: int| crate::levels::priced_at(all, j, p);
        assert(crate::levels::priced_at(all, j, p));
        if j < levels.len() {
            assert(levels[j].0.units() == p);
        }
        assert(all[k].0.units() < all[j].0.units());
    }
}

} // verus!
