//! What holds of order books as a whole.
use vstd::prelude::*;

use crate::book::{Action, BookState, BBO_MISMATCH_THRESHOLD, BUFFER_MAX};
use crate::decimal::Decimal;
use crate::levels::{
    ascending, by_price, highest_first, is_highest, is_lowest, lowest_first, priced_at,
    prices_agree,
};
use crate::model::{
    applied, book_invariant, checked, crossed, depth_step, first_break, is_gap, links,
    loaded, matches_ticker, replayable, replayed_asks, replayed_bids, reset_book, resyncing,
    snapshot_side, snapshot_step, ticker_known, two_sided, unsynced, with_changes,
    BookModel, DepthModel,
};

verus! {

/// Whether a side has a level of quantity zero nowhere.
pub open spec fn no_zero_levels(side: Map<int, (Decimal, Decimal)>) -> bool {
    forall|price: int| #[trigger] side.contains_key(price) ==> !side[price].1.zero()
}

/// What every event keeps: the buffer and the mismatch counter are bounded, there are
/// finitely many levels, none has quantity zero, and every level stands at its price; a
/// live book is not crossed and buffers nothing; and of a book that is not initialized
/// nothing is known at all.
pub open spec fn sound(m: BookModel) -> bool {
    &&& book_invariant(m)
    &&& no_zero_levels(m.bids)
    &&& no_zero_levels(m.asks)
    &&& prices_agree(m.bids)
    &&& prices_agree(m.asks)
    &&& m.bids.dom().finite()
    &&& m.asks.dom().finite()
    &&& m.state == BookState::Live ==> !crossed(m) && m.buffer.len() == 0
    &&& m.state == BookState::Uninitialized ==> {
        &&& m.bids == Map::<int, (Decimal, Decimal)>::empty()
        &&& m.asks == Map::<int, (Decimal, Decimal)>::empty()
        &&& m.buffer.len() == 0
        &&& m.last_update_id == 0
    }
}

/// A new book is sound.
pub proof fn new_book_is_sound(symbol: Seq<char>)
    ensures
        sound(unsynced(symbol)),
{
}

proof fn lemma_changes_keep_levels(side: Map<int, (Decimal, Decimal)>, changes: Seq<(Decimal, Decimal)>)
    requires
        no_zero_levels(side),
        prices_agree(side),
        side.dom().finite(),
    ensures
        no_zero_levels(with_changes(side, changes)),
        prices_agree(with_changes(side, changes)),
        with_changes(side, changes).dom().finite(),
    decreases changes.len(),
{
    if changes.len() > 0 {
        lemma_changes_keep_levels(side, changes.drop_last());
    }
}

proof fn lemma_snapshot_levels(levels: Seq<(Decimal, Decimal)>)
    ensures
        no_zero_levels(snapshot_side(levels)),
        prices_agree(snapshot_side(levels)),
        snapshot_side(levels).dom().finite(),
    decreases levels.len(),
{
    if levels.len() > 0 {
        lemma_snapshot_levels(levels.drop_last());
        crate::decimal::lemma_units_zero(levels.last().1);
    }
}

proof fn lemma_replay_keeps_levels(
    bids: Map<int, (Decimal, Decimal)>,
    asks: Map<int, (Decimal, Decimal)>,
    events: Seq<DepthModel>,
)
    requires
        no_zero_levels(bids),
        no_zero_levels(asks),
        prices_agree(bids),
        prices_agree(asks),
        bids.dom().finite(),
        asks.dom().finite(),
    ensures
        no_zero_levels(replayed_bids(bids, events)),
        no_zero_levels(replayed_asks(asks, events)),
        prices_agree(replayed_bids(bids, events)),
        prices_agree(replayed_asks(asks, events)),
        replayed_bids(bids, events).dom().finite(),
        replayed_asks(asks, events).dom().finite(),
    decreases events.len(),
{
    if events.len() > 0 {
        lemma_replay_keeps_levels(bids, asks, events.drop_last());
        lemma_changes_keep_levels(replayed_bids(bids, events.drop_last()), events.last().bids);
        lemma_changes_keep_levels(replayed_asks(asks, events.drop_last()), events.last().asks);
    }
}

/// The integrity check lets no crossed book pass.
proof fn lemma_checked(m: BookModel)
    requires
        0 <= m.bbo_mismatch_count < BBO_MISMATCH_THRESHOLD,
    ensures
        checked(m).1 ==> !crossed(checked(m).0) && checked(m).0.bbo_mismatch_count
            < BBO_MISMATCH_THRESHOLD,
        checked(m).0.bbo_mismatch_count >= 0,
        checked(m).0.bids == m.bids,
        checked(m).0.asks == m.asks,
        checked(m).0.buffer == m.buffer,
{
    if crossed(m) {
        let (bid, ask) = choose|bid: int, ask: int|
            #[trigger] m.bids.contains_key(bid) && #[trigger] m.asks.contains_key(ask) && bid
                >= ask;
        assert(m.bids.contains_key(bid) && m.asks.contains_key(ask));
        assert(two_sided(m));
    }
    if crossed(checked(m).0) {
        let c = checked(m).0;
        let (bid, ask) = choose|bid: int, ask: int|
            #[trigger] c.bids.contains_key(bid) && #[trigger] c.asks.contains_key(ask) && bid
                >= ask;
        assert(m.bids.contains_key(bid) && m.asks.contains_key(ask));
        assert(crossed(m));
    }
}

/// Every depth diff keeps a sound book sound.
pub proof fn depth_keeps_books_sound(m: BookModel, event: DepthModel)
    requires
        sound(m),
    ensures
        sound(depth_step(m, event).0),
{
    lemma_changes_keep_levels(m.bids, event.bids);
    lemma_changes_keep_levels(m.asks, event.asks);
    lemma_checked(applied(BookModel { need_first_event: false, ..m }, event));
}

/// Every snapshot keeps a sound book sound.
pub proof fn snapshot_keeps_books_sound(
    m: BookModel,
    snapshot_id: u64,
    bids: Seq<(Decimal, Decimal)>,
    asks: Seq<(Decimal, Decimal)>,
)
    requires
        sound(m),
    ensures
        sound(snapshot_step(m, snapshot_id, bids, asks).0),
{
    let events = replayable(m.buffer, snapshot_id);
    let n = first_break(events, snapshot_id, 0);
    lemma_snapshot_levels(bids);
    lemma_snapshot_levels(asks);
    lemma_replay_keeps_levels(snapshot_side(bids), snapshot_side(asks), events.take(n));
    let synced = loaded(m, snapshot_id, bids, asks, n);
    lemma_checked(
        BookModel {
            state: BookState::Live,
            need_first_event: n == 0,
            unverified_bridge_count: m.unverified_bridge_count + if n == 0 {
                1int
            } else {
                0int
            },
            bbo_mismatch_count: 0,
            ..synced
        },
    );
}

/// A reset, a resync and a ticker keep a sound book sound.
pub proof fn upkeep_keeps_books_sound(m: BookModel, bid: int, ask: int)
    requires
        sound(m),
    ensures
        sound(reset_book(m)),
        sound(resyncing(m)),
        sound(BookModel { ticker_bid: bid, ticker_ask: ask, ..m }),
{
    let t = BookModel { ticker_bid: bid, ticker_ask: ask, ..m };
    if crossed(t) {
        let (b, a) = choose|b: int, a: int|
            #[trigger] t.bids.contains_key(b) && #[trigger] t.asks.contains_key(a) && b >= a;
        assert(m.bids.contains_key(b) && m.asks.contains_key(a));
    }
}

/// What can happen to a book.
pub enum BookCall {
    Depth(DepthModel),
    Snapshot(u64, Seq<(Decimal, Decimal)>, Seq<(Decimal, Decimal)>),
    Ticker(int, int),
    Reset,
    Resync,
}

/// A book after something happened to it.
pub open spec fn called(m: BookModel, call: BookCall) -> BookModel {
    match call {
        BookCall::Depth(event) => depth_step(m, event).0,
        BookCall::Snapshot(id, bids, asks) => snapshot_step(m, id, bids, asks).0,
        BookCall::Ticker(bid, ask) => BookModel { ticker_bid: bid, ticker_ask: ask, ..m },
        BookCall::Reset => reset_book(m),
        BookCall::Resync => resyncing(m),
    }
}

/// A new book after a sequence of things happened to it.
pub open spec fn history(symbol: Seq<char>, calls: Seq<BookCall>) -> BookModel
    decreases calls.len(),
{
    if calls.len() == 0 {
        unsynced(symbol)
    } else {
        called(history(symbol, calls.drop_last()), calls.last())
    }
}

/// Whatever happens to a book, and in whatever order, it is sound.
pub proof fn every_book_is_sound(symbol: Seq<char>, calls: Seq<BookCall>)
    ensures
        sound(history(symbol, calls)),
    decreases calls.len(),
{
    if calls.len() == 0 {
        new_book_is_sound(symbol);
    } else {
        let before = history(symbol, calls.drop_last());
        every_book_is_sound(symbol, calls.drop_last());
        match calls.last() {
            BookCall::Depth(event) => depth_keeps_books_sound(before, event),
            BookCall::Snapshot(id, bids, asks) => snapshot_keeps_books_sound(
                before,
                id,
                bids,
                asks,
            ),
            BookCall::Ticker(bid, ask) => upkeep_keeps_books_sound(before, bid, ask),
            BookCall::Reset => upkeep_keeps_books_sound(before, 0, 0),
            BookCall::Resync => upkeep_keeps_books_sound(before, 0, 0),
        }
    }
}

/// A book that is published is live, not crossed, up to date with the diff, and in
/// sequence: the diff follows the one before, unless the bridge from the snapshot was
/// counted as unverified. From then on the sequence is checked.
pub proof fn published_books_are_in_sequence(m: BookModel, event: DepthModel)
    requires
        sound(m),
        depth_step(m, event).1 == Action::Publish,
    ensures
        ({
            let after = depth_step(m, event).0;
            &&& m.state == BookState::Live
            &&& after.state == BookState::Live
            &&& !crossed(after)
            &&& m.last_update_id < event.last_id
            &&& after.last_update_id == event.last_id
            &&& !after.need_first_event
            &&& event.prev_id == m.last_update_id || m.need_first_event
            &&& after.bids == with_changes(m.bids, event.bids)
            &&& after.asks == with_changes(m.asks, event.asks)
        }),
{
    depth_keeps_books_sound(m, event);
}

/// Books go from `Uninitialized` to `Buffering` with a diff, from `Buffering` to `Live`
/// with a snapshot, and from `Live` back to `Buffering` with a diff. No event takes any
/// other way.
pub proof fn states_follow_the_machine(
    m: BookModel,
    event: DepthModel,
    snapshot_id: u64,
    bids: Seq<(Decimal, Decimal)>,
    asks: Seq<(Decimal, Decimal)>,
)
    ensures
        ({
            let by_diff = depth_step(m, event).0.state;
            let by_snapshot = snapshot_step(m, snapshot_id, bids, asks).0.state;
            match m.state {
                BookState::Uninitialized => by_diff == BookState::Buffering && by_snapshot
                    == BookState::Uninitialized,
                BookState::Buffering => by_diff == BookState::Buffering && by_snapshot
                    != BookState::Uninitialized,
                BookState::Live => by_diff != BookState::Uninitialized && by_snapshot
                    == BookState::Live,
            }
        }),
        snapshot_step(m, snapshot_id, bids, asks).1 <==> snapshot_step(
            m,
            snapshot_id,
            bids,
            asks,
        ).0.state == BookState::Live,
{
}

/// A gap in the sequence takes a live book back to buffering, from the diff at hand on,
/// and asks for a snapshot. Its levels stay untouched.
pub proof fn gaps_ask_for_a_snapshot(m: BookModel, event: DepthModel)
    requires
        m.state == BookState::Live,
        event.last_id > m.last_update_id,
        is_gap(m, event),
    ensures
        depth_step(m, event).1 == Action::NeedSnapshot,
        depth_step(m, event).0.state == BookState::Buffering,
        depth_step(m, event).0.gap_count == m.gap_count + 1,
        depth_step(m, event).0.buffer == seq![event],
        depth_step(m, event).0.bids == m.bids,
        depth_step(m, event).0.asks == m.asks,
{
}

/// Whenever a snapshot is asked for, the book buffers, and the diff at hand is the last
/// one in its buffer.
pub proof fn snapshots_are_asked_for_by_buffering_books(m: BookModel, event: DepthModel)
    requires
        book_invariant(m),
        depth_step(m, event).1 == Action::NeedSnapshot,
    ensures
        depth_step(m, event).0.state == BookState::Buffering,
        depth_step(m, event).0.buffer.len() > 0,
        depth_step(m, event).0.buffer.last() == event,
{
}

/// A snapshot is asked for exactly where a diff takes a book into buffering. Only a live
/// book that stays live is published, and a diff about which nothing is to be done leaves
/// the state as it was. After a diff no book is uninitialized.
pub proof fn actions_tell_the_states(m: BookModel, event: DepthModel)
    ensures
        ({
            let (after, action) = depth_step(m, event);
            &&& action == Action::NeedSnapshot <==> m.state != BookState::Buffering && after.state
                == BookState::Buffering
            &&& action == Action::Publish ==> m.state == BookState::Live && after.state
                == BookState::Live
            &&& action == Action::None_ ==> after.state == m.state
            &&& after.state != BookState::Uninitialized
        }),
{
}

/// A stale diff changes nothing.
pub proof fn stale_diffs_are_ignored(m: BookModel, event: DepthModel)
    requires
        m.state == BookState::Live,
        event.last_id <= m.last_update_id,
    ensures
        depth_step(m, event) == (m, Action::None_),
{
}

/// A snapshot changes a book only while it buffers. Of any other book it is only said
/// whether it is live.
pub proof fn snapshots_of_other_books_are_ignored(
    m: BookModel,
    snapshot_id: u64,
    bids: Seq<(Decimal, Decimal)>,
    asks: Seq<(Decimal, Decimal)>,
)
    requires
        m.state != BookState::Buffering,
    ensures
        snapshot_step(m, snapshot_id, bids, asks) == (m, m.state == BookState::Live),
{
}

proof fn lemma_first_break(events: Seq<DepthModel>, snapshot_id: u64, from: int)
    requires
        0 <= from <= events.len(),
    ensures
        from <= first_break(events, snapshot_id, from) <= events.len(),
        forall|i: int|
            from <= i < first_break(events, snapshot_id, from) ==> links(events, i, snapshot_id),
        first_break(events, snapshot_id, from) < events.len() ==> !links(
            events,
            first_break(events, snapshot_id, from),
            snapshot_id,
        ),
    decreases events.len() - from,
{
    if from < events.len() && links(events, from, snapshot_id) {
        lemma_first_break(events, snapshot_id, from + 1);
    }
}

proof fn lemma_replayable_ids(buffer: Seq<DepthModel>, snapshot_id: u64)
    ensures
        forall|i: int|
            0 <= i < replayable(buffer, snapshot_id).len() ==> (#[trigger] replayable(
                buffer,
                snapshot_id,
            )[i]).last_id >= snapshot_id,
{
    let relevant = |event: DepthModel| event.last_id >= snapshot_id;
    assert forall|i: int| 0 <= i < replayable(buffer, snapshot_id).len() implies (
    #[trigger] replayable(buffer, snapshot_id)[i]).last_id >= snapshot_id by {
        buffer.lemma_filter_pred(relevant, i);
        assert(relevant(buffer.filter(relevant)[i]));
    }
}

/// A snapshot takes a book live only over a bridge. Either the first diff that is
/// replayed straddles the snapshot and every other follows the one before; or no
/// buffered diff reaches the snapshot, the bridge is counted as unverified, and the next
/// diff is taken unseen.
pub proof fn books_go_live_over_a_bridge(
    m: BookModel,
    snapshot_id: u64,
    bids: Seq<(Decimal, Decimal)>,
    asks: Seq<(Decimal, Decimal)>,
)
    requires
        m.state == BookState::Buffering,
        snapshot_step(m, snapshot_id, bids, asks).1,
    ensures
        ({
            let after = snapshot_step(m, snapshot_id, bids, asks).0;
            let events = replayable(m.buffer, snapshot_id);
            &&& after.state == BookState::Live
            &&& after.buffer.len() == 0
            &&& after.snapshot_count == m.snapshot_count + 1
            &&& if events.len() == 0 {
                &&& after.need_first_event
                &&& after.unverified_bridge_count == m.unverified_bridge_count + 1
                &&& after.last_update_id == snapshot_id
            } else {
                &&& events[0].first_id <= snapshot_id <= events[0].last_id
                &&& forall|i: int|
                    0 < i < events.len() ==> (#[trigger] events[i]).prev_id == events[i
                        - 1].last_id
                &&& !after.need_first_event
                &&& after.unverified_bridge_count == m.unverified_bridge_count
                &&& after.last_update_id == events.last().last_id
            }
        }),
{
    let events = replayable(m.buffer, snapshot_id);
    lemma_first_break(events, snapshot_id, 0);
    lemma_replayable_ids(m.buffer, snapshot_id);
    assert forall|i: int| 0 < i < events.len() implies (#[trigger] events[i]).prev_id == events[i
        - 1].last_id by {
        assert(links(events, i, snapshot_id));
    }
    if events.len() > 0 {
        assert(links(events, 0, snapshot_id));
    }
}

/// A snapshot with a hole behind it is rejected: where the first diff to be replayed
/// starts after the snapshot, or a later one does not follow the one before, the book
/// stays where it is and another snapshot is wanted.
pub proof fn broken_bridges_are_rejected(
    m: BookModel,
    snapshot_id: u64,
    bids: Seq<(Decimal, Decimal)>,
    asks: Seq<(Decimal, Decimal)>,
    i: int,
)
    requires
        m.state == BookState::Buffering,
        0 <= i < replayable(m.buffer, snapshot_id).len(),
        !links(replayable(m.buffer, snapshot_id), i, snapshot_id),
    ensures
        !snapshot_step(m, snapshot_id, bids, asks).1,
        snapshot_step(m, snapshot_id, bids, asks).0.state == BookState::Buffering,
{
    lemma_first_break(replayable(m.buffer, snapshot_id), snapshot_id, 0);
}

/// A snapshot that no buffered diff reaches stands alone: the book has its levels and its
/// id, the bridge is counted as unverified, and the book goes live unless those levels are
/// crossed.
pub proof fn snapshots_that_no_diff_reaches_stand_alone(
    m: BookModel,
    snapshot_id: u64,
    bids: Seq<(Decimal, Decimal)>,
    asks: Seq<(Decimal, Decimal)>,
)
    requires
        m.state == BookState::Buffering,
        replayable(m.buffer, snapshot_id).len() == 0,
    ensures
        ({
            let (after, live) = snapshot_step(m, snapshot_id, bids, asks);
            &&& after.bids == snapshot_side(bids)
            &&& after.asks == snapshot_side(asks)
            &&& after.last_update_id == snapshot_id
            &&& after.snapshot_count == m.snapshot_count + 1
            &&& after.unverified_bridge_count == m.unverified_bridge_count + 1
            &&& live <==> !crossed(after)
            &&& live <==> after.state == BookState::Live
        }),
{
    let none = replayable(m.buffer, snapshot_id);
    assert(none.take(0) =~= Seq::<DepthModel>::empty());
    let candidate = BookModel {
        state: BookState::Live,
        need_first_event: true,
        unverified_bridge_count: m.unverified_bridge_count + 1,
        bbo_mismatch_count: 0,
        ..loaded(m, snapshot_id, bids, asks, 0)
    };
    lemma_checked(candidate);
    let after = snapshot_step(m, snapshot_id, bids, asks).0;
    if crossed(after) {
        let (bid, ask) = choose|bid: int, ask: int|
            #[trigger] after.bids.contains_key(bid) && #[trigger] after.asks.contains_key(ask)
                && bid >= ask;
        assert(candidate.bids.contains_key(bid) && candidate.asks.contains_key(ask));
        assert(two_sided(candidate));
        assert(crossed(candidate));
    }
    if crossed(candidate) {
        let (bid, ask) = choose|bid: int, ask: int|
            #[trigger] candidate.bids.contains_key(bid) && #[trigger] candidate.asks.contains_key(
                ask,
            ) && bid >= ask;
        assert(after.bids.contains_key(bid) && after.asks.contains_key(ask));
    }
}

/// A rejected snapshot uses up the buffer: no diff that waited before it is replayed after
/// it. So the next snapshot stands alone: the book has its levels and its id, the bridge
/// is counted as unverified, and it goes live unless those levels are crossed.
pub proof fn rejected_snapshots_use_up_the_buffer(
    m: BookModel,
    snapshot_id: u64,
    bids: Seq<(Decimal, Decimal)>,
    asks: Seq<(Decimal, Decimal)>,
    next_id: u64,
    next_bids: Seq<(Decimal, Decimal)>,
    next_asks: Seq<(Decimal, Decimal)>,
)
    requires
        m.state == BookState::Buffering,
        !snapshot_step(m, snapshot_id, bids, asks).1,
    ensures
        ({
            let rejected = snapshot_step(m, snapshot_id, bids, asks).0;
            let (after, live) = snapshot_step(rejected, next_id, next_bids, next_asks);
            &&& rejected.state == BookState::Buffering
            &&& rejected.buffer.len() == 0
            &&& after.bids == snapshot_side(next_bids)
            &&& after.asks == snapshot_side(next_asks)
            &&& after.last_update_id == next_id
            &&& after.snapshot_count == rejected.snapshot_count + 1
            &&& after.unverified_bridge_count == rejected.unverified_bridge_count + 1
            &&& live <==> !crossed(after)
            &&& live <==> after.state == BookState::Live
        }),
{
    let rejected = snapshot_step(m, snapshot_id, bids, asks).0;
    reveal(Seq::filter);
    assert(rejected.buffer =~= Seq::<DepthModel>::empty());
    snapshots_that_no_diff_reaches_stand_alone(rejected, next_id, next_bids, next_asks);
}

/// A book that was marked for a resync is empty but for its counters and its time, and
/// needs no diff to come back: the next snapshot takes it live at once, with the levels and
/// the id of that snapshot, unless those levels are crossed.
pub proof fn resynced_books_need_only_a_snapshot(
    m: BookModel,
    snapshot_id: u64,
    bids: Seq<(Decimal, Decimal)>,
    asks: Seq<(Decimal, Decimal)>,
)
    ensures
        resyncing(m) == (BookModel { state: BookState::Buffering, ..reset_book(m) }),
        ({
            let (after, live) = snapshot_step(resyncing(m), snapshot_id, bids, asks);
            &&& after.bids == snapshot_side(bids)
            &&& after.asks == snapshot_side(asks)
            &&& after.last_update_id == snapshot_id
            &&& after.last_update_time == m.last_update_time
            &&& after.gap_count == m.gap_count
            &&& after.snapshot_count == m.snapshot_count + 1
            &&& after.unverified_bridge_count == m.unverified_bridge_count + 1
            &&& live <==> !crossed(after)
            &&& live <==> after.state == BookState::Live
        }),
{
    reveal(Seq::filter);
    snapshots_that_no_diff_reaches_stand_alone(resyncing(m), snapshot_id, bids, asks);
}

/// Whether entry `i` of a list is the last one at a price.
pub open spec fn last_at(levels: Seq<(Decimal, Decimal)>, i: int, price: int) -> bool {
    &&& 0 <= i < levels.len()
    &&& levels[i].0.units() == price
    &&& forall|j: int| i < j < levels.len() ==> (#[trigger] levels[j]).0.units() != price
}

/// Of a diff's entries at one price the last one decides: it takes the level away where
/// its quantity is zero, and else sets its quantity.
pub proof fn last_change_wins(
    side: Map<int, (Decimal, Decimal)>,
    changes: Seq<(Decimal, Decimal)>,
    i: int,
    price: int,
)
    requires
        last_at(changes, i, price),
    ensures
        with_changes(side, changes).contains_key(price) == !changes[i].1.zero(),
        !changes[i].1.zero() ==> with_changes(side, changes)[price].1 == changes[i].1,
    decreases changes.len(),
{
    if i < changes.len() - 1 {
        let rest = changes.drop_last();
        assert(changes[changes.len() - 1].0.units() != price);
        assert forall|j: int| i < j < rest.len() implies (#[trigger] rest[j]).0.units()
            != price by {
            assert(changes[j].0.units() != price);
        }
        last_change_wins(side, rest, i, price);
    }
}

/// A diff leaves every price alone that it does not name.
pub proof fn other_levels_stay(
    side: Map<int, (Decimal, Decimal)>,
    changes: Seq<(Decimal, Decimal)>,
    price: int,
)
    requires
        forall|i: int| 0 <= i < changes.len() ==> (#[trigger] changes[i]).0.units() != price,
    ensures
        with_changes(side, changes).contains_key(price) == side.contains_key(price),
        side.contains_key(price) ==> with_changes(side, changes)[price] == side[price],
    decreases changes.len(),
{
    if changes.len() > 0 {
        let rest = changes.drop_last();
        assert(changes[changes.len() - 1].0.units() != price);
        assert forall|i: int| 0 <= i < rest.len() implies (#[trigger] rest[i]).0.units()
            != price by {
            assert(changes[i].0.units() != price);
        }
        other_levels_stay(side, rest, price);
    }
}

/// Whether some entry of a list takes the level at a price away.
spec fn takes_away(changes: Seq<(Decimal, Decimal)>, price: int) -> bool {
    exists|i: int|
        0 <= i < changes.len() && (#[trigger] changes[i]).0.units() == price
            && changes[i].1.zero()
}

/// Once a level was taken away, it does not matter what it was before.
proof fn lemma_taken_away(
    side: Map<int, (Decimal, Decimal)>,
    other: Map<int, (Decimal, Decimal)>,
    changes: Seq<(Decimal, Decimal)>,
    price: int,
)
    requires
        takes_away(changes, price),
    ensures
        with_changes(side, changes).contains_key(price) == with_changes(
            other,
            changes,
        ).contains_key(price),
        with_changes(side, changes).contains_key(price) ==> with_changes(side, changes)[price]
            == with_changes(other, changes)[price],
    decreases changes.len(),
{
    let rest = changes.drop_last();
    let last = changes.len() - 1;
    if !(changes[last].0.units() == price && changes[last].1.zero()) {
        let i = choose|i: int|
            0 <= i < changes.len() && (#[trigger] changes[i]).0.units() == price
                && changes[i].1.zero();
        assert(rest[i].0.units() == price && rest[i].1.zero());
        lemma_taken_away(side, other, rest, price);
    }
}

/// A level that is not taken away keeps the way in which its price was written.
proof fn lemma_stays_written(
    side: Map<int, (Decimal, Decimal)>,
    changes: Seq<(Decimal, Decimal)>,
    price: int,
)
    requires
        side.contains_key(price),
        !takes_away(changes, price),
    ensures
        with_changes(side, changes).contains_key(price),
        with_changes(side, changes)[price].0 == side[price].0,
    decreases changes.len(),
{
    if changes.len() > 0 {
        let rest = changes.drop_last();
        if takes_away(rest, price) {
            let i = choose|i: int|
                0 <= i < rest.len() && (#[trigger] rest[i]).0.units() == price
                    && rest[i].1.zero();
            assert(changes[i].0.units() == price && changes[i].1.zero());
        }
        assert(!(changes[changes.len() - 1].0.units() == price && changes[changes.len()
            - 1].1.zero()));
        lemma_stays_written(side, rest, price);
    }
}

/// A diff says the same when it is said twice: it does not matter how often it is applied.
/// Levels stay the same, the way in which their prices are written included.
pub proof fn changes_are_idempotent(
    side: Map<int, (Decimal, Decimal)>,
    changes: Seq<(Decimal, Decimal)>,
)
    ensures
        with_changes(with_changes(side, changes), changes) == with_changes(side, changes),
{
    let once = with_changes(side, changes);
    let twice = with_changes(once, changes);
    assert forall|price: int| once.contains_key(price) == #[trigger] twice.contains_key(price)
        && (once.contains_key(price) ==> once[price] == twice[price]) by {
        if takes_away(changes, price) {
            lemma_taken_away(once, side, changes, price);
        } else if exists|i: int|
            0 <= i < changes.len() && (#[trigger] changes[i]).0.units() == price {
            let i = lemma_last_at(changes, price);
            last_change_wins(side, changes, i, price);
            last_change_wins(once, changes, i, price);
            if once.contains_key(price) {
                lemma_stays_written(once, changes, price);
            }
        } else {
            other_levels_stay(once, changes, price);
        }
    }
    assert forall|price: int| #[trigger] once.dom().contains(price) implies twice.dom().contains(
        price,
    ) && once[price] == twice[price] by {
        assert(once.contains_key(price) == twice.contains_key(price));
    }
    assert forall|price: int| #[trigger] twice.dom().contains(price) implies once.dom().contains(
        price,
    ) by {
        assert(once.contains_key(price) == twice.contains_key(price));
    }
    assert(twice =~= once);
}

/// A book to which a diff is applied twice is the book to which it was applied once.
pub proof fn diffs_are_idempotent(m: BookModel, event: DepthModel)
    ensures
        applied(applied(m, event), event) == applied(m, event),
{
    changes_are_idempotent(m.bids, event.bids);
    changes_are_idempotent(m.asks, event.asks);
}

proof fn lemma_last_at(levels: Seq<(Decimal, Decimal)>, price: int) -> (i: int)
    requires
        exists|i: int| 0 <= i < levels.len() && (#[trigger] levels[i]).0.units() == price,
    ensures
        last_at(levels, i, price),
    decreases levels.len(),
{
    if levels.last().0.units() == price {
        levels.len() - 1
    } else {
        let k = choose|i: int| 0 <= i < levels.len() && (#[trigger] levels[i]).0.units() == price;
        let rest = levels.drop_last();
        assert(rest[k].0.units() == price);
        let i = lemma_last_at(rest, price);
        assert forall|j: int| i < j < levels.len() implies (#[trigger] levels[j]).0.units()
            != price by {
            if j < levels.len() - 1 {
                assert(rest[j].0.units() != price);
            }
        }
        i
    }
}

/// A snapshot's levels of positive quantity are in the book, and no others.
pub proof fn snapshots_list_positive_levels(levels: Seq<(Decimal, Decimal)>, price: int)
    ensures
        snapshot_side(levels).contains_key(price) <==> exists|i: int|
            0 <= i < levels.len() && (#[trigger] levels[i]).0.units() == price
                && levels[i].1.units() > 0,
        snapshot_side(levels).contains_key(price) ==> snapshot_side(levels)[price].1.units() > 0,
    decreases levels.len(),
{
    if levels.len() > 0 {
        let rest = levels.drop_last();
        snapshots_list_positive_levels(rest, price);
        if snapshot_side(rest).contains_key(price) {
            let i = choose|i: int|
                0 <= i < rest.len() && (#[trigger] rest[i]).0.units() == price
                    && rest[i].1.units() > 0;
            assert(levels[i] == rest[i]);
        }
        if exists|i: int|
            0 <= i < levels.len() && (#[trigger] levels[i]).0.units() == price
                && levels[i].1.units() > 0 {
            let i = choose|i: int|
                0 <= i < levels.len() && (#[trigger] levels[i]).0.units() == price
                    && levels[i].1.units() > 0;
            if i < levels.len() - 1 {
                assert(rest[i] == levels[i]);
            }
        }
        if levels.last().0.units() == price && levels.last().1.units() > 0 {
            assert(levels[levels.len() - 1] == levels.last());
        }
    }
}

/// It does not matter whether a diff comes before the snapshot and is replayed, or after
/// it and is applied: the book has the same levels and the same last update id, and
/// where it is live it is live in both cases.
pub proof fn replayed_or_applied_is_the_same(
    m: BookModel,
    event: DepthModel,
    snapshot_id: u64,
    bids: Seq<(Decimal, Decimal)>,
    asks: Seq<(Decimal, Decimal)>,
)
    requires
        m.state == BookState::Buffering,
        m.buffer.len() < BUFFER_MAX,
        snapshot_step(m, snapshot_id, bids, asks).1,
        replayable(m.buffer, snapshot_id).len() > 0,
        event.prev_id == snapshot_step(m, snapshot_id, bids, asks).0.last_update_id,
        event.last_id > event.prev_id,
    ensures
        ({
            let first = snapshot_step(depth_step(m, event).0, snapshot_id, bids, asks).0;
            let later = depth_step(snapshot_step(m, snapshot_id, bids, asks).0, event).0;
            &&& first.bids == later.bids
            &&& first.asks == later.asks
            &&& first.last_update_id == later.last_update_id
            &&& first.gap_count == later.gap_count
            &&& first.state == BookState::Live <==> !crossed(first)
            &&& later.state == BookState::Live ==> first.state == BookState::Live
        }),
{
    let events = replayable(m.buffer, snapshot_id);
    let more = depth_step(m, event).0;
    let all = replayable(more.buffer, snapshot_id);
    let relevant = |e: DepthModel| e.last_id >= snapshot_id;
    books_go_live_over_a_bridge(m, snapshot_id, bids, asks);
    lemma_replayable_ids(m.buffer, snapshot_id);
    lemma_first_break(events, snapshot_id, 0);
    assert(all == events.push(event)) by {
        reveal(Seq::filter);
        assert(more.buffer.drop_last() =~= m.buffer);
        assert(relevant(event));
    }
    let n = events.len() as int;
    assert forall|i: int| 0 <= i <= n implies links(all, i, snapshot_id) by {
        if i < n {
            assert(links(events, i, snapshot_id));
        }
    }
    lemma_first_break(all, snapshot_id, 0);
    assert(first_break(all, snapshot_id, 0) == n + 1);
    assert(all.take(n + 1) =~= all);
    assert(all.drop_last() =~= events);
    assert(events.take(n) =~= events);
    let synced = snapshot_step(m, snapshot_id, bids, asks).0;
    let first = snapshot_step(more, snapshot_id, bids, asks).0;
    let later = depth_step(synced, event).0;
    assert(first.bids == with_changes(synced.bids, event.bids));
    assert(first.asks == with_changes(synced.asks, event.asks));
    assert(later.bids == first.bids && later.asks == first.asks);
    if crossed(first) {
        let (bid, ask) = choose|bid: int, ask: int|
            #[trigger] first.bids.contains_key(bid) && #[trigger] first.asks.contains_key(ask)
                && bid >= ask;
        assert(two_sided(first));
        assert(later.bids.contains_key(bid) && later.asks.contains_key(ask));
        assert(crossed(applied(BookModel { need_first_event: false, ..synced }, event)));
    }
    let candidate = BookModel {
        state: BookState::Live,
        need_first_event: false,
        unverified_bridge_count: m.unverified_bridge_count,
        bbo_mismatch_count: 0,
        ..loaded(more, snapshot_id, bids, asks, n + 1)
    };
    if crossed(candidate) {
        let (bid, ask) = choose|bid: int, ask: int|
            #[trigger] candidate.bids.contains_key(bid) && #[trigger] candidate.asks.contains_key(
                ask,
            ) && bid >= ask;
        assert(first.bids.contains_key(bid) && first.asks.contains_key(ask));
        assert(crossed(first));
    }
}

/// A book after a sequence of diffs.
pub open spec fn depth_run(m: BookModel, events: Seq<DepthModel>) -> BookModel
    decreases events.len(),
{
    if events.len() == 0 {
        m
    } else {
        depth_step(depth_run(m, events.drop_last()), events.last()).0
    }
}

/// No diff is lost in silence: while a book buffers, the diffs in the buffer and those
/// counted as dropped are all the diffs that came, and the buffer holds the latest ones.
pub proof fn drops_are_counted(m: BookModel, events: Seq<DepthModel>)
    requires
        m.state == BookState::Buffering,
        m.buffer.len() <= BUFFER_MAX,
    ensures
        ({
            let after = depth_run(m, events);
            let came = m.buffer + events;
            &&& after.state == BookState::Buffering
            &&& after.buffer.len() == if came.len() <= BUFFER_MAX {
                came.len() as int
            } else {
                BUFFER_MAX as int
            }
            &&& after.buffer == came.skip(came.len() - after.buffer.len())
            &&& after.buffer_dropped - m.buffer_dropped + after.buffer.len() == came.len()
        }),
    decreases events.len(),
{
    let came = m.buffer + events;
    if events.len() == 0 {
        assert(came =~= m.buffer);
        assert(came.skip(0) =~= came);
    } else {
        let rest = events.drop_last();
        drops_are_counted(m, rest);
        let before = depth_run(m, rest);
        let after = depth_run(m, events);
        assert(came =~= (m.buffer + rest).push(events.last()));
        assert(after.buffer =~= came.skip(came.len() - after.buffer.len()));
    }
}

/// Whether every diff of a sequence is published.
pub open spec fn all_published(m: BookModel, events: Seq<DepthModel>) -> bool
    decreases events.len(),
{
    events.len() > 0 ==> {
        &&& all_published(m, events.drop_last())
        &&& depth_step(depth_run(m, events.drop_last()), events.last()).1 == Action::Publish
    }
}

/// A live book is its snapshot with every diff since applied, none left out: those that
/// waited for the snapshot, and those that were published after it. Each of the latter
/// follows the one before.
pub proof fn live_books_hold_every_diff(
    m: BookModel,
    snapshot_id: u64,
    bids: Seq<(Decimal, Decimal)>,
    asks: Seq<(Decimal, Decimal)>,
    events: Seq<DepthModel>,
)
    requires
        m.state == BookState::Buffering,
        snapshot_step(m, snapshot_id, bids, asks).1,
        all_published(snapshot_step(m, snapshot_id, bids, asks).0, events),
    ensures
        ({
            let synced = snapshot_step(m, snapshot_id, bids, asks).0;
            let after = depth_run(synced, events);
            let diffs = replayable(m.buffer, snapshot_id) + events;
            &&& after.state == BookState::Live
            &&& after.bids == replayed_bids(snapshot_side(bids), diffs)
            &&& after.asks == replayed_asks(snapshot_side(asks), diffs)
            &&& events.len() > 0 ==> after.last_update_id == events.last().last_id
                && !after.need_first_event
            &&& events.len() > 0 && !synced.need_first_event ==> events[0].prev_id
                == synced.last_update_id
            &&& forall|i: int|
                0 < i < events.len() ==> (#[trigger] events[i]).prev_id == events[i - 1].last_id
        }),
    decreases events.len(),
{
    let synced = snapshot_step(m, snapshot_id, bids, asks).0;
    let waited = replayable(m.buffer, snapshot_id);
    lemma_first_break(waited, snapshot_id, 0);
    assert(waited.take(waited.len() as int) =~= waited);
    if events.len() == 0 {
        assert(waited + events =~= waited);
    } else {
        let rest = events.drop_last();
        live_books_hold_every_diff(m, snapshot_id, bids, asks, rest);
        assert((waited + events).drop_last() =~= waited + rest);
        assert((waited + events).last() == events.last());
        assert forall|i: int| 0 < i < events.len() implies (#[trigger] events[i]).prev_id
            == events[i - 1].last_id by {
            if i < rest.len() {
                assert(rest[i].prev_id == rest[i - 1].last_id);
            } else {
                assert(rest.last() == events[i - 1]);
            }
        }
        if rest.len() > 0 {
            assert(rest[0] == events[0]);
        }
    }
}

/// A book that lost or never had its synchronisation counts no gaps: a gap is counted
/// once, by the live book that sees it.
pub proof fn only_live_books_count_gaps(m: BookModel, event: DepthModel)
    ensures
        depth_step(m, event).0.gap_count == m.gap_count + if m.state == BookState::Live
            && event.last_id > m.last_update_id && is_gap(m, event) {
            1int
        } else {
            0int
        },
{
}

/// After a reset, as after a lost connection, no sequence of diffs counts as a gap until
/// a snapshot has taken the book live again.
pub proof fn resets_are_no_gaps(m: BookModel, events: Seq<DepthModel>)
    ensures
        depth_run(reset_book(m), events).gap_count == m.gap_count,
        depth_run(reset_book(m), events).state != BookState::Live,
        depth_run(resyncing(m), events).gap_count == m.gap_count,
        depth_run(resyncing(m), events).state == BookState::Buffering,
    decreases events.len(),
{
    if events.len() > 0 {
        resets_are_no_gaps(m, events.drop_last());
    }
}

/// After a reset the next diff asks for a snapshot, as it does for a new book.
pub proof fn resets_start_over(m: BookModel, event: DepthModel)
    ensures
        depth_step(reset_book(m), event).1 == Action::NeedSnapshot,
        depth_step(reset_book(m), event).0.state == BookState::Buffering,
        depth_step(reset_book(m), event).0.buffer == seq![event],
        reset_book(reset_book(m)) == reset_book(m),
        reset_book(unsynced(m.symbol)) == unsynced(m.symbol),
{
    assert(depth_step(reset_book(m), event).0.buffer =~= seq![event]);
}

/// A gap heals: a snapshot that the diff at hand straddles takes the book live again,
/// with that diff applied, unless the book would be crossed.
pub proof fn gaps_heal(
    m: BookModel,
    event: DepthModel,
    snapshot_id: u64,
    bids: Seq<(Decimal, Decimal)>,
    asks: Seq<(Decimal, Decimal)>,
)
    requires
        m.state == BookState::Live,
        depth_step(m, event).1 == Action::NeedSnapshot,
        event.first_id <= snapshot_id <= event.last_id,
    ensures
        ({
            let (after, live) = snapshot_step(depth_step(m, event).0, snapshot_id, bids, asks);
            &&& after.bids == with_changes(snapshot_side(bids), event.bids)
            &&& after.asks == with_changes(snapshot_side(asks), event.asks)
            &&& after.last_update_id == event.last_id
            &&& live == !crossed(after)
            &&& live ==> after.state == BookState::Live
            &&& after.gap_count == depth_step(m, event).0.gap_count
        }),
{
    let fallen = depth_step(m, event).0;
    let relevant = |e: DepthModel| e.last_id >= snapshot_id;
    let events = replayable(fallen.buffer, snapshot_id);
    assert(events == seq![event]) by {
        reveal_with_fuel(Seq::filter, 2);
        assert(fallen.buffer.drop_last() =~= Seq::<DepthModel>::empty());
        assert(relevant(event));
        assert(events =~= seq![event]);
    }
    assert(links(events, 0, snapshot_id));
    lemma_first_break(events, snapshot_id, 0);
    lemma_first_break(events, snapshot_id, 1);
    assert(first_break(events, snapshot_id, 0) == 1);
    assert(events.take(1) =~= events);
    assert(events.drop_last() =~= Seq::<DepthModel>::empty());
    reveal_with_fuel(replayed_bids, 2);
    reveal_with_fuel(replayed_asks, 2);
    let after = snapshot_step(fallen, snapshot_id, bids, asks).0;
    let candidate = BookModel {
        state: BookState::Live,
        need_first_event: false,
        bbo_mismatch_count: 0,
        ..loaded(fallen, snapshot_id, bids, asks, 1)
    };
    lemma_checked(candidate);
    if crossed(after) {
        let (bid, ask) = choose|bid: int, ask: int|
            #[trigger] after.bids.contains_key(bid) && #[trigger] after.asks.contains_key(ask)
                && bid >= ask;
        assert(candidate.bids.contains_key(bid) && candidate.asks.contains_key(ask));
        assert(two_sided(candidate));
        assert(crossed(candidate));
    }
    if crossed(candidate) {
        let (bid, ask) = choose|bid: int, ask: int|
            #[trigger] candidate.bids.contains_key(bid) && #[trigger] candidate.asks.contains_key(
                ask,
            ) && bid >= ask;
        assert(after.bids.contains_key(bid) && after.asks.contains_key(ask));
    }
}

/// Whether every diff of a sequence is published, by a book that differs from the ticker.
pub open spec fn publishes_against_ticker(m: BookModel, events: Seq<DepthModel>) -> bool
    decreases events.len(),
{
    events.len() > 0 ==> {
        let before = depth_run(m, events.drop_last());
        let (after, action) = depth_step(before, events.last());
        &&& publishes_against_ticker(m, events.drop_last())
        &&& action == Action::Publish
        &&& two_sided(after)
        &&& ticker_known(after)
        &&& !matches_ticker(after)
    }
}

proof fn lemma_mismatches_add_up(m: BookModel, events: Seq<DepthModel>)
    requires
        publishes_against_ticker(m, events),
    ensures
        depth_run(m, events).bbo_mismatch_count == m.bbo_mismatch_count + events.len(),
    decreases events.len(),
{
    if events.len() > 0 {
        let rest = events.drop_last();
        lemma_mismatches_add_up(m, rest);
        let before = depth_run(m, rest);
        let after = depth_step(before, events.last()).0;
        let a = applied(BookModel { need_first_event: false, ..before }, events.last());
        assert(after == checked(a).0 && checked(a).1);
        assert(two_sided(a) && ticker_known(a) && !crossed(a));
        assert(matches_ticker(a) == matches_ticker(after));
    }
}

/// A book differs from the ticker less than `BBO_MISMATCH_THRESHOLD` times in a row: of
/// that many diffs in a row one is not published, or the book agrees with the ticker
/// after it.
pub proof fn divergence_is_noticed(m: BookModel, events: Seq<DepthModel>)
    requires
        m.bbo_mismatch_count >= 0,
        events.len() >= BBO_MISMATCH_THRESHOLD,
    ensures
        !publishes_against_ticker(m, events),
{
    if publishes_against_ticker(m, events) {
        lemma_mismatches_add_up(m, events);
        lemma_mismatches_add_up(m, events.drop_last());
        let before = depth_run(m, events.drop_last());
        let a = applied(BookModel { need_first_event: false, ..before }, events.last());
        let after = depth_step(before, events.last()).0;
        assert(after == checked(a).0 && checked(a).1);
        assert(matches_ticker(a) == matches_ticker(after));
    }
}

/// The mismatch that reaches the threshold asks for a snapshot.
pub proof fn divergence_asks_for_a_snapshot(m: BookModel, event: DepthModel)
    requires
        m.state == BookState::Live,
        event.last_id > m.last_update_id,
        !is_gap(m, event),
        m.bbo_mismatch_count == BBO_MISMATCH_THRESHOLD - 1,
        two_sided(applied(m, event)),
        ticker_known(m),
        !matches_ticker(applied(m, event)),
    ensures
        depth_step(m, event).1 == Action::NeedSnapshot,
        depth_step(m, event).0.state == BookState::Buffering,
        depth_step(m, event).0.bbo_mismatch_count == 0,
{
    let a = applied(BookModel { need_first_event: false, ..m }, event);
    assert(matches_ticker(a) == matches_ticker(applied(m, event)));
    assert(two_sided(a));
}

/// A book that agrees with the ticker starts to count mismatches anew.
pub proof fn agreement_clears_mismatches(m: BookModel, event: DepthModel)
    requires
        depth_step(m, event).1 == Action::Publish,
        two_sided(depth_step(m, event).0),
        ticker_known(m),
        matches_ticker(depth_step(m, event).0),
    ensures
        depth_step(m, event).0.bbo_mismatch_count == 0,
{
    let a = applied(BookModel { need_first_event: false, ..m }, event);
    assert(matches_ticker(a) == matches_ticker(depth_step(m, event).0));
    assert(two_sided(a));
}

/// A crossed book is never published: it is counted, and a snapshot is asked for.
pub proof fn crossed_books_ask_for_a_snapshot(m: BookModel, event: DepthModel)
    requires
        m.state == BookState::Live,
        event.last_id > m.last_update_id,
        !is_gap(m, event),
        crossed(applied(m, event)),
    ensures
        depth_step(m, event).1 == Action::NeedSnapshot,
        depth_step(m, event).0.state == BookState::Buffering,
        depth_step(m, event).0.crossed_count == m.crossed_count + 1,
{
    let a = applied(BookModel { need_first_event: false, ..m }, event);
    let (bid, ask) = choose|bid: int, ask: int|
        #[trigger] applied(m, event).bids.contains_key(bid) && #[trigger] applied(
            m,
            event,
        ).asks.contains_key(ask) && bid >= ask;
    assert(a.bids.contains_key(bid) && a.asks.contains_key(ask));
    assert(two_sided(a) && crossed(a));
}

/// Diffs never turn back: while a book stays live, its last update id does not fall.
pub proof fn update_ids_do_not_fall(m: BookModel, event: DepthModel)
    requires
        m.state == BookState::Live,
        depth_step(m, event).0.state == BookState::Live,
    ensures
        m.last_update_id <= depth_step(m, event).0.last_update_id,
{
}

/// Counters do not fall, whatever comes.
pub proof fn counters_do_not_fall(
    m: BookModel,
    event: DepthModel,
    snapshot_id: u64,
    bids: Seq<(Decimal, Decimal)>,
    asks: Seq<(Decimal, Decimal)>,
)
    ensures
        counters_at_least(depth_step(m, event).0, m),
        counters_at_least(snapshot_step(m, snapshot_id, bids, asks).0, m),
        counters_at_least(reset_book(m), m),
        counters_at_least(resyncing(m), m),
{
}

/// Whether no counter of `later` is below that of `earlier`.
pub open spec fn counters_at_least(later: BookModel, earlier: BookModel) -> bool {
    &&& later.snapshot_count >= earlier.snapshot_count
    &&& later.gap_count >= earlier.gap_count
    &&& later.crossed_count >= earlier.crossed_count
    &&& later.buffer_dropped >= earlier.buffer_dropped
    &&& later.unverified_bridge_count >= earlier.unverified_bridge_count
}

/// The best levels of a side come best first, and no level that was left out is better:
/// for bids the highest prices, for asks the lowest.
pub proof fn top_levels_are_the_best(levels: Seq<(Decimal, Decimal)>, n: nat)
    requires
        ascending(levels),
    ensures
        ({
            let bids = highest_first(levels, n);
            let asks = lowest_first(levels, n);
            let count = if n < levels.len() {
                n
            } else {
                levels.len()
            };
            &&& bids.len() == count
            &&& asks.len() == count
            &&& forall|i: int, j: int|
                0 <= i < j < count ==> #[trigger] bids[i].0.units() > #[trigger] bids[j].0.units()
            &&& forall|i: int, j: int|
                0 <= i < j < count ==> #[trigger] asks[i].0.units() < #[trigger] asks[j].0.units()
            &&& forall|i: int| 0 <= i < count ==> levels.contains(#[trigger] bids[i])
            &&& forall|i: int| 0 <= i < count ==> levels.contains(#[trigger] asks[i])
            &&& forall|i: int, k: int|
                0 <= i < count && 0 <= k < levels.len() - count ==> #[trigger] bids[i].0.units()
                    > #[trigger] levels[k].0.units()
            &&& forall|i: int, k: int|
                0 <= i < count <= k < levels.len() ==> #[trigger] asks[i].0.units()
                    < #[trigger] levels[k].0.units()
        }),
{
    let bids = highest_first(levels, n);
    let asks = lowest_first(levels, n);
    let size = levels.len();
    assert forall|i: int| 0 <= i < bids.len() implies bids[i] == levels[size - 1 - i] by {}
    assert forall|i: int| 0 <= i < asks.len() implies asks[i] == levels[i] by {}
}

/// The first of the best bids is the highest bid, and the first of the best asks is the
/// lowest ask.
pub proof fn best_prices_come_first(levels: Seq<(Decimal, Decimal)>, n: nat)
    requires
        ascending(levels),
        levels.len() > 0,
        n > 0,
    ensures
        is_highest(by_price(levels), highest_first(levels, n)[0].0.units()),
        is_lowest(by_price(levels), lowest_first(levels, n)[0].0.units()),
{
    let last = levels.len() - 1;
    crate::levels::lemma_by_price_at(levels, last);
    crate::levels::lemma_by_price_at(levels, 0);
    assert forall|p: int| #[trigger] by_price(levels).contains_key(p) implies
        levels[0].0.units() <= p <= levels[last].0.units() by {
        let i = choose|i: int| priced_at(levels, i, p);
        assert(priced_at(levels, i, p));
        if 0 < i {
            assert(levels[0].0.units() < levels[i].0.units());
        }
        if i < last {
            assert(levels[i].0.units() < levels[last].0.units());
        }
    }
}

} // verus!
