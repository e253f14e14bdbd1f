//! What each event does to a book, case by case and field by field.
use vstd::prelude::*;

use crate::book::{Action, BookState};
use crate::decimal::Decimal;
use crate::model::{
    crossed, depth_room, depth_step, first_break, links, loaded, matches_ticker, replayable,
    replayed_asks, replayed_bids, reset_book, resyncing, snapshot_room, snapshot_side,
    snapshot_step, two_sided, unsynced, with_changes, BookModel, DepthModel,
};

verus! {

/// Of a new book only its symbol is known: it has no levels, waits for nothing and counted
/// nothing.
pub proof fn new_books_know_nothing(symbol: Seq<char>)
    ensures
        ({
            let m = unsynced(symbol);
            &&& m.symbol == symbol
            &&& m.state == BookState::Uninitialized
            &&& forall|price: int| !(#[trigger] m.bids.contains_key(price))
            &&& forall|price: int| !(#[trigger] m.asks.contains_key(price))
            &&& m.last_update_id == 0 && m.last_update_time == 0
            &&& m.snapshot_count == 0 && m.gap_count == 0 && m.crossed_count == 0
            &&& m.buffer_dropped == 0 && m.unverified_bridge_count == 0
            &&& m.buffer.len() == 0 && !m.need_first_event
            &&& m.ticker_bid == 0 && m.ticker_ask == 0 && m.bbo_mismatch_count == 0
        }),
{
}

/// A reset and a resync keep the symbol, the counters and the time, and forget everything
/// else. They differ only in whether the book then waits for a snapshot.
pub proof fn resets_forget_all_but_the_counters(m: BookModel)
    ensures
        reset_book(m).state == BookState::Uninitialized,
        resyncing(m).state == BookState::Buffering,
        resyncing(m) == (BookModel { state: BookState::Buffering, ..reset_book(m) }),
        ({
            let r = reset_book(m);
            &&& forall|price: int| !(#[trigger] r.bids.contains_key(price))
            &&& forall|price: int| !(#[trigger] r.asks.contains_key(price))
            &&& r.last_update_id == 0 && r.buffer.len() == 0 && !r.need_first_event
            &&& r.ticker_bid == 0 && r.ticker_ask == 0 && r.bbo_mismatch_count == 0
            &&& r.symbol == m.symbol
            &&& r.last_update_time == m.last_update_time
            &&& r.snapshot_count == m.snapshot_count
            &&& r.gap_count == m.gap_count
            &&& r.crossed_count == m.crossed_count
            &&& r.buffer_dropped == m.buffer_dropped
            &&& r.unverified_bridge_count == m.unverified_bridge_count
        }),
{
}

/// One more entry of a diff, behind others: a quantity of nothing takes the level at that
/// price away, any other is the quantity there from now on; a price that is there keeps the
/// way it is written. No other price is touched.
pub proof fn changes_act_one_by_one(
    side: Map<int, (Decimal, Decimal)>,
    changes: Seq<(Decimal, Decimal)>,
    price: Decimal,
    qty: Decimal,
    other: int,
)
    ensures
        with_changes(side, Seq::empty()) == side,
        ({
            let before = with_changes(side, changes);
            let after = with_changes(side, changes.push((price, qty)));
            let p = price.units();
            &&& after.contains_key(p) <==> qty.units() != 0
            &&& qty.units() != 0 ==> after[p].1 == qty
            &&& qty.units() != 0 && before.contains_key(p) ==> after[p].0 == before[p].0
            &&& qty.units() != 0 && !before.contains_key(p) ==> after[p].0 == price
            &&& other != p ==> (after.contains_key(other) <==> before.contains_key(other))
            &&& other != p && before.contains_key(other) ==> after[other] == before[other]
        }),
{
    assert(changes.push((price, qty)).drop_last() =~= changes);
    crate::decimal::lemma_units_zero(qty);
}

/// One more level of a snapshot, behind others: it counts where its quantity is positive,
/// and then is the quantity at its price; a price that is there keeps the way it is written.
/// No other price is touched.
pub proof fn snapshots_fill_one_by_one(
    levels: Seq<(Decimal, Decimal)>,
    price: Decimal,
    qty: Decimal,
    other: int,
)
    ensures
        forall|p: int| !(#[trigger] snapshot_side(Seq::empty()).contains_key(p)),
        ({
            let before = snapshot_side(levels);
            let after = snapshot_side(levels.push((price, qty)));
            let p = price.units();
            &&& qty.units() <= 0 ==> after == before
            &&& qty.units() > 0 ==> after.contains_key(p) && after[p].1 == qty
            &&& qty.units() > 0 && before.contains_key(p) ==> after[p].0 == before[p].0
            &&& qty.units() > 0 && !before.contains_key(p) ==> after[p].0 == price
            &&& other != p ==> (after.contains_key(other) <==> before.contains_key(other))
            &&& other != p && before.contains_key(other) ==> after[other] == before[other]
        }),
{
    assert(levels.push((price, qty)).drop_last() =~= levels);
}

/// A replay applies one diff after the other: bids to bids and asks to asks.
pub proof fn replays_act_one_by_one(
    bids: Map<int, (Decimal, Decimal)>,
    asks: Map<int, (Decimal, Decimal)>,
    events: Seq<DepthModel>,
    event: DepthModel,
)
    ensures
        replayed_bids(bids, Seq::empty()) == bids,
        replayed_asks(asks, Seq::empty()) == asks,
        replayed_bids(bids, events.push(event)) == with_changes(
            replayed_bids(bids, events),
            event.bids,
        ),
        replayed_asks(asks, events.push(event)) == with_changes(
            replayed_asks(asks, events),
            event.asks,
        ),
{
    assert(events.push(event).drop_last() =~= events);
}

/// A book that is not live puts every diff behind those that wait. Of more than 5000 the
/// oldest is lost, and counted. The first diff of all asks for a snapshot. Nothing else
/// changes.
pub proof fn diffs_wait_until_a_book_is_live(m: BookModel, event: DepthModel)
    requires
        m.state != BookState::Live,
        m.buffer.len() <= 5000,
    ensures
        ({
            let (after, action) = depth_step(m, event);
            let full = m.buffer.len() == 5000;
            &&& after.buffer.len() == if full {
                5000
            } else {
                m.buffer.len() + 1
            }
            &&& after.buffer.last() == event
            &&& forall|i: int|
                0 <= i < after.buffer.len() - 1 ==> #[trigger] after.buffer[i] == m.buffer[if full {
                    i + 1
                } else {
                    i
                }]
            &&& after.buffer_dropped - m.buffer_dropped == if full {
                1int
            } else {
                0int
            }
            &&& after == (BookModel {
                state: BookState::Buffering,
                buffer: after.buffer,
                buffer_dropped: after.buffer_dropped,
                ..m
            })
            &&& action == if m.state == BookState::Uninitialized {
                Action::NeedSnapshot
            } else {
                Action::None_
            }
        }),
{
}

/// A diff that does not follow the last one is a gap: it is counted, nothing of it is
/// applied, and the book buffers from it on.
pub proof fn gaps_are_not_applied(m: BookModel, event: DepthModel)
    requires
        m.state == BookState::Live,
        event.last_id > m.last_update_id,
        !m.need_first_event,
        event.prev_id != m.last_update_id,
    ensures
        depth_step(m, event).1 == Action::NeedSnapshot,
        depth_step(m, event).0 == (BookModel {
            state: BookState::Buffering,
            buffer: seq![event],
            bbo_mismatch_count: 0,
            gap_count: m.gap_count + 1,
            ..m
        }),
{
}

/// Whether a live book applies a diff: it is newer, and follows the last one or is the first
/// after a snapshot that no diff reached.
pub open spec fn in_sequence(m: BookModel, event: DepthModel) -> bool {
    &&& m.state == BookState::Live
    &&& event.last_id > m.last_update_id
    &&& m.need_first_event || event.prev_id == m.last_update_id
}

/// A book with the levels and the update id of a diff in it.
pub open spec fn carried_on(m: BookModel, event: DepthModel) -> BookModel {
    BookModel {
        bids: with_changes(m.bids, event.bids),
        asks: with_changes(m.asks, event.asks),
        last_update_id: event.last_id,
        need_first_event: false,
        ..m
    }
}

/// A diff that makes somebody bid what somebody asks, or more, loses the book: the crossing
/// is counted, and the book buffers from that diff on.
pub proof fn crossings_lose_the_book(m: BookModel, event: DepthModel, bid: int, ask: int)
    requires
        in_sequence(m, event),
        with_changes(m.bids, event.bids).contains_key(bid),
        with_changes(m.asks, event.asks).contains_key(ask),
        bid >= ask,
    ensures
        depth_step(m, event).1 == Action::NeedSnapshot,
        depth_step(m, event).0 == (BookModel {
            state: BookState::Buffering,
            buffer: seq![event],
            bbo_mismatch_count: 0,
            crossed_count: m.crossed_count + 1,
            ..carried_on(m, event)
        }),
{
    let a = carried_on(m, event);
    assert(a.bids.contains_key(bid) && a.asks.contains_key(ask));
    assert(two_sided(a) && crossed(a));
}

/// A diff after which a side is empty is published, whatever the ticker says.
pub proof fn one_sided_books_are_published(m: BookModel, event: DepthModel)
    requires
        in_sequence(m, event),
        (forall|p: int| !(#[trigger] with_changes(m.bids, event.bids).contains_key(p))) || (
        forall|p: int| !(#[trigger] with_changes(m.asks, event.asks).contains_key(p))),
    ensures
        depth_step(m, event) == (carried_on(m, event), Action::Publish),
{
    let a = carried_on(m, event);
    if forall|p: int| !(#[trigger] with_changes(m.bids, event.bids).contains_key(p)) {
        assert(a.bids =~= Map::<int, (Decimal, Decimal)>::empty());
    } else {
        assert(a.asks =~= Map::<int, (Decimal, Decimal)>::empty());
    }
}

/// A diff after which every bid is lower than every ask is published, as long as the ticker
/// did not tell both best prices.
pub proof fn without_a_ticker_books_are_published(m: BookModel, event: DepthModel)
    requires
        in_sequence(m, event),
        m.ticker_bid == 0 || m.ticker_ask == 0,
        forall|bid: int, ask: int|
            #[trigger] with_changes(m.bids, event.bids).contains_key(bid)
                && #[trigger] with_changes(m.asks, event.asks).contains_key(ask) ==> bid < ask,
    ensures
        depth_step(m, event) == (carried_on(m, event), Action::Publish),
{
    let a = carried_on(m, event);
    assert(!crossed(a));
}

/// The cross-check with the ticker, for a book whose highest bid is `bid` and whose lowest
/// ask is `ask` after a diff. Where either differs from what the ticker told, that is one
/// more mismatch in a row, and the tenth loses the book. Where both agree, the row is over.
pub proof fn the_ticker_checks_both_best_prices(
    m: BookModel,
    event: DepthModel,
    bid: int,
    ask: int,
)
    requires
        in_sequence(m, event),
        m.ticker_bid != 0,
        m.ticker_ask != 0,
        with_changes(m.bids, event.bids).contains_key(bid),
        forall|p: int| #[trigger]
            with_changes(m.bids, event.bids).contains_key(p) ==> p <= bid,
        with_changes(m.asks, event.asks).contains_key(ask),
        forall|p: int| #[trigger]
            with_changes(m.asks, event.asks).contains_key(p) ==> ask <= p,
        bid < ask,
    ensures
        bid == m.ticker_bid && ask == m.ticker_ask ==> depth_step(m, event) == (
            BookModel { bbo_mismatch_count: 0, ..carried_on(m, event) },
            Action::Publish,
        ),
        (bid != m.ticker_bid || ask != m.ticker_ask) && m.bbo_mismatch_count < 9 ==> depth_step(
            m,
            event,
        ) == (
            BookModel {
                bbo_mismatch_count: m.bbo_mismatch_count + 1,
                ..carried_on(m, event)
            },
            Action::Publish,
        ),
        (bid != m.ticker_bid || ask != m.ticker_ask) && m.bbo_mismatch_count >= 9 ==> depth_step(
            m,
            event,
        ) == (
            BookModel {
                state: BookState::Buffering,
                buffer: seq![event],
                bbo_mismatch_count: 0,
                ..carried_on(m, event)
            },
            Action::NeedSnapshot,
        ),
{
    let a = carried_on(m, event);
    assert(a.bids.contains_key(bid) && a.asks.contains_key(ask));
    assert(two_sided(a));
    assert(!crossed(a)) by {
        if crossed(a) {
            let (b, s) = choose|b: int, s: int|
                #[trigger] a.bids.contains_key(b) && #[trigger] a.asks.contains_key(s) && b >= s;
            assert(with_changes(m.bids, event.bids).contains_key(b));
            assert(with_changes(m.asks, event.asks).contains_key(s));
        }
    }
    assert(matches_ticker(a) <==> bid == m.ticker_bid && ask == m.ticker_ask) by {
        if matches_ticker(a) {
            assert(a.bids.contains_key(m.ticker_bid) && a.asks.contains_key(m.ticker_ask));
            assert(with_changes(m.bids, event.bids).contains_key(m.ticker_bid));
            assert(with_changes(m.asks, event.asks).contains_key(m.ticker_ask));
        }
        if bid == m.ticker_bid && ask == m.ticker_ask {
            assert forall|p: int| #[trigger] a.bids.contains_key(p) implies p <= bid by {
                assert(with_changes(m.bids, event.bids).contains_key(p));
            }
            assert forall|p: int| #[trigger] a.asks.contains_key(p) implies ask <= p by {
                assert(with_changes(m.asks, event.asks).contains_key(p));
            }
        }
    }
}

/// In a published book every bid is lower than every ask.
pub proof fn published_books_have_a_spread(m: BookModel, event: DepthModel, bid: int, ask: int)
    requires
        depth_step(m, event).1 == Action::Publish,
        depth_step(m, event).0.bids.contains_key(bid),
        depth_step(m, event).0.asks.contains_key(ask),
    ensures
        bid < ask,
{
    if bid >= ask {
        crossings_lose_the_book(m, event, bid, ask);
    }
}

/// The positions of the buffered diffs that a snapshot does not make obsolete.
proof fn kept_positions(buffer: Seq<DepthModel>, snapshot_id: u64) -> (at: Seq<int>)
    ensures
        forall|k: int| 0 <= k < at.len() ==> 0 <= #[trigger] at[k] < buffer.len(),
        forall|k: int, l: int| 0 <= k < l < at.len() ==> #[trigger] at[k] < #[trigger] at[l],
        forall|i: int|
            0 <= i < buffer.len() ==> (#[trigger] buffer[i].last_id >= snapshot_id
                <==> at.contains(i)),
        replayable(buffer, snapshot_id).len() == at.len(),
        forall|k: int|
            0 <= k < at.len() ==> #[trigger] replayable(buffer, snapshot_id)[k] == buffer[at[k]],
    decreases buffer.len(),
{
    reveal(Seq::filter);
    if buffer.len() == 0 {
        Seq::empty()
    } else {
        let n = buffer.len() - 1;
        let shorter = kept_positions(buffer.drop_last(), snapshot_id);
        let at = if buffer[n].last_id >= snapshot_id {
            shorter.push(n)
        } else {
            shorter
        };
        assert forall|i: int| 0 <= i < buffer.len() implies (#[trigger] buffer[i].last_id
            >= snapshot_id <==> at.contains(i)) by {
            if i < n {
                assert(buffer.drop_last()[i] == buffer[i]);
                if shorter.contains(i) {
                    let k = choose|k: int| 0 <= k < shorter.len() && shorter[k] == i;
                    assert(at[k] == i);
                }
                if at.contains(i) {
                    let k = choose|k: int| 0 <= k < at.len() && at[k] == i;
                    assert(shorter[k] == i);
                }
            } else if buffer[n].last_id >= snapshot_id {
                assert(at[shorter.len() as int] == n);
            } else if at.contains(i) {
                let k = choose|k: int| 0 <= k < at.len() && at[k] == i;
                assert(shorter[k] == i);
            }
        }
        at
    }
}

/// Where a replay breaks: everything before is linked, and that one is not.
proof fn lemma_first_break(events: Seq<DepthModel>, snapshot_id: u64, from: int)
    requires
        0 <= from <= events.len(),
    ensures
        from <= first_break(events, snapshot_id, from) <= events.len(),
        forall|k: int|
            from <= k < first_break(events, snapshot_id, from) ==> #[trigger] links(
                events,
                k,
                snapshot_id,
            ),
        first_break(events, snapshot_id, from) < events.len() ==> !links(
            events,
            first_break(events, snapshot_id, from),
            snapshot_id,
        ),
    decreases events.len() - from,
{
    if from < events.len() && links(events, from, snapshot_id) {
        lemma_first_break(events, snapshot_id, from + 1);
    }
}

/// What a buffering book does with a snapshot. `at` are the positions of the diffs in the
/// buffer that end at the snapshot or after it, in order, and the first `n` of them are
/// replayed: the first must not start after the snapshot, and every other must name the one
/// before it. Where that breaks off, the snapshot is rejected and the book goes on buffering.
/// Where it does not, the book is live, unless somebody bids what somebody asks. Of a
/// snapshot that no diff reaches, the next diff need not follow; that is counted. The ticker
/// is consulted once.
pub proof fn snapshots_are_joined_to_the_buffered_diffs(
    m: BookModel,
    snapshot_id: u64,
    bids: Seq<(Decimal, Decimal)>,
    asks: Seq<(Decimal, Decimal)>,
) -> (r: (Seq<int>, int))
    requires
        m.state == BookState::Buffering,
    ensures
        ({
            let (at, n) = r;
            let (after, live) = snapshot_step(m, snapshot_id, bids, asks);
            let replayed = Seq::new(n as nat, |k: int| m.buffer[at[k]]);
            let bids_then = replayed_bids(snapshot_side(bids), replayed);
            let asks_then = replayed_asks(snapshot_side(asks), replayed);
            let spread = forall|bid: int, ask: int|
                #[trigger] bids_then.contains_key(bid) && #[trigger] asks_then.contains_key(ask)
                    ==> bid < ask;
            let differs = m.ticker_bid != 0 && m.ticker_ask != 0 && bids_then.dom() != Set::<
                int,
            >::empty() && asks_then.dom() != Set::<int>::empty() && !(bids_then.contains_key(
                m.ticker_bid,
            ) && asks_then.contains_key(m.ticker_ask) && (forall|p: int| #[trigger]
                bids_then.contains_key(p) ==> p <= m.ticker_bid) && (forall|p: int| #[trigger]
                asks_then.contains_key(p) ==> m.ticker_ask <= p));
            &&& forall|k: int| 0 <= k < at.len() ==> 0 <= #[trigger] at[k] < m.buffer.len()
            &&& forall|k: int, l: int|
                0 <= k < l < at.len() ==> #[trigger] at[k] < #[trigger] at[l]
            &&& forall|i: int|
                0 <= i < m.buffer.len() ==> (#[trigger] m.buffer[i].last_id >= snapshot_id
                    <==> at.contains(i))
            &&& 0 <= n <= at.len()
            &&& n > 0 ==> m.buffer[at[0]].first_id <= snapshot_id
            &&& forall|k: int|
                1 <= k < n ==> m.buffer[#[trigger] at[k]].prev_id == m.buffer[at[k - 1]].last_id
            &&& n == 0 && at.len() > 0 ==> m.buffer[at[0]].first_id > snapshot_id
            &&& 0 < n < at.len() ==> m.buffer[at[n]].prev_id != m.buffer[at[n - 1]].last_id
            &&& live <==> n == at.len() && spread
            &&& after == (BookModel {
                bids: bids_then,
                asks: asks_then,
                last_update_id: if n == 0 {
                    snapshot_id
                } else {
                    m.buffer[at[n - 1]].last_id
                },
                state: if live {
                    BookState::Live
                } else {
                    BookState::Buffering
                },
                snapshot_count: m.snapshot_count + 1,
                buffer: Seq::empty(),
                need_first_event: if n == at.len() {
                    n == 0
                } else {
                    m.need_first_event
                },
                unverified_bridge_count: if n == at.len() && n == 0 {
                    m.unverified_bridge_count + 1
                } else {
                    m.unverified_bridge_count
                },
                crossed_count: if n == at.len() && !spread {
                    m.crossed_count + 1
                } else {
                    m.crossed_count
                },
                bbo_mismatch_count: if n < at.len() {
                    m.bbo_mismatch_count
                } else if live && differs {
                    1
                } else {
                    0
                },
                ..m
            })
        }),
{
    let at = kept_positions(m.buffer, snapshot_id);
    let events = replayable(m.buffer, snapshot_id);
    let n = first_break(events, snapshot_id, 0);
    lemma_first_break(events, snapshot_id, 0);
    let replayed = Seq::new(n as nat, |k: int| m.buffer[at[k]]);
    assert(events.take(n) =~= replayed);
    if n > 0 {
        assert(links(events, 0, snapshot_id));
    }
    assert forall|k: int| 1 <= k < n implies m.buffer[#[trigger] at[k]].prev_id
        == m.buffer[at[k - 1]].last_id by {
        assert(links(events, k, snapshot_id));
    }
    let bids_then = replayed_bids(snapshot_side(bids), replayed);
    let asks_then = replayed_asks(snapshot_side(asks), replayed);
    lemma_empty_side(bids_then);
    lemma_empty_side(asks_then);
    if n == events.len() {
        let synced = BookModel {
            state: BookState::Live,
            need_first_event: n == 0,
            unverified_bridge_count: m.unverified_bridge_count + if n == 0 {
                1int
            } else {
                0int
            },
            bbo_mismatch_count: 0,
            ..loaded(m, snapshot_id, bids, asks, n)
        };
        assert(synced.bids == bids_then && synced.asks == asks_then);
        assert(two_sided(synced) <==> bids_then.dom() != Set::<int>::empty() && asks_then.dom()
            != Set::<int>::empty());
        assert(crossed(synced) <==> !(forall|bid: int, ask: int|
            #[trigger] bids_then.contains_key(bid) && #[trigger] asks_then.contains_key(ask)
                ==> bid < ask));
        if crossed(synced) {
            let (bid, ask) = choose|bid: int, ask: int|
                #[trigger] synced.bids.contains_key(bid) && #[trigger] synced.asks.contains_key(ask)
                    && bid >= ask;
            assert(bids_then.dom().contains(bid) && asks_then.dom().contains(ask));
        }
        assert(matches_ticker(synced) <==> bids_then.contains_key(m.ticker_bid)
            && asks_then.contains_key(m.ticker_ask) && (forall|p: int| #[trigger]
            bids_then.contains_key(p) ==> p <= m.ticker_bid) && (forall|p: int| #[trigger]
            asks_then.contains_key(p) ==> m.ticker_ask <= p));
    }
    (at, n)
}

/// A side without prices is the empty one.
proof fn lemma_empty_side(side: Map<int, (Decimal, Decimal)>)
    ensures
        side == Map::<int, (Decimal, Decimal)>::empty() <==> side.dom() == Set::<int>::empty(),
{
    if side.dom() == Set::<int>::empty() {
        assert(side =~= Map::<int, (Decimal, Decimal)>::empty());
    }
}

/// A book has room for a diff as long as the counters that it may raise are not full: where
/// it is live those of gaps and of crossings, and otherwise that of losses once its buffer is
/// full. It has room for a snapshot as long as those of snapshots, of crossings and of
/// unproved bridges are not full, where it waits for one, and always where it does not.
pub proof fn only_full_counters_leave_no_room(m: BookModel)
    ensures
        m.state == BookState::Live ==> (!depth_room(m) <==> m.gap_count >= u64::MAX
            || m.crossed_count >= u64::MAX),
        m.state != BookState::Live ==> (!depth_room(m) <==> m.buffer.len() >= 5000
            && m.buffer_dropped >= u64::MAX),
        !snapshot_room(m) <==> m.state == BookState::Buffering && (m.snapshot_count >= u64::MAX
            || m.crossed_count >= u64::MAX || m.unverified_bridge_count >= u64::MAX),
{
}

} // verus!
