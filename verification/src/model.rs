//! What an order book is and what each event makes of it, as mathematics.
//!
//! A book is synchronised from two sources: depth diffs, which come in a sequence, and
//! snapshots, which come when they are asked for. Every diff has a first and a last
//! update id, and names the last id of the diff before it.
use vstd::prelude::*;

use crate::book::{Action, BookState, BBO_MISMATCH_THRESHOLD, BUFFER_MAX};
use crate::decimal::Decimal;
use crate::levels::{is_highest, is_lowest, with_level};

verus! {

/// A depth diff: the update ids `[first_id, last_id]`, the last id of the diff before it,
/// and the levels that changed.
pub struct DepthModel {
    pub first_id: u64,
    pub last_id: u64,
    pub prev_id: u64,
    pub bids: Seq<(Decimal, Decimal)>,
    pub asks: Seq<(Decimal, Decimal)>,
}

/// An order book. Prices are keyed by what they are worth; so are the ticker's best
/// prices, where 0 stands for a price that is not known.
pub struct BookModel {
    pub symbol: Seq<char>,
    pub bids: Map<int, (Decimal, Decimal)>,
    pub asks: Map<int, (Decimal, Decimal)>,
    pub last_update_id: u64,
    pub state: BookState,
    pub last_update_time: u64,
    pub snapshot_count: int,
    pub gap_count: int,
    pub crossed_count: int,
    pub buffer_dropped: int,
    pub unverified_bridge_count: int,
    pub buffer: Seq<DepthModel>,
    pub need_first_event: bool,
    pub ticker_bid: int,
    pub ticker_ask: int,
    pub bbo_mismatch_count: int,
}

/// What holds of every book: the buffer is bounded, and the number of mismatches in a row
/// stays below the threshold.
pub open spec fn book_invariant(m: BookModel) -> bool {
    &&& m.buffer.len() <= BUFFER_MAX
    &&& 0 <= m.bbo_mismatch_count < BBO_MISMATCH_THRESHOLD
}

/// Whether the counters that a diff may raise have room for one more: those of gaps and
/// crossings where the book is live, and that of losses where it buffers and is full.
pub open spec fn depth_room(m: BookModel) -> bool {
    if m.state == BookState::Live {
        m.gap_count < u64::MAX && m.crossed_count < u64::MAX
    } else {
        m.buffer.len() < BUFFER_MAX || m.buffer_dropped < u64::MAX
    }
}

/// Whether the counters that a snapshot may raise have room for one more. It raises none
/// where the book does not buffer.
pub open spec fn snapshot_room(m: BookModel) -> bool {
    m.state == BookState::Buffering ==> {
        &&& m.snapshot_count < u64::MAX
        &&& m.crossed_count < u64::MAX
        &&& m.unverified_bridge_count < u64::MAX
    }
}

/// Whether the counters of a book are at most `n`.
pub open spec fn counted_at_most(m: BookModel, n: int) -> bool {
    &&& m.snapshot_count <= n
    &&& m.gap_count <= n
    &&& m.crossed_count <= n
    &&& m.buffer_dropped <= n
    &&& m.unverified_bridge_count <= n
}

/// A book of which nothing is known yet.
pub open spec fn unsynced(symbol: Seq<char>) -> BookModel {
    BookModel {
        symbol,
        bids: Map::empty(),
        asks: Map::empty(),
        last_update_id: 0,
        state: BookState::Uninitialized,
        last_update_time: 0,
        snapshot_count: 0,
        gap_count: 0,
        crossed_count: 0,
        buffer_dropped: 0,
        unverified_bridge_count: 0,
        buffer: Seq::empty(),
        need_first_event: false,
        ticker_bid: 0,
        ticker_ask: 0,
        bbo_mismatch_count: 0,
    }
}

/// A side after one entry of a diff: a zero quantity takes the level away, any other
/// sets it.
pub open spec fn with_change(
    side: Map<int, (Decimal, Decimal)>,
    change: (Decimal, Decimal),
) -> Map<int, (Decimal, Decimal)> {
    if change.1.zero() {
        side.remove(change.0.units())
    } else {
        with_level(side, change.0, change.1)
    }
}

/// A side after the entries of a diff, one after the other.
pub open spec fn with_changes(
    side: Map<int, (Decimal, Decimal)>,
    changes: Seq<(Decimal, Decimal)>,
) -> Map<int, (Decimal, Decimal)>
    decreases changes.len(),
{
    if changes.len() == 0 {
        side
    } else {
        with_change(with_changes(side, changes.drop_last()), changes.last())
    }
}

/// The side that a snapshot lists: its levels of positive quantity.
pub open spec fn snapshot_side(levels: Seq<(Decimal, Decimal)>) -> Map<int, (Decimal, Decimal)>
    decreases levels.len(),
{
    if levels.len() == 0 {
        Map::empty()
    } else if levels.last().1.units() > 0 {
        with_level(snapshot_side(levels.drop_last()), levels.last().0, levels.last().1)
    } else {
        snapshot_side(levels.drop_last())
    }
}

/// The bids after a sequence of diffs.
pub open spec fn replayed_bids(
    side: Map<int, (Decimal, Decimal)>,
    events: Seq<DepthModel>,
) -> Map<int, (Decimal, Decimal)>
    decreases events.len(),
{
    if events.len() == 0 {
        side
    } else {
        with_changes(replayed_bids(side, events.drop_last()), events.last().bids)
    }
}

/// The asks after a sequence of diffs.
pub open spec fn replayed_asks(
    side: Map<int, (Decimal, Decimal)>,
    events: Seq<DepthModel>,
) -> Map<int, (Decimal, Decimal)>
    decreases events.len(),
{
    if events.len() == 0 {
        side
    } else {
        with_changes(replayed_asks(side, events.drop_last()), events.last().asks)
    }
}

/// Whether both sides of the book have levels.
pub open spec fn two_sided(m: BookModel) -> bool {
    m.bids != Map::<int, (Decimal, Decimal)>::empty() && m.asks != Map::<
        int,
        (Decimal, Decimal),
    >::empty()
}

/// Whether somebody bids as much as somebody asks, or more.
pub open spec fn crossed(m: BookModel) -> bool {
    exists|bid: int, ask: int|
        #[trigger] m.bids.contains_key(bid) && #[trigger] m.asks.contains_key(ask) && bid >= ask
}

/// Whether the ticker has told both best prices.
pub open spec fn ticker_known(m: BookModel) -> bool {
    m.ticker_bid != 0 && m.ticker_ask != 0
}

/// Whether the best prices of the book are those that the ticker told.
pub open spec fn matches_ticker(m: BookModel) -> bool {
    is_highest(m.bids, m.ticker_bid) && is_lowest(m.asks, m.ticker_ask)
}

/// The integrity check: the book with its counters brought up to date, and whether it is
/// sound. A book with an empty side is. A crossed book is not. Where the ticker is known,
/// a book that differs from it is sound until that has happened `BBO_MISMATCH_THRESHOLD`
/// times in a row.
pub open spec fn checked(m: BookModel) -> (BookModel, bool) {
    if !two_sided(m) {
        (m, true)
    } else if crossed(m) {
        (BookModel { crossed_count: m.crossed_count + 1, ..m }, false)
    } else if !ticker_known(m) {
        (m, true)
    } else if matches_ticker(m) {
        (BookModel { bbo_mismatch_count: 0, ..m }, true)
    } else {
        (
            BookModel { bbo_mismatch_count: m.bbo_mismatch_count + 1, ..m },
            m.bbo_mismatch_count + 1 < BBO_MISMATCH_THRESHOLD,
        )
    }
}

/// The book after a diff was put into the buffer. A full buffer loses its oldest diff,
/// and the loss is counted.
pub open spec fn buffered(m: BookModel, event: DepthModel) -> BookModel {
    if m.buffer.len() >= BUFFER_MAX {
        BookModel {
            buffer: m.buffer.drop_first().push(event),
            buffer_dropped: m.buffer_dropped + 1,
            ..m
        }
    } else {
        BookModel { buffer: m.buffer.push(event), ..m }
    }
}

/// The book after it lost its synchronisation: it buffers again, from this diff on.
pub open spec fn fallen_back(m: BookModel, event: DepthModel) -> BookModel {
    BookModel {
        state: BookState::Buffering,
        buffer: seq![event],
        bbo_mismatch_count: 0,
        ..m
    }
}

/// The book after a diff was applied to its sides.
pub open spec fn applied(m: BookModel, event: DepthModel) -> BookModel {
    BookModel {
        bids: with_changes(m.bids, event.bids),
        asks: with_changes(m.asks, event.asks),
        last_update_id: event.last_id,
        ..m
    }
}

/// Whether a live book takes a diff for a gap in the sequence.
pub open spec fn is_gap(m: BookModel, event: DepthModel) -> bool {
    !m.need_first_event && event.prev_id != m.last_update_id
}

/// What a depth diff makes of a book, and what is to be done about it.
pub open spec fn depth_step(m: BookModel, event: DepthModel) -> (BookModel, Action) {
    match m.state {
        BookState::Uninitialized => (
            buffered(BookModel { state: BookState::Buffering, ..m }, event),
            Action::NeedSnapshot,
        ),
        BookState::Buffering => (buffered(m, event), Action::None_),
        BookState::Live => {
            if event.last_id <= m.last_update_id {
                (m, Action::None_)
            } else if is_gap(m, event) {
                (
                    fallen_back(BookModel { gap_count: m.gap_count + 1, ..m }, event),
                    Action::NeedSnapshot,
                )
            } else {
                let (after, sound) = checked(
                    applied(BookModel { need_first_event: false, ..m }, event),
                );
                if sound {
                    (after, Action::Publish)
                } else {
                    (fallen_back(after, event), Action::NeedSnapshot)
                }
            }
        },
    }
}

/// The buffered diffs that a snapshot does not make obsolete.
pub open spec fn replayable(buffer: Seq<DepthModel>, snapshot_id: u64) -> Seq<DepthModel> {
    buffer.filter(|event: DepthModel| event.last_id >= snapshot_id)
}

/// Whether diff `i` of a replay may be applied. The first one must not start after the
/// snapshot, and every other must follow the one before it.
pub open spec fn links(events: Seq<DepthModel>, i: int, snapshot_id: u64) -> bool {
    if i == 0 {
        events[0].first_id <= snapshot_id
    } else {
        events[i].prev_id == events[i - 1].last_id
    }
}

/// The first diff, from `from` on, at which a replay breaks; the number of diffs where
/// none does.
pub open spec fn first_break(events: Seq<DepthModel>, snapshot_id: u64, from: int) -> int
    decreases events.len() - from,
{
    if 0 <= from < events.len() && links(events, from, snapshot_id) {
        first_break(events, snapshot_id, from + 1)
    } else {
        from
    }
}

/// The book with the levels of a snapshot and the first `n` of the diffs to be replayed.
pub open spec fn loaded(
    m: BookModel,
    snapshot_id: u64,
    bids: Seq<(Decimal, Decimal)>,
    asks: Seq<(Decimal, Decimal)>,
    n: int,
) -> BookModel {
    let events = replayable(m.buffer, snapshot_id);
    BookModel {
        bids: replayed_bids(snapshot_side(bids), events.take(n)),
        asks: replayed_asks(snapshot_side(asks), events.take(n)),
        last_update_id: if n == 0 {
            snapshot_id
        } else {
            events[n - 1].last_id
        },
        snapshot_count: m.snapshot_count + 1,
        buffer: Seq::empty(),
        ..m
    }
}

/// What a snapshot makes of a book, and whether the book is live then.
pub open spec fn snapshot_step(
    m: BookModel,
    snapshot_id: u64,
    bids: Seq<(Decimal, Decimal)>,
    asks: Seq<(Decimal, Decimal)>,
) -> (BookModel, bool) {
    if m.state != BookState::Buffering {
        (m, m.state == BookState::Live)
    } else {
        let events = replayable(m.buffer, snapshot_id);
        let n = first_break(events, snapshot_id, 0);
        let synced = loaded(m, snapshot_id, bids, asks, n);
        if n < events.len() {
            (synced, false)
        } else {
            let (after, sound) = checked(
                BookModel {
                    state: BookState::Live,
                    need_first_event: n == 0,
                    unverified_bridge_count: m.unverified_bridge_count + if n == 0 {
                        1int
                    } else {
                        0int
                    },
                    bbo_mismatch_count: 0,
                    ..synced
                },
            );
            if sound {
                (after, true)
            } else {
                (BookModel { state: BookState::Buffering, ..after }, false)
            }
        }
    }
}

/// A book that was emptied. Its counters, and the time of its last update, stay.
pub open spec fn reset_book(m: BookModel) -> BookModel {
    BookModel {
        last_update_time: m.last_update_time,
        snapshot_count: m.snapshot_count,
        gap_count: m.gap_count,
        crossed_count: m.crossed_count,
        buffer_dropped: m.buffer_dropped,
        unverified_bridge_count: m.unverified_bridge_count,
        ..unsynced(m.symbol)
    }
}

/// A book that was emptied and waits for a snapshot.
pub open spec fn resyncing(m: BookModel) -> BookModel {
    BookModel { state: BookState::Buffering, ..reset_book(m) }
}

} // verus!
