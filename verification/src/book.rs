//! The order book of one symbol, synchronised from depth diffs and snapshots.
use std::collections::VecDeque;

use vstd::prelude::*;

use crate::decimal::Decimal;
use crate::levels::PriceLevels;
use crate::model::{BookModel, DepthModel};
use crate::text::text_pairs;

verus! {

/// The most diffs that a book buffers while it waits for a snapshot.
pub const BUFFER_MAX: usize = 5000;

/// How often in a row a book may differ from the ticker before it is given up.
pub const BBO_MISMATCH_THRESHOLD: u32 = 10;

/// Where a book stands: nothing is known, diffs are collected until a snapshot comes, or
/// the book follows the market.
#[derive(Debug, Clone, Copy, PartialEq, Eq, Structural)]
pub enum BookState {
    Uninitialized,
    Buffering,
    Live,
}

/// What is to be done after a diff: publish the book, fetch a snapshot, or nothing.
#[derive(Debug, Clone, Copy, PartialEq, Eq, Structural)]
pub enum Action {
    Publish,
    NeedSnapshot,
    None_,
}

/// What a state is called.
pub open spec fn state_name(state: BookState) -> Seq<char> {
    match state {
        BookState::Uninitialized => "uninitialized"@,
        BookState::Buffering => "buffering"@,
        BookState::Live => "live"@,
    }
}

/// What an action is called; nothing is called nothing.
pub open spec fn action_name(action: Action) -> Option<Seq<char>> {
    match action {
        Action::Publish => Some("publish"@),
        Action::NeedSnapshot => Some("need_snapshot"@),
        Action::None_ => None,
    }
}

impl BookState {
    /// What the state is called.
    pub fn name(self) -> (r: &'static str)
        ensures
            r@ == state_name(self),
    {
        match self {
            BookState::Uninitialized => "uninitialized",
            BookState::Buffering => "buffering",
            BookState::Live => "live",
        }
    }
}

impl Action {
    /// What the action is called.
    pub fn name(self) -> (r: Option<&'static str>)
        ensures
            match r {
                Some(name) => action_name(self) == Some(name@),
                None => action_name(self) is None,
            },
    {
        match self {
            Action::Publish => Some("publish"),
            Action::NeedSnapshot => Some("need_snapshot"),
            Action::None_ => None,
        }
    }
}

/// Levels as (price, quantity).
pub type Levels = Vec<(Decimal, Decimal)>;

/// Whether a (price, quantity) pair of texts holds two decimal numbers.
pub open spec fn readable(raw: (Seq<char>, Seq<char>)) -> bool {
    crate::decimal::parsed_decimal(raw.0) is Some && crate::decimal::parsed_decimal(raw.1) is Some
}

/// Whether all pairs of texts hold decimal numbers.
pub open spec fn all_readable(raw: Seq<(Seq<char>, Seq<char>)>) -> bool {
    forall|i: int| 0 <= i < raw.len() ==> readable(#[trigger] raw[i])
}

/// The levels that pairs of texts hold.
pub open spec fn levels_read(raw: Seq<(Seq<char>, Seq<char>)>) -> Seq<(Decimal, Decimal)> {
    raw.map_values(
        |pair: (Seq<char>, Seq<char>)|
            (crate::decimal::decimal_in(pair.0)->0, crate::decimal::decimal_in(pair.1)->0),
    )
}

/// The levels that (price, quantity) pairs of texts hold.
pub fn parse_levels(raw: &[(String, String)]) -> (r: Levels)
    requires
        all_readable(text_pairs(raw@)),
    ensures
        r@ == levels_read(text_pairs(raw@)),
{
    let mut r: Levels = Vec::new();
    for i in 0..raw.len()
        invariant
            all_readable(text_pairs(raw@)),
            r@ == levels_read(text_pairs(raw@)).take(i as int),
    {
        assert(readable(text_pairs(raw@)[i as int]));
        let price = Decimal::parse(raw[i].0.as_str());
        let qty = Decimal::parse(raw[i].1.as_str());
        if let (Some(price), Some(qty)) = (price, qty) {
            r.push((price, qty));
        }
        assert(r@ =~= levels_read(text_pairs(raw@)).take(i + 1));
    }
    assert(r@ =~= levels_read(text_pairs(raw@)));
    r
}

/// The levels that pairs of texts hold, or nothing where a text is no decimal number.
pub fn try_parse_levels(raw: &[(String, String)]) -> (r: Option<Levels>)
    ensures
        match r {
            Some(levels) => all_readable(text_pairs(raw@)) && levels@ == levels_read(
                text_pairs(raw@),
            ),
            None => !all_readable(text_pairs(raw@)),
        },
{
    for i in 0..raw.len()
        invariant
            forall|j: int| 0 <= j < i ==> readable(#[trigger] text_pairs(raw@)[j]),
    {
        assert(text_pairs(raw@)[i as int] == (raw@[i as int].0@, raw@[i as int].1@));
        if Decimal::parse(raw[i].0.as_str()).is_none() || Decimal::parse(
            raw[i].1.as_str(),
        ).is_none() {
            assert(!readable(text_pairs(raw@)[i as int]));
            return None;
        }
    }
    Some(parse_levels(raw))
}

/// A buffered depth diff.
#[derive(Debug)]
pub struct DepthEvent {
    pub first_id: u64,
    pub last_id: u64,
    pub prev_id: u64,
    pub bids: Levels,
    pub asks: Levels,
}

impl View for DepthEvent {
    type V = DepthModel;

    open spec fn view(&self) -> DepthModel {
        DepthModel {
            first_id: self.first_id,
            last_id: self.last_id,
            prev_id: self.prev_id,
            bids: self.bids@,
            asks: self.asks@,
        }
    }
}

/// What a book keeps to synchronise itself and to check itself.
#[derive(Debug)]
pub struct SyncProgress {
    buffer: VecDeque<DepthEvent>,
    need_first_event: bool,
    ticker_bid: Decimal,
    ticker_ask: Decimal,
    bbo_mismatch_count: u32,
}

impl SyncProgress {
    /// The buffered diffs, oldest first.
    pub closed spec fn waiting(&self) -> Seq<DepthModel> {
        self.buffer@.map_values(|event: DepthEvent| event@)
    }

    /// Whether the next diff is taken whatever diff it names as the one before.
    pub closed spec fn accepts_any_next(&self) -> bool {
        self.need_first_event
    }

    /// The best bid and ask that the ticker told.
    pub closed spec fn ticker(&self) -> (int, int) {
        (self.ticker_bid.units(), self.ticker_ask.units())
    }

    /// How often in a row the book differed from the ticker.
    pub closed spec fn mismatches(&self) -> int {
        self.bbo_mismatch_count as int
    }
}

/// One symbol's order book.
///
/// It goes from `Uninitialized` over `Buffering` to `Live`. A gap in the sequence of
/// diffs, or a failed integrity check, takes it back to `Buffering`, and a new snapshot
/// is wanted.
#[derive(Debug)]
pub struct Book {
    pub symbol: String,
    pub bids: PriceLevels,
    pub asks: PriceLevels,
    pub last_update_id: u64,
    pub state: BookState,
    /// The time of the last diff, in microseconds.
    pub last_update_time: u64,
    pub snapshot_count: u64,
    pub gap_count: u64,
    pub crossed_count: u64,
    /// Diffs that a full buffer lost. Where there are any, a snapshot took so long that
    /// diffs were lost which might have been needed.
    pub buffer_dropped: u64,
    /// Snapshots that no buffered diff reached, so that nothing proves that no diff is
    /// missing between them and the next one.
    pub unverified_bridge_count: u64,
    /// How far the book is synchronised.
    pub sync: SyncProgress,
}

impl View for Book {
    type V = BookModel;

    open spec fn view(&self) -> BookModel {
        BookModel {
            symbol: self.symbol@,
            bids: self.bids@,
            asks: self.asks@,
            last_update_id: self.last_update_id,
            state: self.state,
            last_update_time: self.last_update_time,
            snapshot_count: self.snapshot_count as int,
            gap_count: self.gap_count as int,
            crossed_count: self.crossed_count as int,
            buffer_dropped: self.buffer_dropped as int,
            unverified_bridge_count: self.unverified_bridge_count as int,
            buffer: self.sync.waiting(),
            need_first_event: self.sync.accepts_any_next(),
            ticker_bid: self.sync.ticker().0,
            ticker_ask: self.sync.ticker().1,
            bbo_mismatch_count: self.sync.mismatches(),
        }
    }
}

impl Book {
    /// What holds of every book.
    pub open spec fn wf(&self) -> bool {
        &&& self.bids.wf()
        &&& self.asks.wf()
        &&& crate::model::book_invariant(self@)
    }

    /// A book of which nothing is known yet.
    pub fn new(symbol: String) -> (r: Book)
        ensures
            r.wf(),
            r@ == crate::model::unsynced(symbol@),
    {
        let r = Book {
            symbol,
            bids: PriceLevels::new(),
            asks: PriceLevels::new(),
            last_update_id: 0,
            state: BookState::Uninitialized,
            last_update_time: 0,
            snapshot_count: 0,
            gap_count: 0,
            crossed_count: 0,
            buffer_dropped: 0,
            unverified_bridge_count: 0,
            sync: SyncProgress {
                buffer: VecDeque::new(),
                need_first_event: false,
                ticker_bid: Decimal::default(),
                ticker_ask: Decimal::default(),
                bbo_mismatch_count: 0,
            },
        };
        proof {
            crate::decimal::lemma_units_zero(r.sync.ticker_bid);
            crate::decimal::lemma_units_zero(r.sync.ticker_ask);
            assert(r@.buffer =~= Seq::<DepthModel>::empty());
        }
        r
    }

    /// Whether the counters that a diff may raise have room for one more.
    pub fn has_depth_room(&self) -> (r: bool)
        ensures
            r == crate::model::depth_room(self@),
    {
        if self.state == BookState::Live {
            self.gap_count < u64::MAX && self.crossed_count < u64::MAX
        } else {
            self.sync.buffer.len() < BUFFER_MAX || self.buffer_dropped < u64::MAX
        }
    }

    /// Whether the counters that a snapshot may raise have room for one more.
    pub fn has_snapshot_room(&self) -> (r: bool)
        ensures
            r == crate::model::snapshot_room(self@),
    {
        self.state != BookState::Buffering || (self.snapshot_count < u64::MAX
            && self.crossed_count < u64::MAX && self.unverified_bridge_count < u64::MAX)
    }

    /// Processes a depth diff with the update ids `[first_id, last_id]` (the venue's `U`
    /// and `u`), which follows the diff that ended with `prev_id` (`pu`).
    pub fn on_depth(
        &mut self,
        first_id: u64,
        last_id: u64,
        prev_id: u64,
        bids: Levels,
        asks: Levels,
    ) -> (r: Action)
        requires
            old(self).wf(),
            crate::model::depth_room(old(self)@),
        ensures
            final(self).wf(),
            (final(self)@, r) == crate::model::depth_step(
                old(self)@,
                DepthModel { first_id, last_id, prev_id, bids: bids@, asks: asks@ },
            ),
    {
        match self.state {
            BookState::Uninitialized => {
                self.state = BookState::Buffering;
                self.buffer_push(DepthEvent { first_id, last_id, prev_id, bids, asks });
                Action::NeedSnapshot
            },
            BookState::Buffering => {
                self.buffer_push(DepthEvent { first_id, last_id, prev_id, bids, asks });
                Action::None_
            },
            BookState::Live => {
                if last_id <= self.last_update_id {
                    return Action::None_;
                }
                if self.sync.need_first_event {
                    // No buffered diff reached the snapshot, so that its id is not the
                    // last id of any diff, and there is nothing to compare `prev_id` with.
                    self.sync.need_first_event = false;
                } else if prev_id != self.last_update_id {
                    self.gap_count = self.gap_count + 1;
                    self.fall_back_to_buffering(
                        DepthEvent { first_id, last_id, prev_id, bids, asks },
                    );
                    return Action::NeedSnapshot;
                }
                self.apply_diff(bids.as_slice(), asks.as_slice(), last_id);
                if !self.check_integrity() {
                    self.fall_back_to_buffering(
                        DepthEvent { first_id, last_id, prev_id, bids, asks },
                    );
                    return Action::NeedSnapshot;
                }
                Action::Publish
            },
        }
    }

    /// Applies a snapshot, and the buffered diffs on top of it, where the book waits for
    /// one. Says whether the book is live then.
    pub fn on_snapshot(
        &mut self,
        last_update_id: u64,
        bids: &[(Decimal, Decimal)],
        asks: &[(Decimal, Decimal)],
    ) -> (r: bool)
        requires
            old(self).wf(),
            crate::model::snapshot_room(old(self)@),
        ensures
            final(self).wf(),
            (final(self)@, r) == crate::model::snapshot_step(
                old(self)@,
                last_update_id,
                bids@,
                asks@,
            ),
    {
        if self.state != BookState::Buffering {
            return self.state == BookState::Live;
        }
        fill_levels(&mut self.bids, bids);
        fill_levels(&mut self.asks, asks);
        self.last_update_id = last_update_id;
        self.snapshot_count = self.snapshot_count + 1;

        let mut buffered: VecDeque<DepthEvent> = VecDeque::new();
        std::mem::swap(&mut self.sync.buffer, &mut buffered);

        let ghost waiting = old(self)@.buffer;
        let ghost events = crate::model::replayable(waiting, last_update_id);
        proof {
            assert(waiting.take(0) =~= Seq::<DepthModel>::empty());
            reveal(Seq::filter);
            assert(events.take(0) =~= Seq::<DepthModel>::empty());
            assert(self.sync.waiting() =~= Seq::<DepthModel>::empty());
        }
        let mut applied_any = false;
        for i in 0..buffered.len()
            invariant
                old(self)@.state == BookState::Buffering,
                waiting == old(self)@.buffer,
                waiting.len() == buffered@.len(),
                forall|j: int| 0 <= j < waiting.len() ==> waiting[j] == buffered@[j]@,
                events == crate::model::replayable(waiting, last_update_id),
                self.wf(),
                self.unverified_bridge_count < u64::MAX,
                self.crossed_count < u64::MAX,
                ({
                    let n = crate::model::replayable(waiting.take(i as int), last_update_id).len();
                    &&& n <= events.len()
                    &&& self@ == crate::model::loaded(
                        old(self)@,
                        last_update_id,
                        bids@,
                        asks@,
                        n as int,
                    )
                    &&& applied_any == (n > 0)
                    &&& crate::model::first_break(events, last_update_id, 0)
                        == crate::model::first_break(events, last_update_id, n as int)
                }),
        {
            let event = &buffered[i];
            let ghost n = crate::model::replayable(waiting.take(i as int), last_update_id).len()
                as int;
            proof {
                lemma_replayable_step(waiting, i as int, last_update_id);
            }
            if event.last_id >= last_update_id {
                if !applied_any {
                    // The first diff that is replayed must reach back to the snapshot. Where
                    // it starts later, the diffs in between are lost.
                    if event.first_id > last_update_id {
                        return false;
                    }
                } else if event.prev_id != self.last_update_id {
                    return false;
                }
                applied_any = true;
                self.apply_diff(event.bids.as_slice(), event.asks.as_slice(), event.last_id);
                assert(events.take(n + 1).drop_last() =~= events.take(n));
            }
        }
        proof {
            assert(waiting.take(waiting.len() as int) =~= waiting);
        }
        self.state = BookState::Live;
        self.sync.need_first_event = !applied_any;
        if !applied_any {
            self.unverified_bridge_count = self.unverified_bridge_count + 1;
        }
        self.sync.bbo_mismatch_count = 0;
        if !self.check_integrity() {
            self.state = BookState::Buffering;
            return false;
        }
        true
    }

    /// Takes down the best prices that the ticker told.
    pub fn set_ticker_bbo(&mut self, bid: Decimal, ask: Decimal)
        requires
            old(self).wf(),
        ensures
            final(self).wf(),
            final(self)@ == (BookModel {
                ticker_bid: bid.units(),
                ticker_ask: ask.units(),
                ..old(self)@
            }),
    {
        self.sync.ticker_bid = bid;
        self.sync.ticker_ask = ask;
    }

    /// Empties the book and lets it wait for a snapshot, without waiting for a diff: the
    /// next diff of a symbol that fell silent may be minutes away.
    pub fn mark_for_resync(&mut self)
        ensures
            final(self).wf(),
            final(self)@ == crate::model::resyncing(old(self)@),
    {
        self.reset();
        self.state = BookState::Buffering;
    }

    /// Empties the book. Its counters stay.
    pub fn reset(&mut self)
        ensures
            final(self).wf(),
            final(self)@ == crate::model::reset_book(old(self)@),
    {
        self.bids.clear();
        self.asks.clear();
        self.last_update_id = 0;
        self.state = BookState::Uninitialized;
        self.sync.buffer.clear();
        self.sync.need_first_event = false;
        self.sync.ticker_bid = Decimal::default();
        self.sync.ticker_ask = Decimal::default();
        self.sync.bbo_mismatch_count = 0;
        proof {
            crate::decimal::lemma_units_zero(self.sync.ticker_bid);
            crate::decimal::lemma_units_zero(self.sync.ticker_ask);
            assert(self@.buffer =~= Seq::<DepthModel>::empty());
        }
    }

    /// The best `n` bids, highest price first, and the best `n` asks, lowest price first.
    pub fn top_levels(&self, n: usize) -> (r: (Levels, Levels))
        ensures
            r.0@ == crate::levels::highest_first(self.bids.listed(), n as nat),
            r.1@ == crate::levels::lowest_first(self.asks.listed(), n as nat),
            self.wf() ==> r.0@ == crate::levels::highest_first(
                crate::levels::listing(self@.bids),
                n as nat,
            ),
            self.wf() ==> r.1@ == crate::levels::lowest_first(
                crate::levels::listing(self@.asks),
                n as nat,
            ),
    {
        proof {
            if self.wf() {
                crate::levels::lemma_listing(self.bids.listed());
                crate::levels::lemma_listing(self.asks.listed());
            }
        }
        (self.bids.from_highest(n), self.asks.from_lowest(n))
    }

    /// Applies the levels of a diff.
    fn apply_diff(&mut self, bids: &[(Decimal, Decimal)], asks: &[(Decimal, Decimal)], last_id: u64)
        requires
            old(self).wf(),
        ensures
            final(self).wf(),
            final(self)@ == (BookModel {
                bids: crate::model::with_changes(old(self)@.bids, bids@),
                asks: crate::model::with_changes(old(self)@.asks, asks@),
                last_update_id: last_id,
                ..old(self)@
            }),
    {
        change_levels(&mut self.bids, bids);
        change_levels(&mut self.asks, asks);
        self.last_update_id = last_id;
    }

    /// The integrity check. Says whether the book is sound.
    fn check_integrity(&mut self) -> (r: bool)
        requires
            old(self).bids.wf(),
            old(self).asks.wf(),
            old(self).crossed_count < u64::MAX,
            old(self)@.bbo_mismatch_count < BBO_MISMATCH_THRESHOLD,
        ensures
            final(self).bids.wf(),
            final(self).asks.wf(),
            (final(self)@, r) == crate::model::checked(old(self)@),
    {
        let (bid, ask) = match (self.bids.highest(), self.asks.lowest()) {
            (Some(bid), Some(ask)) => (bid, ask),
            _ => {
                return true;
            },
        };
        proof {
            assert(self.bids@.contains_key(bid.units()));
            assert(self.asks@.contains_key(ask.units()));
        }
        if !bid.below(&ask) {
            self.crossed_count = self.crossed_count + 1;
            return false;
        }
        proof {
            assert(!crate::model::crossed(old(self)@));
            crate::decimal::lemma_units_zero(self.sync.ticker_bid);
            crate::decimal::lemma_units_zero(self.sync.ticker_ask);
        }
        if !self.sync.ticker_bid.is_zero() && !self.sync.ticker_ask.is_zero() {
            if bid != self.sync.ticker_bid || ask != self.sync.ticker_ask {
                self.sync.bbo_mismatch_count = self.sync.bbo_mismatch_count + 1;
                if self.sync.bbo_mismatch_count >= BBO_MISMATCH_THRESHOLD {
                    return false;
                }
            } else {
                self.sync.bbo_mismatch_count = 0;
            }
        }
        true
    }

    /// Goes back to buffering, from this diff on.
    fn fall_back_to_buffering(&mut self, event: DepthEvent)
        requires
            old(self).bids.wf(),
            old(self).asks.wf(),
        ensures
            final(self).wf(),
            final(self)@ == crate::model::fallen_back(old(self)@, event@),
    {
        self.state = BookState::Buffering;
        self.sync.buffer.clear();
        self.sync.buffer.push_back(event);
        self.sync.bbo_mismatch_count = 0;
        assert(self@.buffer =~= seq![event@]);
    }

    /// Buffers a diff. A full buffer loses its oldest diff, and the loss is counted.
    fn buffer_push(&mut self, event: DepthEvent)
        requires
            old(self).wf(),
            old(self)@.buffer.len() < BUFFER_MAX || old(self).buffer_dropped < u64::MAX,
        ensures
            final(self).wf(),
            final(self)@ == crate::model::buffered(old(self)@, event@),
    {
        if self.sync.buffer.len() >= BUFFER_MAX {
            self.sync.buffer.pop_front();
            self.buffer_dropped = self.buffer_dropped + 1;
        }
        self.sync.buffer.push_back(event);
        assert(self@.buffer =~= crate::model::buffered(old(self)@, event@).buffer);
    }
}

/// Applies the entries of a diff to one side.
fn change_levels(side: &mut PriceLevels, changes: &[(Decimal, Decimal)])
    requires
        old(side).wf(),
    ensures
        final(side).wf(),
        final(side)@ == crate::model::with_changes(old(side)@, changes@),
{
    for i in 0..changes.len()
        invariant
            side.wf(),
            side@ == crate::model::with_changes(old(side)@, changes@.take(i as int)),
    {
        let (price, qty) = changes[i];
        if qty.is_zero() {
            side.remove(&price);
        } else {
            side.insert(price, qty);
        }
        assert(changes@.take(i + 1).drop_last() =~= changes@.take(i as int));
    }
    assert(changes@.take(changes@.len() as int) =~= changes@);
}

/// Fills one side from the levels of a snapshot.
fn fill_levels(side: &mut PriceLevels, levels: &[(Decimal, Decimal)])
    ensures
        final(side).wf(),
        final(side)@ == crate::model::snapshot_side(levels@),
{
    side.clear();
    for i in 0..levels.len()
        invariant
            side.wf(),
            side@ == crate::model::snapshot_side(levels@.take(i as int)),
    {
        let (price, qty) = levels[i];
        if qty.is_positive() {
            side.insert(price, qty);
        }
        assert(levels@.take(i + 1).drop_last() =~= levels@.take(i as int));
    }
    assert(levels@.take(levels@.len() as int) =~= levels@);
}

/// One more diff of the buffer, seen from the diffs to be replayed.
proof fn lemma_replayable_step(waiting: Seq<DepthModel>, i: int, snapshot_id: u64)
    requires
        0 <= i < waiting.len(),
    ensures
        ({
            let before = crate::model::replayable(waiting.take(i), snapshot_id);
            let after = crate::model::replayable(waiting.take(i + 1), snapshot_id);
            let all = crate::model::replayable(waiting, snapshot_id);
            &&& after == if waiting[i].last_id >= snapshot_id {
                before.push(waiting[i])
            } else {
                before
            }
            &&& before.is_prefix_of(all)
            &&& after.is_prefix_of(all)
        }),
{
    let relevant = |event: DepthModel| event.last_id >= snapshot_id;
    reveal(Seq::filter);
    assert(waiting.take(i + 1).drop_last() =~= waiting.take(i));
    assert(waiting =~= waiting.take(i) + waiting.skip(i));
    assert(waiting =~= waiting.take(i + 1) + waiting.skip(i + 1));
    Seq::filter_distributes_over_add(waiting.take(i), waiting.skip(i), relevant);
    Seq::filter_distributes_over_add(waiting.take(i + 1), waiting.skip(i + 1), relevant);
}

} // verus!
