//! What the scripts of `scenarios` come to.
use vstd::prelude::*;

use crate::book::{Action, BookState};
use crate::decimal::{
    decimal_of, decimal_text, digit_char, digits_of, padded_digits, pow10, Decimal,
};
use crate::levels::{ascending, by_price, highest_first, listing, lowest_first};
use crate::model::{
    replayable, reset_book, snapshot_side, unsynced, with_changes, BookModel, DepthModel,
};
use crate::report::{level_texts, pair_item, pair_items, text_items, ReportModel};
use crate::scenarios::{
    after_diff, after_quiet_diff, after_quiet_diffs, after_snapshot, crossed_report,
    divergence_report, lifecycle_report, ordering_report, price_texts, quiet_until_lost,
    resync_report, standing_item, synced_book, top_items, with_ticker, written_level,
};

verus! {

/// Digits and a scale, as a number.
spec fn written(digits: u32, scale: u32) -> Decimal {
    decimal_of((false, digits as u128, scale))
}

/// What digits and a scale are worth.
proof fn lemma_worth(digits: u32, scale: u32)
    requires
        scale <= 28,
    ensures
        written(digits, scale).units() == digits * pow10((28 - scale) as nat),
        written(digits, scale).zero() <==> digits == 0,
        written(digits, scale).text() == decimal_text(false, digits as u128, scale),
        pow10((28 - scale) as nat) > 0,
        digits > 0 ==> written(digits, scale).units() > 0,
{
    let parts = (false, digits as u128, scale);
    crate::decimal::lemma_decimal_of(decimal_of(parts), parts);
    crate::decimal::lemma_pow10_positive((28 - scale) as nat);
    crate::decimal::lemma_units_zero(decimal_of(parts));
}

/// No levels.
spec fn nothing() -> Seq<(Decimal, Decimal)> {
    Seq::empty()
}

/// A side without levels.
spec fn bare() -> Map<int, (Decimal, Decimal)> {
    Map::empty()
}

/// A side with one more level.
spec fn plus(
    side: Map<int, (Decimal, Decimal)>,
    level: (Decimal, Decimal),
) -> Map<int, (Decimal, Decimal)> {
    side.insert(level.0.units(), level)
}

/// Whether every bid is lower than every ask.
spec fn apart(bids: Map<int, (Decimal, Decimal)>, asks: Map<int, (Decimal, Decimal)>) -> bool {
    forall|bid: int, ask: int|
        #[trigger] bids.contains_key(bid) && #[trigger] asks.contains_key(ask) ==> bid < ask
}

/// A diff without levels.
spec fn empty_diff(ids: (u64, u64, u64)) -> DepthModel {
    DepthModel {
        first_id: ids.0,
        last_id: ids.1,
        prev_id: ids.2,
        bids: nothing(),
        asks: nothing(),
    }
}

/// The first diff of a book.
proof fn lemma_first_diff(symbol: Seq<char>)
    ensures
        after_diff(unsynced(symbol), (1, 10, 0), nothing(), nothing()) == (
            BookModel {
                state: BookState::Buffering,
                buffer: seq![empty_diff((1, 10, 0))],
                ..unsynced(symbol)
            },
            Action::NeedSnapshot,
        ),
{
    reveal(after_diff);
    assert(Seq::<DepthModel>::empty().push(empty_diff((1, 10, 0))) =~= seq![
        empty_diff((1, 10, 0)),
    ]);
}

/// Diffs from before a snapshot are not replayed.
proof fn lemma_unreached(buffer: Seq<DepthModel>, id: u64)
    requires
        forall|i: int| 0 <= i < buffer.len() ==> (#[trigger] buffer[i]).last_id < id,
    ensures
        replayable(buffer, id).len() == 0,
    decreases buffer.len(),
{
    reveal(Seq::filter);
    if buffer.len() > 0 {
        let less = buffer.drop_last();
        assert forall|i: int| 0 <= i < less.len() implies (#[trigger] less[i]).last_id < id by {
            assert(less[i] == buffer[i]);
        }
        assert(buffer[buffer.len() - 1].last_id < id);
        lemma_unreached(less, id);
    }
}

/// A snapshot that no diff reaches takes a book live.
proof fn lemma_comes_alive(
    m: BookModel,
    id: u64,
    bids: Seq<(Decimal, Decimal)>,
    asks: Seq<(Decimal, Decimal)>,
)
    requires
        m.state == BookState::Buffering,
        m.ticker_bid == 0,
        forall|i: int| 0 <= i < m.buffer.len() ==> (#[trigger] m.buffer[i]).last_id < id,
        apart(snapshot_side(bids), snapshot_side(asks)),
    ensures
        after_snapshot(m, id, bids, asks) == (
            BookModel {
                state: BookState::Live,
                bids: snapshot_side(bids),
                asks: snapshot_side(asks),
                last_update_id: id,
                snapshot_count: m.snapshot_count + 1,
                unverified_bridge_count: m.unverified_bridge_count + 1,
                buffer: Seq::empty(),
                need_first_event: true,
                bbo_mismatch_count: 0,
                ..m
            },
            true,
        ),
{
    reveal(after_snapshot);
    lemma_unreached(m.buffer, id);
    assert(replayable(m.buffer, id).take(0) =~= Seq::<DepthModel>::empty());
}

/// A live book follows a diff that comes in sequence.
proof fn lemma_follows(
    m: BookModel,
    ids: (u64, u64, u64),
    bids: Seq<(Decimal, Decimal)>,
    asks: Seq<(Decimal, Decimal)>,
)
    requires
        m.state == BookState::Live,
        m.ticker_bid == 0,
        ids.1 > m.last_update_id,
        m.need_first_event || ids.2 == m.last_update_id,
        apart(with_changes(m.bids, bids), with_changes(m.asks, asks)),
    ensures
        after_diff(m, ids, bids, asks) == (
            BookModel {
                bids: with_changes(m.bids, bids),
                asks: with_changes(m.asks, asks),
                last_update_id: ids.1,
                need_first_event: false,
                ..m
            },
            Action::Publish,
        ),
{
    reveal(after_diff);
}

/// One more level of a snapshot, at a price that was not there.
proof fn lemma_snapshot_push(levels: Seq<(Decimal, Decimal)>, level: (Decimal, Decimal))
    requires
        level.1.units() > 0,
        !snapshot_side(levels).contains_key(level.0.units()),
    ensures
        snapshot_side(levels.push(level)) == plus(snapshot_side(levels), level),
{
    assert(levels.push(level).drop_last() =~= levels);
}

/// A diff with one entry.
proof fn lemma_one_change(side: Map<int, (Decimal, Decimal)>, level: (Decimal, Decimal))
    ensures
        with_changes(side, seq![level]) == crate::model::with_change(side, level),
        with_changes(side, nothing()) == side,
{
    reveal_with_fuel(with_changes, 2);
    assert(seq![level].drop_last() =~= nothing());
}

/// A snapshot with one level.
proof fn lemma_snapshot_one(level: (Decimal, Decimal))
    requires
        level.1.units() > 0,
    ensures
        snapshot_side(seq![level]) == plus(bare(), level),
{
    assert(nothing().push(level) =~= seq![level]);
    lemma_snapshot_push(nothing(), level);
}

/// The levels that a synchronised book of the scripts has.
spec fn synced_model(
    symbol: Seq<char>,
    bid: (Decimal, Decimal),
    ask: (Decimal, Decimal),
) -> BookModel {
    BookModel {
        state: BookState::Live,
        bids: plus(bare(), bid),
        asks: plus(bare(), ask),
        last_update_id: 110,
        snapshot_count: 1,
        unverified_bridge_count: 1,
        ..unsynced(symbol)
    }
}

proof fn lemma_synced(symbol: Seq<char>, bid: (Decimal, Decimal), ask: (Decimal, Decimal))
    requires
        bid.0.units() < ask.0.units(),
        bid.1.units() > 0,
        ask.1.units() > 0,
    ensures
        synced_book(symbol, bid, ask) == synced_model(symbol, bid, ask),
{
    lemma_first_diff(symbol);
    let m1 = after_diff(unsynced(symbol), (1, 10, 0), nothing(), nothing()).0;
    lemma_snapshot_one(bid);
    lemma_snapshot_one(ask);
    lemma_comes_alive(m1, 100, seq![bid], seq![ask]);
    let m2 = after_snapshot(m1, 100, seq![bid], seq![ask]).0;
    lemma_one_change(m2.bids, bid);
    lemma_one_change(m2.asks, ask);
    lemma_follows(m2, (101, 110, 99), nothing(), nothing());
}

/// What the script of the crossed book comes to.
pub open spec fn crossed_outcome() -> ReportModel {
    ReportModel::Record(
        seq![
            ("action"@, ReportModel::Text("need_snapshot"@)),
            ("state"@, ReportModel::Text("buffering"@)),
            ("crossed_count"@, ReportModel::Count(1)),
        ],
    )
}

/// The crossed book asks for a snapshot.
pub proof fn crossed_books_are_given_up()
    ensures
        crossed_report() == crossed_outcome(),
{
    let bid = written_level((300000, 2), (10, 1));
    let ask = written_level((300100, 2), (10, 1));
    let high = written_level((300200, 2), (10, 1));
    lemma_worth(300000, 2);
    lemma_worth(300100, 2);
    lemma_worth(300200, 2);
    lemma_worth(10, 1);
    lemma_synced("ETHUSDT"@, bid, ask);
    let m = synced_model("ETHUSDT"@, bid, ask);
    lemma_one_change(m.bids, high);
    lemma_one_change(m.asks, ask);
    assert(nothing() =~= Seq::<(Decimal, Decimal)>::empty());
    reveal(after_diff);
    let bids = with_changes(m.bids, seq![high]);
    assert(bids.contains_key(high.0.units()));
    assert(m.asks.contains_key(ask.0.units()));
    let event = DepthModel {
        first_id: 111,
        last_id: 120,
        prev_id: 110,
        bids: seq![high],
        asks: nothing(),
    };
    crate::laws::crossed_books_ask_for_a_snapshot(m, event);
    let (after, action) = after_diff(m, (111, 120, 110), seq![high], nothing());
    assert(action == Action::NeedSnapshot);
    assert(after.state == BookState::Buffering && after.crossed_count == 1);
    assert(crossed_report()->Record_0 =~= crossed_outcome()->Record_0);
}

/// What the script of the reset comes to.
pub open spec fn resync_outcome() -> ReportModel {
    ReportModel::Record(
        seq![
            (
                "pre_reset"@,
                ReportModel::Record(
                    seq![
                        ("state"@, ReportModel::Text("live"@)),
                        ("bid_count"@, ReportModel::Count(1)),
                        ("last_update_id"@, ReportModel::Count(110)),
                    ],
                ),
            ),
            (
                "post_reset"@,
                ReportModel::Record(
                    seq![
                        ("state"@, ReportModel::Text("uninitialized"@)),
                        ("bid_count"@, ReportModel::Count(0)),
                        ("last_update_id"@, ReportModel::Count(0)),
                    ],
                ),
            ),
            ("after_depth_action"@, ReportModel::Text("need_snapshot"@)),
            ("after_depth_state"@, ReportModel::Text("buffering"@)),
        ],
    )
}

/// The live book is emptied by the reset, and asks for a snapshot with the next diff.
pub proof fn reset_books_start_over()
    ensures
        resync_report() == resync_outcome(),
{
    let bid = written_level((10, 2), (1000, 0));
    let ask = written_level((11, 2), (1000, 0));
    lemma_worth(10, 2);
    lemma_worth(11, 2);
    lemma_worth(1000, 0);
    lemma_synced("DOGEUSDT"@, bid, ask);
    let before = synced_model("DOGEUSDT"@, bid, ask);
    let emptied = reset_book(before);
    assert(before.bids.len() == 1);
    assert(emptied.bids.len() == 0);
    reveal(after_diff);
    let (after, action) = after_diff(emptied, (200, 210, 190), nothing(), nothing());
    assert(action == Action::NeedSnapshot && after.state == BookState::Buffering);
    assert(standing_item(before)->Record_0 =~= resync_outcome()->Record_0[0].1->Record_0);
    assert(standing_item(emptied)->Record_0 =~= resync_outcome()->Record_0[1].1->Record_0);
    assert(resync_report()->Record_0 =~= resync_outcome()->Record_0);
}

/// Whether a live book, up to the update id `id`, differs from the ticker, and nothing else
/// is wrong with it.
spec fn only_differs(m: BookModel, id: u64) -> bool {
    &&& m.state == BookState::Live
    &&& !m.need_first_event
    &&& m.last_update_id == id
    &&& crate::model::two_sided(m)
    &&& apart(m.bids, m.asks)
    &&& crate::model::ticker_known(m)
    &&& !crate::model::matches_ticker(m)
}

/// A diff that changes nothing, as long as the book differs from the ticker.
proof fn lemma_mismatch(m: BookModel, id: u64)
    requires
        only_differs(m, id),
        id <= 1000,
        0 <= m.bbo_mismatch_count <= 9,
    ensures
        m.bbo_mismatch_count < 9 ==> after_quiet_diff(m, id) == (
            BookModel {
                last_update_id: (id + 10) as u64,
                bbo_mismatch_count: m.bbo_mismatch_count + 1,
                ..m
            },
            Action::Publish,
        ),
        m.bbo_mismatch_count < 9 ==> only_differs(after_quiet_diff(m, id).0, (id + 10) as u64),
        m.bbo_mismatch_count == 9 ==> after_quiet_diff(m, id).1 == Action::NeedSnapshot
            && after_quiet_diff(m, id).0.state == BookState::Buffering,
{
    reveal(after_diff);
    let a = BookModel { last_update_id: (id + 10) as u64, ..m };
    assert(with_changes(m.bids, nothing()) == m.bids);
    assert(with_changes(m.asks, nothing()) == m.asks);
    assert(crate::model::two_sided(a) && !crate::model::crossed(a));
    assert(!crate::model::matches_ticker(a));
}

/// A diff that changes nothing, where the book agrees with the ticker.
proof fn lemma_match(m: BookModel, id: u64)
    requires
        m.state == BookState::Live,
        !m.need_first_event,
        m.last_update_id == id,
        id <= 1000,
        crate::model::two_sided(m),
        apart(m.bids, m.asks),
        crate::model::ticker_known(m),
        crate::model::matches_ticker(m),
    ensures
        after_quiet_diff(m, id).0 == (BookModel {
            last_update_id: (id + 10) as u64,
            bbo_mismatch_count: 0,
            ..m
        }),
{
    reveal(after_diff);
    let a = BookModel { last_update_id: (id + 10) as u64, ..m };
    assert(with_changes(m.bids, nothing()) == m.bids);
    assert(with_changes(m.asks, nothing()) == m.asks);
    assert(crate::model::two_sided(a) && !crate::model::crossed(a));
    assert(crate::model::matches_ticker(a));
}

/// Some mismatches in a row.
proof fn lemma_mismatches(m: BookModel, id: u64, n: nat)
    requires
        only_differs(m, id),
        id <= 500,
        0 <= m.bbo_mismatch_count,
        m.bbo_mismatch_count + n <= 9,
    ensures
        after_quiet_diffs(m, id, n) == (BookModel {
            last_update_id: (id + 10 * n) as u64,
            bbo_mismatch_count: m.bbo_mismatch_count + n,
            ..m
        }),
        only_differs(after_quiet_diffs(m, id, n), (id + 10 * n) as u64),
    decreases n,
{
    if n > 0 {
        let less = (n - 1) as nat;
        lemma_mismatches(m, id, less);
        lemma_mismatch(after_quiet_diffs(m, id, less), (id + 10 * less) as u64);
    }
}

/// Mismatches until there are ten of them in a row.
proof fn lemma_until_lost(m: BookModel, id: u64, n: nat)
    requires
        only_differs(m, id),
        id + 10 * n <= 1000,
        n > 0,
        m.bbo_mismatch_count >= 0,
        m.bbo_mismatch_count + n == 10,
    ensures
        quiet_until_lost(m, id, n).1 == Action::NeedSnapshot,
        quiet_until_lost(m, id, n).0.state == BookState::Buffering,
    decreases n,
{
    lemma_mismatch(m, id);
    if n > 1 {
        lemma_until_lost(after_quiet_diff(m, id).0, (id + 10) as u64, (n - 1) as nat);
    }
}

/// What the script of the divergence comes to.
pub open spec fn divergence_outcome() -> ReportModel {
    ReportModel::Record(
        seq![
            ("all_live_during_warmup"@, ReportModel::Flag(true)),
            ("final_action"@, ReportModel::Text("need_snapshot"@)),
            ("final_state"@, ReportModel::Text("buffering"@)),
        ],
    )
}

/// The book stays live while it differs from the ticker a few times, and asks for a snapshot
/// at the tenth time in a row.
pub proof fn diverging_books_are_given_up()
    ensures
        divergence_report() == divergence_outcome(),
{
    let bid = written_level((15000, 2), (100, 1));
    let ask = written_level((15100, 2), (100, 1));
    lemma_worth(14900, 2);
    lemma_worth(15000, 2);
    lemma_worth(15100, 2);
    lemma_worth(15200, 2);
    lemma_worth(100, 1);
    lemma_synced("SOLUSDT"@, bid, ask);
    let m0 = synced_model("SOLUSDT"@, bid, ask);
    let (low, high) = (written(14900, 2), written(15200, 2));
    let (b, a) = (bid.0.units(), ask.0.units());
    assert(m0.bids.contains_key(b) && m0.asks.contains_key(a));
    let m1 = with_ticker(m0, low, high);
    assert(only_differs(m1, 110));
    assert forall|k: nat| 1 <= k <= 5 implies (#[trigger] after_quiet_diffs(m1, 110, k)).state
        == BookState::Live by {
        lemma_mismatches(m1, 110, k);
    }
    lemma_mismatches(m1, 110, 5);
    let m2 = after_quiet_diffs(m1, 110, 5);
    let agreed = with_ticker(m2, bid.0, ask.0);
    assert(agreed.bids.contains_key(b) && agreed.asks.contains_key(a));
    lemma_match(agreed, 160);
    let m3 = after_quiet_diff(agreed, 160).0;
    let again = with_ticker(m3, low, high);
    assert(again.bids.contains_key(b) && again.asks.contains_key(a));
    assert(only_differs(again, 170));
    lemma_until_lost(again, 170, 10);
    assert(divergence_report()->Record_0 =~= divergence_outcome()->Record_0);
}

/// A number of tenths in plain notation.
proof fn lemma_tenths(magnitude: u128, whole: nat, rest: nat)
    requires
        magnitude == whole * 10 + rest,
        rest < 10,
    ensures
        decimal_text(false, magnitude, 1) == digits_of(whole) + seq!['.', digit_char(rest)],
{
    reveal_with_fuel(pow10, 3);
    reveal_with_fuel(padded_digits, 2);
    assert(magnitude as nat / 10nat == whole);
    assert(magnitude as nat % 10nat == rest);
    assert(decimal_text(false, magnitude, 1) =~= digits_of(whole) + seq!['.', digit_char(rest)]);
}

/// A whole number in plain notation, with two digits behind the point.
proof fn lemma_hundredths(magnitude: u128, whole: nat)
    requires
        magnitude == whole * 100,
    ensures
        decimal_text(false, magnitude, 2) == digits_of(whole) + seq!['.', '0', '0'],
{
    reveal_with_fuel(pow10, 4);
    reveal_with_fuel(padded_digits, 3);
    assert(magnitude as nat / 100nat == whole);
    assert(magnitude as nat % 100nat == 0);
    assert(decimal_text(false, magnitude, 2) =~= digits_of(whole) + seq!['.', '0', '0']);
}

/// The quantities of the scripts in plain notation.
proof fn lemma_quantity_texts()
    ensures
        decimal_text(false, 15, 1) == "1.5"@,
        decimal_text(false, 20, 1) == "2.0"@,
        decimal_text(false, 10, 1) == "1.0"@,
        decimal_text(false, 30, 1) == "3.0"@,
{
    lemma_tenths(15, 1, 5);
    reveal_strlit("1.5");
    assert(decimal_text(false, 15, 1) =~= "1.5"@);
    lemma_tenths(20, 2, 0);
    reveal_strlit("2.0");
    assert(decimal_text(false, 20, 1) =~= "2.0"@);
    lemma_tenths(10, 1, 0);
    reveal_strlit("1.0");
    assert(decimal_text(false, 10, 1) =~= "1.0"@);
    lemma_tenths(30, 3, 0);
    reveal_strlit("3.0");
    assert(decimal_text(false, 30, 1) =~= "3.0"@);
}

/// The prices of the lifecycle in plain notation.
proof fn lemma_high_price_texts()
    ensures
        decimal_text(false, 6400000, 2) == "64000.00"@,
        decimal_text(false, 6399900, 2) == "63999.00"@,
        decimal_text(false, 6399800, 2) == "63998.00"@,
        decimal_text(false, 6400100, 2) == "64001.00"@,
        decimal_text(false, 6400200, 2) == "64002.00"@,
{
    reveal_with_fuel(digits_of, 6);
    lemma_hundredths(6400000, 64000);
    assert(digits_of(64000) =~= seq!['6', '4', '0', '0', '0']);
    reveal_strlit("64000.00");
    assert(decimal_text(false, 6400000, 2) =~= "64000.00"@);
    lemma_hundredths(6399900, 63999);
    assert(digits_of(63999) =~= seq!['6', '3', '9', '9', '9']);
    reveal_strlit("63999.00");
    assert(decimal_text(false, 6399900, 2) =~= "63999.00"@);
    lemma_hundredths(6399800, 63998);
    assert(digits_of(63998) =~= seq!['6', '3', '9', '9', '8']);
    reveal_strlit("63998.00");
    assert(decimal_text(false, 6399800, 2) =~= "63998.00"@);
    lemma_hundredths(6400100, 64001);
    assert(digits_of(64001) =~= seq!['6', '4', '0', '0', '1']);
    reveal_strlit("64001.00");
    assert(decimal_text(false, 6400100, 2) =~= "64001.00"@);
    lemma_hundredths(6400200, 64002);
    assert(digits_of(64002) =~= seq!['6', '4', '0', '0', '2']);
    reveal_strlit("64002.00");
    assert(decimal_text(false, 6400200, 2) =~= "64002.00"@);
}

/// The prices of the ordering in plain notation.
proof fn lemma_low_price_texts()
    ensures
        decimal_text(false, 2900, 2) == "29.00"@,
        decimal_text(false, 3000, 2) == "30.00"@,
        decimal_text(false, 3100, 2) == "31.00"@,
        decimal_text(false, 3200, 2) == "32.00"@,
        decimal_text(false, 3300, 2) == "33.00"@,
        decimal_text(false, 3400, 2) == "34.00"@,
{
    reveal_with_fuel(digits_of, 3);
    lemma_hundredths(2900, 29);
    assert(digits_of(29) =~= seq!['2', '9']);
    reveal_strlit("29.00");
    assert(decimal_text(false, 2900, 2) =~= "29.00"@);
    lemma_hundredths(3000, 30);
    assert(digits_of(30) =~= seq!['3', '0']);
    reveal_strlit("30.00");
    assert(decimal_text(false, 3000, 2) =~= "30.00"@);
    lemma_hundredths(3100, 31);
    assert(digits_of(31) =~= seq!['3', '1']);
    reveal_strlit("31.00");
    assert(decimal_text(false, 3100, 2) =~= "31.00"@);
    lemma_hundredths(3200, 32);
    assert(digits_of(32) =~= seq!['3', '2']);
    reveal_strlit("32.00");
    assert(decimal_text(false, 3200, 2) =~= "32.00"@);
    lemma_hundredths(3300, 33);
    assert(digits_of(33) =~= seq!['3', '3']);
    reveal_strlit("33.00");
    assert(decimal_text(false, 3300, 2) =~= "33.00"@);
    lemma_hundredths(3400, 34);
    assert(digits_of(34) =~= seq!['3', '4']);
    reveal_strlit("34.00");
    assert(decimal_text(false, 3400, 2) =~= "34.00"@);
}

/// What the script of the lifecycle comes to.
pub open spec fn lifecycle_outcome() -> ReportModel {
    ReportModel::List(
        seq![
            ReportModel::Record(
                seq![
                    ("step"@, ReportModel::Text("first_depth"@)),
                    ("action"@, ReportModel::Text("need_snapshot"@)),
                    ("state"@, ReportModel::Text("buffering"@)),
                ],
            ),
            ReportModel::Record(
                seq![
                    ("step"@, ReportModel::Text("buffer_depth"@)),
                    ("action"@, ReportModel::Null),
                    ("state"@, ReportModel::Text("buffering"@)),
                ],
            ),
            ReportModel::Record(
                seq![
                    ("step"@, ReportModel::Text("snapshot"@)),
                    ("ok"@, ReportModel::Flag(true)),
                    ("state"@, ReportModel::Text("live"@)),
                    ("bid_count"@, ReportModel::Count(2)),
                    ("ask_count"@, ReportModel::Count(2)),
                    ("last_update_id"@, ReportModel::Count(100)),
                ],
            ),
            ReportModel::Record(
                seq![
                    ("step"@, ReportModel::Text("first_live_depth"@)),
                    ("action"@, ReportModel::Text("publish"@)),
                    ("state"@, ReportModel::Text("live"@)),
                    (
                        "top_bids"@,
                        ReportModel::List(
                            seq![
                                pair_item(("64000.00"@, "1.5"@)),
                                pair_item(("63999.00"@, "2.0"@)),
                                pair_item(("63998.00"@, "1.0"@)),
                            ],
                        ),
                    ),
                    (
                        "top_asks"@,
                        ReportModel::List(
                            seq![pair_item(("64001.00"@, "1.0"@)), pair_item(("64002.00"@, "3.0"@))],
                        ),
                    ),
                ],
            ),
            ReportModel::Record(
                seq![
                    ("step"@, ReportModel::Text("apply_diff"@)),
                    ("action"@, ReportModel::Text("publish"@)),
                    ("has_64000"@, ReportModel::Flag(false)),
                    ("has_64001_50"@, ReportModel::Flag(true)),
                ],
            ),
            ReportModel::Record(
                seq![
                    ("step"@, ReportModel::Text("sequence_gap"@)),
                    ("action"@, ReportModel::Text("need_snapshot"@)),
                    ("state"@, ReportModel::Text("buffering"@)),
                    ("gap_count"@, ReportModel::Count(1)),
                ],
            ),
        ],
    )
}

/// The map of an ascending list of two levels.
proof fn lemma_two_listed(a: (Decimal, Decimal), b: (Decimal, Decimal))
    requires
        a.0.units() < b.0.units(),
    ensures
        ascending(seq![a, b]),
        by_price(seq![a, b]) == plus(plus(bare(), a), b),
{
    assert(by_price(nothing()) =~= bare());
    crate::levels::lemma_by_price_push(nothing(), a);
    crate::levels::lemma_by_price_push(nothing().push(a), b);
    assert(nothing().push(a).push(b) =~= seq![a, b]);
}

/// The map of an ascending list of three levels.
proof fn lemma_three_listed(a: (Decimal, Decimal), b: (Decimal, Decimal), c: (Decimal, Decimal))
    requires
        a.0.units() < b.0.units() < c.0.units(),
    ensures
        ascending(seq![a, b, c]),
        by_price(seq![a, b, c]) == plus(plus(plus(bare(), a), b), c),
{
    lemma_two_listed(a, b);
    crate::levels::lemma_by_price_push(seq![a, b], c);
    assert(seq![a, b].push(c) =~= seq![a, b, c]);
}

/// A snapshot with two levels.
proof fn lemma_snapshot_two(a: (Decimal, Decimal), b: (Decimal, Decimal))
    requires
        a.1.units() > 0,
        b.1.units() > 0,
        a.0.units() != b.0.units(),
    ensures
        snapshot_side(seq![a, b]) == plus(plus(bare(), a), b),
{
    lemma_snapshot_one(a);
    lemma_snapshot_push(seq![a], b);
    assert(seq![a].push(b) =~= seq![a, b]);
}

/// The levels of the lifecycle after its first live diff.
#[verifier::rlimit(40)]
#[verifier::spinoff_prover]
proof fn lemma_lifecycle_levels(m: BookModel)
    requires
        m.bids == plus(
            plus(
                plus(bare(), written_level((6400000, 2), (15, 1))),
                written_level((6399900, 2), (20, 1)),
            ),
            written_level((6399800, 2), (10, 1)),
        ),
        m.asks == plus(
            plus(bare(), written_level((6400100, 2), (10, 1))),
            written_level((6400200, 2), (30, 1)),
        ),
    ensures
        top_items(m, 3).0 == lifecycle_outcome()->List_0[3]->Record_0[3].1,
        top_items(m, 3).1 == lifecycle_outcome()->List_0[3]->Record_0[4].1,
{
    let b1 = written_level((6400000, 2), (15, 1));
    let b2 = written_level((6399900, 2), (20, 1));
    let b3 = written_level((6399800, 2), (10, 1));
    let a1 = written_level((6400100, 2), (10, 1));
    let a2 = written_level((6400200, 2), (30, 1));
    lemma_worth(6400000, 2);
    lemma_worth(6399900, 2);
    lemma_worth(6399800, 2);
    lemma_worth(6400100, 2);
    lemma_worth(6400200, 2);
    lemma_worth(15, 1);
    lemma_worth(20, 1);
    lemma_worth(10, 1);
    lemma_worth(30, 1);
    lemma_quantity_texts();
    lemma_high_price_texts();
    lemma_three_listed(b3, b2, b1);
    assert(by_price(seq![b3, b2, b1]) =~= m.bids);
    crate::levels::lemma_listing(seq![b3, b2, b1]);
    lemma_two_listed(a1, a2);
    crate::levels::lemma_listing(seq![a1, a2]);
    let top_bids = highest_first(listing(m.bids), 3);
    let top_asks = lowest_first(listing(m.asks), 3);
    assert(top_bids =~= seq![b1, b2, b3]);
    assert(top_asks =~= seq![a1, a2]);
    assert(pair_items(level_texts(top_bids)) =~= seq![
        pair_item(("64000.00"@, "1.5"@)),
        pair_item(("63999.00"@, "2.0"@)),
        pair_item(("63998.00"@, "1.0"@)),
    ]);
    assert(pair_items(level_texts(top_asks)) =~= seq![
        pair_item(("64001.00"@, "1.0"@)),
        pair_item(("64002.00"@, "3.0"@)),
    ]);
}

/// The book buffers, goes live with the snapshot, follows two diffs, and asks for another
/// snapshot at the gap.
pub proof fn lifecycles_go_as_known()
    ensures
        lifecycle_report() == lifecycle_outcome(),
{
    let b1 = written_level((6400000, 2), (15, 1));
    let b2 = written_level((6399900, 2), (20, 1));
    let b3 = written_level((6399800, 2), (10, 1));
    let a1 = written_level((6400100, 2), (10, 1));
    let a2 = written_level((6400200, 2), (30, 1));
    let gone = written_level((6400000, 2), (0, 0));
    let new = written_level((6400150, 2), (5, 1));
    lemma_worth(6400000, 2);
    lemma_worth(6399900, 2);
    lemma_worth(6399800, 2);
    lemma_worth(6400100, 2);
    lemma_worth(6400150, 2);
    lemma_worth(6400200, 2);
    lemma_worth(15, 1);
    lemma_worth(20, 1);
    lemma_worth(10, 1);
    lemma_worth(30, 1);
    lemma_worth(5, 1);
    lemma_worth(0, 0);

    lemma_first_diff("BTCUSDT"@);
    let (m1, act1) = after_diff(unsynced("BTCUSDT"@), (1, 10, 0), nothing(), nothing());
    let (m2, act2) = after_diff(m1, (11, 20, 10), nothing(), nothing());
    assert(m2 == (BookModel {
        buffer: m1.buffer.push(empty_diff((11, 20, 10))),
        ..m1
    }) && act2 == Action::None_) by {
        reveal(after_diff);
    }

    lemma_snapshot_two(b1, b2);
    lemma_snapshot_two(a1, a2);
    lemma_comes_alive(m2, 100, seq![b1, b2], seq![a1, a2]);
    let (m3, live) = after_snapshot(m2, 100, seq![b1, b2], seq![a1, a2]);
    assert(m3.bids.len() == 2 && m3.asks.len() == 2);

    lemma_one_change(m3.bids, b3);
    lemma_one_change(m3.asks, a1);
    lemma_follows(m3, (101, 110, 99), seq![b3], nothing());
    let (m4, act4) = after_diff(m3, (101, 110, 99), seq![b3], nothing());
    assert(m4.bids =~= plus(plus(plus(bare(), b1), b2), b3));
    lemma_lifecycle_levels(m4);

    lemma_one_change(m4.bids, gone);
    lemma_one_change(m4.asks, new);
    lemma_follows(m4, (111, 120, 110), seq![gone], seq![new]);
    let (m5, act5) = after_diff(m4, (111, 120, 110), seq![gone], seq![new]);
    assert(!m5.bids.contains_key(written(6400000, 2).units()));
    assert(m5.asks.contains_key(written(6400150, 2).units()));

    let (m6, act6) = after_diff(m5, (500, 510, 499), nothing(), nothing());
    assert(m6.state == BookState::Buffering && m6.gap_count == 1 && act6 == Action::NeedSnapshot)
        by {
        reveal(after_diff);
    }
    let told = lifecycle_report()->List_0;
    let known = lifecycle_outcome()->List_0;
    assert(told[0]->Record_0 =~= known[0]->Record_0);
    assert(told[1]->Record_0 =~= known[1]->Record_0);
    assert(told[2]->Record_0 =~= known[2]->Record_0);
    assert(told[3]->Record_0 =~= known[3]->Record_0);
    assert(told[4]->Record_0 =~= known[4]->Record_0);
    assert(told[5]->Record_0 =~= known[5]->Record_0);
    assert(told =~= known);
}

/// What the script of the ordering comes to.
pub open spec fn ordering_outcome() -> ReportModel {
    ReportModel::Record(
        seq![
            (
                "top_3_bid_prices"@,
                ReportModel::List(
                    seq![
                        ReportModel::Text("31.00"@),
                        ReportModel::Text("30.00"@),
                        ReportModel::Text("29.00"@),
                    ],
                ),
            ),
            (
                "top_3_ask_prices"@,
                ReportModel::List(
                    seq![
                        ReportModel::Text("32.00"@),
                        ReportModel::Text("33.00"@),
                        ReportModel::Text("34.00"@),
                    ],
                ),
            ),
        ],
    )
}

/// A snapshot with five levels.
proof fn lemma_snapshot_five(levels: Seq<(Decimal, Decimal)>)
    requires
        levels.len() == 5,
        forall|i: int| 0 <= i < 5 ==> (#[trigger] levels[i]).1.units() > 0,
        forall|i: int, j: int|
            0 <= i < j < 5 ==> (#[trigger] levels[i]).0.units() != (
            #[trigger] levels[j]).0.units(),
    ensures
        snapshot_side(levels) == plus(
            plus(plus(plus(plus(bare(), levels[0]), levels[1]), levels[2]), levels[3]),
            levels[4],
        ),
{
    lemma_snapshot_two(levels[0], levels[1]);
    lemma_snapshot_push(seq![levels[0], levels[1]], levels[2]);
    lemma_snapshot_push(seq![levels[0], levels[1]].push(levels[2]), levels[3]);
    lemma_snapshot_push(
        seq![levels[0], levels[1]].push(levels[2]).push(levels[3]),
        levels[4],
    );
    assert(levels =~= seq![levels[0], levels[1]].push(levels[2]).push(levels[3]).push(levels[4]));
}

/// The map of an ascending list of five levels.
proof fn lemma_five_listed(levels: Seq<(Decimal, Decimal)>)
    requires
        levels.len() == 5,
        ascending(levels),
    ensures
        by_price(levels) == plus(
            plus(plus(plus(plus(bare(), levels[0]), levels[1]), levels[2]), levels[3]),
            levels[4],
        ),
{
    let three = seq![levels[0], levels[1], levels[2]];
    lemma_three_listed(levels[0], levels[1], levels[2]);
    crate::levels::lemma_by_price_push(three, levels[3]);
    crate::levels::lemma_by_price_push(three.push(levels[3]), levels[4]);
    assert(levels =~= three.push(levels[3]).push(levels[4]));
}

/// Levels that come in no order are listed best first.
pub proof fn levels_are_listed_best_first()
    ensures
        ordering_report() == ordering_outcome(),
{
    let bids = seq![
        written_level((3000, 2), (1, 0)),
        written_level((2800, 2), (2, 0)),
        written_level((2900, 2), (3, 0)),
        written_level((2700, 2), (4, 0)),
        written_level((3100, 2), (5, 0)),
    ];
    let asks = seq![
        written_level((3200, 2), (1, 0)),
        written_level((3500, 2), (2, 0)),
        written_level((3300, 2), (3, 0)),
        written_level((3400, 2), (4, 0)),
        written_level((3600, 2), (5, 0)),
    ];
    lemma_worth(2700, 2);
    lemma_worth(2800, 2);
    lemma_worth(2900, 2);
    lemma_worth(3000, 2);
    lemma_worth(3100, 2);
    lemma_worth(3200, 2);
    lemma_worth(3300, 2);
    lemma_worth(3400, 2);
    lemma_worth(3500, 2);
    lemma_worth(3600, 2);
    lemma_worth(1, 0);
    lemma_worth(2, 0);
    lemma_worth(3, 0);
    lemma_worth(4, 0);
    lemma_worth(5, 0);
    lemma_low_price_texts();
    lemma_first_diff("AVAXUSDT"@);
    let m1 = after_diff(unsynced("AVAXUSDT"@), (1, 10, 0), nothing(), nothing()).0;
    lemma_snapshot_five(bids);
    lemma_snapshot_five(asks);
    lemma_comes_alive(m1, 100, bids, asks);
    let m2 = after_snapshot(m1, 100, bids, asks).0;

    let rising_bids = seq![bids[3], bids[1], bids[2], bids[0], bids[4]];
    let rising_asks = seq![asks[0], asks[2], asks[3], asks[1], asks[4]];
    lemma_five_listed(rising_bids);
    lemma_five_listed(rising_asks);
    assert(by_price(rising_bids) =~= m2.bids);
    assert(by_price(rising_asks) =~= m2.asks);
    crate::levels::lemma_listing(rising_bids);
    crate::levels::lemma_listing(rising_asks);
    let top_bids = highest_first(listing(m2.bids), 3);
    let top_asks = lowest_first(listing(m2.asks), 3);
    assert(top_bids =~= seq![bids[4], bids[0], bids[2]]);
    assert(top_asks =~= seq![asks[0], asks[2], asks[3]]);
    assert(text_items(price_texts(top_bids)) =~= ordering_outcome()->Record_0[0].1->List_0);
    assert(text_items(price_texts(top_asks)) =~= ordering_outcome()->Record_0[1].1->List_0);
    assert(ordering_report()->Record_0 =~= ordering_outcome()->Record_0);
}

} // verus!
