//! Short scripts of events with a known outcome, one for each thing that can happen to a
//! book.
use vstd::prelude::*;

use crate::book::{action_name, state_name, Action, Book, BookState, Levels};
use crate::decimal::{decimal_of, Decimal};
use crate::levels::{highest_first, listing, lowest_first};
use crate::model::{
    counted_at_most, depth_step, reset_book, snapshot_step, unsynced, BookModel, DepthModel,
};
use crate::outcomes::{
    crossed_outcome, divergence_outcome, lifecycle_outcome, ordering_outcome, resync_outcome,
};
use crate::report::{
    level_texts, models, pair_items, print_levels, text_items, Report, ReportModel,
};

verus! {

/// A level with a price and a quantity, each given by its digits and its scale.
pub open spec fn written_level(price: (u32, u32), qty: (u32, u32)) -> (Decimal, Decimal) {
    (decimal_of((false, price.0 as u128, price.1)), decimal_of((false, qty.0 as u128, qty.1)))
}

/// A level with a price and a quantity, each given by its digits and its scale.
fn level(price: (u32, u32), qty: (u32, u32)) -> (r: (Decimal, Decimal))
    requires
        price.1 <= 28,
        qty.1 <= 28,
    ensures
        r == written_level(price, qty),
{
    (Decimal::new(price.0 as i64, price.1), Decimal::new(qty.0 as i64, qty.1))
}

/// A list of one level.
fn one(level: (Decimal, Decimal)) -> (r: Levels)
    ensures
        r@ == seq![level],
{
    let mut r: Levels = Vec::new();
    r.push(level);
    assert(r@ =~= seq![level]);
    r
}

/// A list of two levels.
fn two(first: (Decimal, Decimal), second: (Decimal, Decimal)) -> (r: Levels)
    ensures
        r@ == seq![first, second],
{
    let mut r: Levels = Vec::new();
    r.push(first);
    r.push(second);
    assert(r@ =~= seq![first, second]);
    r
}

/// No levels.
fn none() -> (r: Levels)
    ensures
        r@ == Seq::<(Decimal, Decimal)>::empty(),
{
    Vec::new()
}

/// What a diff makes of a book, and what is to be done then.
#[verifier::opaque]
pub open spec fn after_diff(
    m: BookModel,
    ids: (u64, u64, u64),
    bids: Seq<(Decimal, Decimal)>,
    asks: Seq<(Decimal, Decimal)>,
) -> (BookModel, Action) {
    depth_step(m, DepthModel { first_id: ids.0, last_id: ids.1, prev_id: ids.2, bids, asks })
}

/// What a snapshot makes of a book, and whether the book is live then.
#[verifier::opaque]
pub open spec fn after_snapshot(
    m: BookModel,
    id: u64,
    bids: Seq<(Decimal, Decimal)>,
    asks: Seq<(Decimal, Decimal)>,
) -> (BookModel, bool) {
    snapshot_step(m, id, bids, asks)
}

/// Gives a diff to a book.
fn diff(book: &mut Book, ids: (u64, u64, u64), bids: Levels, asks: Levels) -> (r: Action)
    requires
        old(book).wf(),
        counted_at_most(old(book)@, u64::MAX - 1),
    ensures
        final(book).wf(),
        (final(book)@, r) == after_diff(old(book)@, ids, bids@, asks@),
        forall|n: int| #[trigger]
            counted_at_most(old(book)@, n) ==> counted_at_most(final(book)@, n + 1),
{
    reveal(after_diff);
    book.on_depth(ids.0, ids.1, ids.2, bids, asks)
}

/// Gives a snapshot to a book.
fn snapshot(book: &mut Book, id: u64, bids: Levels, asks: Levels) -> (r: bool)
    requires
        old(book).wf(),
        counted_at_most(old(book)@, u64::MAX - 1),
    ensures
        final(book).wf(),
        (final(book)@, r) == after_snapshot(old(book)@, id, bids@, asks@),
        forall|n: int| #[trigger]
            counted_at_most(old(book)@, n) ==> counted_at_most(final(book)@, n + 1),
{
    reveal(after_snapshot);
    book.on_snapshot(id, bids.as_slice(), asks.as_slice())
}

/// What an action is called.
pub open spec fn action_item(action: Action) -> ReportModel {
    match action_name(action) {
        Some(name) => ReportModel::Text(name),
        None => ReportModel::Null,
    }
}

/// What an action is called.
fn action_report(action: Action) -> (r: Report)
    ensures
        r.model() == action_item(action),
{
    match action.name() {
        Some(name) => Report::text(name),
        None => Report::Null,
    }
}

/// What the state of a book is called.
fn state_report(book: &Book) -> (r: Report)
    ensures
        r.model() == ReportModel::Text(state_name(book@.state)),
{
    Report::text(book.state.name())
}

/// The best levels of both sides.
pub open spec fn top_items(m: BookModel, n: nat) -> (ReportModel, ReportModel) {
    (
        ReportModel::List(pair_items(level_texts(highest_first(listing(m.bids), n)))),
        ReportModel::List(pair_items(level_texts(lowest_first(listing(m.asks), n)))),
    )
}

/// The best levels of both sides.
fn top_report(book: &Book, n: usize) -> (r: (Report, Report))
    requires
        book.wf(),
    ensures
        (r.0.model(), r.1.model()) == top_items(book@, n as nat),
{
    let (bids, asks) = book.top_levels(n);
    let bids = print_levels(bids.as_slice());
    let asks = print_levels(asks.as_slice());
    (Report::pairs(bids.as_slice()), Report::pairs(asks.as_slice()))
}

/// A book starts, is synchronised, follows the market, and meets a gap.
pub open spec fn lifecycle_report() -> ReportModel {
    let nothing = Seq::<(Decimal, Decimal)>::empty();
    let (m1, a1) = after_diff(unsynced("BTCUSDT"@), (1, 10, 0), nothing, nothing);
    let (m2, a2) = after_diff(m1, (11, 20, 10), nothing, nothing);
    let (m3, live) = after_snapshot(
        m2,
        100,
        seq![written_level((6400000, 2), (15, 1)), written_level((6399900, 2), (20, 1))],
        seq![written_level((6400100, 2), (10, 1)), written_level((6400200, 2), (30, 1))],
    );
    let (m4, a4) = after_diff(
        m3,
        (101, 110, 99),
        seq![written_level((6399800, 2), (10, 1))],
        nothing,
    );
    let (m5, a5) = after_diff(
        m4,
        (111, 120, 110),
        seq![written_level((6400000, 2), (0, 0))],
        seq![written_level((6400150, 2), (5, 1))],
    );
    let (m6, a6) = after_diff(m5, (500, 510, 499), nothing, nothing);
    ReportModel::List(
        seq![
            ReportModel::Record(
                seq![
                    ("step"@, ReportModel::Text("first_depth"@)),
                    ("action"@, action_item(a1)),
                    ("state"@, ReportModel::Text(state_name(m1.state))),
                ],
            ),
            ReportModel::Record(
                seq![
                    ("step"@, ReportModel::Text("buffer_depth"@)),
                    ("action"@, action_item(a2)),
                    ("state"@, ReportModel::Text(state_name(m2.state))),
                ],
            ),
            ReportModel::Record(
                seq![
                    ("step"@, ReportModel::Text("snapshot"@)),
                    ("ok"@, ReportModel::Flag(live)),
                    ("state"@, ReportModel::Text(state_name(m3.state))),
                    ("bid_count"@, ReportModel::Count(m3.bids.len() as int)),
                    ("ask_count"@, ReportModel::Count(m3.asks.len() as int)),
                    ("last_update_id"@, ReportModel::Count(m3.last_update_id as int)),
                ],
            ),
            ReportModel::Record(
                seq![
                    ("step"@, ReportModel::Text("first_live_depth"@)),
                    ("action"@, action_item(a4)),
                    ("state"@, ReportModel::Text(state_name(m4.state))),
                    ("top_bids"@, top_items(m4, 3).0),
                    ("top_asks"@, top_items(m4, 3).1),
                ],
            ),
            ReportModel::Record(
                seq![
                    ("step"@, ReportModel::Text("apply_diff"@)),
                    ("action"@, action_item(a5)),
                    (
                        "has_64000"@,
                        ReportModel::Flag(
                            m5.bids.contains_key(decimal_of((false, 6400000, 2)).units()),
                        ),
                    ),
                    (
                        "has_64001_50"@,
                        ReportModel::Flag(
                            m5.asks.contains_key(decimal_of((false, 6400150, 2)).units()),
                        ),
                    ),
                ],
            ),
            ReportModel::Record(
                seq![
                    ("step"@, ReportModel::Text("sequence_gap"@)),
                    ("action"@, action_item(a6)),
                    ("state"@, ReportModel::Text(state_name(m6.state))),
                    ("gap_count"@, ReportModel::Count(m6.gap_count)),
                ],
            ),
        ],
    )
}

/// A book starts, is synchronised, follows the market, and meets a gap.
pub fn scenario_basic_lifecycle() -> (r: Report)
    ensures
        r.model() == lifecycle_report(),
        r.model() == lifecycle_outcome(),
{
    proof {
        crate::outcomes::lifecycles_go_as_known();
    }
    let ghost expected = lifecycle_report()->List_0;
    let mut book = Book::new("BTCUSDT".to_owned());
    assert(counted_at_most(book@, 0));
    let mut results: Vec<Report> = Vec::new();

    let action = diff(&mut book, (1, 10, 0), none(), none());
    let item = Report::record().with("step", Report::text("first_depth")).with(
        "action",
        action_report(action),
    ).with("state", state_report(&book));
    assert(item.model()->Record_0 =~= expected[0]->Record_0);
    results.push(item);

    let action = diff(&mut book, (11, 20, 10), none(), none());
    let item = Report::record().with("step", Report::text("buffer_depth")).with(
        "action",
        action_report(action),
    ).with("state", state_report(&book));
    assert(item.model()->Record_0 =~= expected[1]->Record_0);
    results.push(item);

    let bids = two(level((6400000, 2), (15, 1)), level((6399900, 2), (20, 1)));
    let asks = two(level((6400100, 2), (10, 1)), level((6400200, 2), (30, 1)));
    let live = snapshot(&mut book, 100, bids, asks);
    let item = Report::record().with("step", Report::text("snapshot")).with(
        "ok",
        Report::Flag(live),
    ).with("state", state_report(&book)).with("bid_count", Report::count(book.bids.len())).with(
        "ask_count",
        Report::count(book.asks.len()),
    ).with("last_update_id", Report::number(book.last_update_id));
    assert(item.model()->Record_0 =~= expected[2]->Record_0);
    results.push(item);

    let action = diff(
        &mut book,
        (101, 110, 99),
        one(level((6399800, 2), (10, 1))),
        none(),
    );
    let (top_bids, top_asks) = top_report(&book, 3);
    let item = Report::record().with("step", Report::text("first_live_depth")).with(
        "action",
        action_report(action),
    ).with("state", state_report(&book)).with("top_bids", top_bids).with("top_asks", top_asks);
    assert(item.model()->Record_0 =~= expected[3]->Record_0);
    results.push(item);

    let action = diff(
        &mut book,
        (111, 120, 110),
        one(level((6400000, 2), (0, 0))),
        one(level((6400150, 2), (5, 1))),
    );
    let has_bid = book.bids.contains_key(&Decimal::new(6400000, 2));
    let has_ask = book.asks.contains_key(&Decimal::new(6400150, 2));
    let item = Report::record().with("step", Report::text("apply_diff")).with(
        "action",
        action_report(action),
    ).with("has_64000", Report::Flag(has_bid)).with("has_64001_50", Report::Flag(has_ask));
    assert(item.model()->Record_0 =~= expected[4]->Record_0);
    results.push(item);

    let action = diff(&mut book, (500, 510, 499), none(), none());
    let item = Report::record().with("step", Report::text("sequence_gap")).with(
        "action",
        action_report(action),
    ).with("state", state_report(&book)).with("gap_count", Report::number(book.gap_count));
    assert(item.model()->Record_0 =~= expected[5]->Record_0);
    results.push(item);

    assert(models(results@) =~= expected);
    Report::list(results)
}

/// A synchronised book with one level on each side.
pub open spec fn synced_book(
    symbol: Seq<char>,
    bid: (Decimal, Decimal),
    ask: (Decimal, Decimal),
) -> BookModel {
    let nothing = Seq::<(Decimal, Decimal)>::empty();
    let (m1, _) = after_diff(unsynced(symbol), (1, 10, 0), nothing, nothing);
    let (m2, _) = after_snapshot(m1, 100, seq![bid], seq![ask]);
    after_diff(m2, (101, 110, 99), nothing, nothing).0
}

/// A synchronised book with one level on each side.
fn synced(symbol: &str, bid: (Decimal, Decimal), ask: (Decimal, Decimal)) -> (r: Book)
    ensures
        r.wf(),
        r@ == synced_book(symbol@, bid, ask),
        counted_at_most(r@, 3),
{
    let mut book = Book::new(symbol.to_owned());
    assert(counted_at_most(book@, 0));
    diff(&mut book, (1, 10, 0), none(), none());
    snapshot(&mut book, 100, one(bid), one(ask));
    diff(&mut book, (101, 110, 99), none(), none());
    book
}

/// A bid comes that is higher than the lowest ask.
pub open spec fn crossed_report() -> ReportModel {
    let m = synced_book(
        "ETHUSDT"@,
        written_level((300000, 2), (10, 1)),
        written_level((300100, 2), (10, 1)),
    );
    let (after, action) = after_diff(
        m,
        (111, 120, 110),
        seq![written_level((300200, 2), (10, 1))],
        Seq::empty(),
    );
    ReportModel::Record(
        seq![
            ("action"@, action_item(action)),
            ("state"@, ReportModel::Text(state_name(after.state))),
            ("crossed_count"@, ReportModel::Count(after.crossed_count)),
        ],
    )
}

/// A bid comes that is higher than the lowest ask.
pub fn scenario_crossed_book() -> (r: Report)
    ensures
        r.model() == crossed_report(),
        r.model() == crossed_outcome(),
{
    proof {
        crate::outcomes::crossed_books_are_given_up();
    }
    let mut book = synced(
        "ETHUSDT",
        level((300000, 2), (10, 1)),
        level((300100, 2), (10, 1)),
    );
    let action = diff(&mut book, (111, 120, 110), one(level((300200, 2), (10, 1))), none());
    let r = Report::record().with("action", action_report(action)).with(
        "state",
        state_report(&book),
    ).with("crossed_count", Report::number(book.crossed_count));
    assert(r.model()->Record_0 =~= crossed_report()->Record_0);
    r
}

/// What a diff that changes nothing, and follows the update id `id`, makes of a book.
pub open spec fn after_quiet_diff(m: BookModel, id: u64) -> (BookModel, Action) {
    after_diff(
        m,
        ((id + 1) as u64, (id + 10) as u64, id),
        Seq::<(Decimal, Decimal)>::empty(),
        Seq::<(Decimal, Decimal)>::empty(),
    )
}

/// A book after `n` diffs that change nothing.
pub open spec fn after_quiet_diffs(m: BookModel, id: u64, n: nat) -> BookModel
    decreases n,
{
    if n == 0 {
        m
    } else {
        after_quiet_diff(
            after_quiet_diffs(m, id, (n - 1) as nat),
            (id + 10 * (n - 1)) as u64,
        ).0
    }
}

/// A book after diffs that change nothing: at most `n`, and only until it is not live any
/// more. With it, what is to be done after the last one.
pub open spec fn quiet_until_lost(m: BookModel, id: u64, n: nat) -> (BookModel, Action)
    decreases n,
{
    if n == 0 {
        (m, Action::None_)
    } else {
        let (after, action) = after_quiet_diff(m, id);
        if after.state != BookState::Live || n == 1 {
            (after, action)
        } else {
            quiet_until_lost(after, (id + 10) as u64, (n - 1) as nat)
        }
    }
}

/// A book after the ticker told its best prices.
pub open spec fn with_ticker(m: BookModel, bid: Decimal, ask: Decimal) -> BookModel {
    BookModel { ticker_bid: bid.units(), ticker_ask: ask.units(), ..m }
}

/// The ticker differs from the book for a while, agrees with it once, and differs again.
pub open spec fn divergence_report() -> ReportModel {
    let m0 = synced_book(
        "SOLUSDT"@,
        written_level((15000, 2), (100, 1)),
        written_level((15100, 2), (100, 1)),
    );
    let other = (decimal_of((false, 14900, 2)), decimal_of((false, 15200, 2)));
    let same = (decimal_of((false, 15000, 2)), decimal_of((false, 15100, 2)));
    let m1 = with_ticker(m0, other.0, other.1);
    let m2 = after_quiet_diffs(m1, 110, 5);
    let m3 = after_quiet_diff(with_ticker(m2, same.0, same.1), 160).0;
    let (m4, action) = quiet_until_lost(with_ticker(m3, other.0, other.1), 170, 10);
    ReportModel::Record(
        seq![
            (
                "all_live_during_warmup"@,
                ReportModel::Flag(
                    (forall|k: nat|
                        1 <= k <= 5 ==> (#[trigger] after_quiet_diffs(m1, 110, k)).state
                            == BookState::Live) && m3.state == BookState::Live,
                ),
            ),
            ("final_action"@, action_item(action)),
            ("final_state"@, ReportModel::Text(state_name(m4.state))),
        ],
    )
}

/// The ticker differs from the book for a while, agrees with it once, and differs again.
pub fn scenario_bbo_divergence() -> (r: Report)
    ensures
        r.model() == divergence_report(),
        r.model() == divergence_outcome(),
{
    proof {
        crate::outcomes::diverging_books_are_given_up();
    }
    let mut book = synced("SOLUSDT", level((15000, 2), (100, 1)), level((15100, 2), (100, 1)));
    book.set_ticker_bbo(Decimal::new(14900, 2), Decimal::new(15200, 2));
    let ghost m1 = book@;
    let mut id: u64 = 110;
    let mut all_live = true;
    for k in 0..5u64
        invariant
            book.wf(),
            counted_at_most(book@, 3 + k),
            id == 110 + 10 * k,
            book@ == after_quiet_diffs(m1, 110, k as nat),
            all_live == (forall|j: nat|
                1 <= j <= k ==> (#[trigger] after_quiet_diffs(m1, 110, j)).state
                    == BookState::Live),
    {
        diff(&mut book, (id + 1, id + 10, id), none(), none());
        assert(book@ == after_quiet_diffs(m1, 110, (k + 1) as nat));
        id = id + 10;
        all_live = all_live && book.state == BookState::Live;
    }
    book.set_ticker_bbo(Decimal::new(15000, 2), Decimal::new(15100, 2));
    assert(counted_at_most(book@, 8));
    diff(&mut book, (id + 1, id + 10, id), none(), none());
    id = id + 10;
    all_live = all_live && book.state == BookState::Live;

    book.set_ticker_bbo(Decimal::new(14900, 2), Decimal::new(15200, 2));
    assert(counted_at_most(book@, 9));
    let ghost expected = quiet_until_lost(book@, 170, 10);
    let mut action = Action::None_;
    let mut k: u64 = 0;
    while k < 10
        invariant_except_break
            k == 0 ==> action == Action::None_,
            expected == (if k == 10 {
                (book@, action)
            } else {
                quiet_until_lost(book@, id, (10 - k) as nat)
            }),
        invariant
            k <= 10,
            book.wf(),
            counted_at_most(book@, 9 + k),
            id == 170 + 10 * k,
        ensures
            expected == (book@, action),
        decreases 10 - k,
    {
        action = diff(&mut book, (id + 1, id + 10, id), none(), none());
        id = id + 10;
        k = k + 1;
        if book.state != BookState::Live {
            break;
        }
    }
    let r = Report::record().with("all_live_during_warmup", Report::Flag(all_live)).with(
        "final_action",
        action_report(action),
    ).with("final_state", state_report(&book));
    assert(r.model()->Record_0 =~= divergence_report()->Record_0);
    r
}

/// Where a book stands.
pub open spec fn standing_item(m: BookModel) -> ReportModel {
    ReportModel::Record(
        seq![
            ("state"@, ReportModel::Text(state_name(m.state))),
            ("bid_count"@, ReportModel::Count(m.bids.len() as int)),
            ("last_update_id"@, ReportModel::Count(m.last_update_id as int)),
        ],
    )
}

/// Where a book stands.
fn standing_report(book: &Book) -> (r: Report)
    requires
        book.wf(),
    ensures
        r.model() == standing_item(book@),
{
    let r = Report::record().with("state", state_report(book)).with(
        "bid_count",
        Report::count(book.bids.len()),
    ).with("last_update_id", Report::number(book.last_update_id));
    assert(r.model()->Record_0 =~= standing_item(book@)->Record_0);
    r
}

/// A live book is reset, and starts over.
pub open spec fn resync_report() -> ReportModel {
    let before = synced_book(
        "DOGEUSDT"@,
        written_level((10, 2), (1000, 0)),
        written_level((11, 2), (1000, 0)),
    );
    let emptied = reset_book(before);
    let (after, action) = after_diff(emptied, (200, 210, 190), Seq::empty(), Seq::empty());
    ReportModel::Record(
        seq![
            ("pre_reset"@, standing_item(before)),
            ("post_reset"@, standing_item(emptied)),
            ("after_depth_action"@, action_item(action)),
            ("after_depth_state"@, ReportModel::Text(state_name(after.state))),
        ],
    )
}

/// A live book is reset, and starts over.
pub fn scenario_reset_and_resync() -> (r: Report)
    ensures
        r.model() == resync_report(),
        r.model() == resync_outcome(),
{
    proof {
        crate::outcomes::reset_books_start_over();
    }
    let mut book = synced("DOGEUSDT", level((10, 2), (1000, 0)), level((11, 2), (1000, 0)));
    let before = standing_report(&book);
    book.reset();
    let emptied = standing_report(&book);
    let action = diff(&mut book, (200, 210, 190), none(), none());
    let r = Report::record().with("pre_reset", before).with("post_reset", emptied).with(
        "after_depth_action",
        action_report(action),
    ).with("after_depth_state", state_report(&book));
    assert(r.model()->Record_0 =~= resync_report()->Record_0);
    r
}

/// The prices of levels, in plain notation.
pub open spec fn price_texts(levels: Seq<(Decimal, Decimal)>) -> Seq<Seq<char>> {
    levels.map_values(|level: (Decimal, Decimal)| level.0.text())
}

/// The prices of levels, in plain notation.
fn print_prices(levels: &[(Decimal, Decimal)]) -> (r: Vec<String>)
    ensures
        crate::text::texts(r@) == price_texts(levels@),
{
    let mut r: Vec<String> = Vec::new();
    for i in 0..levels.len()
        invariant
            crate::text::texts(r@) == price_texts(levels@).take(i as int),
    {
        let ghost before = crate::text::texts(r@);
        r.push(levels[i].0.to_text());
        assert(crate::text::texts(r@) =~= before.push(price_texts(levels@)[i as int]));
        assert(crate::text::texts(r@) =~= price_texts(levels@).take(i + 1));
    }
    assert(crate::text::texts(r@) =~= price_texts(levels@));
    r
}

/// Levels come in no order, and are listed best first.
pub open spec fn ordering_report() -> ReportModel {
    let nothing = Seq::<(Decimal, Decimal)>::empty();
    let (m1, _) = after_diff(unsynced("AVAXUSDT"@), (1, 10, 0), nothing, nothing);
    let (m2, _) = after_snapshot(
        m1,
        100,
        seq![
            written_level((3000, 2), (1, 0)),
            written_level((2800, 2), (2, 0)),
            written_level((2900, 2), (3, 0)),
            written_level((2700, 2), (4, 0)),
            written_level((3100, 2), (5, 0)),
        ],
        seq![
            written_level((3200, 2), (1, 0)),
            written_level((3500, 2), (2, 0)),
            written_level((3300, 2), (3, 0)),
            written_level((3400, 2), (4, 0)),
            written_level((3600, 2), (5, 0)),
        ],
    );
    ReportModel::Record(
        seq![
            (
                "top_3_bid_prices"@,
                ReportModel::List(text_items(price_texts(highest_first(listing(m2.bids), 3)))),
            ),
            (
                "top_3_ask_prices"@,
                ReportModel::List(text_items(price_texts(lowest_first(listing(m2.asks), 3)))),
            ),
        ],
    )
}

/// Levels come in no order, and are listed best first.
pub fn scenario_top_levels_ordering() -> (r: Report)
    ensures
        r.model() == ordering_report(),
        r.model() == ordering_outcome(),
{
    proof {
        crate::outcomes::levels_are_listed_best_first();
    }
    let mut book = Book::new("AVAXUSDT".to_owned());
    assert(counted_at_most(book@, 0));
    diff(&mut book, (1, 10, 0), none(), none());
    let mut bids: Levels = Vec::new();
    bids.push(level((3000, 2), (1, 0)));
    bids.push(level((2800, 2), (2, 0)));
    bids.push(level((2900, 2), (3, 0)));
    bids.push(level((2700, 2), (4, 0)));
    bids.push(level((3100, 2), (5, 0)));
    let mut asks: Levels = Vec::new();
    asks.push(level((3200, 2), (1, 0)));
    asks.push(level((3500, 2), (2, 0)));
    asks.push(level((3300, 2), (3, 0)));
    asks.push(level((3400, 2), (4, 0)));
    asks.push(level((3600, 2), (5, 0)));
    proof {
        assert(bids@ =~= seq![
            written_level((3000, 2), (1, 0)),
            written_level((2800, 2), (2, 0)),
            written_level((2900, 2), (3, 0)),
            written_level((2700, 2), (4, 0)),
            written_level((3100, 2), (5, 0)),
        ]);
        assert(asks@ =~= seq![
            written_level((3200, 2), (1, 0)),
            written_level((3500, 2), (2, 0)),
            written_level((3300, 2), (3, 0)),
            written_level((3400, 2), (4, 0)),
            written_level((3600, 2), (5, 0)),
        ]);
    }
    snapshot(&mut book, 100, bids, asks);
    let (top_bids, top_asks) = book.top_levels(3);
    let bid_prices = print_prices(top_bids.as_slice());
    let ask_prices = print_prices(top_asks.as_slice());
    let r = Report::record().with("top_3_bid_prices", Report::texts(bid_prices.as_slice())).with(
        "top_3_ask_prices",
        Report::texts(ask_prices.as_slice()),
    );
    assert(r.model()->Record_0 =~= ordering_report()->Record_0);
    r
}

/// Runs all scripts.
pub fn run_all() -> (r: Report)
    ensures
        r.model() == ReportModel::Record(
            seq![
                ("basic_lifecycle"@, lifecycle_outcome()),
                ("crossed_book"@, crossed_outcome()),
                ("bbo_divergence"@, divergence_outcome()),
                ("reset_and_resync"@, resync_outcome()),
                ("top_levels_ordering"@, ordering_outcome()),
            ],
        ),
{
    let r = Report::record().with("basic_lifecycle", scenario_basic_lifecycle()).with(
        "crossed_book",
        scenario_crossed_book(),
    ).with("bbo_divergence", scenario_bbo_divergence()).with(
        "reset_and_resync",
        scenario_reset_and_resync(),
    ).with("top_levels_ordering", scenario_top_levels_ordering());
    assert(r.model()->Record_0 =~= seq![
        ("basic_lifecycle"@, lifecycle_outcome()),
        ("crossed_book"@, crossed_outcome()),
        ("bbo_divergence"@, divergence_outcome()),
        ("reset_and_resync"@, resync_outcome()),
        ("top_levels_ordering"@, ordering_outcome()),
    ]);
    r
}

} // verus!
