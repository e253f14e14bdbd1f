//! A reproducible script of events for one book, and what the book makes of it.
use vstd::prelude::*;

use crate::book::{action_name, state_name, Book, Levels};
use crate::decimal::{decimal_of, Decimal};
use crate::levels::{highest_first, listing, lowest_first};
use crate::model::{
    counted_at_most, depth_step, reset_book, resyncing, snapshot_step, unsynced, BookModel, DepthModel,
};
use crate::report::{level_texts, models, pair_items, print_levels, Report, ReportModel};

verus! {

/// The number that follows `x` in the generator's sequence.
pub open spec fn lcg_next(x: u64) -> u64 {
    ((x * 6364136223846793005 + 1442695040888963407) % 0x1_0000_0000_0000_0000) as u64
}

/// What the generator gives out at state `x`: the upper 31 bits.
pub open spec fn lcg_output(x: u64) -> u64 {
    (x / 0x2_0000_0000) as u64
}

/// A linear congruential generator.
pub struct Lcg(pub u64);

impl Lcg {
    /// Goes on to the next state, and gives out its upper 31 bits.
    pub fn next(&mut self) -> (r: u64)
        ensures
            final(self).0 == lcg_next(old(self).0),
            r == lcg_output(final(self).0),
            r < 0x8000_0000,
    {
        let product: u64 = self.0.wrapping_mul(6364136223846793005);
        let x: u64 = product.wrapping_add(1442695040888963407);
        proof {
            lemma_wrapped_sum(
                self.0 * 6364136223846793005,
                product,
                1442695040888963407,
                0x1_0000_0000_0000_0000,
            );
        }
        self.0 = x;
        assert(x >> 33 == x / 0x2_0000_0000) by (bit_vector);
        assert(x >> 33 < 0x8000_0000) by (bit_vector);
        x >> 33
    }

    /// A number below `n`.
    pub fn below(&mut self, n: u64) -> (r: u64)
        requires
            n > 0,
        ensures
            (final(self).0, r) == drawn(old(self).0, n),
            r < n,
    {
        self.next() % n
    }
}

proof fn lemma_wrapped_sum(product: int, wrapped: u64, increment: int, range: int)
    requires
        wrapped == product % range,
        0 <= increment < range,
    ensures
        (product + increment) % range == if wrapped + increment >= range {
            wrapped + increment - range
        } else {
            wrapped + increment
        },
{
    vstd::arithmetic::div_mod::lemma_add_mod_noop(product, increment, range);
    vstd::arithmetic::div_mod::lemma_small_mod(increment as nat, range as nat);
    if wrapped + increment >= range {
        vstd::arithmetic::div_mod::lemma_mod_add_multiples_vanish(
            wrapped + increment - range,
            range,
        );
        vstd::arithmetic::div_mod::lemma_small_mod(
            (wrapped + increment - range) as nat,
            range as nat,
        );
    } else {
        vstd::arithmetic::div_mod::lemma_small_mod((wrapped + increment) as nat, range as nat);
    }
}

/// The generator's next state after `x`, and a number below `n`.
pub open spec fn drawn(x: u64, n: u64) -> (u64, u64) {
    (lcg_next(x), lcg_output(lcg_next(x)) % n)
}

/// A whole number as a decimal number.
pub open spec fn whole(n: u64) -> Decimal {
    decimal_of((false, n as u128, 0))
}

/// The prices at which the script bids.
pub open spec fn bid_price(i: u64) -> Decimal {
    whole((100 - i) as u64)
}

/// The prices at which the script asks.
pub open spec fn ask_price(i: u64) -> Decimal {
    whole((101 + i) as u64)
}

/// The price of that number on one side.
pub open spec fn side_price(bids: bool, i: u64) -> Decimal {
    if bids {
        bid_price(i)
    } else {
        ask_price(i)
    }
}

/// `n` levels of one side: each at one of three prices, one in four with quantity zero and
/// the others with a quantity from 1 to 9. With them, the generator's state after them.
pub open spec fn drawn_levels(x: u64, bids: bool, n: nat) -> (u64, Seq<(Decimal, Decimal)>)
    decreases n,
{
    if n == 0 {
        (x, Seq::empty())
    } else {
        let (x1, before) = drawn_levels(x, bids, (n - 1) as nat);
        let (x2, place) = drawn(x1, 3);
        let (x3, gone) = drawn(x2, 4);
        if gone == 0 {
            (x3, before.push((side_price(bids, place), whole(0))))
        } else {
            let (x4, qty) = drawn(x3, 9);
            (x4, before.push((side_price(bids, place), whole((qty + 1) as u64))))
        }
    }
}

/// Up to two levels of one side, and the generator's state after them.
pub open spec fn drawn_side(x: u64, bids: bool) -> (u64, Seq<(Decimal, Decimal)>) {
    let (x1, n) = drawn(x, 3);
    drawn_levels(x1, bids, n as nat)
}

/// A whole number as a decimal number.
fn whole_decimal(n: u64) -> (r: Decimal)
    requires
        n < 1000,
    ensures
        r == whole(n),
{
    Decimal::new(n as i64, 0)
}

/// Up to two levels of one side.
fn levels(rng: &mut Lcg, bids: bool) -> (r: Levels)
    ensures
        (final(rng).0, r@) == drawn_side(old(rng).0, bids),
{
    let n: u64 = rng.below(3);
    let ghost x = rng.0;
    let mut r: Levels = Vec::new();
    assert(r@ =~= drawn_levels(x, bids, 0).1);
    for i in 0..n
        invariant
            (rng.0, r@) == drawn_levels(x, bids, i as nat),
    {
        let place: u64 = rng.below(3);
        let price = if bids {
            whole_decimal(100 - place)
        } else {
            whole_decimal(101 + place)
        };
        // A quantity of zero takes a level away: what most diffs do.
        let qty = if rng.below(4) == 0 {
            whole_decimal(0)
        } else {
            whole_decimal(rng.below(9) + 1)
        };
        r.push((price, qty));
    }
    r
}

/// What is told of a name that there may be none of.
pub open spec fn name_item(name: Option<Seq<char>>) -> ReportModel {
    match name {
        Some(name) => ReportModel::Text(name),
        None => ReportModel::Null,
    }
}

/// What is told of a book after a step.
pub open spec fn digest_report(
    step: int,
    op: Seq<char>,
    action: Option<Seq<char>>,
    m: BookModel,
) -> ReportModel {
    ReportModel::Record(
        seq![
            ("step"@, ReportModel::Count(step)),
            ("op"@, ReportModel::Text(op)),
            ("action"@, name_item(action)),
            ("state"@, ReportModel::Text(state_name(m.state))),
            ("last_update_id"@, ReportModel::Count(m.last_update_id as int)),
            ("bids"@, ReportModel::Count(m.bids.len() as int)),
            ("asks"@, ReportModel::Count(m.asks.len() as int)),
            (
                "top_bids"@,
                ReportModel::List(pair_items(level_texts(highest_first(listing(m.bids), 3)))),
            ),
            (
                "top_asks"@,
                ReportModel::List(pair_items(level_texts(lowest_first(listing(m.asks), 3)))),
            ),
            ("gaps"@, ReportModel::Count(m.gap_count)),
            ("crossed"@, ReportModel::Count(m.crossed_count)),
            ("snapshots"@, ReportModel::Count(m.snapshot_count)),
            ("unverified_bridges"@, ReportModel::Count(m.unverified_bridge_count)),
            ("buffer_dropped"@, ReportModel::Count(m.buffer_dropped)),
        ],
    )
}

/// What is told of a name that there may be none of.
fn name_report(name: Option<&str>) -> (r: Report)
    ensures
        r.model() == name_item(
            match name {
                Some(name) => Some(name@),
                None => None,
            },
        ),
{
    match name {
        Some(name) => Report::text(name),
        None => Report::Null,
    }
}

/// What is told of a book after a step.
fn digest(step: usize, op: &str, action: Option<&str>, book: &Book) -> (r: Report)
    requires
        book.wf(),
    ensures
        r.model() == digest_report(
            step as int,
            op@,
            match action {
                Some(name) => Some(name@),
                None => None,
            },
            book@,
        ),
{
    let (top_bids, top_asks) = book.top_levels(3);
    let bids = print_levels(top_bids.as_slice());
    let asks = print_levels(top_asks.as_slice());
    let r = Report::record().with("step", Report::count(step)).with("op", Report::text(op)).with(
        "action",
        name_report(action),
    ).with("state", Report::text(book.state.name())).with(
        "last_update_id",
        Report::number(book.last_update_id),
    ).with("bids", Report::count(book.bids.len())).with("asks", Report::count(book.asks.len())).with(
        "top_bids",
        Report::pairs(bids.as_slice()),
    ).with("top_asks", Report::pairs(asks.as_slice())).with(
        "gaps",
        Report::number(book.gap_count),
    ).with("crossed", Report::number(book.crossed_count)).with(
        "snapshots",
        Report::number(book.snapshot_count),
    ).with("unverified_bridges", Report::number(book.unverified_bridge_count)).with(
        "buffer_dropped",
        Report::number(book.buffer_dropped),
    );
    proof {
        let name = match action {
            Some(name) => Some(name@),
            None => None,
        };
        assert(r.model()->Record_0 =~= digest_report(step as int, op@, name, book@)->Record_0);
    }
    r
}

/// Where the script stands: the generator's state, the last update id that was given out,
/// and the book.
pub struct ScriptModel {
    pub x: u64,
    pub seq: u64,
    pub book: BookModel,
}

/// Where the script starts.
pub open spec fn script_start(seed: u64) -> ScriptModel {
    ScriptModel { x: seed, seq: 1000, book: unsynced("FUZZUSDT"@) }
}

/// A diff that follows the last one, or leaves a gap of 10 to 50 update ids.
pub open spec fn diff_step(s: ScriptModel, x: u64, gap: bool, step: int) -> (
    ScriptModel,
    ReportModel,
) {
    let (x1, skip) = if gap {
        let (x1, n) = drawn(x, 5);
        (x1, (10 * (1 + n)) as u64)
    } else {
        (x, 0u64)
    };
    let (x2, bids) = drawn_side(x1, true);
    let (x3, asks) = drawn_side(x2, false);
    let prev_id = (s.seq + skip) as u64;
    let last_id = (prev_id + 10) as u64;
    let (book, action) = depth_step(
        s.book,
        DepthModel { first_id: (prev_id + 1) as u64, last_id, prev_id, bids, asks },
    );
    (
        ScriptModel { x: x3, seq: last_id, book },
        digest_report(
            step,
            if gap {
                "depth_gap"@
            } else {
                "depth"@
            },
            action_name(action),
            book,
        ),
    )
}

/// The id of a snapshot: the last update id, or 10 to 30 ids more or less.
pub open spec fn drawn_snapshot_id(seq: u64, x: u64) -> (u64, u64) {
    let (x1, kind) = drawn(x, 3);
    let (x2, n) = drawn(x1, 3);
    let distance = 10 * (1 + n);
    if kind == 0 {
        (x1, seq)
    } else if kind == 1 {
        (x2, (seq + distance) as u64)
    } else {
        (
            x2,
            if seq >= distance {
                (seq - distance) as u64
            } else {
                0
            },
        )
    }
}

/// A snapshot.
pub open spec fn snapshot_arrives(s: ScriptModel, x: u64, step: int) -> (ScriptModel, ReportModel) {
    let (x1, id) = drawn_snapshot_id(s.seq, x);
    let (x2, bids) = drawn_side(x1, true);
    let (x3, asks) = drawn_side(x2, false);
    let (book, live) = snapshot_step(s.book, id, bids, asks);
    (
        ScriptModel { x: x3, seq: s.seq, book },
        digest_report(
            step,
            "snapshot"@,
            Some(
                if live {
                    "live"@
                } else {
                    "retry"@
                },
            ),
            book,
        ),
    )
}

/// A diff from long ago.
pub open spec fn stale_step(s: ScriptModel, x: u64, step: int) -> (ScriptModel, ReportModel) {
    let (book, action) = depth_step(
        s.book,
        DepthModel { first_id: 1, last_id: 2, prev_id: 0, bids: seq![], asks: seq![] },
    );
    (
        ScriptModel { x, seq: s.seq, book },
        digest_report(step, "stale"@, action_name(action), book),
    )
}

/// One step of the script: what happens is drawn by lot.
#[verifier::opaque]
pub open spec fn script_step(s: ScriptModel, step: int) -> (ScriptModel, ReportModel) {
    let (x, roll) = drawn(s.x, 100);
    if roll < 55 {
        diff_step(s, x, false, step)
    } else if 65 <= roll < 78 {
        diff_step(s, x, true, step)
    } else if roll < 88 {
        snapshot_arrives(s, x, step)
    } else if roll < 93 {
        stale_step(s, x, step)
    } else if roll < 96 {
        let book = reset_book(s.book);
        (ScriptModel { x, seq: s.seq, book }, digest_report(step, "reset"@, None, book))
    } else if roll < 98 {
        let book = resyncing(s.book);
        (ScriptModel { x, seq: s.seq, book }, digest_report(step, "mark_for_resync"@, None, book))
    } else {
        let (x1, bid) = drawn(x, 3);
        let (x2, ask) = drawn(x1, 3);
        let book = BookModel {
            ticker_bid: bid_price(bid).units(),
            ticker_ask: ask_price(ask).units(),
            ..s.book
        };
        (ScriptModel { x: x2, seq: s.seq, book }, digest_report(step, "ticker"@, None, book))
    }
}

/// Where the script stands after `steps` steps, and what was told of each.
pub open spec fn script_run(seed: u64, steps: nat) -> (ScriptModel, Seq<ReportModel>)
    decreases steps,
{
    if steps == 0 {
        (script_start(seed), Seq::empty())
    } else {
        let (before, told) = script_run(seed, (steps - 1) as nat);
        let (after, digest) = script_step(before, steps - 1);
        (after, told.push(digest))
    }
}

/// One step of the script.
fn advance(rng: &mut Lcg, seq: &mut u64, book: &mut Book, step: usize) -> (r: Report)
    requires
        old(book).wf(),
        *old(seq) <= u64::MAX - 60,
        counted_at_most(old(book)@, u64::MAX - 1),
    ensures
        final(book).wf(),
        *final(seq) <= *old(seq) + 60,
        forall|n: int| #[trigger]
            counted_at_most(old(book)@, n) ==> counted_at_most(final(book)@, n + 1),
        (
            ScriptModel { x: final(rng).0, seq: *final(seq), book: final(book)@ },
            r.model(),
        ) == script_step(
            ScriptModel { x: old(rng).0, seq: *old(seq), book: old(book)@ },
            step as int,
        ),
{
    reveal(script_step);
    let roll: u64 = rng.below(100);
    if roll < 55 || (65 <= roll && roll < 78) {
        let skip: u64 = if roll < 55 {
            0
        } else {
            10 * (1 + rng.below(5))
        };
        let bids = levels(rng, true);
        let asks = levels(rng, false);
        let prev_id: u64 = *seq + skip;
        let last_id: u64 = prev_id + 10;
        *seq = last_id;
        let action = book.on_depth(prev_id + 1, last_id, prev_id, bids, asks);
        digest(
            step,
            if skip == 0 {
                "depth"
            } else {
                "depth_gap"
            },
            action.name(),
            book,
        )
    } else if roll < 88 {
        let id: u64 = match rng.below(3) {
            0 => *seq,
            1 => *seq + 10 * (1 + rng.below(3)),
            _ => (*seq).saturating_sub(10 * (1 + rng.below(3))),
        };
        let bids = levels(rng, true);
        let asks = levels(rng, false);
        let live = book.on_snapshot(id, bids.as_slice(), asks.as_slice());
        digest(
            step,
            "snapshot",
            Some(
                if live {
                    "live"
                } else {
                    "retry"
                },
            ),
            book,
        )
    } else if roll < 93 {
        let bids: Levels = Vec::new();
        let asks: Levels = Vec::new();
        assert(bids@ =~= seq![] && asks@ =~= seq![]);
        let action = book.on_depth(1, 2, 0, bids, asks);
        digest(step, "stale", action.name(), book)
    } else if roll < 96 {
        book.reset();
        digest(step, "reset", None, book)
    } else if roll < 98 {
        book.mark_for_resync();
        digest(step, "mark_for_resync", None, book)
    } else {
        let bid: u64 = rng.below(3);
        let ask: u64 = rng.below(3);
        book.set_ticker_bbo(whole_decimal(100 - bid), whole_decimal(101 + ask));
        digest(step, "ticker", None, book)
    }
}

/// Everything that the script tells.
pub open spec fn script_report(seed: u64, steps: usize) -> ReportModel {
    ReportModel::Record(
        seq![
            ("seed"@, ReportModel::Count(seed as int)),
            ("steps"@, ReportModel::Count(steps as int)),
            ("digest"@, ReportModel::List(script_run(seed, steps as nat).1)),
        ],
    )
}

/// The most steps for which update ids are sure to fit into 64 bits.
pub const STEPS_MAX: u64 = 307_445_734_561_825_842;

/// Runs the script of a seed, and tells of the book after each step.
pub fn run(seed: u64, steps: usize) -> (r: Report)
    requires
        steps <= STEPS_MAX,
    ensures
        r.model() == script_report(seed, steps),
{
    let mut rng = Lcg(seed);
    let mut book = Book::new("FUZZUSDT".to_owned());
    let mut seq: u64 = 1000;
    let mut out: Vec<Report> = Vec::new();
    assert(models(out@) =~= script_run(seed, 0).1);
    for step in 0..steps
        invariant
            steps <= STEPS_MAX,
            book.wf(),
            seq <= 1000 + 60 * step,
            counted_at_most(book@, step as int),
            (ScriptModel { x: rng.0, seq, book: book@ }, models(out@)) == script_run(
                seed,
                step as nat,
            ),
    {
        let ghost before = models(out@);
        let item = advance(&mut rng, &mut seq, &mut book, step);
        let ghost m = item.model();
        out.push(item);
        assert(models(out@) =~= before.push(m));
    }
    let r = Report::record().with("seed", Report::number(seed)).with(
        "steps",
        Report::count(steps),
    ).with("digest", Report::list(out));
    assert(r.model()->Record_0 =~= script_report(seed, steps)->Record_0);
    r
}

} // verus!
