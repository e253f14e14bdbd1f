//! What the script of events does, step by step.
use vstd::prelude::*;

use crate::book::{action_name, state_name};
use crate::decimal::{units_of, Decimal};
use crate::fuzz::{
    ask_price, bid_price, digest_report, drawn, drawn_levels, drawn_side, drawn_snapshot_id,
    lcg_next, lcg_output, name_item, script_report, script_run, script_start, script_step, whole,
    ScriptModel,
};
use crate::levels::{highest_first, listing, lowest_first};
use crate::model::{
    depth_step, reset_book, resyncing, snapshot_step, unsynced, BookModel, DepthModel,
};
use crate::report::{level_texts, ReportModel};
use crate::report_laws::{lists_pairs, names_once, says};

verus! {

/// The generator multiplies and adds, and keeps the lower 64 bits; it gives out the upper 31
/// of them, and a number below `n` is what is left of that after division by `n`.
pub proof fn numbers_are_drawn_by_a_linear_rule(x: u64, n: u64) -> (r: (int, int))
    requires
        n > 0,
    ensures
        x * 6364136223846793005 + 1442695040888963407 == r.0 * 0x1_0000_0000_0000_0000 + lcg_next(
            x,
        ),
        lcg_output(x) * 0x2_0000_0000 <= x < (lcg_output(x) + 1) * 0x2_0000_0000,
        drawn(x, n).0 == lcg_next(x),
        drawn(x, n).1 < n,
        lcg_output(lcg_next(x)) == r.1 * n + drawn(x, n).1,
{
    let full = x * 6364136223846793005 + 1442695040888963407;
    let quotient = lcg_output(lcg_next(x)) / n;
    let out = lcg_output(lcg_next(x));
    vstd::arithmetic::div_mod::lemma_fundamental_div_mod(out as int, n as int);
    assert(quotient * n == n * quotient) by (nonlinear_arith);
    (full / 0x1_0000_0000_0000_0000, quotient as int)
}

/// Levels are drawn one by one. For each a place is drawn, which tells the price: 100, 99 or
/// 98 for a bid, 101, 102 or 103 for an ask. Then one in four gets the quantity zero, and
/// each other one a quantity from 1 to 9 by another draw.
pub proof fn levels_are_drawn_one_by_one(x: u64, bids: bool, n: nat)
    ensures
        drawn_levels(x, bids, 0).0 == x,
        drawn_levels(x, bids, 0).1.len() == 0,
        drawn_levels(x, bids, n).1.len() == n,
        ({
            let (x1, before) = drawn_levels(x, bids, n);
            let (x4, after) = drawn_levels(x, bids, n + 1);
            let (x2, place) = drawn(x1, 3);
            let (x3, gone) = drawn(x2, 4);
            let level = after[n as int];
            &&& after.drop_last() == before
            &&& level.0.parts() == (
                false,
                if bids {
                    (100 - place) as u128
                } else {
                    (101 + place) as u128
                },
                0u32,
            )
            &&& gone == 0 ==> x4 == x3 && level.1.parts() == (false, 0u128, 0u32)
            &&& gone > 0 ==> x4 == drawn(x3, 9).0 && level.1.parts() == (
                false,
                (drawn(x3, 9).1 + 1) as u128,
                0u32,
            )
        }),
        drawn_side(x, bids) == drawn_levels(drawn(x, 3).0, bids, drawn(x, 3).1 as nat),
    decreases n,
{
    if n > 0 {
        levels_are_drawn_one_by_one(x, bids, (n - 1) as nat);
    }
    let (x1, before) = drawn_levels(x, bids, n);
    let (x2, place) = drawn(x1, 3);
    let (x3, gone) = drawn(x2, 4);
    let (x4, qty) = drawn(x3, 9);
    let after = drawn_levels(x, bids, n + 1).1;
    assert(after.drop_last() =~= before);
    lemma_whole((100 - place) as u64);
    lemma_whole((101 + place) as u64);
    lemma_whole(0);
    lemma_whole((qty + 1) as u64);
}

proof fn lemma_whole(n: u64)
    ensures
        whole(n).parts() == (false, n as u128, 0u32),
{
    crate::decimal::lemma_decimal_of(whole(n), (false, n as u128, 0u32));
}

/// The id of a snapshot: by a first draw it is the last id, or lies after it or before it;
/// then a second draw tells by how much: 10, 20 or 30. It is never below zero.
pub proof fn snapshot_ids_lie_near_the_last_id(seq: u64, x: u64)
    requires
        seq <= u64::MAX - 30,
    ensures
        ({
            let (x1, side) = drawn(x, 3);
            let (x2, n) = drawn(x1, 3);
            let (after, id) = drawn_snapshot_id(seq, x);
            &&& side == 0 ==> after == x1 && id == seq
            &&& side == 1 ==> after == x2 && id == seq + 10 * (n + 1)
            &&& side == 2 && seq >= 10 * (n + 1) ==> after == x2 && id == seq - 10 * (n + 1)
            &&& side == 2 && seq < 10 * (n + 1) ==> after == x2 && id == 0
        }),
{
}

/// A step that draws less than 55 of 100 is a diff that follows the last one.
pub proof fn most_steps_are_diffs_in_sequence(s: ScriptModel, step: int)
    requires
        s.seq <= u64::MAX - 60,
        drawn(s.x, 100).1 < 55,
    ensures
        ({
            let (after, told) = script_step(s, step);
            let (x1, bids) = drawn_side(drawn(s.x, 100).0, true);
            let (x2, asks) = drawn_side(x1, false);
            let diff = DepthModel {
                first_id: (s.seq + 1) as u64,
                last_id: (s.seq + 10) as u64,
                prev_id: s.seq,
                bids,
                asks,
            };
            &&& after.x == x2
            &&& after.seq == s.seq + 10
            &&& after.book == depth_step(s.book, diff).0
            &&& told == digest_report(
                step,
                "depth"@,
                action_name(depth_step(s.book, diff).1),
                after.book,
            )
        }),
{
    reveal(script_step);
}

/// A step that draws from 65 to 77 is a diff that leaves a gap of 10 to 50 ids.
pub proof fn some_steps_are_diffs_after_a_gap(s: ScriptModel, step: int)
    requires
        s.seq <= u64::MAX - 60,
        65 <= drawn(s.x, 100).1 < 78,
    ensures
        ({
            let (after, told) = script_step(s, step);
            let (x1, n) = drawn(drawn(s.x, 100).0, 5);
            let (x2, bids) = drawn_side(x1, true);
            let (x3, asks) = drawn_side(x2, false);
            let prev_id = s.seq + 10 * (n + 1);
            let diff = DepthModel {
                first_id: (prev_id + 1) as u64,
                last_id: (prev_id + 10) as u64,
                prev_id: prev_id as u64,
                bids,
                asks,
            };
            &&& after.x == x3
            &&& after.seq == prev_id + 10
            &&& after.book == depth_step(s.book, diff).0
            &&& told == digest_report(
                step,
                "depth_gap"@,
                action_name(depth_step(s.book, diff).1),
                after.book,
            )
        }),
{
    reveal(script_step);
    numbers_are_drawn_by_a_linear_rule(drawn(s.x, 100).0, 5);
}

/// A step that draws from 55 to 64, or from 78 to 87, is a snapshot.
pub proof fn some_steps_are_snapshots(s: ScriptModel, step: int)
    requires
        55 <= drawn(s.x, 100).1 < 65 || 78 <= drawn(s.x, 100).1 < 88,
    ensures
        ({
            let (after, told) = script_step(s, step);
            let (x1, id) = drawn_snapshot_id(s.seq, drawn(s.x, 100).0);
            let (x2, bids) = drawn_side(x1, true);
            let (x3, asks) = drawn_side(x2, false);
            let (book, live) = snapshot_step(s.book, id, bids, asks);
            &&& after.x == x3
            &&& after.seq == s.seq
            &&& after.book == book
            &&& live ==> told == digest_report(step, "snapshot"@, Some("live"@), book)
            &&& !live ==> told == digest_report(step, "snapshot"@, Some("retry"@), book)
        }),
{
    reveal(script_step);
}

/// A step that draws 88 or more is a diff from long ago, a reset, a resync or a ticker, and
/// gives out no update id.
pub proof fn few_steps_are_anything_else(s: ScriptModel, step: int)
    requires
        drawn(s.x, 100).1 >= 88,
    ensures
        ({
            let (after, told) = script_step(s, step);
            let (x, roll) = drawn(s.x, 100);
            let old_diff = DepthModel {
                first_id: 1,
                last_id: 2,
                prev_id: 0,
                bids: Seq::empty(),
                asks: Seq::empty(),
            };
            let (x1, bid) = drawn(x, 3);
            let (x2, ask) = drawn(x1, 3);
            &&& after.seq == s.seq
            &&& roll < 98 ==> after.x == x
            &&& roll < 93 ==> after.book == depth_step(s.book, old_diff).0 && told
                == digest_report(
                step,
                "stale"@,
                action_name(depth_step(s.book, old_diff).1),
                after.book,
            )
            &&& 93 <= roll < 96 ==> after.book == reset_book(s.book) && told == digest_report(
                step,
                "reset"@,
                None,
                after.book,
            )
            &&& 96 <= roll < 98 ==> after.book == resyncing(s.book) && told == digest_report(
                step,
                "mark_for_resync"@,
                None,
                after.book,
            )
            &&& roll >= 98 ==> after.x == x2 && after.book == (BookModel {
                ticker_bid: units_of(false, (100 - bid) as u128, 0),
                ticker_ask: units_of(false, (101 + ask) as u128, 0),
                ..s.book
            }) && told == digest_report(step, "ticker"@, None, after.book)
        }),
{
    reveal(script_step);
    let (x, roll) = drawn(s.x, 100);
    let (x1, bid) = drawn(x, 3);
    let (x2, ask) = drawn(x1, 3);
    lemma_whole((100 - bid) as u64);
    lemma_whole((101 + ask) as u64);
    assert(seq![] =~= Seq::<(Decimal, Decimal)>::empty());
    assert(bid_price(bid) == whole((100 - bid) as u64));
    assert(ask_price(ask) == whole((101 + ask) as u64));
}

/// A script starts with its seed, the id 1000 and a book of which nothing is known, and does
/// one step after the other; it tells of each.
pub proof fn scripts_go_step_by_step(seed: u64, steps: nat)
    ensures
        script_start(seed).x == seed,
        script_start(seed).seq == 1000,
        script_start(seed).book == unsynced("FUZZUSDT"@),
        script_run(seed, 0).0 == script_start(seed),
        script_run(seed, 0).1.len() == 0,
        script_run(seed, steps + 1).0 == script_step(script_run(seed, steps).0, steps as int).0,
        script_run(seed, steps + 1).1 == script_run(seed, steps).1.push(
            script_step(script_run(seed, steps).0, steps as int).1,
        ),
        script_run(seed, steps).1.len() == steps,
    decreases steps,
{
    if steps > 0 {
        scripts_go_step_by_step(seed, (steps - 1) as nat);
    }
}

/// What is told of a step says each part under its own name: of the book its state, the
/// number of levels on each side and the best three of them, and its counters.
#[verifier::rlimit(40)]
pub proof fn steps_are_told_by_name(
    step: int,
    op: Seq<char>,
    action: Option<Seq<char>>,
    m: BookModel,
) -> (r: (ReportModel, ReportModel))
    ensures
        ({
            let told = digest_report(step, op, action, m);
            &&& says(told, "step"@, ReportModel::Count(step))
            &&& says(told, "op"@, ReportModel::Text(op))
            &&& says(
                told,
                "action"@,
                match action {
                    Some(name) => ReportModel::Text(name),
                    None => ReportModel::Null,
                },
            )
            &&& says(told, "state"@, ReportModel::Text(state_name(m.state)))
            &&& says(told, "last_update_id"@, ReportModel::Count(m.last_update_id as int))
            &&& says(told, "bids"@, ReportModel::Count(m.bids.len() as int))
            &&& says(told, "asks"@, ReportModel::Count(m.asks.len() as int))
            &&& says(told, "top_bids"@, r.0)
            &&& lists_pairs(r.0, level_texts(highest_first(listing(m.bids), 3)))
            &&& says(told, "top_asks"@, r.1)
            &&& lists_pairs(r.1, level_texts(lowest_first(listing(m.asks), 3)))
            &&& says(told, "gaps"@, ReportModel::Count(m.gap_count))
            &&& says(told, "crossed"@, ReportModel::Count(m.crossed_count))
            &&& says(told, "snapshots"@, ReportModel::Count(m.snapshot_count))
            &&& says(told, "unverified_bridges"@, ReportModel::Count(m.unverified_bridge_count))
            &&& says(told, "buffer_dropped"@, ReportModel::Count(m.buffer_dropped))
            &&& told->Record_0.len() == 14
        }),
{
    reveal_strlit("step");
    reveal_strlit("op");
    reveal_strlit("action");
    reveal_strlit("state");
    reveal_strlit("last_update_id");
    reveal_strlit("bids");
    reveal_strlit("asks");
    reveal_strlit("top_bids");
    reveal_strlit("top_asks");
    reveal_strlit("gaps");
    reveal_strlit("crossed");
    reveal_strlit("snapshots");
    reveal_strlit("unverified_bridges");
    reveal_strlit("buffer_dropped");
    let told = digest_report(step, op, action, m);
    let fields = told->Record_0;
    assert(fields[0] == ("step"@, ReportModel::Count(step)));
    assert(fields[1] == ("op"@, ReportModel::Text(op)));
    assert(fields[2] == ("action"@, name_item(action)));
    assert(fields[3] == ("state"@, ReportModel::Text(state_name(m.state))));
    assert(fields[4] == ("last_update_id"@, ReportModel::Count(m.last_update_id as int)));
    assert(fields[5] == ("bids"@, ReportModel::Count(m.bids.len() as int)));
    assert(fields[6] == ("asks"@, ReportModel::Count(m.asks.len() as int)));
    assert(fields[7].0 == "top_bids"@);
    assert(fields[8].0 == "top_asks"@);
    assert(fields[9] == ("gaps"@, ReportModel::Count(m.gap_count)));
    assert(fields[10] == ("crossed"@, ReportModel::Count(m.crossed_count)));
    assert(fields[11] == ("snapshots"@, ReportModel::Count(m.snapshot_count)));
    assert(fields[12] == ("unverified_bridges"@, ReportModel::Count(m.unverified_bridge_count)));
    assert(fields[13] == ("buffer_dropped"@, ReportModel::Count(m.buffer_dropped)));
    assert(fields[0].0.len() == 4 && fields[0].0[0] == 's');
    assert(fields[1].0.len() == 2);
    assert(fields[2].0.len() == 6);
    assert(fields[3].0.len() == 5);
    assert(fields[4].0.len() == 14 && fields[4].0[0] == 'l');
    assert(fields[5].0.len() == 4 && fields[5].0[0] == 'b');
    assert(fields[6].0.len() == 4 && fields[6].0[0] == 'a');
    assert(fields[7].0.len() == 8 && fields[7].0[4] == 'b');
    assert(fields[8].0.len() == 8 && fields[8].0[4] == 'a');
    assert(fields[9].0.len() == 4 && fields[9].0[0] == 'g');
    assert(fields[10].0.len() == 7);
    assert(fields[11].0.len() == 9);
    assert(fields[12].0.len() == 18);
    assert(fields[13].0.len() == 14 && fields[13].0[0] == 'b');
    assert(names_once(told));
    (fields[7].1, fields[8].1)
}

/// What a script tells names its seed and its number of steps, and lists what was told of
/// each step.
pub proof fn scripts_are_told_by_name(seed: u64, steps: usize)
    ensures
        says(script_report(seed, steps), "seed"@, ReportModel::Count(seed as int)),
        says(script_report(seed, steps), "steps"@, ReportModel::Count(steps as int)),
        says(
            script_report(seed, steps),
            "digest"@,
            ReportModel::List(script_run(seed, steps as nat).1),
        ),
        script_report(seed, steps)->Record_0.len() == 3,
{
    reveal_strlit("seed");
    reveal_strlit("steps");
    reveal_strlit("digest");
    let fields = script_report(seed, steps)->Record_0;
    assert(fields[0] == ("seed"@, ReportModel::Count(seed as int)));
    assert(fields[1] == ("steps"@, ReportModel::Count(steps as int)));
    assert(fields[2] == ("digest"@, ReportModel::List(script_run(seed, steps as nat).1)));
    assert(fields[0].0.len() == 4 && fields[1].0.len() == 5 && fields[2].0.len() == 6);
    assert(names_once(script_report(seed, steps)));
}

} // verus!
