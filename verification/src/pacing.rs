//! When to try again, and how long to wait before that. Times are in microseconds.
use vstd::prelude::*;

use crate::book::{all_readable, levels_read, try_parse_levels};
use crate::books::{place_of, room_for_snapshot, Books};
use crate::model::{snapshot_step, BookModel};
use crate::text::text_pairs;

verus! {

/// The first wait before a connection is made again.
pub const RECONNECT_BASE: u64 = 1_000_000;

/// The longest wait before a connection is made again, the random part not counted.
pub const RECONNECT_MAX: u64 = 30_000_000;

/// The random part of that wait is below this.
pub const RECONNECT_JITTER: u64 = 1_000_000;

/// The first wait after a snapshot could not be fetched.
pub const SNAPSHOT_RETRY_BASE: u64 = 1_000_000;

/// The longest wait after a snapshot could not be fetched.
pub const SNAPSHOT_RETRY_MAX: u64 = 10_000_000;

/// The wait after a snapshot that did not bring its book to life.
pub const SNAPSHOT_REJECTED_WAIT: u64 = 500_000;

/// The time between two requests for snapshots: at most three in a second.
pub const SNAPSHOT_INTERVAL: u64 = 333_334;

/// The wait between two requests for streams.
pub const SUBSCRIBE_PAUSE: u64 = 250_000;

/// The time between two sweeps for stale books.
pub const SWEEP_INTERVAL: u64 = 15_000_000;

/// The time between two lines of statistics.
pub const STATS_INTERVAL: u64 = 10_000_000;

/// How many levels of a side a snapshot is asked for.
pub const SNAPSHOT_LEVELS: u32 = 500;

/// The status with which the venue answers too many requests.
pub const TOO_MANY_REQUESTS: u16 = 429;

/// The wait, in seconds, after too many requests, where the venue asks for no other.
pub const DEFAULT_RETRY_AFTER: u64 = 10;

/// The wait after another failure: twice as long, up to a limit.
pub open spec fn doubled(delay: u64, max: u64) -> u64 {
    if delay + delay < max {
        (delay + delay) as u64
    } else {
        max
    }
}

/// The wait after `failures` failures in a row.
pub open spec fn delay_after(base: u64, max: u64, failures: nat) -> u64
    decreases failures,
{
    if failures == 0 {
        base
    } else {
        doubled(delay_after(base, max, (failures - 1) as nat), max)
    }
}

/// Waits that double with every failure, up to a limit, and start anew after a success.
#[derive(Debug)]
pub struct Backoff {
    base: u64,
    max: u64,
    delay: u64,
}

impl Backoff {
    /// The first wait.
    pub closed spec fn first(&self) -> u64 {
        self.base
    }

    /// The longest wait.
    pub closed spec fn longest(&self) -> u64 {
        self.max
    }

    /// The next wait.
    pub closed spec fn next(&self) -> u64 {
        self.delay
    }

    /// The next wait lies between the first and the longest one.
    pub open spec fn wf(&self) -> bool {
        self.first() <= self.next() <= self.longest()
    }

    /// Waits from `base` to `max`.
    pub fn new(base: u64, max: u64) -> (r: Backoff)
        requires
            base <= max,
        ensures
            r.wf(),
            r.first() == base,
            r.longest() == max,
            r.next() == base,
    {
        Backoff { base, max, delay: base }
    }

    /// Takes down a success.
    pub fn succeeded(&mut self)
        requires
            old(self).wf(),
        ensures
            final(self).wf(),
            final(self).first() == old(self).first(),
            final(self).longest() == old(self).longest(),
            final(self).next() == old(self).first(),
    {
        self.delay = self.base;
    }

    /// Takes down a failure, and gives the wait before the next try.
    pub fn failed(&mut self) -> (r: u64)
        requires
            old(self).wf(),
        ensures
            r == old(self).next(),
            final(self).wf(),
            final(self).first() == old(self).first(),
            final(self).longest() == old(self).longest(),
            final(self).next() == doubled(old(self).next(), old(self).longest()),
    {
        let r: u64 = self.delay;
        self.delay = match self.delay.checked_add(self.delay) {
            Some(twice) => if twice < self.max {
                twice
            } else {
                self.max
            },
            None => self.max,
        };
        r
    }
}

/// How long a request for a snapshot has to wait at the time `now`, when the last one was
/// made at the time `last`.
pub open spec fn wait_after(last: u64, now: u64) -> int {
    if last + SNAPSHOT_INTERVAL > now {
        last + SNAPSHOT_INTERVAL - now
    } else {
        0
    }
}

/// How long a request for a snapshot has to wait.
pub fn snapshot_wait(last: u64, now: u64) -> (r: u128)
    ensures
        r == wait_after(last, now),
{
    let due: u128 = last as u128 + SNAPSHOT_INTERVAL as u128;
    if due > now as u128 {
        due - now as u128
    } else {
        0
    }
}

/// The value of a decimal digit.
pub open spec fn digit_value(c: char) -> int {
    c as int - '0' as int
}

/// Whether a text consists of decimal digits.
pub open spec fn all_digits(text: Seq<char>) -> bool {
    forall|i: int| 0 <= i < text.len() ==> '0' <= #[trigger] text[i] <= '9'
}

/// The number that decimal digits stand for.
pub open spec fn digits_value(digits: Seq<char>) -> int
    decreases digits.len(),
{
    if digits.len() == 0 {
        0
    } else {
        10 * digits_value(digits.drop_last()) + digit_value(digits.last())
    }
}

/// The number that a text holds: decimal digits, with or without a plus sign in front,
/// that stand for a number of at most 64 bits.
pub open spec fn number_in(text: Seq<char>) -> Option<u64> {
    let digits = if text.len() > 0 && text[0] == '+' {
        text.skip(1)
    } else {
        text
    };
    if digits.len() > 0 && all_digits(digits) && digits_value(digits) <= u64::MAX {
        Some(digits_value(digits) as u64)
    } else {
        None
    }
}

proof fn lemma_digits_grow(digits: Seq<char>, k: int)
    requires
        all_digits(digits),
        0 <= k <= digits.len(),
    ensures
        0 <= digits_value(digits.take(k)) <= digits_value(digits),
    decreases digits.len(),
{
    if k < digits.len() {
        let less = digits.drop_last();
        assert forall|i: int| 0 <= i < less.len() implies '0' <= #[trigger] less[i] <= '9' by {
            assert(less[i] == digits[i]);
        }
        lemma_digits_grow(less, k);
        assert(less.take(k) =~= digits.take(k));
        assert('0' <= digits[digits.len() - 1] <= '9');
    } else {
        assert(digits.take(k) =~= digits);
        if digits.len() > 0 {
            let less = digits.drop_last();
            assert forall|i: int| 0 <= i < less.len() implies '0' <= #[trigger] less[i] <= '9' by {
                assert(less[i] == digits[i]);
            }
            lemma_digits_grow(less, less.len() as int);
            assert(less.take(less.len() as int) =~= less);
            assert('0' <= digits[digits.len() - 1] <= '9');
        }
    }
}

/// The number that a text holds, where it holds one.
pub fn parse_number(text: &str) -> (r: Option<u64>)
    ensures
        r == number_in(text@),
{
    let n: usize = text.unicode_len();
    if n == 0 {
        return None;
    }
    let start: usize = if text.get_char(0) == '+' {
        1
    } else {
        0
    };
    let ghost digits = if text@[0] == '+' {
        text@.skip(1)
    } else {
        text@
    };
    if start == n {
        return None;
    }
    let mut value: u64 = 0;
    assert(digits.take(0) =~= Seq::<char>::empty());
    for i in start..n
        invariant
            n == text@.len(),
            start < n,
            start == 0 || start == 1,
            digits.len() == n - start,
            forall|j: int| 0 <= j < digits.len() ==> #[trigger] digits[j] == text@[j + start],
            digits == (if text@[0] == '+' {
                text@.skip(1)
            } else {
                text@
            }),
            value == digits_value(digits.take(i - start)),
            forall|j: int| 0 <= j < i - start ==> '0' <= #[trigger] digits[j] <= '9',
    {
        let ghost k = i - start;
        let c = text.get_char(i);
        assert(digits[k] == c);
        if !('0' <= c && c <= '9') {
            return None;
        }
        proof {
            assert(digits.take(k + 1).drop_last() =~= digits.take(k));
            assert(digits.take(k + 1).last() == c);
            if all_digits(digits) {
                lemma_digits_grow(digits, k + 1);
            }
        }
        let digit: u64 = (c as u32 - '0' as u32) as u64;
        value = match value.checked_mul(10) {
            Some(shifted) => match shifted.checked_add(digit) {
                Some(sum) => sum,
                None => {
                    return None;
                },
            },
            None => {
                return None;
            },
        };
    }
    assert(digits.take(digits.len() as int) =~= digits);
    Some(value)
}

/// How the venue answered a request for a snapshot.
#[derive(Debug, Clone, Copy, PartialEq, Eq, Structural)]
pub enum Answer {
    /// The snapshot is in the body.
    Body,
    /// There were too many requests. The next one has to wait for so many seconds.
    RateLimited(u64),
}

/// How the venue answered, by the status and the time that it asks to wait.
pub open spec fn answer_of(status: u16, retry_after: Option<Seq<char>>) -> Answer {
    if status != TOO_MANY_REQUESTS {
        Answer::Body
    } else {
        match retry_after {
            Some(text) => match number_in(text) {
                Some(seconds) => Answer::RateLimited(seconds),
                None => Answer::RateLimited(DEFAULT_RETRY_AFTER),
            },
            None => Answer::RateLimited(DEFAULT_RETRY_AFTER),
        }
    }
}

/// How the venue answered a request for a snapshot.
pub fn read_answer(status: u16, retry_after: Option<&str>) -> (r: Answer)
    ensures
        r == answer_of(
            status,
            match retry_after {
                Some(text) => Some(text@),
                None => None,
            },
        ),
{
    if status != TOO_MANY_REQUESTS {
        return Answer::Body;
    }
    match retry_after {
        Some(text) => match parse_number(text) {
            Some(seconds) => Answer::RateLimited(seconds),
            None => Answer::RateLimited(DEFAULT_RETRY_AFTER),
        },
        None => Answer::RateLimited(DEFAULT_RETRY_AFTER),
    }
}

/// A snapshot as the venue sends it; levels are (price, quantity).
#[derive(Debug)]
pub struct DepthSnapshot {
    pub last_update_id: u64,
    pub bids: Vec<(String, String)>,
    pub asks: Vec<(String, String)>,
}

/// What is to be done after an attempt to synchronise a book.
#[derive(Debug, Clone, Copy, PartialEq, Eq, Structural)]
pub enum SyncAction {
    /// The book is live, and no snapshot is wanted any more.
    Done,
    /// Another one is to be fetched, after so many microseconds.
    Retry(u64),
    /// The snapshot holds a level that is none.
    Unreadable,
}

/// Whether all levels of a snapshot hold decimal numbers.
pub open spec fn snapshot_readable(snapshot: DepthSnapshot) -> bool {
    all_readable(text_pairs(snapshot.bids@)) && all_readable(text_pairs(snapshot.asks@))
}

/// What a snapshot makes of the books, and what is to be done then. Where the symbol has no
/// book that is live, it is tried again; by then it may be known that no snapshot of it is
/// wanted.
pub open spec fn sync_step(
    books: Seq<BookModel>,
    symbol: Seq<char>,
    snapshot: DepthSnapshot,
) -> (Seq<BookModel>, SyncAction) {
    if !snapshot_readable(snapshot) {
        (books, SyncAction::Unreadable)
    } else {
        match place_of(books, symbol) {
            Some(i) => {
                let (after, live) = snapshot_step(
                    books[i],
                    snapshot.last_update_id,
                    levels_read(text_pairs(snapshot.bids@)),
                    levels_read(text_pairs(snapshot.asks@)),
                );
                (
                    books.update(i, after),
                    if live {
                        SyncAction::Done
                    } else {
                        SyncAction::Retry(SNAPSHOT_REJECTED_WAIT)
                    },
                )
            },
            None => (books, SyncAction::Retry(SNAPSHOT_REJECTED_WAIT)),
        }
    }
}

/// Gives a snapshot to the book of its symbol.
pub fn apply_snapshot(books: &mut Books, symbol: &str, snapshot: &DepthSnapshot) -> (r: SyncAction)
    requires
        old(books).wf(),
        room_for_snapshot(old(books)@, symbol@),
    ensures
        final(books).wf(),
        (final(books)@, r) == sync_step(old(books)@, symbol@, *snapshot),
{
    let (bids, asks) = match (
        try_parse_levels(snapshot.bids.as_slice()),
        try_parse_levels(snapshot.asks.as_slice()),
    ) {
        (Some(bids), Some(asks)) => (bids, asks),
        _ => {
            return SyncAction::Unreadable;
        },
    };
    if books.on_snapshot(symbol, snapshot.last_update_id, bids.as_slice(), asks.as_slice()) {
        SyncAction::Done
    } else {
        SyncAction::Retry(SNAPSHOT_REJECTED_WAIT)
    }
}

} // verus!
