//! The order books of all symbols.
use vstd::prelude::*;

use crate::book::{Action, Book, BookState, Levels};
use crate::decimal::Decimal;
use crate::model::{BookModel, DepthModel};
use crate::text::{order_texts, texts, TextOrder};

verus! {

/// Whether position `i` holds the book of a symbol.
pub open spec fn book_at(books: Seq<BookModel>, i: int, symbol: Seq<char>) -> bool {
    0 <= i < books.len() && books[i].symbol == symbol
}

/// Whether there is a book of a symbol.
pub open spec fn has_book(books: Seq<BookModel>, symbol: Seq<char>) -> bool {
    exists|i: int| book_at(books, i, symbol)
}

/// Where the book of a symbol stands, where there is one.
pub open spec fn place_of(books: Seq<BookModel>, symbol: Seq<char>) -> Option<int> {
    if has_book(books, symbol) {
        Some(choose|i: int| book_at(books, i, symbol))
    } else {
        None
    }
}

/// Whether books are in the order of their symbols, each symbol once.
pub open spec fn in_symbol_order(books: Seq<BookModel>) -> bool {
    forall|i: int, j: int|
        0 <= i < j < books.len() ==> crate::text::text_before(
            (#[trigger] books[i]).symbol,
            (#[trigger] books[j]).symbol,
        )
}

/// The books after the book of a symbol was replaced; the others stay.
pub open spec fn with_book(
    books: Seq<BookModel>,
    symbol: Seq<char>,
    change: spec_fn(BookModel) -> BookModel,
) -> Seq<BookModel> {
    match place_of(books, symbol) {
        Some(i) => books.update(i, change(books[i])),
        None => books,
    }
}

/// A live book whose last diff is further back than `threshold`.
pub open spec fn is_stale(m: BookModel, now: u64, threshold: u64) -> bool {
    m.state == BookState::Live && now - m.last_update_time > threshold
}

/// A book after the sweep for stale books. The time of a stale one is set to now, so that
/// the same silence does not count again.
pub open spec fn swept(m: BookModel, now: u64, threshold: u64) -> BookModel {
    if is_stale(m, now, threshold) {
        BookModel { last_update_time: now, ..crate::model::resyncing(m) }
    } else {
        m
    }
}

/// The symbols of the stale books.
pub open spec fn stale_symbols(books: Seq<BookModel>, now: u64, threshold: u64) -> Seq<Seq<char>>
    decreases books.len(),
{
    if books.len() == 0 {
        Seq::empty()
    } else if is_stale(books.last(), now, threshold) {
        stale_symbols(books.drop_last(), now, threshold).push(books.last().symbol)
    } else {
        stale_symbols(books.drop_last(), now, threshold)
    }
}

/// The books after those of some symbols were reset.
pub open spec fn with_resets(books: Seq<BookModel>, symbols: Seq<Seq<char>>) -> Seq<BookModel> {
    books.map_values(
        |m: BookModel|
            if symbols.contains(m.symbol) {
                crate::model::reset_book(m)
            } else {
                m
            },
    )
}

/// One order book for each symbol, in the order of the symbols.
#[derive(Debug)]
pub struct Books {
    books: Vec<Book>,
}

impl View for Books {
    type V = Seq<BookModel>;

    closed spec fn view(&self) -> Seq<BookModel> {
        self.books@.map_values(|book: Book| book@)
    }
}

impl Books {
    /// Every book is well formed, and there is one for each symbol.
    pub closed spec fn wf(&self) -> bool {
        &&& forall|i: int| 0 <= i < self.books@.len() ==> (#[trigger] self.books@[i]).wf()
        &&& in_symbol_order(self@)
    }

    /// No books.
    pub fn new() -> (r: Books)
        ensures
            r.wf(),
            r@ == Seq::<BookModel>::empty(),
    {
        let r = Books { books: Vec::new() };
        assert(r@ =~= Seq::<BookModel>::empty());
        r
    }

    /// The order that books are in.
    pub proof fn lemma_order(&self)
        requires
            self.wf(),
        ensures
            in_symbol_order(self@),
    {
    }

    /// Where `symbol` stands, or where it would be put.
    fn position(&self, symbol: &str) -> (r: usize)
        requires
            self.wf(),
        ensures
            r <= self@.len(),
            forall|i: int|
                0 <= i < r ==> crate::text::text_before((#[trigger] self@[i]).symbol, symbol@),
            forall|i: int|
                r <= i < self@.len() ==> !crate::text::text_before(
                    (#[trigger] self@[i]).symbol,
                    symbol@,
                ),
    {
        let mut low: usize = 0;
        let mut high: usize = self.books.len();
        while low < high
            invariant
                self.wf(),
                low <= high <= self.books@.len(),
                self@.len() == self.books@.len(),
                forall|i: int|
                    0 <= i < low ==> crate::text::text_before((#[trigger] self@[i]).symbol, symbol@),
                forall|i: int|
                    high <= i < self@.len() ==> !crate::text::text_before(
                        (#[trigger] self@[i]).symbol,
                        symbol@,
                    ),
            decreases high - low,
        {
            let mid: usize = low + (high - low) / 2;
            assert(self@[mid as int] == self.books@[mid as int]@);
            if order_texts(self.books[mid].symbol.as_str(), symbol) == TextOrder::Before {
                assert forall|i: int| 0 <= i < mid + 1 implies crate::text::text_before(
                    (#[trigger] self@[i]).symbol,
                    symbol@,
                ) by {
                    if i < mid {
                        crate::text::lemma_before_transitive(
                            self@[i].symbol,
                            self@[mid as int].symbol,
                            symbol@,
                        );
                    }
                }
                low = mid + 1;
            } else {
                assert forall|i: int| mid <= i < self@.len() implies !crate::text::text_before(
                    (#[trigger] self@[i]).symbol,
                    symbol@,
                ) by {
                    if mid < i && crate::text::text_before(self@[i].symbol, symbol@) {
                        crate::text::lemma_before_transitive(
                            self@[mid as int].symbol,
                            self@[i].symbol,
                            symbol@,
                        );
                    }
                }
                high = mid;
            }
        }
        low
    }

    /// Where the book of `symbol` stands.
    fn find(&self, symbol: &str) -> (r: Option<usize>)
        requires
            self.wf(),
        ensures
            match r {
                Some(i) => i < self.books@.len() && place_of(self@, symbol@) == Some(i as int)
                    && self.books@[i as int]@ == self@[i as int] && self.books@[i as int].wf()
                    && self@[i as int].symbol == symbol@,
                None => place_of(self@, symbol@) is None,
            },
    {
        let at = self.position(symbol);
        if at < self.books.len() {
            assert(self@[at as int] == self.books@[at as int]@);
            if order_texts(self.books[at].symbol.as_str(), symbol) == TextOrder::Same {
                proof {
                    lemma_place(self@, at as int);
                }
                return Some(at);
            }
        }
        proof {
            if place_of(self@, symbol@) is Some {
                let i = choose|i: int| book_at(self@, i, symbol@);
                assert(book_at(self@, i, symbol@));
                if i < at {
                    crate::text::lemma_before_irreflexive(symbol@);
                } else if at < i {
                    assert(crate::text::text_before(self@[at as int].symbol, self@[i].symbol));
                }
            }
        }
        None
    }

    /// A book for each of the symbols.
    pub fn from_symbols(symbols: &[String]) -> (r: Books)
        ensures
            r.wf(),
            in_symbol_order(r@),
            forall|symbol: Seq<char>|
                #[trigger] has_book(r@, symbol) <==> texts(symbols@).contains(symbol),
            forall|i: int|
                0 <= i < r@.len() ==> #[trigger] r@[i] == crate::model::unsynced(r@[i].symbol),
    {
        let mut r = Books::new();
        assert(texts(symbols@).take(0) =~= Seq::<Seq<char>>::empty());
        for k in 0..symbols.len()
            invariant
                r.wf(),
                forall|symbol: Seq<char>|
                    #[trigger] has_book(r@, symbol) <==> texts(symbols@).take(k as int).contains(
                        symbol,
                    ),
                forall|i: int|
                    0 <= i < r@.len() ==> #[trigger] r@[i] == crate::model::unsynced(r@[i].symbol),
        {
            let name: String = symbols[k].clone();
            r.add(name);
            proof {
                let all = texts(symbols@);
                assert(all[k as int] == symbols@[k as int]@);
                assert forall|symbol: Seq<char>|
                    #[trigger] has_book(r@, symbol) <==> all.take(k + 1).contains(symbol) by {
                    crate::text::lemma_take_contains(all, k as int, symbol);
                }
            }
        }
        assert(texts(symbols@).take(symbols@.len() as int) =~= texts(symbols@));
        r
    }

    /// Adds a book for a symbol that has none.
    fn add(&mut self, symbol: String)
        requires
            old(self).wf(),
            forall|i: int|
                0 <= i < old(self)@.len() ==> #[trigger] old(self)@[i] == crate::model::unsynced(
                    old(self)@[i].symbol,
                ),
        ensures
            final(self).wf(),
            forall|s: Seq<char>|
                #[trigger] has_book(final(self)@, s) <==> has_book(old(self)@, s) || s == symbol@,
            forall|i: int|
                0 <= i < final(self)@.len() ==> #[trigger] final(self)@[i]
                    == crate::model::unsynced(final(self)@[i].symbol),
    {
        if self.find(symbol.as_str()).is_some() {
            return;
        }
        let at = self.position(symbol.as_str());
        let ghost before = self@;
        let ghost raw = self.books@;
        let ghost name = symbol@;
        let book = Book::new(symbol);
        let ghost fresh = book@;
        self.books.insert(at, book);
        proof {
            let after = self@;
            assert(after =~= before.insert(at as int, fresh));
            assert forall|i: int| 0 <= i < self.books@.len() implies (
            #[trigger] self.books@[i]).wf() by {
                if i < at {
                    assert(self.books@[i] == raw[i]);
                } else if at < i {
                    assert(self.books@[i] == raw[i - 1]);
                }
            }
            assert forall|i: int, j: int| 0 <= i < j < after.len() implies
                crate::text::text_before(
                (#[trigger] after[i]).symbol,
                (#[trigger] after[j]).symbol,
            ) by {
                let bi = if i < at { i } else { i - 1 };
                let bj = if j < at { j } else { j - 1 };
                if i != at {
                    assert(after[i] == before[bi]);
                }
                if j != at {
                    assert(after[j] == before[bj]);
                }
                if i == at {
                    if before[bj].symbol == name {
                        assert(book_at(before, bj, name));
                    }
                    crate::text::lemma_before_total(before[bj].symbol, name);
                }
            }
            assert forall|s: Seq<char>|
                #[trigger] has_book(after, s) <==> has_book(before, s) || s == name by {
                if has_book(after, s) {
                    let i = choose|i: int| book_at(after, i, s);
                    assert(book_at(after, i, s));
                    if i != at {
                        assert(book_at(before, if i < at { i } else { i - 1 }, s));
                    }
                }
                if has_book(before, s) {
                    let i = choose|i: int| book_at(before, i, s);
                    assert(book_at(before, i, s));
                    assert(book_at(after, if i < at { i } else { i + 1 }, s));
                }
                if s == name {
                    assert(book_at(after, at as int, s));
                }
            }
        }
    }

    /// The number of books.
    pub fn len(&self) -> (r: usize)
        ensures
            r == self@.len(),
    {
        self.books.len()
    }

    /// The book at a position.
    pub fn book(&self, i: usize) -> (r: &Book)
        requires
            self.wf(),
            i < self@.len(),
        ensures
            r.wf(),
            r@ == self@[i as int],
    {
        &self.books[i]
    }

    /// The book of a symbol.
    pub fn get(&self, symbol: &str) -> (r: Option<&Book>)
        requires
            self.wf(),
        ensures
            match r {
                Some(book) => book.wf() && place_of(self@, symbol@) is Some && book@
                    == self@[place_of(self@, symbol@)->0],
                None => place_of(self@, symbol@) is None,
            },
    {
        match self.find(symbol) {
            Some(i) => Some(&self.books[i]),
            None => None,
        }
    }

    /// Whether the book of a symbol waits for a snapshot.
    pub fn is_buffering(&self, symbol: &str) -> (r: bool)
        requires
            self.wf(),
        ensures
            r == (place_of(self@, symbol@) is Some && self@[place_of(self@, symbol@)->0].state
                == BookState::Buffering),
    {
        match self.find(symbol) {
            Some(i) => self.books[i].state == BookState::Buffering,
            None => false,
        }
    }

    /// Whether the counters of a symbol's book have room for a diff.
    pub fn has_depth_room(&self, symbol: &str) -> (r: bool)
        requires
            self.wf(),
        ensures
            r == room_for_depth(self@, symbol@),
    {
        match self.find(symbol) {
            Some(i) => self.books[i].has_depth_room(),
            None => true,
        }
    }

    /// Whether the counters of a symbol's book have room for a snapshot.
    pub fn has_snapshot_room(&self, symbol: &str) -> (r: bool)
        requires
            self.wf(),
        ensures
            r == room_for_snapshot(self@, symbol@),
    {
        match self.find(symbol) {
            Some(i) => self.books[i].has_snapshot_room(),
            None => true,
        }
    }

    /// Gives a depth diff, which came at the time `now`, to the book of its symbol. For a
    /// symbol that has no book nothing is to be done.
    pub fn on_depth(
        &mut self,
        symbol: &str,
        now: u64,
        first_id: u64,
        last_id: u64,
        prev_id: u64,
        bids: Levels,
        asks: Levels,
    ) -> (r: Action)
        requires
            old(self).wf(),
            room_for_depth(old(self)@, symbol@),
        ensures
            final(self).wf(),
            (final(self)@, r) == books_depth_step(
                old(self)@,
                symbol@,
                now,
                DepthModel { first_id, last_id, prev_id, bids: bids@, asks: asks@ },
            ),
    {
        match self.find(symbol) {
            Some(i) => {
                let ghost raw = self.books@;
                self.books[i].last_update_time = now;
                let r = self.books[i].on_depth(first_id, last_id, prev_id, bids, asks);
                proof {
                    self.lemma_replaced(raw, i as int);
                }
                r
            },
            None => Action::None_,
        }
    }

    /// Gives a snapshot to the book of its symbol. Says whether the book is live then; a
    /// symbol without a book never is.
    pub fn on_snapshot(
        &mut self,
        symbol: &str,
        last_update_id: u64,
        bids: &[(Decimal, Decimal)],
        asks: &[(Decimal, Decimal)],
    ) -> (r: bool)
        requires
            old(self).wf(),
            room_for_snapshot(old(self)@, symbol@),
        ensures
            final(self).wf(),
            match place_of(old(self)@, symbol@) {
                Some(i) => {
                    let (after, live) = crate::model::snapshot_step(
                        old(self)@[i],
                        last_update_id,
                        bids@,
                        asks@,
                    );
                    final(self)@ == old(self)@.update(i, after) && r == live
                },
                None => final(self)@ == old(self)@ && !r,
            },
    {
        match self.find(symbol) {
            Some(i) => {
                let ghost raw = self.books@;
                let r = self.books[i].on_snapshot(last_update_id, bids, asks);
                proof {
                    self.lemma_replaced(raw, i as int);
                }
                r
            },
            None => false,
        }
    }

    /// Gives the best prices of the ticker to the book of their symbol.
    pub fn set_ticker_bbo(&mut self, symbol: &str, bid: Decimal, ask: Decimal)
        requires
            old(self).wf(),
        ensures
            final(self).wf(),
            final(self)@ == with_book(
                old(self)@,
                symbol@,
                |m: BookModel|
                    BookModel { ticker_bid: bid.units(), ticker_ask: ask.units(), ..m },
            ),
    {
        match self.find(symbol) {
            Some(i) => {
                let ghost raw = self.books@;
                self.books[i].set_ticker_bbo(bid, ask);
                proof {
                    self.lemma_replaced(raw, i as int);
                }
            },
            None => {},
        }
    }

    /// Resets the books of these symbols; the others stay.
    pub fn reset(&mut self, symbols: &[String])
        requires
            old(self).wf(),
        ensures
            final(self).wf(),
            final(self)@ == with_resets(old(self)@, texts(symbols@)),
    {
        let ghost start = self@;
        assert(with_resets(start, texts(symbols@).take(0)) =~= start);
        for k in 0..symbols.len()
            invariant
                self.wf(),
                start == old(self)@,
                in_symbol_order(start),
                self@ == with_resets(start, texts(symbols@).take(k as int)),
        {
            match self.find(symbols[k].as_str()) {
                Some(i) => {
                    let ghost raw = self.books@;
                    self.books[i].reset();
                    proof {
                        self.lemma_replaced(raw, i as int);
                    }
                },
                None => {},
            }
            proof {
                lemma_reset_step(start, texts(symbols@), k as int);
                assert(texts(symbols@)[k as int] == symbols@[k as int]@);
            }
        }
        assert(texts(symbols@).take(symbols@.len() as int) =~= texts(symbols@));
    }

    /// Replacing a book by one of the same symbol keeps everything in order.
    proof fn lemma_replaced(&self, raw: Seq<Book>, i: int)
        requires
            0 <= i < raw.len(),
            forall|j: int| 0 <= j < raw.len() ==> (#[trigger] raw[j]).wf(),
            in_symbol_order(raw.map_values(|book: Book| book@)),
            self.books@.len() == raw.len(),
            forall|j: int| 0 <= j < raw.len() && j != i ==> self.books@[j] == raw[j],
            self.books@[i].wf(),
            self.books@[i]@.symbol == raw[i]@.symbol,
        ensures
            self.wf(),
            self@ == raw.map_values(|book: Book| book@).update(i, self.books@[i]@),
    {
        let before = raw.map_values(|book: Book| book@);
        assert forall|j: int| 0 <= j < self@.len() implies (#[trigger] self@[j]).symbol
            == before[j].symbol by {}
        assert forall|j: int, k: int| 0 <= j < k < self@.len() implies crate::text::text_before(
            (#[trigger] self@[j]).symbol,
            (#[trigger] self@[k]).symbol,
        ) by {
            assert(crate::text::text_before(before[j].symbol, before[k].symbol));
        }
        assert forall|j: int| 0 <= j < self.books@.len() implies (#[trigger] self.books@[j]).wf() by {
            if j != i {
                assert(self.books@[j] == raw[j]);
            }
        }
        assert(self@ =~= before.update(i, self.books@[i]@));
    }
}

/// Whether the counters of a symbol's book have room for a diff.
pub open spec fn room_for_depth(books: Seq<BookModel>, symbol: Seq<char>) -> bool {
    place_of(books, symbol) matches Some(i) ==> crate::model::depth_room(books[i])
}

/// Whether the counters of a symbol's book have room for a snapshot.
pub open spec fn room_for_snapshot(books: Seq<BookModel>, symbol: Seq<char>) -> bool {
    place_of(books, symbol) matches Some(i) ==> crate::model::snapshot_room(books[i])
}

/// What a depth diff that came at the time `now` makes of the books, and what is to be
/// done about it.
pub open spec fn books_depth_step(
    books: Seq<BookModel>,
    symbol: Seq<char>,
    now: u64,
    event: DepthModel,
) -> (Seq<BookModel>, Action) {
    match place_of(books, symbol) {
        Some(i) => {
            let (after, action) = crate::model::depth_step(
                BookModel { last_update_time: now, ..books[i] },
                event,
            );
            (books.update(i, after), action)
        },
        None => (books, Action::None_),
    }
}

/// The sweep for stale books: every live book that was silent for longer than `threshold`
/// is emptied and waits for a snapshot. Gives the symbols for which one is to be fetched.
pub fn take_stale_books(books: &mut Books, now: u64, threshold: u64) -> (r: Vec<String>)
    requires
        old(books).wf(),
    ensures
        final(books).wf(),
        final(books)@ == old(books)@.map_values(|m: BookModel| swept(m, now, threshold)),
        texts(r@) == stale_symbols(old(books)@, now, threshold),
{
    let mut stale: Vec<String> = Vec::new();
    let ghost start = books@;
    let n: usize = books.books.len();
    assert(texts(stale@) =~= Seq::<Seq<char>>::empty());
    assert(start.take(0) =~= Seq::<BookModel>::empty());
    for i in 0..n
        invariant
            books.wf(),
            start == old(books)@,
            n == start.len(),
            books.books@.len() == n,
            forall|j: int| 0 <= j < i ==> (#[trigger] books@[j]) == swept(start[j], now, threshold),
            forall|j: int| i <= j < n ==> (#[trigger] books@[j]) == start[j],
            texts(stale@) == stale_symbols(start.take(i as int), now, threshold),
    {
        let ghost raw = books.books@;
        let ghost listed = stale@;
        proof {
            assert(books@[i as int] == start[i as int]);
            assert(start.take(i + 1).drop_last() =~= start.take(i as int));
            assert(start.take(i + 1).last() == start[i as int]);
        }
        let live = books.books[i].state == BookState::Live;
        let last: u64 = books.books[i].last_update_time;
        if live && now > last && now - last > threshold {
            books.books[i].mark_for_resync();
            books.books[i].last_update_time = now;
            stale.push(books.books[i].symbol.clone());
            proof {
                books.lemma_replaced(raw, i as int);
                assert(texts(stale@) =~= texts(listed).push(start[i as int].symbol));
            }
        }
    }
    proof {
        assert(start.take(n as int) =~= start);
        assert(books@ =~= start.map_values(|m: BookModel| swept(m, now, threshold)));
    }
    stale
}

/// Books in symbol order have one place for each symbol.
pub proof fn lemma_place(books: Seq<BookModel>, i: int)
    requires
        in_symbol_order(books),
        0 <= i < books.len(),
    ensures
        place_of(books, books[i].symbol) == Some(i),
{
    let symbol = books[i].symbol;
    assert(book_at(books, i, symbol));
    let k = choose|k: int| book_at(books, k, symbol);
    assert(book_at(books, k, symbol));
    crate::text::lemma_before_irreflexive(symbol);
    if k < i {
        assert(crate::text::text_before(books[k].symbol, books[i].symbol));
    } else if i < k {
        assert(crate::text::text_before(books[i].symbol, books[k].symbol));
    }
}

/// One more symbol to be reset.
proof fn lemma_reset_step(books: Seq<BookModel>, symbols: Seq<Seq<char>>, k: int)
    requires
        in_symbol_order(books),
        0 <= k < symbols.len(),
    ensures
        with_resets(books, symbols.take(k + 1)) == with_book(
            with_resets(books, symbols.take(k)),
            symbols[k],
            |m: BookModel| crate::model::reset_book(m),
        ),
{
    let before = with_resets(books, symbols.take(k));
    let after = with_resets(books, symbols.take(k + 1));
    let name = symbols[k];
    assert forall|s: Seq<char>| #[trigger] symbols.take(k + 1).contains(s) <==> symbols.take(
        k,
    ).contains(s) || s == name by {
        crate::text::lemma_take_contains(symbols, k, s);
    }
    assert forall|i: int| 0 <= i < books.len() implies (#[trigger] before[i]).symbol
        == books[i].symbol by {}
    assert(in_symbol_order(before)) by {
        assert forall|i: int, j: int| 0 <= i < j < before.len() implies crate::text::text_before(
            (#[trigger] before[i]).symbol,
            (#[trigger] before[j]).symbol,
        ) by {
            assert(crate::text::text_before(books[i].symbol, books[j].symbol));
        }
    }
    let expected = with_book(before, name, |m: BookModel| crate::model::reset_book(m));
    assert forall|i: int| 0 <= i < books.len() implies after[i] == expected[i] by {
        lemma_place(before, i);
        if books[i].symbol != name {
            if place_of(before, name) is Some {
                let p = place_of(before, name)->0;
                assert(book_at(before, p, name));
            }
        }
    }
    assert(after =~= expected);
}

} // verus!
