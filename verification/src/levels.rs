//! One side of an order book: price levels, ordered by price.
use vstd::prelude::*;

use crate::decimal::Decimal;

verus! {

/// Whether prices rise strictly from one level to the next.
pub open spec fn ascending(levels: Seq<(Decimal, Decimal)>) -> bool {
    forall|i: int, j: int|
        0 <= i < j < levels.len() ==> #[trigger] levels[i].0.units() < #[trigger] levels[j].0.units()
}

/// Whether position `i` holds the price that is worth `price`.
pub open spec fn priced_at(levels: Seq<(Decimal, Decimal)>, i: int, price: int) -> bool {
    0 <= i < levels.len() && levels[i].0.units() == price
}

/// A list of levels as a map: from what a price is worth to the level at that price, that
/// is, the price as it was written and the quantity.
pub open spec fn by_price(levels: Seq<(Decimal, Decimal)>) -> Map<int, (Decimal, Decimal)> {
    Map::new(
        |price: int| exists|i: int| priced_at(levels, i, price),
        |price: int| levels[choose|i: int| priced_at(levels, i, price)],
    )
}

/// A side of the book after a level was set. A price that is there already keeps the way
/// it was written.
pub open spec fn with_level(
    side: Map<int, (Decimal, Decimal)>,
    price: Decimal,
    qty: Decimal,
) -> Map<int, (Decimal, Decimal)> {
    let written = if side.contains_key(price.units()) {
        side[price.units()].0
    } else {
        price
    };
    side.insert(price.units(), (written, qty))
}

/// Whether `price` is the highest price of a side.
pub open spec fn is_highest(side: Map<int, (Decimal, Decimal)>, price: int) -> bool {
    side.contains_key(price) && forall|p: int| #[trigger] side.contains_key(p) ==> p <= price
}

/// Whether `price` is the lowest price of a side.
pub open spec fn is_lowest(side: Map<int, (Decimal, Decimal)>, price: int) -> bool {
    side.contains_key(price) && forall|p: int| #[trigger] side.contains_key(p) ==> price <= p
}

/// The first `n` levels of an ascending list, or all where there are fewer.
pub open spec fn lowest_first(levels: Seq<(Decimal, Decimal)>, n: nat) -> Seq<(Decimal, Decimal)> {
    levels.take(if n < levels.len() { n as int } else { levels.len() as int })
}

/// The last `n` levels of an ascending list, or all where there are fewer, from the end.
pub open spec fn highest_first(levels: Seq<(Decimal, Decimal)>, n: nat) -> Seq<
    (Decimal, Decimal),
> {
    lowest_first(levels.reverse(), n)
}

/// Whether every level stands at the price that it says.
pub open spec fn prices_agree(side: Map<int, (Decimal, Decimal)>) -> bool {
    forall|price: int| #[trigger] side.contains_key(price) ==> side[price].0.units() == price
}

/// The levels of a side as a list, from the lowest price to the highest.
pub open spec fn listing(side: Map<int, (Decimal, Decimal)>) -> Seq<(Decimal, Decimal)> {
    choose|levels: Seq<(Decimal, Decimal)>| #[trigger] ascending(levels) && by_price(levels) == side
}

/// The price levels of one side of an order book, each price once, from the lowest price
/// to the highest.
#[derive(Debug)]
pub struct PriceLevels {
    levels: Vec<(Decimal, Decimal)>,
}

impl View for PriceLevels {
    type V = Map<int, (Decimal, Decimal)>;

    /// The levels by price.
    open spec fn view(&self) -> Map<int, (Decimal, Decimal)> {
        by_price(self.listed())
    }
}

impl PriceLevels {
    /// The levels from the lowest price to the highest.
    pub closed spec fn listed(&self) -> Seq<(Decimal, Decimal)> {
        self.levels@
    }

    /// Each price occurs once, and the levels are in the order of their prices.
    pub open spec fn wf(&self) -> bool {
        ascending(self.listed())
    }

    /// A side without levels.
    pub fn new() -> (r: PriceLevels)
        ensures
            r.wf(),
            r.listed() == Seq::<(Decimal, Decimal)>::empty(),
            r@ == Map::<int, (Decimal, Decimal)>::empty(),
    {
        let r = PriceLevels { levels: Vec::new() };
        assert(r@ =~= Map::<int, (Decimal, Decimal)>::empty());
        r
    }

    /// The number of levels.
    pub fn len(&self) -> (r: usize)
        ensures
            r == self.listed().len(),
            self.wf() ==> r == self@.len(),
    {
        proof {
            if self.wf() {
                lemma_by_price_len(self.listed());
            }
        }
        self.levels.len()
    }

    /// Whether there is no level.
    pub fn is_empty(&self) -> (r: bool)
        ensures
            r == (self@ == Map::<int, (Decimal, Decimal)>::empty()),
            r == (self.listed().len() == 0),
    {
        proof {
            if self.levels@.len() == 0 {
                assert(self@ =~= Map::<int, (Decimal, Decimal)>::empty());
            } else {
                assert(priced_at(self.levels@, 0, self.levels@[0].0.units()));
                assert(self@.contains_key(self.levels@[0].0.units()));
            }
        }
        self.levels.len() == 0
    }

    /// Where `price` stands, or where it would be put: everything before is lower, and
    /// everything from there on is not.
    fn position(&self, price: &Decimal) -> (r: usize)
        requires
            self.wf(),
        ensures
            r <= self.levels@.len(),
            forall|i: int| 0 <= i < r ==> #[trigger] self.levels@[i].0.units() < price.units(),
            forall|i: int|
                r <= i < self.levels@.len() ==> #[trigger] self.levels@[i].0.units()
                    >= price.units(),
    {
        let mut low: usize = 0;
        let mut high: usize = self.levels.len();
        while low < high
            invariant
                self.wf(),
                low <= high <= self.levels@.len(),
                forall|i: int| 0 <= i < low ==> #[trigger] self.levels@[i].0.units() < price.units(),
                forall|i: int|
                    high <= i < self.levels@.len() ==> #[trigger] self.levels@[i].0.units()
                        >= price.units(),
            decreases high - low,
        {
            let mid: usize = low + (high - low) / 2;
            assert(self.listed()[mid as int] == self.levels@[mid as int]);
            if self.levels[mid].0.below(price) {
                assert forall|i: int| 0 <= i < mid + 1 implies #[trigger] self.levels@[i].0.units()
                    < price.units() by {
                    if i < mid {
                        assert(self.listed()[i].0.units() < self.listed()[mid as int].0.units());
                    }
                }
                low = mid + 1;
            } else {
                assert forall|i: int| mid <= i < self.levels@.len() implies #[trigger]
                self.levels@[i].0.units() >= price.units() by {
                    if mid < i {
                        assert(self.listed()[mid as int].0.units() < self.listed()[i].0.units());
                    }
                }
                high = mid;
            }
        }
        low
    }

    /// The quantity at `price`, where there is a level at that price.
    pub fn get(&self, price: &Decimal) -> (r: Option<&Decimal>)
        requires
            self.wf(),
        ensures
            match r {
                Some(qty) => self@.contains_key(price.units()) && *qty
                    == self@[price.units()].1,
                None => !self@.contains_key(price.units()),
            },
    {
        let at = self.position(price);
        if at < self.levels.len() && !price.below(&self.levels[at].0) {
            proof {
                lemma_by_price_at(self.levels@, at as int);
            }
            Some(&self.levels[at].1)
        } else {
            proof {
                if self@.contains_key(price.units()) {
                    let i = choose|i: int| priced_at(self.levels@, i, price.units());
                    assert(priced_at(self.levels@, i, price.units()));
                    if at < i {
                        assert(self.listed()[at as int].0.units() < self.listed()[i].0.units());
                    }
                }
            }
            None
        }
    }

    /// Whether there is a level at `price`.
    pub fn contains_key(&self, price: &Decimal) -> (r: bool)
        requires
            self.wf(),
        ensures
            r == self@.contains_key(price.units()),
    {
        self.get(price).is_some()
    }

    /// Sets the quantity at `price`.
    pub fn insert(&mut self, price: Decimal, qty: Decimal)
        requires
            old(self).wf(),
        ensures
            final(self).wf(),
            final(self)@ == with_level(old(self)@, price, qty),
    {
        let ghost before = self.levels@;
        let at = self.position(&price);
        if at < self.levels.len() && !price.below(&self.levels[at].0) {
            let written: Decimal = self.levels[at].0;
            self.levels.set(at, (written, qty));
            proof {
                let after = self.levels@;
                assert forall|i: int, j: int| 0 <= i < j < after.len() implies
                    #[trigger] after[i].0.units() < #[trigger] after[j].0.units() by {
                    assert(before[i].0.units() < before[j].0.units());
                }
                lemma_by_price_at(before, at as int);
                lemma_by_price_update(before, after, at as int, price.units());
                assert(self@ =~= with_level(old(self)@, price, qty));
            }
        } else {
            self.levels.insert(at, (price, qty));
            proof {
                let after = self.levels@;
                assert forall|i: int, j: int| 0 <= i < j < after.len() implies
                    #[trigger] after[i].0.units() < #[trigger] after[j].0.units() by {
                    let bi = if i < at { i } else { i - 1 };
                    let bj = if j < at { j } else { j - 1 };
                    if i != at {
                        assert(after[i] == before[bi]);
                    }
                    if j != at {
                        assert(after[j] == before[bj]);
                    }
                    if i != at && j != at {
                        assert(before[bi].0.units() < before[bj].0.units());
                    } else if i == at {
                        assert(before[bj].0.units() >= price.units());
                        if bj > at {
                            assert(before[at as int].0.units() < before[bj].0.units());
                        }
                    }
                }
                lemma_by_price_insert(before, after, at as int, price, qty);
                assert(self@ =~= with_level(old(self)@, price, qty));
            }
        }
    }

    /// Takes the level at `price` away, where there is one.
    pub fn remove(&mut self, price: &Decimal)
        requires
            old(self).wf(),
        ensures
            final(self).wf(),
            final(self)@ == old(self)@.remove(price.units()),
    {
        let ghost before = self.levels@;
        let at = self.position(price);
        if at < self.levels.len() && !price.below(&self.levels[at].0) {
            self.levels.remove(at);
            proof {
                let after = self.levels@;
                assert forall|i: int, j: int| 0 <= i < j < after.len() implies
                    #[trigger] after[i].0.units() < #[trigger] after[j].0.units() by {
                    let bi = if i < at { i } else { i + 1 };
                    let bj = if j < at { j } else { j + 1 };
                    assert(before[bi].0.units() < before[bj].0.units());
                }
                let (written, qty) = before[at as int];
                assert(before =~= after.insert(at as int, (written, qty)));
                lemma_by_price_insert(after, before, at as int, written, qty);
                assert(self@ =~= old(self)@.remove(price.units()));
            }
        } else {
            proof {
                if self@.contains_key(price.units()) {
                    let i = choose|i: int| priced_at(before, i, price.units());
                    assert(priced_at(before, i, price.units()));
                    if at < i {
                        assert(before[at as int].0.units() < before[i].0.units());
                    }
                }
                assert(self@ =~= old(self)@.remove(price.units()));
            }
        }
    }

    /// The highest price.
    pub fn highest(&self) -> (r: Option<Decimal>)
        requires
            self.wf(),
        ensures
            match r {
                Some(price) => is_highest(self@, price.units()) && price
                    == self@[price.units()].0,
                None => self@ == Map::<int, (Decimal, Decimal)>::empty(),
            },
    {
        if self.is_empty() {
            return None;
        }
        let last: usize = self.levels.len() - 1;
        proof {
            let list = self.listed();
            let top = list[last as int].0.units();
            lemma_by_price_at(list, last as int);
            assert forall|p: int| #[trigger] self@.contains_key(p) implies p <= top by {
                let i = choose|i: int| priced_at(list, i, p);
                assert(priced_at(list, i, p));
                if i < last {
                    assert(list[i].0.units() < list[last as int].0.units());
                }
            }
        }
        Some(self.levels[last].0)
    }

    /// The lowest price.
    pub fn lowest(&self) -> (r: Option<Decimal>)
        requires
            self.wf(),
        ensures
            match r {
                Some(price) => is_lowest(self@, price.units()) && price
                    == self@[price.units()].0,
                None => self@ == Map::<int, (Decimal, Decimal)>::empty(),
            },
    {
        if self.is_empty() {
            return None;
        }
        proof {
            let list = self.listed();
            let bottom = list[0].0.units();
            lemma_by_price_at(list, 0);
            assert forall|p: int| #[trigger] self@.contains_key(p) implies bottom <= p by {
                let i = choose|i: int| priced_at(list, i, p);
                assert(priced_at(list, i, p));
                if 0 < i {
                    assert(list[0].0.units() < list[i].0.units());
                }
            }
        }
        Some(self.levels[0].0)
    }

    /// The `n` levels of the lowest prices, or all where there are fewer, lowest first.
    pub fn from_lowest(&self, n: usize) -> (r: Vec<(Decimal, Decimal)>)
        ensures
            r@ == lowest_first(self.listed(), n as nat),
    {
        let count: usize = if n < self.levels.len() {
            n
        } else {
            self.levels.len()
        };
        let mut r: Vec<(Decimal, Decimal)> = Vec::new();
        for i in 0..count
            invariant
                count <= self.levels@.len(),
                r@ == self.levels@.take(i as int),
        {
            r.push(self.levels[i]);
            assert(r@ =~= self.levels@.take(i + 1));
        }
        r
    }

    /// The `n` levels of the highest prices, or all where there are fewer, highest first.
    pub fn from_highest(&self, n: usize) -> (r: Vec<(Decimal, Decimal)>)
        ensures
            r@ == highest_first(self.listed(), n as nat),
    {
        let count: usize = if n < self.levels.len() {
            n
        } else {
            self.levels.len()
        };
        let mut r: Vec<(Decimal, Decimal)> = Vec::new();
        for i in 0..count
            invariant
                count <= self.levels@.len(),
                r@ == self.levels@.reverse().take(i as int),
        {
            r.push(self.levels[self.levels.len() - 1 - i]);
            assert(r@ =~= self.levels@.reverse().take(i + 1));
        }
        r
    }

    /// Takes all levels away.
    pub fn clear(&mut self)
        ensures
            final(self).wf(),
            final(self).listed() == Seq::<(Decimal, Decimal)>::empty(),
            final(self)@ == Map::<int, (Decimal, Decimal)>::empty(),
    {
        self.levels.clear();
        assert(self@ =~= Map::<int, (Decimal, Decimal)>::empty());
    }
}

/// The level at a position is the one that the map holds at its price.
pub proof fn lemma_by_price_at(levels: Seq<(Decimal, Decimal)>, i: int)
    requires
        ascending(levels),
        0 <= i < levels.len(),
    ensures
        by_price(levels).contains_key(levels[i].0.units()),
        by_price(levels)[levels[i].0.units()] == levels[i],
{
    let price = levels[i].0.units();
    assert(priced_at(levels, i, price));
    let k = choose|k: int| priced_at(levels, k, price);
    assert(priced_at(levels, k, price));
    if k < i {
        assert(levels[k].0.units() < levels[i].0.units());
    } else if i < k {
        assert(levels[i].0.units() < levels[k].0.units());
    }
}

/// Replacing the level at a position by one of the same price replaces it in the map.
proof fn lemma_by_price_update(
    before: Seq<(Decimal, Decimal)>,
    after: Seq<(Decimal, Decimal)>,
    at: int,
    price: int,
)
    requires
        ascending(before),
        ascending(after),
        0 <= at < before.len(),
        after.len() == before.len(),
        before[at].0.units() == price,
        after[at].0.units() == price,
        forall|i: int| 0 <= i < before.len() && i != at ==> after[i] == before[i],
    ensures
        by_price(after) == by_price(before).insert(price, after[at]),
{
    let m = by_price(before).insert(price, after[at]);
    assert forall|p: int| #[trigger] by_price(after).dom().contains(p) implies m.dom().contains(p) by {
        let i = choose|i: int| priced_at(after, i, p);
        assert(priced_at(after, i, p));
        assert(priced_at(before, i, p));
    }
    assert forall|p: int| #[trigger] m.dom().contains(p) implies by_price(after).dom().contains(p)
        && by_price(after)[p] == m[p] by {
        if p == price {
            lemma_by_price_at(after, at);
        } else {
            let i = choose|i: int| priced_at(before, i, p);
            assert(priced_at(before, i, p));
            assert(priced_at(after, i, p));
            lemma_by_price_at(after, i);
            lemma_by_price_at(before, i);
        }
    }
    assert(by_price(after) =~= m);
}

/// Putting a level in between puts it into the map, at a price that was not there.
proof fn lemma_by_price_insert(
    before: Seq<(Decimal, Decimal)>,
    after: Seq<(Decimal, Decimal)>,
    at: int,
    price: Decimal,
    qty: Decimal,
)
    requires
        ascending(before),
        ascending(after),
        0 <= at <= before.len(),
        after == before.insert(at, (price, qty)),
    ensures
        !by_price(before).contains_key(price.units()),
        by_price(after) == by_price(before).insert(price.units(), (price, qty)),
{
    let m = by_price(before).insert(price.units(), (price, qty));
    assert(after[at] == (price, qty));
    assert forall|i: int| 0 <= i < before.len() implies #[trigger] before[i]
        == after[if i < at { i } else { i + 1 }] by {}
    if by_price(before).contains_key(price.units()) {
        let i = choose|i: int| priced_at(before, i, price.units());
        assert(priced_at(before, i, price.units()));
        let k = if i < at { i } else { i + 1 };
        assert(after[k] == before[i]);
        if k < at {
            assert(after[k].0.units() < after[at].0.units());
        } else {
            assert(after[at].0.units() < after[k].0.units());
        }
    }
    assert forall|p: int| #[trigger] by_price(after).dom().contains(p) implies m.dom().contains(p) by {
        let i = choose|i: int| priced_at(after, i, p);
        assert(priced_at(after, i, p));
        if i != at {
            assert(priced_at(before, if i < at { i } else { i - 1 }, p));
        }
    }
    assert forall|p: int| #[trigger] m.dom().contains(p) implies by_price(after).dom().contains(p)
        && by_price(after)[p] == m[p] by {
        if p == price.units() {
            lemma_by_price_at(after, at);
        } else {
            let i = choose|i: int| priced_at(before, i, p);
            assert(priced_at(before, i, p));
            let k = if i < at { i } else { i + 1 };
            assert(after[k] == before[i]);
            lemma_by_price_at(after, k);
            lemma_by_price_at(before, i);
        }
    }
    assert(by_price(after) =~= m);
}

/// A level behind an ascending list is put into the map of the list.
pub proof fn lemma_by_price_push(levels: Seq<(Decimal, Decimal)>, level: (Decimal, Decimal))
    requires
        ascending(levels),
        levels.len() == 0 || levels.last().0.units() < level.0.units(),
    ensures
        ascending(levels.push(level)),
        by_price(levels.push(level)) == by_price(levels).insert(level.0.units(), level),
{
    let after = levels.push(level);
    let at = levels.len() as int;
    assert forall|i: int, j: int| 0 <= i < j < after.len() implies #[trigger] after[i].0.units()
        < #[trigger] after[j].0.units() by {
        if j < at {
            assert(levels[i].0.units() < levels[j].0.units());
        } else if i < at - 1 {
            assert(levels[i].0.units() < levels[at - 1].0.units());
        }
    }
    assert(after =~= levels.insert(at, level));
    lemma_by_price_insert(levels, after, at, level.0, level.1);
}

/// The map of an ascending list has as many levels as the list.
pub proof fn lemma_by_price_len(levels: Seq<(Decimal, Decimal)>)
    requires
        ascending(levels),
    ensures
        by_price(levels).dom().finite(),
        by_price(levels).len() == levels.len(),
    decreases levels.len(),
{
    if levels.len() == 0 {
        assert(by_price(levels) =~= Map::<int, (Decimal, Decimal)>::empty());
    } else {
        let less = levels.drop_last();
        let at = levels.len() - 1;
        assert(levels =~= less.insert(at, levels[at]));
        lemma_by_price_insert(less, levels, at, levels[at].0, levels[at].1);
        lemma_by_price_len(less);
    }
}

/// Two ascending lists with the same map are the same.
proof fn lemma_one_listing(a: Seq<(Decimal, Decimal)>, b: Seq<(Decimal, Decimal)>)
    requires
        ascending(a),
        ascending(b),
        by_price(a) == by_price(b),
    ensures
        a == b,
    decreases a.len(),
{
    lemma_by_price_len(a);
    lemma_by_price_len(b);
    if a.len() > 0 {
        let last = a.len() - 1;
        let (top_a, top_b) = (a[last].0.units(), b[last].0.units());
        lemma_by_price_at(a, last);
        lemma_by_price_at(b, last);
        let i = choose|i: int| priced_at(b, i, top_a);
        assert(priced_at(b, i, top_a));
        if i < last {
            assert(b[i].0.units() < b[last].0.units());
        }
        let j = choose|j: int| priced_at(a, j, top_b);
        assert(priced_at(a, j, top_b));
        if j < last {
            assert(a[j].0.units() < a[last].0.units());
        }
        assert(a[last] == b[last]);
        assert(a =~= a.drop_last().insert(last, a[last]));
        assert(b =~= b.drop_last().insert(last, b[last]));
        lemma_by_price_insert(a.drop_last(), a, last, a[last].0, a[last].1);
        lemma_by_price_insert(b.drop_last(), b, last, b[last].0, b[last].1);
        assert(by_price(a.drop_last()) =~= by_price(a).remove(top_a));
        assert(by_price(b.drop_last()) =~= by_price(b).remove(top_b));
        lemma_one_listing(a.drop_last(), b.drop_last());
        assert(a =~= a.drop_last().push(a[last]));
        assert(b =~= b.drop_last().push(b[last]));
    }
}

/// An ascending list is the one that its map is listed as.
pub proof fn lemma_listing(levels: Seq<(Decimal, Decimal)>)
    requires
        ascending(levels),
    ensures
        listing(by_price(levels)) == levels,
{
    lemma_one_listing(listing(by_price(levels)), levels);
}

/// Where a price belongs in an ascending list that does not have it.
proof fn lemma_place_for(levels: Seq<(Decimal, Decimal)>, price: int) -> (at: int)
    requires
        ascending(levels),
        forall|i: int| !priced_at(levels, i, price),
    ensures
        0 <= at <= levels.len(),
        forall|i: int| 0 <= i < at ==> (#[trigger] levels[i]).0.units() < price,
        forall|i: int| at <= i < levels.len() ==> (#[trigger] levels[i]).0.units() > price,
    decreases levels.len(),
{
    if levels.len() == 0 {
        0
    } else {
        let last = levels.len() - 1;
        assert(!priced_at(levels, last, price));
        if levels[last].0.units() < price {
            assert forall|i: int| 0 <= i < levels.len() implies (#[trigger] levels[i]).0.units()
                < price by {
                if i < last {
                    assert(levels[i].0.units() < levels[last].0.units());
                }
            }
            levels.len() as int
        } else {
            let less = levels.drop_last();
            assert forall|i: int| !priced_at(less, i, price) by {
                assert(!priced_at(levels, i, price));
            }
            let at = lemma_place_for(less, price);
            assert forall|i: int| 0 <= i < at implies (#[trigger] levels[i]).0.units() < price by {
                assert(less[i] == levels[i]);
            }
            assert forall|i: int| at <= i < levels.len() implies (#[trigger] levels[i]).0.units()
                > price by {
                if i < last {
                    assert(less[i] == levels[i]);
                }
            }
            at
        }
    }
}

/// Finitely many levels, each at its price, can be listed.
pub proof fn lemma_listed(side: Map<int, (Decimal, Decimal)>)
    requires
        side.dom().finite(),
        prices_agree(side),
    ensures
        ascending(listing(side)),
        by_price(listing(side)) == side,
    decreases side.dom().len(),
{
    if side.dom().len() == 0 {
        let none = Seq::<(Decimal, Decimal)>::empty();
        assert(ascending(none));
        assert(by_price(none) =~= side);
    } else {
        let price = side.dom().choose();
        assert(side.contains_key(price));
        let rest = side.remove(price);
        lemma_listed(rest);
        let less = listing(rest);
        let (written, qty) = side[price];
        assert forall|i: int| !priced_at(less, i, price) by {
            if priced_at(less, i, price) {
                lemma_by_price_at(less, i);
            }
        }
        let at = lemma_place_for(less, price);
        let all = less.insert(at, (written, qty));
        assert forall|i: int, j: int| 0 <= i < j < all.len() implies #[trigger] all[i].0.units()
            < #[trigger] all[j].0.units() by {
            let bi = if i < at { i } else { i - 1 };
            let bj = if j < at { j } else { j - 1 };
            if i != at {
                assert(all[i] == less[bi]);
            }
            if j != at {
                assert(all[j] == less[bj]);
            }
            if i != at && j != at {
                assert(less[bi].0.units() < less[bj].0.units());
            }
        }
        assert(ascending(all));
        lemma_by_price_insert(less, all, at, written, qty);
        assert(by_price(all) =~= side);
    }
}

} // verus!
