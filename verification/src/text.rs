//! Texts and their order.
use vstd::prelude::*;

verus! {

/// Pairs of texts by what the texts are.
pub open spec fn text_pairs(pairs: Seq<(String, String)>) -> Seq<(Seq<char>, Seq<char>)> {
    pairs.map_values(|pair: (String, String)| (pair.0@, pair.1@))
}

/// How two texts stand to each other.
#[derive(Debug, Clone, Copy, PartialEq, Eq, Structural)]
pub enum TextOrder {
    Before,
    Same,
    After,
}

/// Whether `a` and `b` agree up to position `k` and `a` comes first there: it ends, or
/// its character is the smaller one.
pub open spec fn splits_at(a: Seq<char>, b: Seq<char>, k: int) -> bool {
    &&& 0 <= k <= a.len()
    &&& k < b.len()
    &&& forall|j: int| 0 <= j < k ==> a[j] == b[j]
    &&& k == a.len() || a[k] < b[k]
}

/// The order of texts, by their characters from the first one on.
pub open spec fn text_before(a: Seq<char>, b: Seq<char>) -> bool {
    exists|k: int| splits_at(a, b, k)
}

/// Compares two texts character by character.
pub fn order_texts(a: &str, b: &str) -> (r: TextOrder)
    ensures
        r == TextOrder::Same <==> a@ == b@,
        r == TextOrder::Before <==> text_before(a@, b@),
        r == TextOrder::After <==> text_before(b@, a@),
{
    let mut left = a.chars();
    let mut right = b.chars();
    let ghost mut k: int = 0;
    loop
        invariant
            0 <= k <= a@.len(),
            k <= b@.len(),
            forall|j: int| 0 <= j < k ==> a@[j] == b@[j],
            vstd::std_specs::iter::IteratorSpec::obeys_prophetic_iter_laws(&left),
            vstd::std_specs::iter::IteratorSpec::obeys_prophetic_iter_laws(&right),
            vstd::std_specs::iter::IteratorSpec::remaining(&left) == a@.skip(k),
            vstd::std_specs::iter::IteratorSpec::remaining(&right) == b@.skip(k),
        decreases a@.len() - k,
    {
        let x = left.next();
        let y = right.next();
        match (x, y) {
            (None, None) => {
                proof {
                    assert(a@ =~= b@);
                    lemma_before_irreflexive(a@);
                }
                return TextOrder::Same;
            },
            (None, Some(_)) => {
                proof {
                    assert(splits_at(a@, b@, k));
                    lemma_before_asymmetric(a@, b@);
                }
                return TextOrder::Before;
            },
            (Some(_), None) => {
                proof {
                    assert(splits_at(b@, a@, k));
                    lemma_before_asymmetric(b@, a@);
                }
                return TextOrder::After;
            },
            (Some(c), Some(d)) => {
                if c != d {
                    proof {
                        assert(a@[k] == a@.skip(k)[0] && b@[k] == b@.skip(k)[0]);
                    }
                    if c < d {
                        proof {
                            assert(splits_at(a@, b@, k));
                            lemma_before_asymmetric(a@, b@);
                        }
                        return TextOrder::Before;
                    }
                    proof {
                        assert(splits_at(b@, a@, k));
                        lemma_before_asymmetric(b@, a@);
                    }
                    return TextOrder::After;
                }
                proof {
                    assert(a@[k] == a@.skip(k)[0] && b@[k] == b@.skip(k)[0]);
                    k = k + 1;
                }
            },
        }
    }
}

/// Whether two texts are the same.
pub fn same_text(a: &str, b: &str) -> (r: bool)
    ensures
        r == (a@ == b@),
{
    order_texts(a, b) == TextOrder::Same
}

/// The texts of a list of strings.
pub open spec fn texts(list: Seq<String>) -> Seq<Seq<char>> {
    list.map_values(|s: String| s@)
}

/// The order of texts, each text standing before itself too.
pub open spec fn text_order() -> spec_fn(Seq<char>, Seq<char>) -> bool {
    |a: Seq<char>, b: Seq<char>| a == b || text_before(a, b)
}

/// Texts in their order.
pub open spec fn sorted_texts(list: Seq<Seq<char>>) -> Seq<Seq<char>> {
    list.sort_by(text_order())
}

/// Sorts texts.
pub fn sort_texts(list: Vec<String>) -> (r: Vec<String>)
    ensures
        texts(r@) == sorted_texts(texts(list@)),
{
    let mut sorted: Vec<String> = Vec::new();
    assert(texts(sorted@) =~= Seq::<Seq<char>>::empty());
    assert(texts(list@).take(0) =~= Seq::<Seq<char>>::empty());
    for k in 0..list.len()
        invariant
            vstd::relations::sorted_by(texts(sorted@), text_order()),
            texts(sorted@).to_multiset() == texts(list@).take(k as int).to_multiset(),
    {
        let mut at: usize = 0;
        while at < sorted.len() && order_texts(sorted[at].as_str(), list[k].as_str())
            != TextOrder::After
            invariant
                at <= sorted@.len(),
                k < list@.len(),
                forall|j: int|
                    0 <= j < at ==> #[trigger] text_order()(texts(sorted@)[j], list@[k as int]@),
            ensures
                at < sorted@.len() ==> text_before(list@[k as int]@, texts(sorted@)[at as int]),
            decreases sorted@.len() - at,
        {
            proof {
                lemma_before_total_or_same(sorted@[at as int]@, list@[k as int]@);
            }
            at = at + 1;
        }
        let ghost before = texts(sorted@);
        let item: String = list[k].clone();
        sorted.insert(at, item);
        proof {
            let x = list@[k as int]@;
            assert(texts(sorted@) =~= before.insert(at as int, x));
            lemma_text_order();
            lemma_sorted_insert(before, text_order(), at as int, x);
            lemma_multiset_insert(before, at as int, x);
            assert(texts(list@).take(k + 1) =~= texts(list@).take(k as int).push(x));
            broadcast use vstd::seq_lib::group_to_multiset_ensures;
        }
    }
    proof {
        assert(texts(list@).take(list@.len() as int) =~= texts(list@));
        lemma_text_order();
        texts(list@).lemma_sort_by_ensures(text_order());
        vstd::seq_lib::lemma_sorted_unique(
            texts(sorted@),
            sorted_texts(texts(list@)),
            text_order(),
        );
    }
    sorted
}

proof fn lemma_before_total_or_same(a: Seq<char>, b: Seq<char>)
    ensures
        a == b || text_before(a, b) || text_before(b, a),
{
    if a != b {
        lemma_before_total(a, b);
    }
}

/// The order of texts is a total one.
pub proof fn lemma_text_order()
    ensures
        vstd::relations::total_ordering(text_order()),
{
    let leq = text_order();
    assert forall|x: Seq<char>, y: Seq<char>| #[trigger] leq(x, y) && #[trigger] leq(y, x) implies x
        == y by {
        if x != y {
            lemma_before_asymmetric(x, y);
        }
    }
    assert forall|x: Seq<char>, y: Seq<char>, z: Seq<char>| #[trigger]
        leq(x, y) && #[trigger] leq(y, z) implies leq(x, z) by {
        if x != y && y != z {
            lemma_before_transitive(x, y, z);
        }
    }
    assert forall|x: Seq<char>, y: Seq<char>| #[trigger] leq(x, y) || #[trigger] leq(y, x) by {
        lemma_before_total_or_same(x, y);
    }
}

/// Putting an item between those that go before it and those that it goes before keeps a
/// list sorted.
pub proof fn lemma_sorted_insert<A>(
    list: Seq<A>,
    leq: spec_fn(A, A) -> bool,
    at: int,
    x: A,
)
    requires
        vstd::relations::sorted_by(list, leq),
        vstd::relations::total_ordering(leq),
        0 <= at <= list.len(),
        forall|j: int| 0 <= j < at ==> #[trigger] leq(list[j], x),
        at < list.len() ==> leq(x, list[at]),
    ensures
        vstd::relations::sorted_by(list.insert(at, x), leq),
{
    let after = list.insert(at, x);
    assert forall|i: int, j: int| 0 <= i < j < after.len() implies #[trigger] leq(
        after[i],
        after[j],
    ) by {
        if i < at && j < at {
            assert(leq(list[i], list[j]));
        } else if i < at && j == at {
            assert(leq(list[i], x));
        } else if i < at {
            assert(leq(list[i], list[j - 1]));
        } else if i == at {
            if j - 1 > at {
                assert(leq(list[at], list[j - 1]));
            }
            assert(leq(x, list[at]));
        } else {
            assert(leq(list[i - 1], list[j - 1]));
        }
    }
}

/// Putting an item into a list adds it to what the list holds.
pub proof fn lemma_multiset_insert<A>(list: Seq<A>, at: int, x: A)
    requires
        0 <= at <= list.len(),
    ensures
        list.insert(at, x).to_multiset() == list.to_multiset().insert(x),
{
    broadcast use vstd::seq_lib::group_to_multiset_ensures;

    let after = list.insert(at, x);
    assert(after.remove(at) =~= list);
    assert(after[at] == x);
    assert(after.contains(x));
    assert(after.to_multiset().remove(x) == list.to_multiset());
    assert(after.to_multiset() =~= list.to_multiset().insert(x));
}

/// No text comes before itself.
pub proof fn lemma_before_irreflexive(a: Seq<char>)
    ensures
        !text_before(a, a),
{
}

/// Where one text comes before another, the other does not come before it, and they differ.
pub proof fn lemma_before_asymmetric(a: Seq<char>, b: Seq<char>)
    requires
        text_before(a, b),
    ensures
        !text_before(b, a),
        a != b,
{
    let k = choose|k: int| splits_at(a, b, k);
    if text_before(b, a) {
        let m = choose|m: int| splits_at(b, a, m);
        if k < m {
            assert(b[k] == a[k]);
        } else if m < k {
            assert(a[m] == b[m]);
        }
    }
}

/// The order of texts is transitive.
pub proof fn lemma_before_transitive(a: Seq<char>, b: Seq<char>, c: Seq<char>)
    requires
        text_before(a, b),
        text_before(b, c),
    ensures
        text_before(a, c),
{
    let k = choose|k: int| splits_at(a, b, k);
    let m = choose|m: int| splits_at(b, c, m);
    if k < m {
        assert(b[k] == c[k]);
        assert(splits_at(a, c, k));
    } else {
        assert(splits_at(a, c, m));
    }
}

/// The first place at which two texts stop to agree.
proof fn lemma_first_difference(a: Seq<char>, b: Seq<char>, from: int) -> (k: int)
    requires
        0 <= from <= a.len(),
        from <= b.len(),
        forall|j: int| 0 <= j < from ==> a[j] == b[j],
    ensures
        from <= k <= a.len(),
        k <= b.len(),
        forall|j: int| 0 <= j < k ==> a[j] == b[j],
        k == a.len() || k == b.len() || a[k] != b[k],
    decreases a.len() - from,
{
    if from < a.len() && from < b.len() && a[from] == b[from] {
        lemma_first_difference(a, b, from + 1)
    } else {
        from
    }
}

/// Of two different texts one comes before the other.
pub proof fn lemma_before_total(a: Seq<char>, b: Seq<char>)
    requires
        a != b,
    ensures
        text_before(a, b) || text_before(b, a),
{
    let k = lemma_first_difference(a, b, 0);
    if k < a.len() && (k == b.len() || b[k] < a[k]) {
        assert(splits_at(b, a, k));
    } else if k < b.len() {
        assert(splits_at(a, b, k));
    } else {
        assert(a =~= b);
    }
}

/// The first `k + 1` items hold what the first `k` hold, and item `k`.
pub proof fn lemma_take_contains<A>(items: Seq<A>, k: int, x: A)
    requires
        0 <= k < items.len(),
    ensures
        items.take(k + 1).contains(x) <==> items.take(k).contains(x) || items[k] == x,
{
    let less = items.take(k);
    let more = items.take(k + 1);
    if less.contains(x) {
        let j = choose|j: int| 0 <= j < less.len() && less[j] == x;
        assert(more[j] == x);
    }
    if items[k] == x {
        assert(more[k] == x);
    }
    if more.contains(x) && items[k] != x {
        let j = choose|j: int| 0 <= j < more.len() && more[j] == x;
        assert(less[j] == x);
    }
}

} // verus!
