//! Which symbols are followed, and how they are spread over connections.
use vstd::prelude::*;

use crate::decimal::Decimal;
use crate::report::{text_items, Report, ReportModel};
use crate::text::{order_texts, same_text, sort_texts, sorted_texts, text_pairs, texts, TextOrder};

verus! {

/// The most symbols that one connection follows.
pub const MAX_SYMBOLS_PER_SHARD: usize = 100;

/// The most streams that one request subscribes to.
pub const SUBSCRIBE_BATCH_SIZE: usize = 50;

/// What the venue says of a symbol.
#[derive(Debug)]
pub struct SymbolInfo {
    pub symbol: String,
    pub contract_type: String,
    pub status: String,
}

/// Whether a symbol is a perpetual future that is being traded.
pub open spec fn is_tradable(info: SymbolInfo) -> bool {
    info.contract_type@ == "PERPETUAL"@ && info.status@ == "TRADING"@
}

/// The perpetual futures that are being traded, in the venue's order.
pub open spec fn tradable_symbols(infos: Seq<SymbolInfo>) -> Seq<Seq<char>>
    decreases infos.len(),
{
    if infos.len() == 0 {
        Seq::empty()
    } else if is_tradable(infos.last()) {
        tradable_symbols(infos.drop_last()).push(infos.last().symbol@)
    } else {
        tradable_symbols(infos.drop_last())
    }
}

/// What a symbol traded in a day, by the venue's list of (symbol, volume): the volume of
/// its first entry. It is 0 where the list has none, or none that is a number.
pub open spec fn volume_in(volumes: Seq<(Seq<char>, Seq<char>)>, symbol: Seq<char>) -> int
    decreases volumes.len(),
{
    if volumes.len() == 0 {
        0
    } else if volumes.first().0 == symbol {
        crate::decimal::decimal_or_zero(volumes.first().1).units()
    } else {
        volume_in(volumes.drop_first(), symbol)
    }
}

/// The order of (volume, symbol): the larger volume first, and of equal ones the symbol
/// that comes first.
pub open spec fn liquidity_order() -> spec_fn((int, Seq<char>), (int, Seq<char>)) -> bool {
    |a: (int, Seq<char>), b: (int, Seq<char>)|
        a.0 > b.0 || (a.0 == b.0 && crate::text::text_order()(a.1, b.1))
}

/// Symbols with their volumes.
pub open spec fn with_volumes(
    symbols: Seq<Seq<char>>,
    volumes: Seq<(Seq<char>, Seq<char>)>,
) -> Seq<(int, Seq<char>)> {
    symbols.map_values(|symbol: Seq<char>| (volume_in(volumes, symbol), symbol))
}

/// The first `n` items, or all where there are fewer.
pub open spec fn at_most<A>(items: Seq<A>, n: nat) -> Seq<A> {
    items.take(
        if n < items.len() {
            n as int
        } else {
            items.len() as int
        },
    )
}

/// The first `n` symbols by volume, in the order of symbols.
pub open spec fn leaders(list: Seq<(int, Seq<char>)>, n: nat) -> Seq<Seq<char>> {
    sorted_texts(
        at_most(list.sort_by(liquidity_order()), n).map_values(|item: (int, Seq<char>)| item.1),
    )
}

/// The `n` symbols with the largest volumes, in the order of symbols.
pub open spec fn most_liquid(
    symbols: Seq<Seq<char>>,
    volumes: Seq<(Seq<char>, Seq<char>)>,
    n: nat,
) -> Seq<Seq<char>> {
    leaders(with_volumes(symbols, volumes), n)
}

/// The symbols to be followed: those that were asked for, where any were; otherwise the
/// tradable ones in the order of symbols, and of these at most `max`, by their volumes.
pub open spec fn followed(
    infos: Seq<SymbolInfo>,
    volumes: Seq<(Seq<char>, Seq<char>)>,
    requested: Seq<Seq<char>>,
    max: Option<usize>,
) -> Seq<Seq<char>> {
    if requested.len() > 0 {
        requested
    } else {
        match max {
            None => sorted_texts(tradable_symbols(infos)),
            Some(n) => most_liquid(tradable_symbols(infos), volumes, n as nat),
        }
    }
}

/// A symbol with its volume.
#[derive(Debug)]
pub struct Listing {
    pub volume: Decimal,
    pub symbol: String,
}

impl View for Listing {
    type V = (int, Seq<char>);

    open spec fn view(&self) -> (int, Seq<char>) {
        (self.volume.units(), self.symbol@)
    }
}

/// Symbols with their volumes.
pub open spec fn listings(list: Seq<Listing>) -> Seq<(int, Seq<char>)> {
    list.map_values(|item: Listing| item@)
}

/// The order by volume is a total one.
pub proof fn lemma_liquidity_order()
    ensures
        vstd::relations::total_ordering(liquidity_order()),
{
    let leq = liquidity_order();
    crate::text::lemma_text_order();
    let by_name = crate::text::text_order();
    assert forall|x: (int, Seq<char>), y: (int, Seq<char>)| #[trigger]
        leq(x, y) && #[trigger] leq(y, x) implies x == y by {
        assert(by_name(x.1, y.1) && by_name(y.1, x.1));
    }
    assert forall|x: (int, Seq<char>), y: (int, Seq<char>), z: (int, Seq<char>)| #[trigger]
        leq(x, y) && #[trigger] leq(y, z) implies leq(x, z) by {
        if x.0 == y.0 && y.0 == z.0 {
            assert(by_name(x.1, y.1) && by_name(y.1, z.1));
        }
    }
    assert forall|x: (int, Seq<char>), y: (int, Seq<char>)| #[trigger]
        leq(x, y) || #[trigger] leq(y, x) by {
        assert(by_name(x.1, y.1) || by_name(y.1, x.1));
    }
}

/// Whether `a` may stand before `b`.
fn ranks_before(a: &Listing, b: &Listing) -> (r: bool)
    ensures
        r == liquidity_order()(a@, b@),
{
    if b.volume.below(&a.volume) {
        return true;
    }
    if a.volume.below(&b.volume) {
        return false;
    }
    let order = order_texts(a.symbol.as_str(), b.symbol.as_str());
    proof {
        crate::text::lemma_text_order();
        if crate::text::text_before(b@.1, a@.1) {
            crate::text::lemma_before_asymmetric(b@.1, a@.1);
        }
        if a@.1 != b@.1 {
            crate::text::lemma_before_total(a@.1, b@.1);
        }
    }
    order != TextOrder::After
}

/// Puts symbols into the order of their volumes.
fn rank(list: Vec<Listing>) -> (r: Vec<Listing>)
    ensures
        listings(r@) == listings(list@).sort_by(liquidity_order()),
{
    let ghost all = listings(list@);
    let mut rest = list;
    let mut ranked: Vec<Listing> = Vec::new();
    proof {
        assert(listings(ranked@) =~= Seq::<(int, Seq<char>)>::empty());
        broadcast use vstd::seq_lib::group_to_multiset_ensures;

        assert(listings(ranked@).to_multiset().add(listings(rest@).to_multiset())
            =~= all.to_multiset());
    }
    while rest.len() > 0
        invariant
            vstd::relations::sorted_by(listings(ranked@), liquidity_order()),
            listings(ranked@).to_multiset().add(listings(rest@).to_multiset())
                == all.to_multiset(),
        decreases rest@.len(),
    {
        let ghost waiting = listings(rest@);
        let item = rest.pop().unwrap();
        let ghost x = item@;
        let mut at: usize = 0;
        while at < ranked.len() && ranks_before(&ranked[at], &item)
            invariant
                at <= ranked@.len(),
                forall|j: int|
                    0 <= j < at ==> #[trigger] liquidity_order()(listings(ranked@)[j], item@),
            ensures
                at < ranked@.len() ==> !liquidity_order()(listings(ranked@)[at as int], item@),
            decreases ranked@.len() - at,
        {
            at = at + 1;
        }
        let ghost before = listings(ranked@);
        ranked.insert(at, item);
        proof {
            lemma_liquidity_order();
            if at < before.len() {
                assert(liquidity_order()(x, before[at as int]) || liquidity_order()(
                    before[at as int],
                    x,
                ));
            }
            assert(listings(ranked@) =~= before.insert(at as int, x));
            crate::text::lemma_sorted_insert(before, liquidity_order(), at as int, x);
            crate::text::lemma_multiset_insert(before, at as int, x);
            broadcast use vstd::seq_lib::group_to_multiset_ensures;

            assert(waiting =~= listings(rest@).push(x));
            assert(listings(ranked@).to_multiset().add(listings(rest@).to_multiset())
                =~= before.to_multiset().add(waiting.to_multiset()));
        }
    }
    proof {
        broadcast use vstd::seq_lib::group_to_multiset_ensures;

        assert(listings(rest@) =~= Seq::<(int, Seq<char>)>::empty());
        assert(listings(ranked@).to_multiset() =~= all.to_multiset());
        lemma_liquidity_order();
        all.lemma_sort_by_ensures(liquidity_order());
        vstd::seq_lib::lemma_sorted_unique(
            listings(ranked@),
            all.sort_by(liquidity_order()),
            liquidity_order(),
        );
    }
    ranked
}

/// The first `max` symbols by volume, in the order of symbols.
pub fn take_leaders(list: Vec<Listing>, max: usize) -> (r: Vec<String>)
    ensures
        texts(r@) == leaders(listings(list@), max as nat),
{
    let ghost order = listings(list@).sort_by(liquidity_order());
    let ranked = rank(list);
    let n: usize = if max < ranked.len() {
        max
    } else {
        ranked.len()
    };
    let ghost chosen = at_most(order, max as nat).map_values(|item: (int, Seq<char>)| item.1);
    assert(order.len() == ranked@.len());
    let mut r: Vec<String> = Vec::new();
    for i in 0..n
        invariant
            n <= ranked@.len(),
            n == chosen.len(),
            order == listings(ranked@),
            forall|j: int| 0 <= j < n ==> #[trigger] chosen[j] == order[j].1,
            texts(r@) == chosen.take(i as int),
    {
        let ghost before = texts(r@);
        r.push(ranked[i].symbol.clone());
        assert(order[i as int] == ranked@[i as int]@);
        assert(texts(r@) =~= before.push(chosen[i as int]));
        assert(texts(r@) =~= chosen.take(i + 1));
    }
    assert(texts(r@) =~= chosen);
    sort_texts(r)
}

/// What a symbol traded in a day.
fn volume_of(volumes: &[(String, String)], symbol: &str) -> (r: Decimal)
    ensures
        r.units() == volume_in(text_pairs(volumes@), symbol@),
{
    let ghost all = text_pairs(volumes@);
    assert(all.skip(0) =~= all);
    for i in 0..volumes.len()
        invariant
            all == text_pairs(volumes@),
            volume_in(all, symbol@) == volume_in(all.skip(i as int), symbol@),
    {
        assert(all.skip(i as int).first() == all[i as int]);
        assert(all.skip(i as int).drop_first() =~= all.skip(i + 1));
        if same_text(volumes[i].0.as_str(), symbol) {
            return Decimal::parse_or_zero(volumes[i].1.as_str());
        }
    }
    let zero = Decimal::default();
    proof {
        crate::decimal::lemma_units_zero(zero);
    }
    zero
}

/// The perpetual futures that are being traded, in the venue's order.
fn tradable(infos: &[SymbolInfo]) -> (r: Vec<String>)
    ensures
        texts(r@) == tradable_symbols(infos@),
{
    let mut r: Vec<String> = Vec::new();
    assert(texts(r@) =~= Seq::<Seq<char>>::empty());
    assert(infos@.take(0) =~= Seq::<SymbolInfo>::empty());
    for i in 0..infos.len()
        invariant
            texts(r@) == tradable_symbols(infos@.take(i as int)),
    {
        let ghost before = r@;
        assert(infos@.take(i + 1).drop_last() =~= infos@.take(i as int));
        assert(infos@.take(i + 1).last() == infos@[i as int]);
        if same_text(infos[i].contract_type.as_str(), "PERPETUAL") && same_text(
            infos[i].status.as_str(),
            "TRADING",
        ) {
            r.push(infos[i].symbol.clone());
            assert(texts(r@) =~= texts(before).push(infos@[i as int].symbol@));
        }
    }
    assert(infos@.take(infos@.len() as int) =~= infos@);
    r
}

/// The symbols to be followed. `volumes` lists what symbols traded in a day, as
/// (symbol, volume); `requested` are the symbols that were asked for, and `max` is the
/// most that are wanted where none were.
pub fn select_symbols(
    infos: &[SymbolInfo],
    volumes: &[(String, String)],
    requested: Vec<String>,
    max: Option<usize>,
) -> (r: Vec<String>)
    ensures
        texts(r@) == followed(infos@, text_pairs(volumes@), texts(requested@), max),
{
    if requested.len() > 0 {
        return requested;
    }
    let symbols = tradable(infos);
    let max: usize = match max {
        Some(max) => max,
        None => {
            return sort_texts(symbols);
        },
    };
    let ghost names = texts(symbols@);
    let ghost pairs = text_pairs(volumes@);
    let mut list: Vec<Listing> = Vec::new();
    for i in 0..symbols.len()
        invariant
            names == texts(symbols@),
            pairs == text_pairs(volumes@),
            listings(list@) == with_volumes(names, pairs).take(i as int),
    {
        let volume = volume_of(volumes, symbols[i].as_str());
        let symbol: String = symbols[i].clone();
        let ghost before = listings(list@);
        let item = Listing { volume, symbol };
        let ghost x = item@;
        list.push(item);
        assert(listings(list@) =~= before.push(x));
        assert(x == with_volumes(names, pairs)[i as int]);
        assert(before.push(x) =~= with_volumes(names, pairs).take(i + 1));
    }
    assert(listings(list@) =~= with_volumes(names, pairs));
    take_leaders(list, max)
}

/// Items in chunks of `size`; the last one may be smaller.
pub open spec fn chunked<A>(items: Seq<A>, size: nat) -> Seq<Seq<A>>
    decreases items.len(),
{
    if items.len() == 0 || size == 0 {
        Seq::empty()
    } else if items.len() <= size {
        seq![items]
    } else {
        seq![items.take(size as int)] + chunked(items.skip(size as int), size)
    }
}

/// Lists of strings by what the texts are.
pub open spec fn text_lists(lists: Seq<Vec<String>>) -> Seq<Seq<Seq<char>>> {
    lists.map_values(|list: Vec<String>| texts(list@))
}

/// Texts in chunks of `size`.
fn chunk_texts(list: &[String], size: usize) -> (r: Vec<Vec<String>>)
    requires
        size > 0,
    ensures
        text_lists(r@) == chunked(texts(list@), size as nat),
{
    let ghost all = texts(list@);
    let mut r: Vec<Vec<String>> = Vec::new();
    let mut start: usize = 0;
    assert(all.skip(0) =~= all);
    assert(text_lists(r@) + chunked(all, size as nat) =~= chunked(all, size as nat));
    while start < list.len()
        invariant
            size > 0,
            all == texts(list@),
            start <= list@.len(),
            chunked(all, size as nat) == text_lists(r@) + chunked(
                all.skip(start as int),
                size as nat,
            ),
        decreases list@.len() - start,
    {
        let end: usize = if list.len() - start > size {
            start + size
        } else {
            list.len()
        };
        let ghost rest = all.skip(start as int);
        let mut chunk: Vec<String> = Vec::new();
        for i in start..end
            invariant
                all == texts(list@),
                start <= end <= list@.len(),
                rest == all.skip(start as int),
                texts(chunk@) == rest.take(i - start),
        {
            let ghost before = texts(chunk@);
            chunk.push(list[i].clone());
            assert(texts(chunk@) =~= before.push(list@[i as int]@));
            assert(rest[i - start] == list@[i as int]@);
            assert(texts(chunk@) =~= rest.take(i + 1 - start));
        }
        let ghost before = text_lists(r@);
        let ghost whole = texts(chunk@);
        r.push(chunk);
        proof {
            assert(text_lists(r@) =~= before.push(whole));
            assert(rest.skip(end - start) =~= all.skip(end as int));
            if rest.len() <= size {
                assert(whole =~= rest);
                assert(all.skip(end as int) =~= Seq::<Seq<char>>::empty());
                assert(before + seq![rest] =~= before.push(rest) + Seq::<Seq<Seq<char>>>::empty());
            } else {
                assert(before + (seq![whole] + chunked(all.skip(end as int), size as nat))
                    =~= before.push(whole) + chunked(all.skip(end as int), size as nat));
            }
        }
        start = end;
    }
    assert(all.skip(start as int) =~= Seq::<Seq<char>>::empty());
    assert(text_lists(r@) + Seq::<Seq<Seq<char>>>::empty() =~= text_lists(r@));
    r
}

/// The symbols of each connection.
pub fn shard_symbols(symbols: &[String]) -> (r: Vec<Vec<String>>)
    ensures
        text_lists(r@) == chunked(texts(symbols@), MAX_SYMBOLS_PER_SHARD as nat),
{
    chunk_texts(symbols, MAX_SYMBOLS_PER_SHARD)
}

/// The streams of each request.
pub fn subscribe_batches(streams: &[String]) -> (r: Vec<Vec<String>>)
    ensures
        text_lists(r@) == chunked(texts(streams@), SUBSCRIBE_BATCH_SIZE as nat),
{
    chunk_texts(streams, SUBSCRIBE_BATCH_SIZE)
}

/// What `str::to_lowercase` makes of a text.
pub uninterp spec fn lowercased(text: Seq<char>) -> Seq<char>;

/// A character with the letters `A` to `Z` replaced by `a` to `z`.
pub open spec fn ascii_lower(c: char) -> char {
    if 'A' <= c <= 'Z' {
        ((c as int) + 32) as char
    } else {
        c
    }
}

/// Whether a text is ASCII.
pub open spec fn all_ascii(text: Seq<char>) -> bool {
    forall|i: int| 0 <= i < text.len() ==> (#[trigger] text[i] as int) < 128
}

/// `str::to_lowercase`. What it gives is named `lowercased`; in an ASCII text the letters
/// `A` to `Z` become `a` to `z`, and everything else stays.
#[verifier::external_body]
fn to_lower(text: &str) -> (r: String)
    ensures
        r@ == lowercased(text@),
        all_ascii(text@) ==> r@ == text@.map_values(|c: char| ascii_lower(c)),
{
    text.to_lowercase()
}

/// The name of a symbol's stream of depth diffs.
pub open spec fn depth_stream(symbol: Seq<char>) -> Seq<char> {
    lowercased(symbol) + "@depth@100ms"@
}

/// The name of a symbol's stream of best prices.
pub open spec fn ticker_stream(symbol: Seq<char>) -> Seq<char> {
    lowercased(symbol) + "@bookTicker"@
}

/// The streams of some symbols: for each the depth diffs, then the best prices.
pub open spec fn streams_of(symbols: Seq<Seq<char>>) -> Seq<Seq<char>>
    decreases symbols.len(),
{
    if symbols.len() == 0 {
        Seq::empty()
    } else {
        streams_of(symbols.drop_last()).push(depth_stream(symbols.last())).push(
            ticker_stream(symbols.last()),
        )
    }
}

/// The names of the streams of some symbols.
pub fn stream_names(symbols: &[String]) -> (r: Vec<String>)
    ensures
        texts(r@) == streams_of(texts(symbols@)),
        forall|i: int|
            0 <= i < symbols@.len() && all_ascii(#[trigger] symbols@[i]@) ==> lowercased(
                symbols@[i]@,
            ) == symbols@[i]@.map_values(|c: char| ascii_lower(c)),
{
    let ghost all = texts(symbols@);
    let mut r: Vec<String> = Vec::new();
    assert(texts(r@) =~= Seq::<Seq<char>>::empty());
    assert(all.take(0) =~= Seq::<Seq<char>>::empty());
    for i in 0..symbols.len()
        invariant
            all == texts(symbols@),
            texts(r@) == streams_of(all.take(i as int)),
            forall|j: int|
                0 <= j < i && all_ascii(#[trigger] symbols@[j]@) ==> lowercased(symbols@[j]@)
                    == symbols@[j]@.map_values(|c: char| ascii_lower(c)),
    {
        let ghost before = texts(r@);
        let lower = to_lower(symbols[i].as_str());
        let depth = lower.clone().concat("@depth@100ms");
        let ticker = lower.concat("@bookTicker");
        let ghost d = depth@;
        let ghost t = ticker@;
        r.push(depth);
        r.push(ticker);
        proof {
            assert(texts(r@) =~= before.push(d).push(t));
            assert(all.take(i + 1).drop_last() =~= all.take(i as int));
            assert(all.take(i + 1).last() == symbols@[i as int]@);
        }
    }
    assert(all.take(all.len() as int) =~= all);
    r
}

/// A request for streams, as it is written down.
pub open spec fn subscribe_report(streams: Seq<Seq<char>>) -> ReportModel {
    ReportModel::Record(
        seq![
            ("method"@, ReportModel::Text("SUBSCRIBE"@)),
            ("params"@, ReportModel::List(text_items(streams))),
            ("id"@, ReportModel::Count(1)),
        ],
    )
}

/// A request for streams.
pub fn subscribe_request(streams: &[String]) -> (r: Report)
    ensures
        r.model() == subscribe_report(texts(streams@)),
{
    let r = Report::record().with("method", Report::text("SUBSCRIBE")).with(
        "params",
        Report::texts(streams),
    ).with("id", Report::number(1));
    assert(r.model()->Record_0 =~= subscribe_report(texts(streams@))->Record_0);
    r
}

} // verus!
