//! What the program tells the outside world, before it is written down as JSON.
use vstd::prelude::*;

use crate::decimal::{decimal_in, Decimal};

verus! {

/// A value to be written down. A record lists its fields in order.
#[derive(Debug)]
pub enum Report {
    Null,
    Flag(bool),
    Count(u128),
    Text(String),
    /// A time in microseconds, to be written in seconds.
    Seconds(u64),
    /// A duration in microseconds, to be written in milliseconds.
    Millis(i128),
    List(Vec<Report>),
    Record(Vec<(String, Report)>),
}

/// A value to be written down, as mathematics.
pub enum ReportModel {
    Null,
    Flag(bool),
    Count(int),
    Text(Seq<char>),
    Seconds(int),
    Millis(int),
    List(Seq<ReportModel>),
    Record(Seq<(Seq<char>, ReportModel)>),
}

/// Values by what they are.
pub open spec fn models(items: Seq<Report>) -> Seq<ReportModel> {
    items.map_values(|item: Report| item.model())
}

/// Texts as values.
pub open spec fn text_items(texts: Seq<Seq<char>>) -> Seq<ReportModel> {
    texts.map_values(|text: Seq<char>| ReportModel::Text(text))
}

/// A (price, quantity) pair of texts as a value.
pub open spec fn pair_item(pair: (Seq<char>, Seq<char>)) -> ReportModel {
    ReportModel::List(seq![ReportModel::Text(pair.0), ReportModel::Text(pair.1)])
}

/// Pairs of texts as values.
pub open spec fn pair_items(pairs: Seq<(Seq<char>, Seq<char>)>) -> Seq<ReportModel> {
    pairs.map_values(|pair: (Seq<char>, Seq<char>)| pair_item(pair))
}

/// Levels in plain notation.
pub open spec fn level_texts(levels: Seq<(Decimal, Decimal)>) -> Seq<(Seq<char>, Seq<char>)> {
    levels.map_values(|level: (Decimal, Decimal)| (level.0.text(), level.1.text()))
}

impl Report {
    /// What the value is.
    pub open spec fn model(self) -> ReportModel
        decreases self,
    {
        match self {
            Report::Null => ReportModel::Null,
            Report::Flag(b) => ReportModel::Flag(b),
            Report::Count(n) => ReportModel::Count(n as int),
            Report::Text(s) => ReportModel::Text(s@),
            Report::Seconds(t) => ReportModel::Seconds(t as int),
            Report::Millis(t) => ReportModel::Millis(t as int),
            Report::List(items) => ReportModel::List(
                Seq::new(
                    items@.len(),
                    |i: int|
                        if 0 <= i < items@.len() {
                            items@[i].model()
                        } else {
                            ReportModel::Null
                        },
                ),
            ),
            Report::Record(fields) => ReportModel::Record(
                Seq::new(
                    fields@.len(),
                    |i: int|
                        if 0 <= i < fields@.len() {
                            (fields@[i].0@, fields@[i].1.model())
                        } else {
                            (seq![], ReportModel::Null)
                        },
                ),
            ),
        }
    }

    /// A text.
    pub fn text(text: &str) -> (r: Report)
        ensures
            r.model() == ReportModel::Text(text@),
    {
        Report::Text(text.to_owned())
    }

    /// A number of things.
    pub fn count(n: usize) -> (r: Report)
        ensures
            r.model() == ReportModel::Count(n as int),
    {
        Report::Count(n as u128)
    }

    /// A number.
    pub fn number(n: u64) -> (r: Report)
        ensures
            r.model() == ReportModel::Count(n as int),
    {
        Report::Count(n as u128)
    }

    /// A list.
    pub fn list(items: Vec<Report>) -> (r: Report)
        ensures
            r.model() == ReportModel::List(models(items@)),
    {
        let r = Report::List(items);
        assert(r.model()->List_0 =~= models(items@));
        r
    }

    /// A list of texts.
    pub fn texts(list: &[String]) -> (r: Report)
        ensures
            r.model() == ReportModel::List(text_items(crate::text::texts(list@))),
    {
        let ghost all = text_items(crate::text::texts(list@));
        let mut items: Vec<Report> = Vec::new();
        for i in 0..list.len()
            invariant
                all == text_items(crate::text::texts(list@)),
                models(items@) == all.take(i as int),
        {
            let ghost before = models(items@);
            let item = Report::text(list[i].as_str());
            let ghost m = item.model();
            items.push(item);
            assert(models(items@) =~= before.push(m));
            assert(m == all[i as int]);
            assert(models(items@) =~= all.take(i + 1));
        }
        assert(models(items@) =~= all);
        Report::list(items)
    }

    /// A list of pairs of texts.
    pub fn pairs(list: &[(String, String)]) -> (r: Report)
        ensures
            r.model() == ReportModel::List(pair_items(crate::text::text_pairs(list@))),
    {
        let ghost all = pair_items(crate::text::text_pairs(list@));
        let mut items: Vec<Report> = Vec::new();
        for i in 0..list.len()
            invariant
                all == pair_items(crate::text::text_pairs(list@)),
                models(items@) == all.take(i as int),
        {
            let ghost before = models(items@);
            let mut pair: Vec<Report> = Vec::new();
            pair.push(Report::text(list[i].0.as_str()));
            pair.push(Report::text(list[i].1.as_str()));
            assert(models(pair@) =~= pair_item(
                crate::text::text_pairs(list@)[i as int],
            )->List_0);
            let item = Report::list(pair);
            let ghost m = item.model();
            items.push(item);
            assert(models(items@) =~= before.push(m));
            assert(m == all[i as int]);
            assert(models(items@) =~= all.take(i + 1));
        }
        assert(models(items@) =~= all);
        Report::list(items)
    }

    /// A record without fields.
    pub fn record() -> (r: Report)
        ensures
            r.model() == ReportModel::Record(seq![]),
    {
        let r = Report::Record(Vec::new());
        assert(r.model()->Record_0 =~= seq![]);
        r
    }

    /// The record with one more field. Anything but a record stays what it is.
    pub fn with(self, name: &str, value: Report) -> (r: Report)
        ensures
            match self.model() {
                ReportModel::Record(fields) => r.model() == ReportModel::Record(
                    fields.push((name@, value.model())),
                ),
                _ => r == self,
            },
    {
        match self {
            Report::Record(fields) => {
                let ghost before = self.model()->Record_0;
                let ghost m = value.model();
                let mut fields = fields;
                fields.push((name.to_owned(), value));
                let r = Report::Record(fields);
                assert(r.model()->Record_0 =~= before.push((name@, m)));
                r
            },
            other => other,
        }
    }
}

/// The character of a digit, as a text.
fn digit_text(d: u128) -> (r: &'static str)
    requires
        d < 10,
    ensures
        r@ == seq![crate::decimal::digit_char(d as nat)],
{
    proof {
        reveal_strlit("0");
        reveal_strlit("1");
        reveal_strlit("2");
        reveal_strlit("3");
        reveal_strlit("4");
        reveal_strlit("5");
        reveal_strlit("6");
        reveal_strlit("7");
        reveal_strlit("8");
        reveal_strlit("9");
    }
    let r = match d {
        0 => "0",
        1 => "1",
        2 => "2",
        3 => "3",
        4 => "4",
        5 => "5",
        6 => "6",
        7 => "7",
        8 => "8",
        _ => "9",
    };
    assert(r@ =~= seq![crate::decimal::digit_char(d as nat)]);
    r
}

/// A number in decimal digits.
pub fn count_text(n: u128) -> (r: String)
    ensures
        r@ == crate::decimal::digits_of(n as nat),
    decreases n,
{
    if n < 10 {
        digit_text(n).to_owned()
    } else {
        let r = count_text(n / 10).concat(digit_text(n % 10));
        assert(r@ =~= crate::decimal::digits_of(n as nat));
        r
    }
}

/// Whether the levels in plain notation are read back as numbers of the same worth.
pub open spec fn reads_back(levels: Seq<(Decimal, Decimal)>) -> bool {
    forall|i: int| 0 <= i < levels.len() ==> level_reads_back(#[trigger] levels[i])
}

/// Whether a level in plain notation is read back as numbers of the same worth.
pub open spec fn level_reads_back(level: (Decimal, Decimal)) -> bool {
    &&& decimal_in(level.0.text()) matches Some(price) && price.units() == level.0.units()
    &&& decimal_in(level.1.text()) matches Some(qty) && qty.units() == level.1.units()
}

/// Levels in plain notation. They can be read back.
pub fn print_levels(levels: &[(Decimal, Decimal)]) -> (r: Vec<(String, String)>)
    ensures
        crate::text::text_pairs(r@) == level_texts(levels@),
        reads_back(levels@),
{
    let mut r: Vec<(String, String)> = Vec::new();
    for i in 0..levels.len()
        invariant
            crate::text::text_pairs(r@) == level_texts(levels@).take(i as int),
            forall|j: int| 0 <= j < i ==> level_reads_back(#[trigger] levels@[j]),
    {
        let ghost before = crate::text::text_pairs(r@);
        let price = levels[i].0.to_text();
        let qty = levels[i].1.to_text();
        let ghost m = (price@, qty@);
        proof {
            crate::decimal::lemma_same_worth(levels@[i as int].0);
            crate::decimal::lemma_same_worth(levels@[i as int].1);
        }
        r.push((price, qty));
        assert(crate::text::text_pairs(r@) =~= before.push(m));
        assert(m == level_texts(levels@)[i as int]);
        assert(crate::text::text_pairs(r@) =~= level_texts(levels@).take(i + 1));
    }
    assert(crate::text::text_pairs(r@) =~= level_texts(levels@));
    r
}

} // verus!
