//! What texts, numbers and messages are read as.
use vstd::prelude::*;

use crate::book::{all_readable, levels_read};
use crate::decimal::{
    decimal_in, decimal_of, decimal_or_zero, decimal_text, digits_of, padded_digits,
    parsed_decimal, pow10, units_of, Decimal,
};
use crate::json::{member, text_of, unsigned_of, Json, JsonModel};
use crate::messages::{listed_levels, message_in, StreamEventModel};
use crate::pacing::{digits_value, number_in};
use crate::text::{splits_at, text_before, text_pairs, texts};

verus! {

/// What a text is worth as a number; nothing where it is none.
pub open spec fn worth(text: Seq<char>) -> int {
    match parsed_decimal(text) {
        Some((negative, magnitude, scale)) => units_of(negative, magnitude, scale),
        None => 0,
    }
}

/// A text that holds a number is read as that number, with its sign, its digits and its
/// scale; any other, where a number is wanted, counts as nothing.
pub proof fn unreadable_numbers_are_worth_nothing(text: Seq<char>)
    ensures
        decimal_in(text) is Some <==> parsed_decimal(text) is Some,
        decimal_in(text) matches Some(d) ==> d.parts() == parsed_decimal(text)->0,
        decimal_or_zero(text).units() == worth(text),
{
    match parsed_decimal(text) {
        Some(parts) => {
            crate::decimal::lemma_decimal_of(decimal_of(parts), parts);
        },
        None => {
            crate::decimal::lemma_decimal_of(decimal_of((false, 0, 0)), (false, 0, 0));
            crate::decimal::lemma_units_zero(decimal_of((false, 0, 0)));
        },
    }
}

/// Powers of ten multiply as their exponents add up.
proof fn lemma_pow10_sum(a: nat, b: nat)
    ensures
        pow10(a + b) == pow10(a) * pow10(b),
    decreases a,
{
    if a > 0 {
        let less = (a - 1) as nat;
        lemma_pow10_sum(less, b);
        assert(10 * (pow10(less) * pow10(b)) == (10 * pow10(less)) * pow10(b)) by (nonlinear_arith);
        assert((less + b) as nat == (a + b - 1) as nat);
    } else {
        assert(1 * pow10(b) == pow10(b));
    }
}

/// What a number is worth: its digits, divided by ten once for each digit behind the point.
/// So a zero that is added behind the last digit changes nothing, and the sign turns it
/// round.
pub proof fn numbers_are_worth_their_digits(magnitude: u128, scale: u32)
    requires
        scale <= 28,
    ensures
        units_of(false, magnitude, scale) * pow10(scale as nat) == magnitude * pow10(28),
        units_of(true, magnitude, scale) == -units_of(false, magnitude, scale),
        scale < 28 && 10 * magnitude <= u128::MAX ==> units_of(
            false,
            (10 * magnitude) as u128,
            (scale + 1) as u32,
        ) == units_of(false, magnitude, scale),
        pow10(0) == 1,
        forall|n: nat| #[trigger] pow10(n + 1) == 10 * pow10(n),
{
    let rest = (28 - scale) as nat;
    lemma_pow10_sum(rest, scale as nat);
    let (p, q) = (pow10(rest), pow10(scale as nat));
    assert((magnitude * p) * q == magnitude * (p * q)) by (nonlinear_arith);
    if scale < 28 {
        let less = pow10((rest - 1) as nat);
        assert(p == 10 * less);
        assert((10 * magnitude) * less == magnitude * (10 * less)) by (nonlinear_arith);
    }
}

/// Numbers are equal, to the books, exactly where they are worth the same, however they are
/// written.
pub proof fn equal_numbers_are_worth_the_same(a: Decimal, b: Decimal)
    ensures
        vstd::std_specs::cmp::PartialEqSpec::eq_spec(&a, &b) <==> a.units() == b.units(),
        a.units() == units_of(a.parts().0, a.parts().1, a.parts().2),
        a.zero() <==> a.units() == 0,
{
    crate::decimal::lemma_units_zero(a);
}

/// The value of one more digit.
proof fn lemma_value_push(digits: Seq<char>, c: char)
    ensures
        digits_value(digits.push(c)) == 10 * digits_value(digits) + (c as int - '0' as int),
{
    assert(digits.push(c).drop_last() =~= digits);
}

/// A number in digits: they stand for that number, and the first of several is not 0.
pub proof fn digits_stand_for_their_number(n: nat)
    ensures
        digits_value(digits_of(n)) == n,
        digits_of(n).len() > 0,
        digits_of(n).len() > 1 ==> digits_of(n)[0] != '0',
        n > 0 ==> digits_of(n)[0] != '0',
        forall|i: int| 0 <= i < digits_of(n).len() ==> '0' <= #[trigger] digits_of(n)[i] <= '9',
        n <= u64::MAX ==> number_in(digits_of(n)) == Some(n as u64),
        n <= u64::MAX ==> number_in(seq!['+'] + digits_of(n)) == Some(n as u64),
        n > u64::MAX ==> number_in(digits_of(n)) is None,
    decreases n,
{
    let c = crate::decimal::digit_char(n);
    if n < 10 {
        assert(digits_of(n) =~= Seq::empty().push(c));
        lemma_value_push(Seq::empty(), c);
    } else {
        digits_stand_for_their_number(n / 10);
        lemma_value_push(digits_of(n / 10), c);
        assert(n / 10 > 0);
        assert(digits_of(n)[0] == digits_of(n / 10)[0]);
    }
    assert((seq!['+'] + digits_of(n)).skip(1) =~= digits_of(n));
    assert(digits_of(n)[0] != '+');
}

/// A text is a number exactly where it is decimal digits, at least one, with or without a
/// plus sign in front, and the number has at most 64 bits. It is the number for which the
/// digits stand.
pub proof fn only_digits_make_a_number(digits: Seq<char>, c: char)
    requires
        digits.len() > 0 ==> digits[0] != '+',
    ensures
        number_in(digits) == number_in(seq!['+'] + digits),
        number_in(seq!['+'] + (seq!['+'] + digits)) is None,
        number_in(digits) is Some <==> digits.len() > 0 && (forall|i: int|
            0 <= i < digits.len() ==> '0' <= #[trigger] digits[i] <= '9') && digits_value(digits)
            <= u64::MAX,
        number_in(digits) matches Some(n) ==> n == digits_value(digits),
        digits_value(Seq::empty()) == 0,
        digits_value(digits.push(c)) == 10 * digits_value(digits) + (c as int - '0' as int),
{
    assert((seq!['+'] + digits).skip(1) =~= digits);
    let twice = seq!['+'] + (seq!['+'] + digits);
    assert(twice.skip(1) =~= seq!['+'] + digits);
    assert(twice.skip(1)[0] == '+');
    lemma_value_push(digits, c);
    if crate::pacing::all_digits(digits) {
        lemma_value_not_negative(digits);
    }
}

proof fn lemma_value_not_negative(digits: Seq<char>)
    requires
        crate::pacing::all_digits(digits),
    ensures
        digits_value(digits) >= 0,
    decreases digits.len(),
{
    if digits.len() > 0 {
        let less = digits.drop_last();
        assert forall|i: int| 0 <= i < less.len() implies '0' <= #[trigger] less[i] <= '9' by {
            assert(less[i] == digits[i]);
        }
        lemma_value_not_negative(less);
        assert('0' <= digits[digits.len() - 1] <= '9');
    }
}

/// The padded digits of a number stand for it, where they are enough.
proof fn lemma_padded(n: nat, width: nat)
    requires
        n < pow10(width),
    ensures
        padded_digits(n, width).len() == width,
        digits_value(padded_digits(n, width)) == n,
        forall|i: int|
            0 <= i < width ==> '0' <= #[trigger] padded_digits(n, width)[i] <= '9',
    decreases width,
{
    if width > 0 {
        lemma_padded(n / 10, (width - 1) as nat);
        lemma_value_push(padded_digits(n / 10, (width - 1) as nat), crate::decimal::digit_char(n));
    }
}

/// A number in plain notation: a minus sign where it is negative, a whole part without
/// leading zeros, and behind a point as many digits as its scale says. Whole part and
/// fraction together stand for its digits.
pub proof fn plain_notation_keeps_every_digit(negative: bool, magnitude: u128, scale: u32) -> (r: (
    Seq<char>,
    Seq<char>,
))
    ensures
        ({
            let (whole, fraction) = r;
            let sign = if negative {
                seq!['-']
            } else {
                Seq::empty()
            };
            &&& scale == 0 ==> decimal_text(negative, magnitude, scale) == sign + whole
            &&& scale > 0 ==> decimal_text(negative, magnitude, scale) == sign + whole + (
            seq!['.'] + fraction)
            &&& fraction.len() == scale
            &&& whole.len() > 0 && (whole.len() > 1 ==> whole[0] != '0')
            &&& forall|i: int| 0 <= i < whole.len() ==> '0' <= #[trigger] whole[i] <= '9'
            &&& forall|i: int| 0 <= i < fraction.len() ==> '0' <= #[trigger] fraction[i] <= '9'
            &&& digits_value(whole) * pow10(scale as nat) + digits_value(fraction) == magnitude
        }),
{
    let p = pow10(scale as nat);
    crate::decimal::lemma_pow10_positive(scale as nat);
    let (q, rest) = (magnitude as nat / p, magnitude as nat % p);
    assert(q * p + rest == magnitude && rest < p) by (nonlinear_arith)
        requires
            p > 0,
            q == magnitude as nat / p,
            rest == magnitude as nat % p,
    ;
    digits_stand_for_their_number(q);
    lemma_padded(rest, scale as nat);
    let whole = digits_of(q);
    let fraction = padded_digits(rest, scale as nat);
    if scale == 0 {
        let sign = if negative {
            seq!['-']
        } else {
            Seq::empty()
        };
        assert(decimal_text(negative, magnitude, scale) =~= sign + whole);
    }
    (whole, fraction)
}

/// Pairs of texts are readable where each text holds a number, and each is read in its
/// place: price as price and quantity as quantity.
pub proof fn levels_are_read_in_place(raw: Seq<(Seq<char>, Seq<char>)>)
    ensures
        all_readable(raw) <==> forall|i: int|
            0 <= i < raw.len() ==> parsed_decimal((#[trigger] raw[i]).0) is Some && parsed_decimal(
                raw[i].1,
            ) is Some,
        levels_read(raw).len() == raw.len(),
        all_readable(raw) ==> forall|i: int|
            0 <= i < raw.len() ==> (#[trigger] levels_read(raw)[i]).0.parts() == parsed_decimal(
                raw[i].0,
            )->0 && levels_read(raw)[i].1.parts() == parsed_decimal(raw[i].1)->0,
{
    assert forall|i: int| 0 <= i < raw.len() && all_readable(raw) implies (
    #[trigger] levels_read(raw)[i]).0.parts() == parsed_decimal(raw[i].0)->0 && levels_read(
        raw,
    )[i].1.parts() == parsed_decimal(raw[i].1)->0 by {
        assert(crate::book::readable(raw[i]));
        unreadable_numbers_are_worth_nothing(raw[i].0);
        unreadable_numbers_are_worth_nothing(raw[i].1);
    }
}

/// The number in a member of a message; 0 where it has no such member, or one that is no
/// whole number.
pub open spec fn id_in(value: JsonModel, name: Seq<char>) -> u64 {
    match member(value, name) {
        Some(JsonModel::Number(number)) => match number.unsigned {
            Some(n) => n,
            None => 0,
        },
        _ => 0,
    }
}

/// The text in a member of a message; `0` where it has no such member, or one that is no
/// text.
pub open spec fn price_in(value: JsonModel, name: Seq<char>) -> Seq<char> {
    match member(value, name) {
        Some(JsonModel::Text(text)) => text,
        _ => "0"@,
    }
}

/// A value is a message exactly where it names a symbol (`s`) and is no answer to a request:
/// it has no `result`, and no `id` without an event (`e`). Its time (`E`) is known where it
/// is a number.
pub proof fn messages_name_their_symbol(value: JsonModel)
    ensures
        message_in(value) is Some <==> member(value, "result"@) is None && !(member(
            value,
            "id"@,
        ) is Some && member(value, "e"@) is None) && (member(value, "s"@) matches Some(
            JsonModel::Text(_),
        )),
        message_in(value) matches Some(m) ==> {
            &&& member(value, "s"@) == Some(JsonModel::Text(m.symbol))
            &&& m.event_time == match member(value, "E"@) {
                Some(JsonModel::Number(number)) => Some(number),
                _ => None,
            }
        },
{
}

/// A diff is read member by member: its ids are `U`, `u` and `pu`, its bids are `b` and its
/// asks are `a`. It is broken where either list is.
pub proof fn diffs_are_read_by_their_members(value: JsonModel)
    requires
        message_in(value) is Some,
        member(value, "e"@) == Some(JsonModel::Text("depthUpdate"@)),
    ensures
        ({
            let bids = listed_levels(member(value, "b"@));
            let asks = listed_levels(member(value, "a"@));
            message_in(value)->0.event == if bids is Some && asks is Some {
                StreamEventModel::Depth {
                    first_id: id_in(value, "U"@),
                    last_id: id_in(value, "u"@),
                    prev_id: id_in(value, "pu"@),
                    bids: bids->0,
                    asks: asks->0,
                }
            } else {
                StreamEventModel::BrokenDepth
            }
        }),
{
}

/// A ticker is read member by member: the best bid is `b` with the quantity `B`, and the
/// best ask is `a` with the quantity `A`.
pub proof fn tickers_are_read_by_their_members(value: JsonModel)
    requires
        message_in(value) is Some,
        member(value, "e"@) == Some(JsonModel::Text("bookTicker"@)),
    ensures
        message_in(value)->0.event == (StreamEventModel::Ticker {
            bid_price: price_in(value, "b"@),
            bid_qty: price_in(value, "B"@),
            ask_price: price_in(value, "a"@),
            ask_qty: price_in(value, "A"@),
        }),
{
    reveal_strlit("depthUpdate");
    reveal_strlit("bookTicker");
    assert("depthUpdate"@[0] != "bookTicker"@[0]);
}

/// A message with an event that is neither a diff nor a ticker, or with none, is nothing to
/// the books.
pub proof fn other_events_are_set_aside(value: JsonModel)
    requires
        message_in(value) is Some,
        member(value, "e"@) != Some(JsonModel::Text("depthUpdate"@)),
        member(value, "e"@) != Some(JsonModel::Text("bookTicker"@)),
    ensures
        message_in(value)->0.event is Other,
{
}

/// What a value in the program's own hands is: the same value, item for item and field for
/// field.
pub proof fn values_are_what_they_hold(value: Json)
    ensures
        match value {
            Json::Null => value.model() is Null,
            Json::Bool(b) => value.model() == JsonModel::Bool(b),
            Json::Number(n) => value.model() == JsonModel::Number(n),
            Json::Text(s) => value.model() == JsonModel::Text(s@),
            Json::Array(items) => {
                &&& value.model() is Array
                &&& value.model()->Array_0.len() == items@.len()
                &&& forall|i: int|
                    0 <= i < items@.len() ==> #[trigger] value.model()->Array_0[i]
                        == items@[i].model()
            },
            Json::Object(fields) => {
                &&& value.model() is Object
                &&& value.model()->Object_0.len() == fields@.len()
                &&& forall|i: int|
                    0 <= i < fields@.len() ==> #[trigger] value.model()->Object_0[i] == (
                        fields@[i].0@,
                        fields@[i].1.model(),
                    )
            },
        },
        text_of(Some(value.model())) matches Some(text) ==> value.model() == JsonModel::Text(text),
        text_of(Some(value.model())) is None ==> value.model() !is Text,
        unsigned_of(Some(value.model())) == match value {
            Json::Number(n) => n.unsigned,
            _ => None,
        },
        text_of(None) is None,
        unsigned_of(None) is None,
{
}

/// Lists of strings and pairs of strings are read in their order, each in its place.
pub proof fn strings_are_read_in_place(list: Seq<String>, pairs: Seq<(String, String)>)
    ensures
        texts(list).len() == list.len(),
        forall|i: int| 0 <= i < list.len() ==> #[trigger] texts(list)[i] == list[i]@,
        text_pairs(pairs).len() == pairs.len(),
        forall|i: int|
            0 <= i < pairs.len() ==> #[trigger] text_pairs(pairs)[i] == (pairs[i].0@, pairs[i].1@),
{
}

/// The order of texts: the first character at which they differ decides, and a text stands
/// before those that go on where it ends. Every two texts are in one order or the same.
pub proof fn the_first_difference_orders_texts(
    a: Seq<char>,
    b: Seq<char>,
    start: Seq<char>,
    c: char,
    d: char,
)
    ensures
        text_before(start, start + seq![c] + a),
        !text_before(start + seq![c] + a, start),
        c != d ==> (text_before(start + seq![c] + a, start + seq![d] + b) <==> c < d),
        !text_before(a, a),
        a != b ==> (text_before(a, b) <==> !text_before(b, a)),
{
    let x = start + seq![c] + a;
    let y = start + seq![d] + b;
    let n = start.len() as int;
    assert(splits_at(start, x, n));
    crate::text::lemma_before_asymmetric(start, x);
    assert(x[n] == c && y[n] == d);
    if c < d {
        assert(splits_at(x, y, n));
    }
    if d < c {
        assert(splits_at(y, x, n));
        crate::text::lemma_before_asymmetric(y, x);
    }
    crate::text::lemma_before_irreflexive(a);
    if a != b {
        crate::text::lemma_before_total(a, b);
        if text_before(a, b) {
            crate::text::lemma_before_asymmetric(a, b);
        }
        if text_before(b, a) {
            crate::text::lemma_before_asymmetric(b, a);
        }
    }
}

} // verus!
