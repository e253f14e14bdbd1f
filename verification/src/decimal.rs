//! Exact decimal numbers: a sign, a 96-bit magnitude and a power of ten.
//!
//! Reading, comparing and printing is `rust_decimal`'s work; what a number is worth is
//! stated here, so that the order books can be verified against it.
use vstd::prelude::*;

verus! {

/// The largest power of ten that a decimal number is divided by.
pub const MAX_SCALE: u32 = 28;

/// The largest magnitude of a decimal number: 96 one bits.
pub const MAX_MAGNITUDE: u128 = 0xFFFF_FFFF_FFFF_FFFF_FFFF_FFFF;

/// Ten to the power of `n`.
pub open spec fn pow10(n: nat) -> nat
    decreases n,
{
    if n == 0 {
        1
    } else {
        10 * pow10((n - 1) as nat)
    }
}

/// What a sign, a magnitude and a scale are worth, counted in units of 10^-28. Two
/// numbers are equal, or ordered, as these counts are.
pub open spec fn units_of(negative: bool, magnitude: u128, scale: u32) -> int {
    let count = magnitude * pow10((MAX_SCALE - scale) as nat);
    if negative {
        -count
    } else {
        count
    }
}

/// Whether a magnitude and a scale are those of a decimal number.
pub open spec fn in_range(magnitude: u128, scale: u32) -> bool {
    magnitude <= MAX_MAGNITUDE && scale <= MAX_SCALE
}

/// The character of a decimal digit.
pub open spec fn digit_char(n: nat) -> char {
    (('0' as int) + (n % 10)) as char
}

/// A natural number in decimal digits, without leading zeros.
pub open spec fn digits_of(n: nat) -> Seq<char>
    decreases n,
{
    if n < 10 {
        seq![digit_char(n)]
    } else {
        digits_of(n / 10).push(digit_char(n))
    }
}

/// The last `width` decimal digits of a natural number, leading zeros included.
pub open spec fn padded_digits(n: nat, width: nat) -> Seq<char>
    decreases width,
{
    if width == 0 {
        seq![]
    } else {
        padded_digits(n / 10, (width - 1) as nat).push(digit_char(n))
    }
}

/// A decimal number in plain notation: a minus sign where it is negative, the whole
/// part, and `scale` digits behind a point where the scale is not zero.
pub open spec fn decimal_text(negative: bool, magnitude: u128, scale: u32) -> Seq<char> {
    let sign = if negative {
        seq!['-']
    } else {
        seq![]
    };
    let whole = digits_of(magnitude as nat / pow10(scale as nat));
    let fraction = if scale == 0 {
        seq![]
    } else {
        seq!['.'] + padded_digits(magnitude as nat % pow10(scale as nat), scale as nat)
    };
    sign + whole + fraction
}

/// What `rust_decimal` reads from a text: sign, magnitude and scale, or nothing where
/// the text is no decimal number.
pub uninterp spec fn parsed_decimal(text: Seq<char>) -> Option<(bool, u128, u32)>;

/// `rust_decimal::Decimal::from_str`. What it reads is named `parsed_decimal`; a number
/// that it does read has at most 96 bits and a scale of at most 28.
#[verifier::external_body]
fn read_decimal(text: &str) -> (r: Option<(bool, u128, u32)>)
    ensures
        r == parsed_decimal(text@),
        r matches Some(parts) ==> in_range(parts.1, parts.2),
{
    match text.parse::<rust_decimal::Decimal>() {
        Ok(d) => Some((d.is_sign_negative(), d.mantissa().unsigned_abs(), d.scale())),
        Err(_) => None,
    }
}

/// `<` of `rust_decimal::Decimal`: it orders numbers by what they are worth, whatever
/// their scales.
#[verifier::external_body]
fn decimal_below(left: (bool, u128, u32), right: (bool, u128, u32)) -> (r: bool)
    requires
        in_range(left.1, left.2),
        in_range(right.1, right.2),
    ensures
        r == (units_of(left.0, left.1, left.2) < units_of(right.0, right.1, right.2)),
{
    let mut l = rust_decimal::Decimal::from_i128_with_scale(left.1 as i128, left.2);
    l.set_sign_negative(left.0);
    let mut r = rust_decimal::Decimal::from_i128_with_scale(right.1 as i128, right.2);
    r.set_sign_negative(right.0);
    l < r
}

/// `to_string` of `rust_decimal::Decimal`: plain notation that keeps the scale. Reading
/// the text back gives the same number, save that a negative zero comes back as zero.
#[verifier::external_body]
fn print_decimal(negative: bool, magnitude: u128, scale: u32) -> (r: String)
    requires
        in_range(magnitude, scale),
    ensures
        r@ == decimal_text(negative, magnitude, scale),
        parsed_decimal(r@) == Some((negative && magnitude != 0, magnitude, scale)),
{
    let mut d = rust_decimal::Decimal::from_i128_with_scale(magnitude as i128, scale);
    d.set_sign_negative(negative);
    d.to_string()
}

/// An exact decimal number. Its sign, magnitude and scale are kept as they were read,
/// so that `1.50` is printed as `1.50`; it compares by what it is worth.
#[derive(Debug, Clone, Copy)]
pub struct Decimal {
    negative: bool,
    magnitude: u128,
    scale: u32,
}

impl Decimal {
    #[verifier::type_invariant]
    spec fn fits(self) -> bool {
        in_range(self.magnitude, self.scale)
    }

    /// Sign, magnitude and scale.
    pub closed spec fn parts(self) -> (bool, u128, u32) {
        (self.negative, self.magnitude, self.scale)
    }

    /// What the number is worth, in units of 10^-28.
    pub open spec fn units(self) -> int {
        units_of(self.parts().0, self.parts().1, self.parts().2)
    }

    /// Whether the number is zero, of either sign and any scale.
    pub open spec fn zero(self) -> bool {
        self.parts().1 == 0
    }

    /// The number in plain notation.
    pub open spec fn text(self) -> Seq<char> {
        decimal_text(self.parts().0, self.parts().1, self.parts().2)
    }

    /// `mantissa` divided by ten to the power of `scale`.
    pub fn new(mantissa: i64, scale: u32) -> (r: Decimal)
        requires
            scale <= MAX_SCALE,
        ensures
            r.parts() == (mantissa < 0, if mantissa < 0 {
                -mantissa as u128
            } else {
                mantissa as u128
            }, scale),
            r == decimal_of(r.parts()),
            r.units() == mantissa * pow10((MAX_SCALE - scale) as nat),
    {
        proof {
            let p = pow10((MAX_SCALE - scale) as nat);
            assert(-((-mantissa) * p) == mantissa * p) by (nonlinear_arith);
        }
        if mantissa < 0 {
            let magnitude: u128 = (-(mantissa as i128)) as u128;
            Decimal { negative: true, magnitude, scale }
        } else {
            Decimal { negative: false, magnitude: mantissa as u128, scale }
        }
    }

    /// The number that `text` holds, or nothing where it holds none.
    pub fn parse(text: &str) -> (r: Option<Decimal>)
        ensures
            r == decimal_in(text@),
    {
        match read_decimal(text) {
            Some((negative, magnitude, scale)) => Some(Decimal { negative, magnitude, scale }),
            None => None,
        }
    }

    /// The number that `text` holds, or zero where it holds none.
    pub fn parse_or_zero(text: &str) -> (r: Decimal)
        ensures
            r == decimal_or_zero(text@),
    {
        match Decimal::parse(text) {
            Some(d) => d,
            None => Decimal::default(),
        }
    }

    /// The number in plain notation, its scale kept. The text reads back as the same
    /// number; a negative zero reads back as zero.
    pub fn to_text(&self) -> (r: String)
        ensures
            r@ == self.text(),
            parsed_decimal(r@) == Some(
                (self.parts().0 && !self.zero(), self.parts().1, self.parts().2),
            ),
    {
        proof {
            use_type_invariant(self);
        }
        print_decimal(self.negative, self.magnitude, self.scale)
    }

    /// Whether the number is zero.
    pub fn is_zero(&self) -> (r: bool)
        ensures
            r == self.zero(),
            r == (self.units() == 0),
    {
        proof {
            lemma_units_zero(*self);
        }
        self.magnitude == 0
    }

    /// Whether the number is greater than zero.
    pub fn is_positive(&self) -> (r: bool)
        ensures
            r == (self.units() > 0),
    {
        proof {
            lemma_units_zero(*self);
        }
        self.magnitude != 0 && !self.negative
    }

    /// Whether this number is less than `other`.
    pub fn below(&self, other: &Decimal) -> (r: bool)
        ensures
            r == (self.units() < other.units()),
    {
        proof {
            use_type_invariant(self);
            use_type_invariant(other);
        }
        decimal_below(
            (self.negative, self.magnitude, self.scale),
            (other.negative, other.magnitude, other.scale),
        )
    }
}

/// The number of a sign, a magnitude and a scale.
pub closed spec fn decimal_of(parts: (bool, u128, u32)) -> Decimal {
    Decimal { negative: parts.0, magnitude: parts.1, scale: parts.2 }
}

/// The number that a text holds, where it holds one.
pub open spec fn decimal_in(text: Seq<char>) -> Option<Decimal> {
    match parsed_decimal(text) {
        Some(parts) => Some(decimal_of(parts)),
        None => None,
    }
}

/// The number that a text holds; zero where it holds none.
pub open spec fn decimal_or_zero(text: Seq<char>) -> Decimal {
    match decimal_in(text) {
        Some(d) => d,
        None => decimal_of((false, 0, 0)),
    }
}

/// Sign, magnitude and scale are all that a number is.
pub proof fn lemma_decimal_of(d: Decimal, parts: (bool, u128, u32))
    ensures
        d == decimal_of(parts) <==> d.parts() == parts,
        decimal_of(parts).parts() == parts,
{
}

impl Default for Decimal {
    /// Zero, with scale zero.
    fn default() -> (r: Decimal)
        ensures
            r == decimal_of((false, 0, 0)),
            r.parts() == (false, 0u128, 0u32),
    {
        Decimal { negative: false, magnitude: 0, scale: 0 }
    }
}

impl PartialEq for Decimal {
    /// Whether the two numbers are worth the same: `100` equals `100.00`.
    fn eq(&self, other: &Decimal) -> (r: bool) {
        !self.below(other) && !other.below(self)
    }
}

impl vstd::std_specs::cmp::PartialEqSpecImpl for Decimal {
    open spec fn obeys_eq_spec() -> bool {
        true
    }

    open spec fn eq_spec(&self, other: &Decimal) -> bool {
        self.units() == other.units()
    }
}

impl Eq for Decimal {

}

/// A negative zero is worth as much as zero.
pub proof fn lemma_same_worth(d: Decimal)
    ensures
        decimal_of((d.parts().0 && !d.zero(), d.parts().1, d.parts().2)).units() == d.units(),
{
    let same = decimal_of((d.parts().0 && !d.zero(), d.parts().1, d.parts().2));
    lemma_decimal_of(same, (d.parts().0 && !d.zero(), d.parts().1, d.parts().2));
    lemma_units_zero(d);
    lemma_units_zero(same);
}

/// Powers of ten are positive.
pub proof fn lemma_pow10_positive(n: nat)
    ensures
        pow10(n) > 0,
    decreases n,
{
    if n > 0 {
        lemma_pow10_positive((n - 1) as nat);
    }
}

/// A number is worth nothing exactly where its magnitude is zero, and less than nothing
/// exactly where it is negative and not zero.
pub proof fn lemma_units_zero(d: Decimal)
    ensures
        d.units() == 0 <==> d.zero(),
        d.units() < 0 <==> d.parts().0 && !d.zero(),
{
    let p = pow10((MAX_SCALE - d.parts().2) as nat);
    let m = d.parts().1;
    lemma_pow10_positive((MAX_SCALE - d.parts().2) as nat);
    assert(m > 0 ==> m * p > 0) by (nonlinear_arith)
        requires
            p > 0,
    ;
    assert(m == 0 ==> m * p == 0) by (nonlinear_arith);
}

} // verus!
