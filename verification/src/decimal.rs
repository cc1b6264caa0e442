//! Decimal numbers as the library sees them: an integer mantissa and the
//! number of its digits that stand after the decimal point. Arithmetic and
//! the text form are those of the `rust_decimal` crate.

use crate::numeral::{decimal_digits, is_digit, lemma_decimal_digits_shape};
use std::str::FromStr;
use vstd::prelude::*;

verus! {

/// The largest scale of a decimal.
pub const MAX_SCALE: u32 = 28;

/// The largest mantissa of a decimal in absolute value: 96 bits.
pub const MAX_MANTISSA: i128 = 0xFFFF_FFFF_FFFF_FFFF_FFFF_FFFF;

/// Ten to the power of `n`.
pub open spec fn pow10(n: nat) -> nat
    decreases n,
{
    if n == 0 {
        1
    } else {
        10 * pow10((n - 1) as nat)
    }
}

/// Whether the number `a.0 / 10^a.1` is smaller than `b.0 / 10^b.1`.
pub open spec fn value_lt(a: (int, nat), b: (int, nat)) -> bool {
    a.0 * pow10(b.1) < b.0 * pow10(a.1)
}

/// The number `mantissa / 10^scale`.
#[derive(Clone, Copy, Debug, PartialEq, Eq, Hash)]
pub struct Decimal {
    mantissa: i128,
    scale: u32,
}

impl View for Decimal {
    type V = (int, nat);

    closed spec fn view(&self) -> (int, nat) {
        (self.mantissa as int, self.scale as nat)
    }
}

/// What `Decimal::checked_mul` of `rust_decimal` returns for two decimals,
/// each given by mantissa and scale: the product, rounded where it does not
/// fit, or nothing where it is too large.
pub uninterp spec fn decimal_product(a: (int, nat), b: (int, nat)) -> Option<(int, nat)>;

/// What `Decimal::checked_add` of `rust_decimal` returns for two decimals:
/// the sum, rounded where it does not fit, or nothing where it is too large.
pub uninterp spec fn decimal_sum(a: (int, nat), b: (int, nat)) -> Option<(int, nat)>;

/// What `Decimal::checked_sub` of `rust_decimal` returns for two decimals:
/// the first less the second, rounded where it does not fit, or nothing
/// where it is too large.
pub uninterp spec fn decimal_difference(a: (int, nat), b: (int, nat)) -> Option<(int, nat)>;

/// What `Decimal::checked_div` of `rust_decimal` returns for two decimals:
/// the first divided by the second, to as many places as a decimal holds,
/// or nothing where the second is zero or the quotient is too large.
pub uninterp spec fn decimal_quotient(a: (int, nat), b: (int, nat)) -> Option<(int, nat)>;

/// What `Decimal::round_dp` of `rust_decimal` returns for a decimal and a
/// number of decimal places.
pub uninterp spec fn decimal_rounded(a: (int, nat), places: u32) -> (int, nat);

/// `digits` with zeros put before it until it has `width` characters.
pub open spec fn zero_padded(digits: Seq<char>, width: nat) -> Seq<char>
    decreases width - digits.len(),
{
    if digits.len() >= width {
        digits
    } else {
        zero_padded(seq!['0'] + digits, width)
    }
}

/// The text of a decimal: a minus sign where it is negative, then the digits
/// of the mantissa, with zeros before them where there would be no digit
/// before the point, and a point before the digits that the scale counts.
pub open spec fn decimal_text(a: (int, nat)) -> Seq<char> {
    let magnitude = if a.0 < 0 {
        (-a.0) as nat
    } else {
        a.0 as nat
    };
    let digits = zero_padded(decimal_digits(magnitude), a.1 + 1);
    let cut = digits.len() - a.1;
    let body = if a.1 == 0 {
        digits
    } else {
        digits.take(cut).push('.') + digits.skip(cut)
    };
    if a.0 < 0 {
        seq!['-'] + body
    } else {
        body
    }
}

/// The decimal that `rust_decimal` reads from a text, if it reads one.
pub uninterp spec fn decimal_parsed(text: Seq<char>) -> Option<(int, nat)>;

/// Multiplies with `Decimal::checked_mul`; both factors are rebuilt from
/// their parts, and the product is taken apart again.
#[verifier::external_body]
pub(crate) fn checked_product(a: &Decimal, b: &Decimal) -> (r: Option<Decimal>)
    requires
        a.wf(),
        b.wf(),
    ensures
        match r {
            Some(p) => decimal_product(a@, b@) == Some(p@),
            None => decimal_product(a@, b@).is_none(),
        },
{
    let x = rust_decimal::Decimal::from_i128_with_scale(a.mantissa, a.scale);
    let y = rust_decimal::Decimal::from_i128_with_scale(b.mantissa, b.scale);
    x.checked_mul(y).map(|p| Decimal { mantissa: p.mantissa(), scale: p.scale() })
}

/// Adds with `Decimal::checked_add`.
#[verifier::external_body]
pub(crate) fn checked_sum(a: &Decimal, b: &Decimal) -> (r: Option<Decimal>)
    requires
        a.wf(),
        b.wf(),
    ensures
        match r {
            Some(p) => decimal_sum(a@, b@) == Some(p@),
            None => decimal_sum(a@, b@).is_none(),
        },
{
    let x = rust_decimal::Decimal::from_i128_with_scale(a.mantissa, a.scale);
    let y = rust_decimal::Decimal::from_i128_with_scale(b.mantissa, b.scale);
    x.checked_add(y).map(|p| Decimal { mantissa: p.mantissa(), scale: p.scale() })
}

/// Subtracts with `Decimal::checked_sub`.
#[verifier::external_body]
pub(crate) fn checked_difference(a: &Decimal, b: &Decimal) -> (r: Option<Decimal>)
    requires
        a.wf(),
        b.wf(),
    ensures
        match r {
            Some(p) => decimal_difference(a@, b@) == Some(p@),
            None => decimal_difference(a@, b@).is_none(),
        },
{
    let x = rust_decimal::Decimal::from_i128_with_scale(a.mantissa, a.scale);
    let y = rust_decimal::Decimal::from_i128_with_scale(b.mantissa, b.scale);
    x.checked_sub(y).map(|p| Decimal { mantissa: p.mantissa(), scale: p.scale() })
}

/// Divides with `Decimal::checked_div`.
#[verifier::external_body]
pub(crate) fn checked_quotient(a: &Decimal, b: &Decimal) -> (r: Option<Decimal>)
    requires
        a.wf(),
        b.wf(),
    ensures
        match r {
            Some(p) => decimal_quotient(a@, b@) == Some(p@),
            None => decimal_quotient(a@, b@).is_none(),
        },
{
    let x = rust_decimal::Decimal::from_i128_with_scale(a.mantissa, a.scale);
    let y = rust_decimal::Decimal::from_i128_with_scale(b.mantissa, b.scale);
    x.checked_div(y).map(|p| Decimal { mantissa: p.mantissa(), scale: p.scale() })
}

/// Rounds with `Decimal::round_dp`.
#[verifier::external_body]
pub(crate) fn rounded(a: &Decimal, places: u32) -> (r: Decimal)
    requires
        a.wf(),
    ensures
        r@ == decimal_rounded(a@, places),
{
    let x = rust_decimal::Decimal::from_i128_with_scale(a.mantissa, a.scale);
    let p = x.round_dp(places);
    Decimal { mantissa: p.mantissa(), scale: p.scale() }
}

/// Compares with the `<` of `rust_decimal`, which orders decimals as
/// numbers, whatever their scales.
#[verifier::external_body]
pub(crate) fn is_less(a: &Decimal, b: &Decimal) -> (r: bool)
    requires
        a.wf(),
        b.wf(),
    ensures
        r == value_lt(a@, b@),
{
    let x = rust_decimal::Decimal::from_i128_with_scale(a.mantissa, a.scale);
    let y = rust_decimal::Decimal::from_i128_with_scale(b.mantissa, b.scale);
    x < y
}

/// Writes a decimal with the `Display` of `rust_decimal`, which puts down
/// the sign, the digits of the mantissa and the decimal point as
/// [`decimal_text`] says.
#[verifier::external_body]
pub(crate) fn text_of(a: &Decimal) -> (r: String)
    requires
        a.wf(),
    ensures
        r@ == decimal_text(a@),
{
    rust_decimal::Decimal::from_i128_with_scale(a.mantissa, a.scale).to_string()
}

/// Reads a decimal with the `FromStr` of `rust_decimal`.
#[verifier::external_body]
pub(crate) fn parsed(s: &str) -> (r: Option<Decimal>)
    ensures
        match r {
            Some(d) => decimal_parsed(s@) == Some(d@),
            None => decimal_parsed(s@).is_none(),
        },
{
    match rust_decimal::Decimal::from_str(s) {
        Ok(d) => Some(Decimal { mantissa: d.mantissa(), scale: d.scale() }),
        Err(_) => None,
    }
}

impl Decimal {
    /// A mantissa of at most 96 bits and a scale of at most 28.
    #[verifier::type_invariant]
    pub closed spec fn wf(self) -> bool {
        -MAX_MANTISSA <= self.mantissa <= MAX_MANTISSA && self.scale <= MAX_SCALE
    }

    /// The decimal with the given mantissa and scale.
    pub closed spec fn of(parts: (int, nat)) -> Decimal {
        Decimal { mantissa: parts.0 as i128, scale: parts.1 as u32 }
    }

    /// A decimal is the decimal of its parts.
    pub proof fn lemma_of_view(self)
        ensures
            Decimal::of(self@) == self,
    {
    }

    /// The pairs of mantissa and scale that a decimal can hold.
    pub open spec fn fits(parts: (int, nat)) -> bool {
        -MAX_MANTISSA <= parts.0 <= MAX_MANTISSA && parts.1 <= MAX_SCALE
    }

    /// The decimal `num / 10^scale`.
    pub fn new(num: i64, scale: u32) -> (r: Decimal)
        requires
            scale <= MAX_SCALE,
        ensures
            r@ == (num as int, scale as nat),
    {
        Decimal { mantissa: num as i128, scale }
    }

    /// The decimal `mantissa / 10^scale`, where a decimal can hold it.
    pub fn from_parts(mantissa: i128, scale: u32) -> (r: Option<Decimal>)
        ensures
            match r {
                Some(d) => d@ == (mantissa as int, scale as nat) && Decimal::fits(d@),
                None => !Decimal::fits((mantissa as int, scale as nat)),
            },
    {
        if -MAX_MANTISSA <= mantissa && mantissa <= MAX_MANTISSA && scale <= MAX_SCALE {
            Some(Decimal { mantissa, scale })
        } else {
            None
        }
    }

    pub fn mantissa(&self) -> (r: i128)
        ensures
            r == self@.0,
            Decimal::fits(self@),
    {
        proof {
            use_type_invariant(self);
        }
        self.mantissa
    }

    pub fn scale(&self) -> (r: u32)
        ensures
            r == self@.1,
            Decimal::fits(self@),
    {
        proof {
            use_type_invariant(self);
        }
        self.scale
    }

    /// The sum of this number and `other`, as the decimal arithmetic gives
    /// it.
    pub fn checked_add(&self, other: &Decimal) -> (r: Option<Decimal>)
        ensures
            view_of(r) == decimal_sum(self@, other@),
    {
        proof {
            use_type_invariant(self);
            use_type_invariant(other);
        }
        checked_sum(self, other)
    }

    /// This number less `other`, as the decimal arithmetic gives it.
    pub fn checked_sub(&self, other: &Decimal) -> (r: Option<Decimal>)
        ensures
            view_of(r) == decimal_difference(self@, other@),
    {
        proof {
            use_type_invariant(self);
            use_type_invariant(other);
        }
        checked_difference(self, other)
    }

    /// The product of this number and `other`, as the decimal arithmetic
    /// gives it.
    pub fn checked_mul(&self, other: &Decimal) -> (r: Option<Decimal>)
        ensures
            view_of(r) == decimal_product(self@, other@),
    {
        proof {
            use_type_invariant(self);
            use_type_invariant(other);
        }
        checked_product(self, other)
    }

    /// This number divided by `other`, as the decimal arithmetic gives it.
    pub fn checked_div(&self, other: &Decimal) -> (r: Option<Decimal>)
        ensures
            view_of(r) == decimal_quotient(self@, other@),
    {
        proof {
            use_type_invariant(self);
            use_type_invariant(other);
        }
        checked_quotient(self, other)
    }

    /// This number rounded to `places` decimal places, as the decimal
    /// arithmetic rounds it.
    pub fn round_dp(&self, places: u32) -> (r: Decimal)
        ensures
            r@ == decimal_rounded(self@, places),
    {
        proof {
            use_type_invariant(self);
        }
        rounded(self, places)
    }

    /// Whether this number is smaller than `other`.
    pub fn less_than(&self, other: &Decimal) -> (r: bool)
        ensures
            r == value_lt(self@, other@),
    {
        proof {
            use_type_invariant(self);
            use_type_invariant(other);
        }
        is_less(self, other)
    }

    /// The larger of this number and `other`; this one where they are equal.
    pub fn max(self, other: Decimal) -> (r: Decimal)
        ensures
            r == (if value_lt(self@, other@) {
                other
            } else {
                self
            }),
    {
        if self.less_than(&other) {
            other
        } else {
            self
        }
    }

    /// The text form of this number.
    pub fn to_string(&self) -> (r: String)
        ensures
            r@ == decimal_text(self@),
    {
        proof {
            use_type_invariant(self);
        }
        text_of(self)
    }

    /// Reads a number from its text form.
    pub fn parse(s: &str) -> (r: Option<Decimal>)
        ensures
            match r {
                Some(d) => decimal_parsed(s@) == Some(d@),
                None => decimal_parsed(s@).is_none(),
            },
    {
        parsed(s)
    }
}

/// The parts of a decimal that may be missing.
pub open spec fn view_of(d: Option<Decimal>) -> Option<(int, nat)> {
    match d {
        Some(d) => Some(d@),
        None => None,
    }
}

/// A character of a decimal's text: a digit, the point or the minus sign.
pub open spec fn is_decimal_char(c: char) -> bool {
    is_digit(c) || c == '.' || c == '-'
}

proof fn lemma_zero_padded(digits: Seq<char>, width: nat)
    requires
        forall|i: int| 0 <= i < digits.len() ==> is_digit(#[trigger] digits[i]),
    ensures
        forall|i: int|
            0 <= i < zero_padded(digits, width).len() ==> is_digit(
                #[trigger] zero_padded(digits, width)[i],
            ),
        zero_padded(digits, width).len() >= width,
        zero_padded(digits, width).len() >= digits.len(),
    decreases width - digits.len(),
{
    if digits.len() < width {
        lemma_zero_padded(seq!['0'] + digits, width);
    }
}

/// The text of a decimal is not empty and made of digits, the point and the
/// minus sign.
pub proof fn lemma_decimal_text_chars(a: (int, nat))
    ensures
        decimal_text(a).len() > 0,
        forall|i: int|
            0 <= i < decimal_text(a).len() ==> is_decimal_char(#[trigger] decimal_text(a)[i]),
{
    let magnitude = if a.0 < 0 {
        (-a.0) as nat
    } else {
        a.0 as nat
    };
    lemma_decimal_digits_shape(magnitude);
    lemma_zero_padded(decimal_digits(magnitude), a.1 + 1);
}

} // verus!
