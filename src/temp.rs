//! A temperature: a decimal number in one of the three units. It is read from
//! text such as `32F`, converted between units, and written back as text.

use crate::decimal::{
    aligned_fit, at_scale, decimal_difference, decimal_product, decimal_quotient, decimal_sum,
    decimal_text, exact_difference, exact_sum, fits, lemma_same_value_transitive,
    lemma_nine_divides, lemma_pow10_add, lemma_pow10_positive, lemma_same_value_at_scale,
    lemma_shift_back, max_scale, pow10, exact_product, is_exact, lemma_at_scale_split, normal_form, opt_view, outside_add, outside_div,
    decimal_parse_error, outside_mul, outside_normalize, outside_parse, outside_sub, outside_text,
    parsed_decimal, same_value, Decimal,
};
use crate::unit::{char_of_unit, unit_of_char, InvalidUnit, Scale, TempUnit};
use vstd::prelude::*;
use vstd::string::*;

verus! {

/// A temperature: `scalar` degrees of `unit`.
#[derive(Clone, Copy, Debug)]
pub struct Temp {
    pub scalar: Decimal,
    pub unit: TempUnit,
}

/// Why text could not be read as a temperature.
#[derive(Clone, Debug)]
pub enum ParseError {
    /// The text was empty.
    Empty,
    /// The number, the unit letter or both were wrong. `text` is the whole
    /// input; `scalar_error` describes why the number could not be read, and
    /// `unit_error` holds the last letter where it names no unit.
    Invalid { text: String, scalar_error: Option<String>, unit_error: Option<InvalidUnit> },
}

/// The text left of `s` once `str::trim` has removed the white space around it.
pub uninterp spec fn trimmed(s: Seq<char>) -> Seq<char>;

/// Relies on `str::trim`: the text without leading and trailing white space.
#[verifier::external_body]
fn trim(s: &str) -> (r: &str)
    ensures
        r@ == trimmed(s@),
{
    s.trim()
}

/// The part of a temperature's text that holds the number: all but the last
/// letter, trimmed.
pub open spec fn number_part(text: Seq<char>) -> Seq<char> {
    trimmed(text.drop_last())
}

/// `text` is a number that a decimal reads followed by a unit letter.
pub open spec fn is_temp_text(text: Seq<char>) -> bool {
    &&& text.len() > 0
    &&& parsed_decimal(number_part(text)) is Some
    &&& unit_of_char(text.last()) is Some
}

/// `t` is what `text` says: its number and its unit letter.
pub open spec fn parses_to(text: Seq<char>, t: Temp) -> bool {
    &&& parsed_decimal(number_part(text)) == Some(t.scalar@)
    &&& unit_of_char(text.last()) == Some(t.unit)
}

/// `e` reports what is wrong with the non-empty `text`: the whole text, the
/// decimal parser's message for the number exactly where it cannot be read,
/// and the last letter exactly where it names no unit.
pub open spec fn reports(e: ParseError, text: Seq<char>) -> bool {
    match e {
        ParseError::Empty => false,
        ParseError::Invalid { text: t, scalar_error, unit_error } => {
            &&& t@ == text
            &&& (scalar_error is Some <==> parsed_decimal(number_part(text)) is None)
            &&& (scalar_error matches Some(m) ==> m@ == decimal_parse_error(number_part(text)))
            &&& unit_error == match unit_of_char(text.last()) {
                Some(_) => None,
                None => Some(InvalidUnit { unit: text.last() }),
            }
        },
    }
}

/// `d` is the number `e`, at a scale no larger than `e`'s.
pub open spec fn holds_exactly(d: (int, nat), e: (int, nat)) -> bool {
    same_value(d, e) && d.1 <= e.1
}

/// `1.8 * s + 32`, written exactly at one more place than `s`.
pub open spec fn fahrenheit_exact(s: (int, nat)) -> (int, nat) {
    (18 * s.0 + 32 * pow10(s.1 + 1), s.1 + 1)
}

/// Celsius to Fahrenheit cannot round: `1.8 * s`, 32 and their sum fit at one
/// more place than `s`.
pub open spec fn fahrenheit_fits(s: (int, nat)) -> bool {
    let t = s.1 + 1;
    fits((18 * s.0, t)) && fits((32 * pow10(t), t)) && fits(fahrenheit_exact(s))
}

/// `(s - 32) * 5 / 9`, written exactly at `s`'s scale.
pub open spec fn celsius_exact(s: (int, nat)) -> (int, nat) {
    (5 * (s.0 - 32 * pow10(s.1)) / 9, s.1)
}

/// Fahrenheit to Celsius cannot round: `s`, 32 and `(s - 32) * 5` fit at `s`'s
/// scale, and nine divides `s - 32` there.
pub open spec fn celsius_fits(s: (int, nat)) -> bool {
    let d = s.0 - 32 * pow10(s.1);
    fits(s) && fits((32 * pow10(s.1), s.1)) && fits((5 * d, s.1)) && d % 9 == 0
}

/// The scale of `1.8 * s - 459.67` written exactly: one more place than `s`, and at least 2.
pub open spec fn kf_scale(s: (int, nat)) -> nat {
    max_scale(s.1 + 1, 2)
}

/// `1.8 * s - 459.67`, written exactly at `kf_scale(s)`.
pub open spec fn kelvin_fahrenheit_exact(s: (int, nat)) -> (int, nat) {
    let t = kf_scale(s);
    (18 * s.0 * pow10((t - (s.1 + 1)) as nat) - 45967 * pow10((t - 2) as nat), t)
}

/// Kelvin to Fahrenheit cannot round: `1.8 * s`, 459.67 and their difference
/// fit at `kf_scale(s)`.
pub open spec fn kelvin_fahrenheit_fits(s: (int, nat)) -> bool {
    let t = kf_scale(s);
    &&& fits((18 * s.0, s.1 + 1))
    &&& fits((18 * s.0 * pow10((t - (s.1 + 1)) as nat), t))
    &&& fits((45967 * pow10((t - 2) as nat), t))
    &&& fits(kelvin_fahrenheit_exact(s))
}

/// `s + 459.67`, written exactly at the larger of `s`'s scale and 2.
pub open spec fn plus_459_67(s: (int, nat)) -> int {
    exact_sum(s, (45967, 2)).0
}

/// `(s + 459.67) * 5 / 9`, written exactly at the larger of `s`'s scale and 2.
pub open spec fn fahrenheit_kelvin_exact(s: (int, nat)) -> (int, nat) {
    (5 * plus_459_67(s) / 9, max_scale(s.1, 2))
}

/// Fahrenheit to Kelvin cannot round: `s`, 459.67 and `(s + 459.67) * 5` fit at
/// the larger of `s`'s scale and 2, and nine divides `s + 459.67` there.
pub open spec fn fahrenheit_kelvin_fits(s: (int, nat)) -> bool {
    &&& aligned_fit(s, (45967, 2))
    &&& fits((5 * plus_459_67(s), max_scale(s.1, 2)))
    &&& plus_459_67(s) % 9 == 0
}

/// `decimal_product(a, b)` where `a` may have overflowed.
pub open spec fn then_product(a: Option<(int, nat)>, b: (int, nat)) -> Option<(int, nat)> {
    match a {
        Some(x) => decimal_product(x, b),
        None => None,
    }
}

/// `decimal_quotient(a, b)` where `a` may have overflowed.
pub open spec fn then_quotient(a: Option<(int, nat)>, b: (int, nat)) -> Option<(int, nat)> {
    match a {
        Some(x) => decimal_quotient(x, b),
        None => None,
    }
}

/// `decimal_sum(a, b)` where `a` may have overflowed.
pub open spec fn then_sum(a: Option<(int, nat)>, b: (int, nat)) -> Option<(int, nat)> {
    match a {
        Some(x) => decimal_sum(x, b),
        None => None,
    }
}

/// `decimal_difference(a, b)` where `a` may have overflowed.
pub open spec fn then_difference(a: Option<(int, nat)>, b: (int, nat)) -> Option<(int, nat)> {
    match a {
        Some(x) => decimal_difference(x, b),
        None => None,
    }
}

/// The number `s` of scale `from` written in scale `to`, computed with decimal
/// arithmetic; `None` where a step overflows.
pub open spec fn converted_scalar(s: (int, nat), from: Scale, to: Scale) -> Option<(int, nat)> {
    match (from, to) {
        (Scale::Fahrenheit, Scale::Celsius) => then_quotient(
            then_product(decimal_difference(s, (32, 0)), (5, 0)),
            (9, 0),
        ),
        (Scale::Kelvin, Scale::Celsius) => decimal_difference(s, (27315, 2)),
        (Scale::Celsius, Scale::Fahrenheit) => then_sum(decimal_product(s, (18, 1)), (32, 0)),
        (Scale::Kelvin, Scale::Fahrenheit) => then_difference(
            decimal_product(s, (18, 1)),
            (45967, 2),
        ),
        (Scale::Celsius, Scale::Kelvin) => decimal_sum(s, (27315, 2)),
        (Scale::Fahrenheit, Scale::Kelvin) => then_quotient(
            then_product(decimal_sum(s, (45967, 2)), (5, 0)),
            (9, 0),
        ),
        _ => Some(s),
    }
}

/// The unit `u` converted to `to`: `u` itself where the scale is the
/// same, else `to` written upper case.
pub open spec fn converted_unit(u: TempUnit, to: Scale) -> TempUnit {
    if u.scale == to {
        u
    } else {
        TempUnit { scale: to, lower: false }
    }
}

impl Temp {
    /// The scalar of `self` converted to `to`, `None` where the arithmetic overflows.
    pub open spec fn conversion(self, to: Scale) -> Option<(int, nat)> {
        converted_scalar(self.scalar@, self.unit.scale, to)
    }

    /// `r` is `self` converted to `to`.
    pub open spec fn is_conversion(self, to: Scale, r: Temp) -> bool {
        &&& self.conversion(to) == Some(r.scalar@)
        &&& r.unit == converted_unit(self.unit, to)
        &&& self.unit.scale == to ==> r == self
        &&& self.is_exact_shift(to, r)
        &&& self.is_exact_fahrenheit(to, r)
    }

    /// Where a conversion to or from Fahrenheit cannot round, `r` holds the exact result.
    pub open spec fn is_exact_fahrenheit(self, to: Scale, r: Temp) -> bool {
        let s = self.scalar@;
        &&& (self.unit.scale == Scale::Celsius && to == Scale::Fahrenheit && fahrenheit_fits(s))
            ==> holds_exactly(r.scalar@, fahrenheit_exact(s))
        &&& (self.unit.scale == Scale::Fahrenheit && to == Scale::Celsius && celsius_fits(s))
            ==> same_value(r.scalar@, celsius_exact(s))
        &&& (self.unit.scale == Scale::Kelvin && to == Scale::Fahrenheit
            && kelvin_fahrenheit_fits(s)) ==> holds_exactly(r.scalar@, kelvin_fahrenheit_exact(s))
        &&& (self.unit.scale == Scale::Fahrenheit && to == Scale::Kelvin
            && fahrenheit_kelvin_fits(s)) ==> same_value(r.scalar@, fahrenheit_kelvin_exact(s))
    }

    /// Between Celsius and kelvins the conversion adds or subtracts 273.15;
    /// where the operands and the exact result fit in a decimal, `r` holds that
    /// result exactly, at no larger scale.
    pub open spec fn is_exact_shift(self, to: Scale, r: Temp) -> bool {
        let s = self.scalar@;
        let b = (27315int, 2nat);
        let up = self.unit.scale == Scale::Celsius && to == Scale::Kelvin;
        let down = self.unit.scale == Scale::Kelvin && to == Scale::Celsius;
        &&& (up && aligned_fit(s, b) && fits(exact_sum(s, b))) ==> holds_exactly(
            r.scalar@,
            exact_sum(s, b),
        )
        &&& (down && aligned_fit(s, b) && fits(exact_difference(s, b))) ==> holds_exactly(
            r.scalar@,
            exact_difference(s, b),
        )
    }

    /// A conversion between Celsius and kelvins whose operands and exact
    /// result fit in a decimal: it cannot overflow.
    pub open spec fn shift_fits(self, to: Scale) -> bool {
        let s = self.scalar@;
        let b = (27315int, 2nat);
        ||| self.unit.scale == Scale::Celsius && to == Scale::Kelvin && aligned_fit(s, b) && fits(
            exact_sum(s, b),
        )
        ||| self.unit.scale == Scale::Kelvin && to == Scale::Celsius && aligned_fit(s, b) && fits(
            exact_difference(s, b),
        )
    }

    /// A temperature of `scalar` degrees of `unit`.
    pub fn new(scalar: Decimal, unit: TempUnit) -> (r: Temp)
        ensures
            r == (Temp { scalar, unit }),
    {
        Temp { scalar, unit }
    }

    /// Reads a temperature written as a number followed by a unit letter, such
    /// as `32F`, `0c` or `-273.15K`. The number is all but the last letter,
    /// with the white space around it trimmed. Where the number, the letter or
    /// both are wrong, the error reports each of them.
    pub fn parse(text: &str) -> (r: Result<Temp, ParseError>)
        ensures
            text@.len() == 0 ==> r matches Err(ParseError::Empty),
            text@.len() > 0 ==> (r is Ok <==> is_temp_text(text@)),
            r matches Ok(t) ==> text@.len() > 0 && parses_to(text@, t),
            r matches Err(e) ==> (text@.len() == 0 || reports(e, text@)),
    {
        let n = text.unicode_len();
        if n == 0 {
            return Err(ParseError::Empty);
        }
        let letter = text.get_char(n - 1);
        let prefix = text.substring_char(0, n - 1);
        assert(prefix@ =~= text@.drop_last());
        let number = trim(prefix);
        let scalar = outside_parse(number);
        let unit = TempUnit::try_from(letter);
        match (scalar, unit) {
            (Ok(s), Ok(u)) => Ok(Temp { scalar: s, unit: u }),
            (s, u) => {
                let scalar_error = match s {
                    Ok(_) => None,
                    Err(e) => Some(e),
                };
                let unit_error = match u {
                    Ok(_) => None,
                    Err(e) => Some(e),
                };
                Err(ParseError::Invalid { text: text.to_owned(), scalar_error, unit_error })
            },
        }
    }

    /// The temperature as text: the number without trailing zeros after the
    /// point, a space, and the unit letter, as in `32 F` or `-38.52 C`.
    pub fn display(&self) -> (r: String)
        ensures
            r@ == decimal_text(normal_form(self.scalar@)) + seq![' '] + seq![char_of_unit(self.unit)],
    {
        let number = outside_text(&outside_normalize(&self.scalar));
        proof {
            reveal_strlit(" ");
        }
        number.concat(" ").concat(self.unit.display())
    }

    /// Applies the formula from `self`'s scale to `to`, or hands `self` back
    /// where the scales agree.
    fn convert(self, to: Scale) -> (r: Option<Temp>)
        ensures
            r is Some <==> self.conversion(to) is Some,
            self.shift_fits(to) ==> r is Some,
            r matches Some(t) ==> self.is_conversion(to, t),
    {
        let s = &self.scalar;
        let unit = TempUnit::new(to);
        let scalar = match (self.unit.scale, to) {
            (Scale::Fahrenheit, Scale::Celsius) => match outside_sub(
                s,
                &Decimal::from_parts(32, 0),
            ) {
                Some(x) => {
                    let r = times_five_ninths(&x);
                    proof {
                        if celsius_fits(s@) {
                            lemma_celsius_step(s@);
                            lemma_five_ninths_of(x@, s@.0 - 32 * pow10(s@.1), s@.1, r->0@);
                        }
                    }
                    r
                },
                None => None,
            },
            (Scale::Kelvin, Scale::Celsius) => {
                outside_sub(s, &Decimal::from_parts(27315, 2))
            },
            (Scale::Celsius, Scale::Fahrenheit) => match outside_mul(
                s,
                &Decimal::from_parts(18, 1),
            ) {
                Some(x) => {
                    let r = outside_add(&x, &Decimal::from_parts(32, 0));
                    proof {
                        if fahrenheit_fits(s@) {
                            assert(exact_product(s@, (18, 1)) == (s@.0 * 18, s@.1 + 1));
                            lemma_fahrenheit_step(s@, x@);
                            lemma_same_value_transitive(
                                r->0@,
                                exact_sum(x@, (32, 0)),
                                fahrenheit_exact(s@),
                            );
                        }
                    }
                    r
                },
                None => None,
            },
            (Scale::Kelvin, Scale::Fahrenheit) => match outside_mul(
                s,
                &Decimal::from_parts(18, 1),
            ) {
                Some(x) => {
                    let r = outside_sub(&x, &Decimal::from_parts(45967, 2));
                    proof {
                        if kelvin_fahrenheit_fits(s@) {
                            assert(exact_product(s@, (18, 1)) == (s@.0 * 18, s@.1 + 1));
                            lemma_kelvin_fahrenheit_step(s@, x@);
                            lemma_same_value_transitive(
                                r->0@,
                                exact_difference(x@, (45967, 2)),
                                kelvin_fahrenheit_exact(s@),
                            );
                        }
                    }
                    r
                },
                None => None,
            },
            (Scale::Celsius, Scale::Kelvin) => {
                outside_add(s, &Decimal::from_parts(27315, 2))
            },
            (Scale::Fahrenheit, Scale::Kelvin) => match outside_add(
                s,
                &Decimal::from_parts(45967, 2),
            ) {
                Some(x) => {
                    let r = times_five_ninths(&x);
                    proof {
                        if fahrenheit_kelvin_fits(s@) {
                            lemma_five_ninths_of(x@, plus_459_67(s@), max_scale(s@.1, 2), r->0@);
                        }
                    }
                    r
                },
                None => None,
            },
            _ => {
                return Some(self);
            },
        };
        match scalar {
            Some(x) => Some(Temp { scalar: x, unit }),
            None => None,
        }
    }

    /// `self` in the unit of scale `to`, or `None` where the arithmetic overflows.
    /// Where `self` is already in that scale it comes back unchanged.
    pub fn checked_convert_to(self, to: Scale) -> (r: Option<Temp>)
        ensures
            r is Some <==> self.conversion(to) is Some,
            self.shift_fits(to) ==> r is Some,
            r matches Some(t) ==> self.is_conversion(to, t),
    {
        match self.convert(to) {
            Some(_) => Some(self.convert_to(to)),
            None => None,
        }
    }

    /// `self` in the unit of scale `to`. Where `self` is already in that scale
    /// it comes back unchanged.
    pub fn convert_to(self, to: Scale) -> (r: Temp)
        requires
            self.conversion(to) is Some || self.shift_fits(to),
        ensures
            self.is_conversion(to, r),
    {
        match to {
            Scale::Celsius => self.to_celsius(),
            Scale::Fahrenheit => self.to_fahrenheit(),
            Scale::Kelvin => self.to_kelvin(),
        }
    }

    /// `self` in degrees Celsius.
    pub fn to_celsius(self) -> (r: Temp)
        requires
            self.conversion(Scale::Celsius) is Some || self.shift_fits(Scale::Celsius),
        ensures
            self.is_conversion(Scale::Celsius, r),
    {
        match self.convert(Scale::Celsius) {
            Some(t) => t,
            None => self,
        }
    }

    /// `self` in degrees Fahrenheit.
    pub fn to_fahrenheit(self) -> (r: Temp)
        requires
            self.conversion(Scale::Fahrenheit) is Some || self.shift_fits(Scale::Fahrenheit),
        ensures
            self.is_conversion(Scale::Fahrenheit, r),
    {
        match self.convert(Scale::Fahrenheit) {
            Some(t) => t,
            None => self,
        }
    }

    /// `self` in kelvins.
    pub fn to_kelvin(self) -> (r: Temp)
        requires
            self.conversion(Scale::Kelvin) is Some || self.shift_fits(Scale::Kelvin),
        ensures
            self.is_conversion(Scale::Kelvin, r),
    {
        match self.convert(Scale::Kelvin) {
            Some(t) => t,
            None => self,
        }
    }
}

impl PartialEq for Temp {
    fn eq(&self, other: &Temp) -> (r: bool) {
        self.scalar == other.scalar && self.unit == other.unit
    }
}

impl vstd::std_specs::cmp::PartialEqSpecImpl for Temp {
    open spec fn obeys_eq_spec() -> bool {
        true
    }

    open spec fn eq_spec(&self, other: &Temp) -> bool {
        same_value(self.scalar@, other.scalar@) && self.unit.scale == other.unit.scale
    }
}

/// Converting a temperature to its own unit changes nothing: the conversion
/// cannot overflow, and what it gives is the temperature itself.
pub proof fn lemma_identity_conversion(x: Temp)
    ensures
        x.conversion(x.unit.scale) == Some(x.scalar@),
        forall|r: Temp| #[trigger] x.is_conversion(x.unit.scale, r) ==> r == x,
{
}

/// Text made of a number and a unit letter, in either case, reads as a
/// temperature, and converting that temperature to its own unit gives it back
/// unchanged.
pub proof fn lemma_parse_then_same_unit(text: Seq<char>, t: Temp)
    requires
        is_temp_text(text),
        parses_to(text, t),
    ensures
        t.conversion(t.unit.scale) == Some(t.scalar@),
        forall|r: Temp| #[trigger] t.is_conversion(t.unit.scale, r) ==> r == t,
{
    lemma_identity_conversion(t);
}

/// Converting from Celsius to kelvins and back gives the same number exactly,
/// wherever the number, 273.15 and their sum, written at the larger of the two
/// scales, stay in the range of a decimal.
pub proof fn lemma_celsius_kelvin_round_trip(x: Temp, k: Temp, c: Temp)
    requires
        fits(x.scalar@),
        x.unit.scale == Scale::Celsius,
        aligned_fit(x.scalar@, (27315, 2)),
        fits(exact_sum(x.scalar@, (27315, 2))),
        x.is_conversion(Scale::Kelvin, k),
        k.is_conversion(Scale::Celsius, c),
    ensures
        same_value(c.scalar@, x.scalar@),
        c.unit.scale == Scale::Celsius,
{
    let b = (27315int, 2nat);
    lemma_shift_back(x.scalar@, b, k.scalar@, 1);
    assert(exact_difference(k.scalar@, b) == (at_scale(k.scalar@, max_scale(k.scalar@.1, b.1))
        - 1 * at_scale(b, max_scale(k.scalar@.1, b.1)), max_scale(k.scalar@.1, b.1)));
    lemma_same_value_transitive(c.scalar@, exact_difference(k.scalar@, b), x.scalar@);
}

/// Converting from kelvins to Celsius and back gives the same number exactly,
/// wherever the number, 273.15 and their difference, written at the larger of
/// the two scales, stay in the range of a decimal.
pub proof fn lemma_kelvin_celsius_round_trip(x: Temp, c: Temp, k: Temp)
    requires
        fits(x.scalar@),
        x.unit.scale == Scale::Kelvin,
        aligned_fit(x.scalar@, (27315, 2)),
        fits(exact_difference(x.scalar@, (27315, 2))),
        x.is_conversion(Scale::Celsius, c),
        c.is_conversion(Scale::Kelvin, k),
    ensures
        same_value(k.scalar@, x.scalar@),
        k.unit.scale == Scale::Kelvin,
{
    let b = (27315int, 2nat);
    assert(exact_difference(x.scalar@, b) == (at_scale(x.scalar@, max_scale(x.scalar@.1, b.1))
        + (-1) * at_scale(b, max_scale(x.scalar@.1, b.1)), max_scale(x.scalar@.1, b.1)));
    lemma_shift_back(x.scalar@, b, c.scalar@, -1);
    assert(exact_sum(c.scalar@, b) == (at_scale(c.scalar@, max_scale(c.scalar@.1, b.1))
        - (-1) * at_scale(b, max_scale(c.scalar@.1, b.1)), max_scale(c.scalar@.1, b.1)));
    lemma_same_value_transitive(k.scalar@, exact_sum(c.scalar@, b), x.scalar@);
}

/// Converting from Celsius to Fahrenheit and back gives the same number
/// exactly, wherever `1.8 * x`, 32, their sum, and `9 * x` fit at one more
/// place than `x`.
pub proof fn lemma_celsius_fahrenheit_round_trip(x: Temp, f: Temp, c: Temp)
    requires
        fits(x.scalar@),
        fits(f.scalar@),
        x.unit.scale == Scale::Celsius,
        fahrenheit_fits(x.scalar@),
        fits((90 * x.scalar@.0, x.scalar@.1 + 1)),
        x.is_conversion(Scale::Fahrenheit, f),
        f.is_conversion(Scale::Celsius, c),
    ensures
        same_value(c.scalar@, x.scalar@),
        c.unit.scale == Scale::Celsius,
{
    let s = x.scalar@;
    let g = f.scalar@;
    let t = s.1 + 1;
    let u = g.1;
    let e = 18 * s.0 + 32 * pow10(t);
    lemma_same_value_at_scale(g, e, t);
    let q = pow10((t - u) as nat);
    lemma_pow10_positive((t - u) as nat);
    lemma_pow10_positive(u);
    lemma_pow10_add(u, (t - u) as nat);
    assert((u + (t - u) as nat) as nat == t);
    assert(pow10(t) == 10 * pow10(s.1));
    let d = g.0 - 32 * pow10(u);
    let m = crate::decimal::MAX_MANTISSA as int;
    assert(d * q == 18 * s.0) by (nonlinear_arith)
        requires
            g.0 * q == e,
            e == 18 * s.0 + 32 * pow10(t),
            pow10(t) == pow10(u) * q,
            d == g.0 - 32 * pow10(u),
    ;
    assert(-m <= 5 * d <= m && 32 * pow10(u) <= m) by (nonlinear_arith)
        requires
            d * q == 18 * s.0,
            q >= 1,
            -m <= 90 * s.0 <= m,
            pow10(u) >= 1,
            pow10(t) == pow10(u) * q,
            32 * pow10(t) <= m,
    ;
    assert((d * q) % 9 == 0);
    lemma_nine_divides(d, (t - u) as nat);
    assert(celsius_fits(g));
    let b = d / 9;
    assert(d == 9 * b);
    assert(5 * d / 9 == 5 * b);
    assert((5 * b) * pow10(s.1) == s.0 * pow10(u)) by (nonlinear_arith)
        requires
            d * q == 18 * s.0,
            d == 9 * b,
            pow10(t) == pow10(u) * q,
            pow10(t) == 10 * pow10(s.1),
    ;
    lemma_same_value_transitive(c.scalar@, celsius_exact(g), s);
}

/// Taking 459.67 from `1.8 * s`, held exactly in `x`, is exact where Kelvin to
/// Fahrenheit cannot round.
proof fn lemma_kelvin_fahrenheit_step(s: (int, nat), x: (int, nat))
    requires
        kelvin_fahrenheit_fits(s),
        fits(x),
        holds_exactly(x, (s.0 * 18, s.1 + 1)),
    ensures
        aligned_fit(x, (45967, 2)),
        fits(exact_difference(x, (45967, 2))),
        same_value(exact_difference(x, (45967, 2)), kelvin_fahrenheit_exact(s)),
        exact_difference(x, (45967, 2)).1 <= kf_scale(s),
{
    let b = (45967int, 2nat);
    let big = s.1 + 1;
    let t = kf_scale(s);
    let w = max_scale(x.1, 2);
    let m = crate::decimal::MAX_MANTISSA as int;
    lemma_same_value_at_scale(x, s.0 * 18, big);
    assert(at_scale(x, big) == s.0 * 18);
    lemma_at_scale_split(x, big, t);
    lemma_at_scale_split(x, w, t);
    lemma_at_scale_split(b, w, t);
    let p = pow10((t - w) as nat);
    lemma_pow10_positive((t - w) as nat);
    lemma_pow10_positive((t - 2) as nat);
    assert(at_scale(b, t) == 45967 * pow10((t - 2) as nat));
    let xa = at_scale(x, w);
    let ba = at_scale(b, w);
    let e = kelvin_fahrenheit_exact(s).0;
    assert(at_scale(x, t) == 18 * s.0 * pow10((t - big) as nat));
    assert(xa * p - ba * p == e) by (nonlinear_arith)
        requires
            at_scale(x, t) == xa * p,
            at_scale(b, t) == ba * p,
            e == at_scale(x, t) - at_scale(b, t),
    ;
    assert(-m <= xa <= m && -m <= ba <= m && -m <= xa - ba <= m) by (nonlinear_arith)
        requires
            p >= 1,
            -m <= xa * p <= m,
            -m <= ba * p <= m,
            xa * p - ba * p == e,
            -m <= e <= m,
    ;
    lemma_pow10_add(w, (t - w) as nat);
    assert((w + (t - w) as nat) as nat == t);
    assert((xa - ba) * pow10(t) == e * pow10(w)) by (nonlinear_arith)
        requires
            xa * p - ba * p == e,
            pow10(t) == pow10(w) * p,
    ;
}

/// Converting from kelvins to Fahrenheit and back gives the same number
/// exactly, wherever `1.8 * x`, 459.67, their difference, and `9 * x` fit at
/// the larger of 2 and one more place than `x`.
pub proof fn lemma_kelvin_fahrenheit_round_trip(x: Temp, f: Temp, k: Temp)
    requires
        fits(x.scalar@),
        fits(f.scalar@),
        x.unit.scale == Scale::Kelvin,
        kelvin_fahrenheit_fits(x.scalar@),
        fits(
            (
                90 * x.scalar@.0 * pow10((kf_scale(x.scalar@) - (x.scalar@.1 + 1)) as nat),
                kf_scale(x.scalar@),
            ),
        ),
        x.is_conversion(Scale::Fahrenheit, f),
        f.is_conversion(Scale::Kelvin, k),
    ensures
        same_value(k.scalar@, x.scalar@),
        k.unit.scale == Scale::Kelvin,
{
    let s = x.scalar@;
    let g = f.scalar@;
    let b = (45967int, 2nat);
    let big = s.1 + 1;
    let t = kf_scale(s);
    let v = max_scale(g.1, 2);
    let m = crate::decimal::MAX_MANTISSA as int;
    let e = kelvin_fahrenheit_exact(s).0;
    let r = pow10((t - big) as nat);
    lemma_same_value_at_scale(g, e, t);
    lemma_at_scale_split(g, v, t);
    lemma_at_scale_split(b, v, t);
    let p = pow10((t - v) as nat);
    lemma_pow10_positive((t - v) as nat);
    assert(at_scale(b, t) == 45967 * pow10((t - 2) as nat));
    let ga = at_scale(g, v);
    let ba = at_scale(b, v);
    let d = ga + ba;
    assert(d == plus_459_67(g));
    assert(d * p == ga * p + ba * p) by (nonlinear_arith)
        requires
            d == ga + ba,
    ;
    assert(18 * s.0 * r == 9 * (2 * (s.0 * r))) by (nonlinear_arith);
    assert(d * p == 18 * s.0 * r);
    assert(-m <= ga <= m && -m <= ba <= m && -m <= 5 * d <= m) by (nonlinear_arith)
        requires
            p >= 1,
            ga * p == e,
            ba * p == 45967 * pow10((t - 2) as nat),
            -m <= e <= m,
            -m <= 45967 * pow10((t - 2) as nat) <= m,
            d * p == 18 * s.0 * r,
            -m <= 90 * s.0 * r <= m,
            d == ga + ba,
    ;
    assert((d * p) % 9 == 0);
    lemma_nine_divides(d, (t - v) as nat);
    assert(fahrenheit_kelvin_fits(g));
    let c = d / 9;
    assert(d == 9 * c);
    assert(5 * d / 9 == 5 * c);
    lemma_pow10_add(v, (t - v) as nat);
    assert((v + (t - v) as nat) as nat == t);
    lemma_pow10_add(big, (t - big) as nat);
    assert((big + (t - big) as nat) as nat == t);
    assert(pow10(big) == 10 * pow10(s.1));
    lemma_pow10_positive((t - big) as nat);
    assert((5 * c) * pow10(s.1) == s.0 * pow10(v)) by (nonlinear_arith)
        requires
            d * p == 18 * s.0 * r,
            d == 9 * c,
            pow10(t) == pow10(v) * p,
            pow10(t) == pow10(big) * r,
            pow10(big) == 10 * pow10(s.1),
            r >= 1,
    ;
    lemma_same_value_transitive(k.scalar@, fahrenheit_kelvin_exact(g), s);
}

/// Adding 32 to `1.8 * s`, held exactly in `x`, is exact where Celsius to
/// Fahrenheit cannot round.
proof fn lemma_fahrenheit_step(s: (int, nat), x: (int, nat))
    requires
        fahrenheit_fits(s),
        fits(x),
        holds_exactly(x, (s.0 * 18, s.1 + 1)),
    ensures
        aligned_fit(x, (32, 0)),
        fits(exact_sum(x, (32, 0))),
        same_value(exact_sum(x, (32, 0)), fahrenheit_exact(s)),
        exact_sum(x, (32, 0)).1 <= s.1 + 1,
{
    let t = s.1 + 1;
    let u = x.1;
    lemma_same_value_at_scale(x, s.0 * 18, t);
    let q = pow10((t - u) as nat);
    lemma_pow10_positive((t - u) as nat);
    lemma_pow10_positive(u);
    lemma_pow10_add(u, (t - u) as nat);
    assert((u + (t - u) as nat) as nat == t);
    assert(max_scale(x.1, 0) == u);
    assert(at_scale(x, u) == x.0) by {
        assert((u - x.1) as nat == 0);
    }
    assert(at_scale((32, 0), u) == 32 * pow10(u));
    let v = x.0 + 32 * pow10(u);
    let e = 18 * s.0 + 32 * pow10(t);
    let m = crate::decimal::MAX_MANTISSA as int;
    assert(v * q == e) by (nonlinear_arith)
        requires
            x.0 * q == s.0 * 18,
            pow10(t) == pow10(u) * q,
            v == x.0 + 32 * pow10(u),
            e == 18 * s.0 + 32 * pow10(t),
    ;
    assert(-m <= v <= m && 32 * pow10(u) <= m) by (nonlinear_arith)
        requires
            v * q == e,
            q >= 1,
            -m <= e <= m,
            pow10(u) >= 1,
            pow10(t) == pow10(u) * q,
            32 * pow10(t) <= m,
    ;
    assert(v * pow10(t) == e * pow10(u)) by (nonlinear_arith)
        requires
            v * q == e,
            pow10(t) == pow10(u) * q,
    ;
}

/// Taking 32 from `s` is exact where Fahrenheit to Celsius cannot round.
proof fn lemma_celsius_step(s: (int, nat))
    requires
        celsius_fits(s),
    ensures
        aligned_fit(s, (32, 0)),
        exact_difference(s, (32, 0)) == (s.0 - 32 * pow10(s.1), s.1),
        fits(exact_difference(s, (32, 0))),
{
    let t = s.1;
    let d = s.0 - 32 * pow10(t);
    assert(max_scale(t, 0) == t);
    assert(at_scale(s, t) == s.0) by {
        assert((t - s.1) as nat == 0);
    }
    let m = crate::decimal::MAX_MANTISSA as int;
    assert(-m <= d <= m) by (nonlinear_arith)
        requires
            -m <= 5 * d <= m,
    ;
}

/// Where `x` holds exactly a multiple `d` of nine at scale `v` whose five times
/// fits, `x`'s mantissa is a multiple of nine whose five times fits too, and
/// five ninths of `x` is five ninths of `d`.
proof fn lemma_five_ninths_of(x: (int, nat), d: int, v: nat, z: (int, nat))
    requires
        holds_exactly(x, (d, v)),
        fits((5 * d, v)),
        d % 9 == 0,
    ensures
        fits((5 * x.0, x.1)),
        x.0 % 9 == 0,
        same_value(z, (5 * x.0 / 9, x.1)) ==> same_value(z, (5 * d / 9, v)),
{
    lemma_same_value_at_scale(x, d, v);
    let m = crate::decimal::MAX_MANTISSA as int;
    let p = pow10((v - x.1) as nat);
    lemma_pow10_positive((v - x.1) as nat);
    assert(-m <= 5 * x.0 <= m) by (nonlinear_arith)
        requires
            x.0 * p == d,
            p >= 1,
            -m <= 5 * d <= m,
    ;
    assert((x.0 * p) % 9 == 0);
    lemma_nine_divides(x.0, (v - x.1) as nat);
    lemma_pow10_add((v - x.1) as nat, x.1);
    assert(((v - x.1) as nat + x.1) as nat == v);
    let a = x.0 / 9;
    let b = d / 9;
    assert(x.0 == 9 * a);
    assert(d == 9 * b);
    assert(a * p == b) by (nonlinear_arith)
        requires
            x.0 * p == d,
            x.0 == 9 * a,
            d == 9 * b,
    ;
    assert(5 * x.0 / 9 == 5 * a);
    assert(5 * d / 9 == 5 * b);
    assert((5 * a) * pow10(v) == (5 * b) * pow10(x.1)) by (nonlinear_arith)
        requires
            a * p == b,
            pow10(v) == p * pow10(x.1),
    ;
    if same_value(z, (5 * x.0 / 9, x.1)) {
        lemma_same_value_transitive(z, (5 * x.0 / 9, x.1), (5 * d / 9, v));
    }
}

/// `x * 5 / 9`, multiplying first so that a multiple of nine divides exactly.
fn times_five_ninths(x: &Decimal) -> (r: Option<Decimal>)
    ensures
        opt_view(r) == then_quotient(then_product(Some(x@), (5, 0)), (9, 0)),
        fits((5 * x@.0, x@.1)) && x@.0 % 9 == 0 ==> is_exact(r, (5 * x@.0 / 9, x@.1)),
{
    match outside_mul(x, &Decimal::from_parts(5, 0)) {
        Some(y) => {
            let r = outside_div(&y, &Decimal::from_parts(9, 0));
            proof {
                if fits((5 * x@.0, x@.1)) && x@.0 % 9 == 0 {
                    assert(exact_product(x@, (5, 0)) == (x@.0 * 5, x@.1));
                    lemma_five_ninths_exact(x@, y@);
                    let z = r->0;
                    let a = y@.0 / 9;
                    let b = 5 * x@.0 / 9;
                    let p = pow10((x@.1 - y@.1) as nat);
                    assert(a * p == b) by (nonlinear_arith)
                        requires
                            y@.0 * p == x@.0 * 5,
                            y@.0 == 9 * a,
                            x@.0 % 9 == 0,
                            b == 5 * x@.0 / 9,
                    ;
                    lemma_pow10_add((x@.1 - y@.1) as nat, y@.1);
                    assert(((x@.1 - y@.1) as nat + y@.1) as nat == x@.1);
                    assert(a * pow10(x@.1) == b * pow10(y@.1)) by (nonlinear_arith)
                        requires
                            a * p == b,
                            pow10(x@.1) == p * pow10(y@.1),
                    ;
                    lemma_same_value_transitive(z@, (a, y@.1), (b, x@.1));
                }
            }
            r
        },
        None => None,
    }
}

/// Multiplying a multiple of nine by five is exact, and nine divides what comes out.
proof fn lemma_five_ninths_exact(x: (int, nat), y: (int, nat))
    requires
        fits((5 * x.0, x.1)),
        x.0 % 9 == 0,
        same_value(y, (x.0 * 5, x.1)),
        y.1 <= x.1,
    ensures
        y.0 * pow10((x.1 - y.1) as nat) == x.0 * 5,
        y.0 % 9 == 0,
        y.0 == 9 * (y.0 / 9),
{
    lemma_same_value_at_scale(y, x.0 * 5, x.1);
    let p = pow10((x.1 - y.1) as nat);
    assert((y.0 * p) % 9 == 0) by (nonlinear_arith)
        requires
            y.0 * p == x.0 * 5,
            x.0 % 9 == 0,
    ;
    lemma_nine_divides(y.0, (x.1 - y.1) as nat);
}

} // verus!
