//! A decimal number held as plain values: a signed mantissa and a scale, so
//! that its value is `mantissa / 10^scale`. The arithmetic itself is done by
//! `rust_decimal`, whose representation this type mirrors.

use vstd::prelude::*;

verus! {

/// Largest magnitude of a mantissa: 2^96 - 1.
pub const MAX_MANTISSA: i128 = 0xFFFF_FFFF_FFFF_FFFF_FFFF_FFFF;

/// Largest scale, i.e. the most digits after the decimal point.
pub const MAX_SCALE: u32 = 28;

/// Ten to the power `n`.
pub open spec fn pow10(n: nat) -> int
    decreases n,
{
    if n == 0 {
        1
    } else {
        10 * pow10((n - 1) as nat)
    }
}

/// A mantissa and a scale that a decimal can hold.
pub open spec fn fits(d: (int, nat)) -> bool {
    -(MAX_MANTISSA as int) <= d.0 <= MAX_MANTISSA as int && d.1 <= MAX_SCALE as nat
}

/// `a` and `b` stand for the same number (`1.50` and `1.5`, `0` and `0.000`).
pub open spec fn same_value(a: (int, nat), b: (int, nat)) -> bool {
    a.0 * pow10(b.1) == b.0 * pow10(a.1)
}

/// The mantissa of `d` written at scale `s`, where `s` is at least `d`'s scale.
pub open spec fn at_scale(d: (int, nat), s: nat) -> int {
    d.0 * pow10((s - d.1) as nat)
}

/// The larger of two scales.
pub open spec fn max_scale(a: nat, b: nat) -> nat {
    if a >= b {
        a
    } else {
        b
    }
}

/// `d` with its trailing zero digits after the point removed, and zero at scale 0.
pub open spec fn normal_form(d: (int, nat)) -> (int, nat)
    decreases d.1,
{
    if d.0 == 0 {
        (0, 0)
    } else if d.1 > 0 && d.0 % 10 == 0 {
        normal_form((d.0 / 10, (d.1 - 1) as nat))
    } else {
        d
    }
}

pub proof fn lemma_pow10_positive(n: nat)
    ensures
        pow10(n) >= 1,
    decreases n,
{
    if n > 0 {
        lemma_pow10_positive((n - 1) as nat);
    }
}

pub proof fn lemma_pow10_add(a: nat, b: nat)
    ensures
        pow10(a + b) == pow10(a) * pow10(b),
    decreases a,
{
    if a > 0 {
        lemma_pow10_add((a - 1) as nat, b);
        assert(pow10(a + b) == 10 * pow10((a - 1 + b) as nat));
        assert(10 * (pow10((a - 1) as nat) * pow10(b)) == (10 * pow10((a - 1) as nat)) * pow10(b))
            by (nonlinear_arith);
    }
}

/// Writing `d` at scale `t` is writing it at the smaller scale `u` and then
/// shifting by `t - u` places.
pub proof fn lemma_at_scale_split(d: (int, nat), u: nat, t: nat)
    requires
        d.1 <= u <= t,
    ensures
        at_scale(d, t) == at_scale(d, u) * pow10((t - u) as nat),
{
    lemma_pow10_add((u - d.1) as nat, (t - u) as nat);
    assert(((u - d.1) as nat + (t - u) as nat) as nat == (t - d.1) as nat);
    assert(d.0 * (pow10((u - d.1) as nat) * pow10((t - u) as nat)) == (d.0 * pow10(
        (u - d.1) as nat,
    )) * pow10((t - u) as nat)) by (nonlinear_arith);
}

/// A number that stands for `(e, t)` and has a scale no larger than `t` reads
/// `e` once written at scale `t`.
pub proof fn lemma_same_value_at_scale(k: (int, nat), e: int, t: nat)
    requires
        same_value(k, (e, t)),
        k.1 <= t,
    ensures
        at_scale(k, t) == e,
{
    let p = pow10((t - k.1) as nat);
    let q = pow10(k.1);
    lemma_pow10_add((t - k.1) as nat, k.1);
    assert(((t - k.1) as nat + k.1) as nat == t);
    lemma_pow10_positive(k.1);
    assert(k.0 * (p * q) == e * q);
    assert((k.0 * p) * q == e * q) by (nonlinear_arith)
        requires
            k.0 * (p * q) == e * q,
    ;
    assert(k.0 * p == e) by (nonlinear_arith)
        requires
            (k.0 * p) * q == e * q,
            q >= 1,
    ;
}

/// Every power of ten leaves one over after division by nine.
proof fn lemma_pow10_mod9(n: nat)
    ensures
        pow10(n) % 9 == 1,
    decreases n,
{
    if n > 0 {
        lemma_pow10_mod9((n - 1) as nat);
        let a = pow10((n - 1) as nat);
        let j = a / 9;
        assert(a == 9 * j + 1);
        assert(10 * a == 9 * (10 * j + 1) + 1) by (nonlinear_arith)
            requires
                a == 9 * j + 1,
        ;
    }
}

/// Nine divides `y` where it divides `y` shifted by `k` places.
pub proof fn lemma_nine_divides(y: int, k: nat)
    requires
        (y * pow10(k)) % 9 == 0,
    ensures
        y % 9 == 0,
{
    lemma_pow10_mod9(k);
    let p = pow10(k);
    let j = p / 9;
    let i = (y * p) / 9;
    assert(p == 9 * j + 1);
    assert(y * p == 9 * i);
    assert(y == 9 * (i - y * j)) by (nonlinear_arith)
        requires
            p == 9 * j + 1,
            y * p == 9 * i,
    ;
}

/// `same_value` is transitive.
pub proof fn lemma_same_value_transitive(a: (int, nat), b: (int, nat), c: (int, nat))
    requires
        same_value(a, b),
        same_value(b, c),
    ensures
        same_value(a, c),
{
    let pa = pow10(a.1);
    let pb = pow10(b.1);
    let pc = pow10(c.1);
    lemma_pow10_positive(b.1);
    assert(a.0 * pc * pb == c.0 * pa * pb) by (nonlinear_arith)
        requires
            a.0 * pb == b.0 * pa,
            b.0 * pc == c.0 * pb,
    ;
    assert(a.0 * pc == c.0 * pa) by (nonlinear_arith)
        requires
            a.0 * pc * pb == c.0 * pa * pb,
            pb >= 1,
    ;
}

/// Adding `sign * b` to `a` exactly, then adding `-sign * b` to what came out,
/// gives `a` back exactly; where the first step's operands and result fit at
/// its scale, so do the second step's.
pub proof fn lemma_shift_back(a: (int, nat), b: (int, nat), k: (int, nat), sign: int)
    requires
        sign == 1 || sign == -1,
        aligned_fit(a, b),
        fits(
            (
                at_scale(a, max_scale(a.1, b.1)) + sign * at_scale(b, max_scale(a.1, b.1)),
                max_scale(a.1, b.1),
            ),
        ),
        same_value(
            k,
            (
                at_scale(a, max_scale(a.1, b.1)) + sign * at_scale(b, max_scale(a.1, b.1)),
                max_scale(a.1, b.1),
            ),
        ),
        k.1 <= max_scale(a.1, b.1),
    ensures
        aligned_fit(k, b),
        fits(
            (
                at_scale(k, max_scale(k.1, b.1)) - sign * at_scale(b, max_scale(k.1, b.1)),
                max_scale(k.1, b.1),
            ),
        ),
        same_value(
            (
                at_scale(k, max_scale(k.1, b.1)) - sign * at_scale(b, max_scale(k.1, b.1)),
                max_scale(k.1, b.1),
            ),
            a,
        ),
{
    let t = max_scale(a.1, b.1);
    let u = max_scale(k.1, b.1);
    let p = pow10((t - u) as nat);
    let big_a = at_scale(a, t);
    let e = big_a + sign * at_scale(b, t);
    let d = at_scale(k, u) - sign * at_scale(b, u);
    lemma_same_value_at_scale(k, e, t);
    lemma_at_scale_split(k, u, t);
    lemma_at_scale_split(b, u, t);
    lemma_pow10_positive((t - u) as nat);
    assert(d * p == big_a) by (nonlinear_arith)
        requires
            at_scale(k, t) == e,
            e == big_a + sign * at_scale(b, t),
            at_scale(k, t) == at_scale(k, u) * p,
            at_scale(b, t) == at_scale(b, u) * p,
            d == at_scale(k, u) - sign * at_scale(b, u),
    ;
    let m = MAX_MANTISSA as int;
    assert(-m <= at_scale(k, u) <= m) by (nonlinear_arith)
        requires
            at_scale(k, u) * p == e,
            p >= 1,
            -m <= e <= m,
    ;
    assert(-m <= at_scale(b, u) <= m) by (nonlinear_arith)
        requires
            at_scale(b, u) * p == at_scale(b, t),
            p >= 1,
            -m <= at_scale(b, t) <= m,
    ;
    assert(-(MAX_MANTISSA as int) <= d <= MAX_MANTISSA as int) by (nonlinear_arith)
        requires
            d * p == big_a,
            p >= 1,
            -(MAX_MANTISSA as int) <= big_a <= MAX_MANTISSA as int,
    ;
    // d * 10^a.1 and a.0 * 10^u agree once both are shifted by t - u places.
    let pa = pow10(a.1);
    let pu = pow10(u);
    lemma_pow10_add((t - a.1) as nat, a.1);
    assert(((t - a.1) as nat + a.1) as nat == t);
    lemma_pow10_add(u, (t - u) as nat);
    assert((u + (t - u) as nat) as nat == t);
    assert(big_a == a.0 * pow10((t - a.1) as nat));
    assert((d * pa) * p == (a.0 * pu) * p) by (nonlinear_arith)
        requires
            d * p == a.0 * pow10((t - a.1) as nat),
            pow10(t) == pow10((t - a.1) as nat) * pa,
            pow10(t) == pu * p,
    ;
    assert(d * pa == a.0 * pu) by (nonlinear_arith)
        requires
            (d * pa) * p == (a.0 * pu) * p,
            p >= 1,
    ;
}

/// What `rust_decimal` gives for `a + b`, `None` on overflow.
pub uninterp spec fn decimal_sum(a: (int, nat), b: (int, nat)) -> Option<(int, nat)>;

/// What `rust_decimal` gives for `a - b`, `None` on overflow.
pub uninterp spec fn decimal_difference(a: (int, nat), b: (int, nat)) -> Option<(int, nat)>;

/// What `rust_decimal` gives for `a * b`, rounded to what a decimal holds; `None` on overflow.
pub uninterp spec fn decimal_product(a: (int, nat), b: (int, nat)) -> Option<(int, nat)>;

/// What `rust_decimal` gives for `a / b`, rounded to what a decimal holds; `None` on
/// overflow or division by zero.
pub uninterp spec fn decimal_quotient(a: (int, nat), b: (int, nat)) -> Option<(int, nat)>;

/// The decimal that `rust_decimal` reads from the text `s`, if it accepts it.
pub uninterp spec fn parsed_decimal(s: Seq<char>) -> Option<(int, nat)>;

/// The message of the error that `rust_decimal` reports on text it cannot read.
pub uninterp spec fn decimal_parse_error(s: Seq<char>) -> Seq<char>;

/// The text that `rust_decimal` writes for a decimal.
pub uninterp spec fn decimal_text(d: (int, nat)) -> Seq<char>;

/// A decimal number: `mantissa / 10^scale`. Its invariant keeps the mantissa
/// and the scale in the range that `rust_decimal` holds, so every value turns
/// into a `rust_decimal::Decimal` without a panic.
#[derive(Clone, Copy, Debug)]
pub struct Decimal {
    mantissa: i128,
    scale: u32,
}

impl View for Decimal {
    type V = (int, nat);

    closed spec fn view(&self) -> (int, nat) {
        (self.mantissa as int, self.scale as nat)
    }
}

impl Decimal {
    #[verifier::type_invariant]
    spec fn inv(&self) -> bool {
        fits(self@)
    }

    /// The decimal `mantissa / 10^scale`, if a decimal can hold it.
    pub fn new(mantissa: i128, scale: u32) -> (r: Option<Decimal>)
        ensures
            r is Some <==> fits((mantissa as int, scale as nat)),
            r matches Some(d) ==> d@ == (mantissa as int, scale as nat),
    {
        if -MAX_MANTISSA <= mantissa && mantissa <= MAX_MANTISSA && scale <= MAX_SCALE {
            Some(Decimal { mantissa, scale })
        } else {
            None
        }
    }

    /// The decimal `mantissa / 10^scale`.
    pub fn from_parts(mantissa: i128, scale: u32) -> (r: Decimal)
        requires
            fits((mantissa as int, scale as nat)),
        ensures
            r@ == (mantissa as int, scale as nat),
    {
        Decimal { mantissa, scale }
    }

    /// The mantissa, with the sign of the number.
    pub fn mantissa(&self) -> (r: i128)
        ensures
            r as int == self@.0,
    {
        self.mantissa
    }

    /// The number of digits after the decimal point.
    pub fn scale(&self) -> (r: u32)
        ensures
            r as nat == self@.1,
    {
        self.scale
    }
}

impl PartialEq for Decimal {
    fn eq(&self, other: &Decimal) -> (r: bool) {
        outside_eq(self, other)
    }
}

impl vstd::std_specs::cmp::PartialEqSpecImpl for Decimal {
    open spec fn obeys_eq_spec() -> bool {
        true
    }

    open spec fn eq_spec(&self, other: &Decimal) -> bool {
        same_value(self@, other@)
    }
}

/// `o` seen as the mantissa and scale it holds.
pub open spec fn opt_view(o: Option<Decimal>) -> Option<(int, nat)> {
    match o {
        Some(d) => Some(d@),
        None => None,
    }
}

/// `a` and `b` both fit once written at the larger of their scales.
pub open spec fn aligned_fit(a: (int, nat), b: (int, nat)) -> bool {
    let s = max_scale(a.1, b.1);
    fits((at_scale(a, s), s)) && fits((at_scale(b, s), s))
}

/// `a + b` written exactly at the larger of the two scales.
pub open spec fn exact_sum(a: (int, nat), b: (int, nat)) -> (int, nat) {
    let s = max_scale(a.1, b.1);
    (at_scale(a, s) + at_scale(b, s), s)
}

/// `a - b` written exactly at the larger of the two scales.
pub open spec fn exact_difference(a: (int, nat), b: (int, nat)) -> (int, nat) {
    let s = max_scale(a.1, b.1);
    (at_scale(a, s) - at_scale(b, s), s)
}

/// `a * b` written exactly at the sum of the scales.
pub open spec fn exact_product(a: (int, nat), b: (int, nat)) -> (int, nat) {
    (a.0 * b.0, a.1 + b.1)
}

/// `b` is a positive whole number below 2^32 that divides `a`'s mantissa.
pub open spec fn divides_exactly(a: (int, nat), b: (int, nat)) -> bool {
    b.1 == 0 && 0 < b.0 < 0x1_0000_0000 && a.0 % b.0 == 0
}

/// `r` holds the number `e`, at a scale no larger than `e`'s.
pub open spec fn is_exact(r: Option<Decimal>, e: (int, nat)) -> bool {
    match r {
        Some(x) => same_value(x@, e) && x@.1 <= e.1,
        None => false,
    }
}

/// Relies on `PartialEq for rust_decimal::Decimal`: equal numbers compare equal,
/// whatever their scales.
#[verifier::external_body]
fn outside_eq(a: &Decimal, b: &Decimal) -> (r: bool)
    ensures
        r == same_value(a@, b@),
{
    rust_decimal::Decimal::from_i128_with_scale(a.mantissa, a.scale) == rust_decimal::Decimal::from_i128_with_scale(b.mantissa, b.scale)
}

/// Relies on `Decimal::checked_add`: the sum, or `None` on overflow. Where both
/// operands and their sum fit in a mantissa at the larger scale, the sum comes
/// out exact, at no larger scale.
#[verifier::external_body]
pub(crate) fn outside_add(a: &Decimal, b: &Decimal) -> (r: Option<Decimal>)
    ensures
        r matches Some(x) ==> fits(x@),
        opt_view(r) == decimal_sum(a@, b@),
        aligned_fit(a@, b@) && fits(exact_sum(a@, b@)) ==> is_exact(r, exact_sum(a@, b@)),
{
    let x = rust_decimal::Decimal::from_i128_with_scale(a.mantissa, a.scale);
    let y = rust_decimal::Decimal::from_i128_with_scale(b.mantissa, b.scale);
    x.checked_add(y).map(|n| Decimal { mantissa: n.mantissa(), scale: n.scale() })
}

/// Relies on `Decimal::checked_sub`: the difference, or `None` on overflow.
/// Where both operands and their difference fit in a mantissa at the larger
/// scale, the difference comes out exact, at no larger scale.
#[verifier::external_body]
pub(crate) fn outside_sub(a: &Decimal, b: &Decimal) -> (r: Option<Decimal>)
    ensures
        r matches Some(x) ==> fits(x@),
        opt_view(r) == decimal_difference(a@, b@),
        aligned_fit(a@, b@) && fits(exact_difference(a@, b@)) ==> is_exact(
            r,
            exact_difference(a@, b@),
        ),
{
    let x = rust_decimal::Decimal::from_i128_with_scale(a.mantissa, a.scale);
    let y = rust_decimal::Decimal::from_i128_with_scale(b.mantissa, b.scale);
    x.checked_sub(y).map(|n| Decimal { mantissa: n.mantissa(), scale: n.scale() })
}

/// Relies on `Decimal::checked_mul`: the product, rounded where it needs more
/// digits than a decimal holds; `None` on overflow. Where the product of the
/// mantissas fits at the sum of the scales, the product comes out exact (zero
/// at scale 0).
#[verifier::external_body]
pub(crate) fn outside_mul(a: &Decimal, b: &Decimal) -> (r: Option<Decimal>)
    ensures
        r matches Some(x) ==> fits(x@),
        opt_view(r) == decimal_product(a@, b@),
        fits(exact_product(a@, b@)) ==> is_exact(r, exact_product(a@, b@)),
{
    let x = rust_decimal::Decimal::from_i128_with_scale(a.mantissa, a.scale);
    let y = rust_decimal::Decimal::from_i128_with_scale(b.mantissa, b.scale);
    x.checked_mul(y).map(|n| Decimal { mantissa: n.mantissa(), scale: n.scale() })
}

/// Relies on `Decimal::checked_div`: the quotient, rounded to what a decimal
/// holds; `None` on overflow or division by zero. A whole divisor below 2^32
/// that divides the dividend's mantissa gives the quotient of the mantissas at
/// the dividend's scale (zero at scale 0).
#[verifier::external_body]
pub(crate) fn outside_div(a: &Decimal, b: &Decimal) -> (r: Option<Decimal>)
    ensures
        r matches Some(x) ==> fits(x@),
        opt_view(r) == decimal_quotient(a@, b@),
        divides_exactly(a@, b@) ==> is_exact(r, (a@.0 / b@.0, a@.1)),
{
    let x = rust_decimal::Decimal::from_i128_with_scale(a.mantissa, a.scale);
    let y = rust_decimal::Decimal::from_i128_with_scale(b.mantissa, b.scale);
    x.checked_div(y).map(|n| Decimal { mantissa: n.mantissa(), scale: n.scale() })
}

/// Relies on `FromStr for rust_decimal::Decimal`: reads a decimal from text,
/// and on `Display for rust_decimal::Error` for the message of a failure.
#[verifier::external_body]
pub(crate) fn outside_parse(s: &str) -> (r: Result<Decimal, String>)
    ensures
        match r {
            Ok(d) => parsed_decimal(s@) == Some(d@),
            Err(m) => parsed_decimal(s@) is None && m@ == decimal_parse_error(s@),
        },
{
    let parsed = <rust_decimal::Decimal as std::str::FromStr>::from_str(s);
    parsed.map(|n| Decimal { mantissa: n.mantissa(), scale: n.scale() }).map_err(|e| e.to_string())
}

/// Relies on `Display for rust_decimal::Decimal`: the decimal written as text.
#[verifier::external_body]
pub(crate) fn outside_text(d: &Decimal) -> (r: String)
    ensures
        r@ == decimal_text(d@),
{
    rust_decimal::Decimal::from_i128_with_scale(d.mantissa, d.scale).to_string()
}

/// Relies on `Decimal::normalize`: strips trailing zeros and turns -0 into 0.
#[verifier::external_body]
pub(crate) fn outside_normalize(d: &Decimal) -> (r: Decimal)
    ensures
        r@ == normal_form(d@),
{
    let n = rust_decimal::Decimal::from_i128_with_scale(d.mantissa, d.scale).normalize();
    Decimal { mantissa: n.mantissa(), scale: n.scale() }
}

} // verus!
