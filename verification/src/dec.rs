//! Exact decimal numbers. A `Dec` is a signed 96-bit mantissa with a power-of-ten
//! scale (0..=28), the same shape as `rust_decimal::Decimal`; every arithmetic
//! operation is performed by `rust_decimal` itself through the wrappers below.

use vstd::prelude::*;
use rust_decimal::Decimal;
use std::str::FromStr;

verus! {

/// Largest mantissa magnitude a decimal can hold: 2^96 - 1.
pub const MAX_MANTISSA: i128 = 79228162514264337593543950335i128;

/// Largest scale (number of fractional digits) a decimal can hold.
pub const MAX_SCALE: u32 = 28u32;

/// 10^n.
pub open spec fn pow10(n: nat) -> int
    decreases n,
{
    if n == 0 {
        1
    } else {
        10 * pow10((n - 1) as nat)
    }
}

pub proof fn lemma_pow10_positive(n: nat)
    ensures
        pow10(n) >= 1,
    decreases n,
{
    if n > 0 {
        lemma_pow10_positive((n - 1) as nat);
    }
}

/// An exact decimal number `mantissa / 10^scale`.
#[derive(Clone, Copy, Debug)]
pub struct Dec {
    mantissa: i128,
    scale: u32,
}

/// Whether a mantissa/scale pair is a representable decimal.
pub open spec fn pair_wf(p: (i128, u32)) -> bool {
    -MAX_MANTISSA <= p.0 <= MAX_MANTISSA && p.1 <= MAX_SCALE
}

/// The decimal that `rust_decimal` parses from a string (`Decimal::from_str`), if any.
pub uninterp spec fn decimal_from_str(s: Seq<char>) -> Option<(i128, u32)>;

/// The text that `rust_decimal` writes for a decimal (`Display`, default options).
pub uninterp spec fn decimal_display(p: (i128, u32)) -> Seq<char>;

/// `rust_decimal`'s `checked_add`.
pub uninterp spec fn decimal_checked_add(a: (i128, u32), b: (i128, u32)) -> Option<(i128, u32)>;

/// `rust_decimal`'s `checked_sub`.
pub uninterp spec fn decimal_checked_sub(a: (i128, u32), b: (i128, u32)) -> Option<(i128, u32)>;

/// `rust_decimal`'s `checked_mul`.
pub uninterp spec fn decimal_checked_mul(a: (i128, u32), b: (i128, u32)) -> Option<(i128, u32)>;

/// `rust_decimal`'s `checked_div`.
pub uninterp spec fn decimal_checked_div(a: (i128, u32), b: (i128, u32)) -> Option<(i128, u32)>;

/// `rust_decimal`'s `checked_rem`.
pub uninterp spec fn decimal_checked_rem(a: (i128, u32), b: (i128, u32)) -> Option<(i128, u32)>;

/// `rust_decimal`'s `round_dp` (banker's rounding to `dp` fractional digits).
pub uninterp spec fn decimal_round_dp(a: (i128, u32), dp: u32) -> (i128, u32);

/// The rational value of a pair, compared by cross-multiplication:
/// `a < b` as numbers.
pub open spec fn pair_lt(a: (i128, u32), b: (i128, u32)) -> bool {
    a.0 * pow10(b.1 as nat) < b.0 * pow10(a.1 as nat)
}

/// `a == b` as numbers (possibly with different scales).
pub open spec fn pair_same_value(a: (i128, u32), b: (i128, u32)) -> bool {
    a.0 * pow10(b.1 as nat) == b.0 * pow10(a.1 as nat)
}

/// The exact sum (or difference, when `negate_b`) of two pairs, written at scale
/// `max(a.1, b.1)`: the mantissa at that scale.
pub open spec fn exact_sum_mantissa(a: (i128, u32), b: (i128, u32), negate_b: bool) -> int {
    let s = if a.1 >= b.1 { a.1 } else { b.1 };
    let am = a.0 * pow10((s - a.1) as nat);
    let bm = b.0 * pow10((s - b.1) as nat);
    if negate_b { am - bm } else { am + bm }
}

/// A result pair `r` has the value `m / 10^s`.
pub open spec fn pair_has_value(r: (i128, u32), m: int, s: nat) -> bool {
    r.0 * pow10(s) == m * pow10(r.1 as nat)
}

/// When the exact sum (difference) fits at the larger scale, `r` is `Some` and holds it.
pub open spec fn sum_is_exact(a: (i128, u32), b: (i128, u32), negate_b: bool, r: Option<(i128, u32)>) -> bool {
    let s = if a.1 >= b.1 { a.1 } else { b.1 };
    let m = exact_sum_mantissa(a, b, negate_b);
    -MAX_MANTISSA <= m <= MAX_MANTISSA ==> (r matches Some(p) && pair_has_value(p, m, s as nat))
}

/// When the scales add up to at most 28 and the mantissas' product fits, `r` is
/// `Some` and holds the exact product.
pub open spec fn product_is_exact(a: (i128, u32), b: (i128, u32), r: Option<(i128, u32)>) -> bool {
    (a.1 + b.1 <= MAX_SCALE && -MAX_MANTISSA <= a.0 * b.0 <= MAX_MANTISSA) ==> (r matches Some(p)
        && pair_has_value(p, a.0 * b.0, (a.1 + b.1) as nat))
}

impl Dec {
    #[verifier::type_invariant]
    pub closed spec fn wf(self) -> bool {
        pair_wf((self.mantissa, self.scale))
    }

    /// The mantissa/scale pair of this decimal.
    pub closed spec fn pair(self) -> (i128, u32) {
        (self.mantissa, self.scale)
    }

    pub proof fn lemma_wf(self)
        requires
            self.wf(),
        ensures
            pair_wf(self.pair()),
    {
    }

    /// The signed mantissa.
    pub fn mantissa(&self) -> (r: i128)
        ensures
            r == self.pair().0,
    {
        self.mantissa
    }

    /// The scale: the number of fractional digits.
    pub fn scale(&self) -> (r: u32)
        ensures
            r == self.pair().1,
    {
        self.scale
    }

    /// Builds a decimal from a mantissa and a scale; `None` when they are out of range.
    pub fn from_parts(mantissa: i128, scale: u32) -> (r: Option<Dec>)
        ensures
            pair_wf((mantissa, scale)) <==> r is Some,
            r matches Some(d) ==> d.pair() == (mantissa, scale),
    {
        if -MAX_MANTISSA <= mantissa && mantissa <= MAX_MANTISSA && scale <= MAX_SCALE {
            Some(Dec { mantissa, scale })
        } else {
            None
        }
    }

    /// Builds a decimal from a pair known to be in range.
    pub fn from_pair(p: (i128, u32)) -> (r: Dec)
        requires
            pair_wf(p),
        ensures
            r.pair() == p,
    {
        Dec { mantissa: p.0, scale: p.1 }
    }

    /// Zero.
    pub fn zero() -> (r: Dec)
        ensures
            r.pair() == (0i128, 0u32),
    {
        Dec { mantissa: 0, scale: 0 }
    }

    /// One.
    pub fn one() -> (r: Dec)
        ensures
            r.pair() == (1i128, 0u32),
    {
        Dec { mantissa: 1, scale: 0 }
    }

    /// A whole number.
    pub fn from_u64(n: u64) -> (r: Dec)
        ensures
            r.pair() == (n as i128, 0u32),
    {
        Dec { mantissa: n as i128, scale: 0 }
    }

    /// Whether the value is zero.
    pub fn is_zero(&self) -> (r: bool)
        ensures
            r == (self.pair().0 == 0),
    {
        self.mantissa == 0
    }

    /// The negation (`-d`): the mantissa changes sign, the scale is kept.
    pub fn neg(&self) -> (r: Dec)
        ensures
            r.pair() == ((-self.pair().0) as i128, self.pair().1),
    {
        proof {
            use_type_invariant(self);
        }
        Dec { mantissa: -self.mantissa, scale: self.scale }
    }

    /// Strips trailing zeros of the fractional part and turns zero into scale 0
    /// (`Decimal::normalize`).
    pub fn normalize(&self) -> (r: Dec)
        ensures
            r.pair() == normalize_pair(self.pair()),
    {
        proof {
            use_type_invariant(self);
        }
        if self.mantissa == 0 {
            return Dec { mantissa: 0, scale: 0 };
        }
        let neg = self.mantissa < 0;
        let mut mag: u128 = if neg { (-self.mantissa) as u128 } else { self.mantissa as u128 };
        let mut s = self.scale;
        while s > 0 && mag % 10 == 0
            invariant
                mag <= MAX_MANTISSA,
                s <= MAX_SCALE,
                strip_zeros(mag as nat, s as nat) == strip_zeros(abs_int(self.mantissa as int), self.scale as nat),
            decreases s,
        {
            mag = mag / 10;
            s = s - 1;
        }
        let m: i128 = if neg { -(mag as i128) } else { mag as i128 };
        Dec { mantissa: m, scale: s }
    }
}

pub open spec fn abs_int(m: int) -> nat {
    if m < 0 { (-m) as nat } else { m as nat }
}

/// Removes trailing zero digits of a magnitude's fractional part.
pub open spec fn strip_zeros(m: nat, s: nat) -> (nat, nat)
    decreases s,
{
    if s > 0 && m % 10 == 0 {
        strip_zeros(m / 10, (s - 1) as nat)
    } else {
        (m, s)
    }
}

/// What `Decimal::normalize` makes of a pair.
pub open spec fn normalize_pair(p: (i128, u32)) -> (i128, u32) {
    if p.0 == 0 {
        (0i128, 0u32)
    } else {
        let (q, t) = strip_zeros(abs_int(p.0 as int), p.1 as nat);
        ((if p.0 < 0 { -q } else { q as int }) as i128, t as u32)
    }
}

/// Parses a decimal with `Decimal::from_str`.
#[verifier::external_body]
fn decimal_parse_raw(s: &str) -> (r: Option<(i128, u32)>)
    ensures
        r == decimal_from_str(s@),
        r matches Some(p) ==> pair_wf(p),
{
    match Decimal::from_str(s) {
        Ok(d) => Some((d.mantissa(), d.scale())),
        Err(_) => None,
    }
}

/// Writes a decimal with its `Display` implementation.
#[verifier::external_body]
fn decimal_display_raw(m: i128, s: u32) -> (r: String)
    requires
        pair_wf((m, s)),
    ensures
        r@ == decimal_display((m, s)),
{
    Decimal::from_i128_with_scale(m, s).to_string()
}

/// `Decimal::checked_add`.
///
/// Claims: a result is in range, and when the exact sum fits in 96 bits at the
/// larger of the two scales, the result is `Some` and has exactly that value.
#[verifier::external_body]
fn decimal_add_raw(a: (i128, u32), b: (i128, u32)) -> (r: Option<(i128, u32)>)
    requires
        pair_wf(a),
        pair_wf(b),
    ensures
        r == decimal_checked_add(a, b),
        r matches Some(p) ==> pair_wf(p),
        sum_is_exact(a, b, false, r),
{
    match Decimal::from_i128_with_scale(a.0, a.1).checked_add(Decimal::from_i128_with_scale(b.0, b.1)) {
        Some(d) => Some((d.mantissa(), d.scale())),
        None => None,
    }
}

/// `Decimal::checked_sub`.
///
/// Claims: a result is in range, and when the exact difference fits in 96 bits at
/// the larger of the two scales, the result is `Some` and has exactly that value.
#[verifier::external_body]
fn decimal_sub_raw(a: (i128, u32), b: (i128, u32)) -> (r: Option<(i128, u32)>)
    requires
        pair_wf(a),
        pair_wf(b),
    ensures
        r == decimal_checked_sub(a, b),
        r matches Some(p) ==> pair_wf(p),
        sum_is_exact(a, b, true, r),
{
    match Decimal::from_i128_with_scale(a.0, a.1).checked_sub(Decimal::from_i128_with_scale(b.0, b.1)) {
        Some(d) => Some((d.mantissa(), d.scale())),
        None => None,
    }
}

/// `Decimal::checked_mul`.
///
/// Claims: a result is in range, and when the scales add up to at most 28 and the
/// product of the mantissas fits in 96 bits, the result is `Some` with exactly the
/// product's value.
#[verifier::external_body]
fn decimal_mul_raw(a: (i128, u32), b: (i128, u32)) -> (r: Option<(i128, u32)>)
    requires
        pair_wf(a),
        pair_wf(b),
    ensures
        r == decimal_checked_mul(a, b),
        r matches Some(p) ==> pair_wf(p),
        product_is_exact(a, b, r),
{
    match Decimal::from_i128_with_scale(a.0, a.1).checked_mul(Decimal::from_i128_with_scale(b.0, b.1)) {
        Some(d) => Some((d.mantissa(), d.scale())),
        None => None,
    }
}

/// `Decimal::checked_div`. Claims only that a result is in range and that a zero
/// divisor gives `None`; how the quotient is rounded is left unsaid.
#[verifier::external_body]
fn decimal_div_raw(a: (i128, u32), b: (i128, u32)) -> (r: Option<(i128, u32)>)
    requires
        pair_wf(a),
        pair_wf(b),
    ensures
        r == decimal_checked_div(a, b),
        r matches Some(p) ==> pair_wf(p),
        b.0 == 0 ==> r is None,
{
    match Decimal::from_i128_with_scale(a.0, a.1).checked_div(Decimal::from_i128_with_scale(b.0, b.1)) {
        Some(d) => Some((d.mantissa(), d.scale())),
        None => None,
    }
}

/// `Decimal::checked_rem`. Claims only that a result is in range and that a zero
/// divisor gives `None`.
#[verifier::external_body]
fn decimal_rem_raw(a: (i128, u32), b: (i128, u32)) -> (r: Option<(i128, u32)>)
    requires
        pair_wf(a),
        pair_wf(b),
    ensures
        r == decimal_checked_rem(a, b),
        r matches Some(p) ==> pair_wf(p),
        b.0 == 0 ==> r is None,
{
    match Decimal::from_i128_with_scale(a.0, a.1).checked_rem(Decimal::from_i128_with_scale(b.0, b.1)) {
        Some(d) => Some((d.mantissa(), d.scale())),
        None => None,
    }
}

/// Whether `r` is `v` rounded to `k` decimal places: `v` itself when it has
/// at most `k` places, else a decimal with exactly `k` places within half a
/// unit of the `k`-th place of `v`.
pub open spec fn rounds_to_places(v: (i128, u32), r: (i128, u32), k: u32) -> bool {
    if v.1 <= k {
        r == v
    } else {
        &&& r.1 == k
        &&& 2 * abs_int(r.0 * pow10((v.1 - k) as nat) - v.0) <= pow10((v.1 - k) as nat)
    }
}

/// `Decimal::round_dp` (round half to even). Claims that the result is in
/// range, that a decimal with at most `dp` fractional digits comes back
/// unchanged, and that any other comes back with `dp` places, within half a
/// unit of the last of them (`round_dp_with_strategy` divides the mantissa by
/// the power of ten, adds one when the remainder is above half, or half with an
/// odd quotient, and keeps the sign).
#[verifier::external_body]
fn decimal_round_dp_raw(a: (i128, u32), dp: u32) -> (r: (i128, u32))
    requires
        pair_wf(a),
    ensures
        r == decimal_round_dp(a, dp),
        pair_wf(r),
        a.1 <= dp ==> r == a,
        rounds_to_places(a, r, dp),
{
    let d = Decimal::from_i128_with_scale(a.0, a.1).round_dp(dp);
    (d.mantissa(), d.scale())
}

/// `Ord for Decimal`: -1, 0 or 1 as `a` is below, equal to or above `b` in value.
#[verifier::external_body]
fn decimal_order_raw(a: (i128, u32), b: (i128, u32)) -> (r: i8)
    requires
        pair_wf(a),
        pair_wf(b),
    ensures
        r == -1 <==> pair_lt(a, b),
        r == 1 <==> pair_lt(b, a),
        r == 0 <==> pair_same_value(a, b),
{
    let x = Decimal::from_i128_with_scale(a.0, a.1);
    let y = Decimal::from_i128_with_scale(b.0, b.1);
    match x.cmp(&y) {
        std::cmp::Ordering::Less => -1,
        std::cmp::Ordering::Equal => 0,
        std::cmp::Ordering::Greater => 1,
    }
}

/// The decimal that a string parses to, as a spec value.
pub open spec fn spec_parse(s: Seq<char>) -> Option<(i128, u32)> {
    decimal_from_str(s)
}

impl Dec {
    /// Parses a decimal (`Decimal::from_str`).
    pub fn parse(s: &str) -> (r: Option<Dec>)
        ensures
            r is Some <==> decimal_from_str(s@) is Some,
            r matches Some(d) ==> d.pair() == decimal_from_str(s@)->0,
    {
        match decimal_parse_raw(s) {
            Some(p) => Some(Dec::from_pair(p)),
            None => None,
        }
    }

    /// The decimal's text (`Decimal`'s `Display`, no normalization).
    pub fn to_text(&self) -> (r: String)
        ensures
            r@ == decimal_display(self.pair()),
    {
        proof {
            use_type_invariant(self);
        }
        decimal_display_raw(self.mantissa, self.scale)
    }

    /// `self + other`; `None` on overflow.
    pub fn checked_add(&self, other: &Dec) -> (r: Option<Dec>)
        ensures
            r is Some <==> decimal_checked_add(self.pair(), other.pair()) is Some,
            r matches Some(d) ==> d.pair() == decimal_checked_add(self.pair(), other.pair())->0,
            sum_is_exact(self.pair(), other.pair(), false, decimal_checked_add(self.pair(), other.pair())),
    {
        proof {
            use_type_invariant(self);
            use_type_invariant(other);
        }
        match decimal_add_raw(self.pair_exec(), other.pair_exec()) {
            Some(p) => Some(Dec::from_pair(p)),
            None => None,
        }
    }

    /// `self - other`; `None` on overflow.
    pub fn checked_sub(&self, other: &Dec) -> (r: Option<Dec>)
        ensures
            r is Some <==> decimal_checked_sub(self.pair(), other.pair()) is Some,
            r matches Some(d) ==> d.pair() == decimal_checked_sub(self.pair(), other.pair())->0,
            sum_is_exact(self.pair(), other.pair(), true, decimal_checked_sub(self.pair(), other.pair())),
    {
        proof {
            use_type_invariant(self);
            use_type_invariant(other);
        }
        match decimal_sub_raw(self.pair_exec(), other.pair_exec()) {
            Some(p) => Some(Dec::from_pair(p)),
            None => None,
        }
    }

    /// `self * other`; `None` on overflow.
    pub fn checked_mul(&self, other: &Dec) -> (r: Option<Dec>)
        ensures
            r is Some <==> decimal_checked_mul(self.pair(), other.pair()) is Some,
            r matches Some(d) ==> d.pair() == decimal_checked_mul(self.pair(), other.pair())->0,
            product_is_exact(self.pair(), other.pair(), decimal_checked_mul(self.pair(), other.pair())),
    {
        proof {
            use_type_invariant(self);
            use_type_invariant(other);
        }
        match decimal_mul_raw(self.pair_exec(), other.pair_exec()) {
            Some(p) => Some(Dec::from_pair(p)),
            None => None,
        }
    }

    /// `self / other`; `None` on a zero divisor or overflow.
    pub fn checked_div(&self, other: &Dec) -> (r: Option<Dec>)
        ensures
            r is Some <==> decimal_checked_div(self.pair(), other.pair()) is Some,
            r matches Some(d) ==> d.pair() == decimal_checked_div(self.pair(), other.pair())->0,
    {
        proof {
            use_type_invariant(self);
            use_type_invariant(other);
        }
        match decimal_div_raw(self.pair_exec(), other.pair_exec()) {
            Some(p) => Some(Dec::from_pair(p)),
            None => None,
        }
    }

    /// `self % other`; `None` on a zero divisor or overflow.
    pub fn checked_rem(&self, other: &Dec) -> (r: Option<Dec>)
        ensures
            r is Some <==> decimal_checked_rem(self.pair(), other.pair()) is Some,
            r matches Some(d) ==> d.pair() == decimal_checked_rem(self.pair(), other.pair())->0,
    {
        proof {
            use_type_invariant(self);
            use_type_invariant(other);
        }
        match decimal_rem_raw(self.pair_exec(), other.pair_exec()) {
            Some(p) => Some(Dec::from_pair(p)),
            None => None,
        }
    }

    /// Rounds to `dp` fractional digits, ties to even.
    pub fn round_dp(&self, dp: u32) -> (r: Dec)
        ensures
            r.pair() == decimal_round_dp(self.pair(), dp),
            rounds_to_places(self.pair(), r.pair(), dp),
    {
        proof {
            use_type_invariant(self);
        }
        Dec::from_pair(decimal_round_dp_raw(self.pair_exec(), dp))
    }

    /// Compares two decimals by value: -1, 0 or 1.
    pub fn compare(&self, other: &Dec) -> (r: i8)
        ensures
            r == -1 <==> pair_lt(self.pair(), other.pair()),
            r == 1 <==> pair_lt(other.pair(), self.pair()),
            r == 0 <==> pair_same_value(self.pair(), other.pair()),
    {
        proof {
            use_type_invariant(self);
            use_type_invariant(other);
        }
        decimal_order_raw(self.pair_exec(), other.pair_exec())
    }

    fn pair_exec(&self) -> (r: (i128, u32))
        ensures
            r == self.pair(),
            pair_wf(r),
    {
        proof {
            use_type_invariant(self);
        }
        (self.mantissa, self.scale)
    }

    /// Whether two decimals have the same value.
    pub fn same_value(&self, other: &Dec) -> (r: bool)
        ensures
            r == pair_same_value(self.pair(), other.pair()),
    {
        self.compare(other) == 0
    }
}

} // verus!
