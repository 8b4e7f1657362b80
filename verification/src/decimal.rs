//! Exact decimals as plain values: an integer and the number of digits behind
//! the point. The arithmetic is that of `rust_decimal::Decimal`.

use rust_decimal::prelude::{FromStr, ToPrimitive};
use rust_decimal::Decimal;
use vstd::arithmetic::power::pow;
use vstd::prelude::*;

use crate::text;

verus! {

/// Least magnitude that does not fit into 96 bits.
pub const MANTISSA_LIMIT: i128 = 79_228_162_514_264_337_593_543_950_336;

/// Most digits behind the point.
pub const MAX_SCALE: u32 = 28;

/// The number `mantissa / 10^scale`.
#[derive(Debug, Clone, Copy, PartialEq, Eq, Structural)]
pub struct Dec {
    pub mantissa: i128,
    pub scale: u32,
}

/// The number of this magnitude and scale can be held.
pub open spec fn holds(mantissa: int, scale: int) -> bool {
    -MANTISSA_LIMIT < mantissa < MANTISSA_LIMIT && 0 <= scale <= MAX_SCALE
}

impl Dec {
    pub open spec fn wf(self) -> bool {
        holds(self.mantissa as int, self.scale as int)
    }

    /// Reads a decimal.
    pub fn parse(s: &str) -> (r: Option<Dec>)
        ensures
            parts(r) == decimal_of(s@),
            r matches Some(d) ==> d.wf(),
    {
        read_decimal(s)
    }
}

/// The last `k` digits of `n`, zeros included.
pub open spec fn padded(n: nat, k: nat) -> Seq<char>
    decreases k,
{
    if k == 0 {
        seq![]
    } else {
        padded(n / 10, (k - 1) as nat).push(text::digit(n % 10))
    }
}

/// A decimal in writing: a sign where it is negative, the whole part, and all
/// digits behind the point.
pub open spec fn decimal_text(mantissa: int, scale: nat) -> Seq<char> {
    let n = (if mantissa < 0 {
        -mantissa
    } else {
        mantissa
    }) as nat;
    let unit = pow(10, scale) as nat;
    let digits = if scale == 0 {
        text::decimal(n)
    } else {
        text::decimal(n / unit) + seq!['.'] + padded(n % unit, scale)
    };
    if mantissa < 0 {
        seq!['-'] + digits
    } else {
        digits
    }
}

/// What a text reads as.
pub uninterp spec fn decimal_of(text: Seq<char>) -> Option<(int, nat)>;

/// Quotient of two decimals, each given by mantissa and scale.
pub uninterp spec fn quotient_of(am: int, sa: nat, bm: int, sb: nat) -> Option<(int, nat)>;

/// The plain values of an optional decimal.
pub open spec fn parts(d: Option<Dec>) -> Option<(int, nat)> {
    match d {
        Some(x) => Some((x.mantissa as int, x.scale as nat)),
        None => None,
    }
}

/// Reads a decimal: `Decimal::from_str`. What a text reads as is given a name.
/// A number in the writing of `decimal_text` reads as itself.
#[verifier::external_body]
pub(crate) fn read_decimal(s: &str) -> (r: Option<Dec>)
    ensures
        parts(r) == decimal_of(s@),
        r matches Some(d) ==> d.wf(),
        forall|m: int, k: nat|
            holds(m, k as int) && s@ == #[trigger] decimal_text(m, k) ==> parts(r) == Some((m, k)),
{
    match Decimal::from_str(s) {
        Ok(d) => Some(Dec { mantissa: d.mantissa(), scale: d.scale() }),
        Err(_) => None,
    }
}

/// The same number without trailing zeros: `Decimal::normalize`.
#[verifier::external_body]
pub(crate) fn normalize(d: Dec) -> (r: Dec)
    requires
        d.wf(),
    ensures
        r.wf(),
        r.scale <= d.scale,
        d.mantissa == r.mantissa * pow(10, (d.scale - r.scale) as nat),
        d.mantissa == 0 ==> r.scale == 0,
        r.scale > 0 ==> r.mantissa as int % 10 != 0,
{
    let n = Decimal::from_i128_with_scale(d.mantissa, d.scale).normalize();
    Dec { mantissa: n.mantissa(), scale: n.scale() }
}

/// An integer times a decimal: `Decimal::mul` on `Decimal::from(i64)`. The
/// product is exact where its magnitude fits; zero has no digits behind the
/// point.
#[verifier::external_body]
pub(crate) fn times(t: i64, d: Dec) -> (r: Dec)
    requires
        d.wf(),
        holds(t * d.mantissa, d.scale as int),
    ensures
        r.mantissa == t * d.mantissa,
        r.scale == (if t * d.mantissa == 0 {
            0u32
        } else {
            d.scale
        }),
{
    let n = Decimal::from(t) * Decimal::from_i128_with_scale(d.mantissa, d.scale);
    Dec { mantissa: n.mantissa(), scale: n.scale() }
}

/// A decimal with at most `dp` digits behind the point, rounded to `dp` digits:
/// `Decimal::round_dp`, which returns it as it is.
#[verifier::external_body]
pub(crate) fn round_dp(d: Dec, dp: u32) -> (r: Dec)
    requires
        d.wf(),
        d.scale <= dp,
    ensures
        r == d,
{
    let n = Decimal::from_i128_with_scale(d.mantissa, d.scale).round_dp(dp);
    Dec { mantissa: n.mantissa(), scale: n.scale() }
}

/// A decimal in writing: the `Display` of `Decimal`.
#[verifier::external_body]
pub(crate) fn write_decimal(d: Dec) -> (r: String)
    requires
        d.wf(),
    ensures
        r@ == decimal_text(d.mantissa as int, d.scale as nat),
{
    Decimal::from_i128_with_scale(d.mantissa, d.scale).to_string()
}

/// Quotient: `Decimal::checked_div`. It is given a name. A multiple of a divisor
/// of at most 32 bits, both with the same scale, divides without a remainder.
#[verifier::external_body]
pub(crate) fn divide(a: Dec, b: Dec) -> (r: Option<Dec>)
    requires
        a.wf(),
        b.wf(),
    ensures
        parts(r) == quotient_of(
            a.mantissa as int,
            a.scale as nat,
            b.mantissa as int,
            b.scale as nat,
        ),
        r matches Some(q) ==> q.wf(),
        forall|k: int|
            0 < b.mantissa <= u32::MAX && a.scale == b.scale && a.mantissa == #[trigger] (k
                * b.mantissa) ==> parts(r) == Some((k, 0nat)),
        a.mantissa == 0 && b.mantissa != 0 ==> parts(r) == Some((0int, 0nat)),
{
    let x = Decimal::from_i128_with_scale(a.mantissa, a.scale);
    let y = Decimal::from_i128_with_scale(b.mantissa, b.scale);
    x.checked_div(y).map(|q| Dec { mantissa: q.mantissa(), scale: q.scale() })
}

/// `n / d` rounded to the nearest integer, a half to the even one.
pub open spec fn half_even(n: nat, d: nat) -> nat {
    let q = n / d;
    let r = n % d;
    if 2 * r > d || (2 * r == d && q % 2 == 1) {
        q + 1
    } else {
        q
    }
}

/// A decimal rounded to an integer, by magnitude.
pub open spec fn rounded(mantissa: int, scale: nat) -> int {
    if mantissa < 0 {
        -(half_even((-mantissa) as nat, pow(10, scale) as nat) as int)
    } else {
        half_even(mantissa as nat, pow(10, scale) as nat) as int
    }
}

/// The nearest integer: `Decimal::round`.
#[verifier::external_body]
pub(crate) fn round(d: Dec) -> (r: Dec)
    requires
        d.wf(),
    ensures
        r.wf(),
        r.scale == 0,
        r.mantissa == rounded(d.mantissa as int, d.scale as nat),
{
    let n = Decimal::from_i128_with_scale(d.mantissa, d.scale).round();
    Dec { mantissa: n.mantissa(), scale: n.scale() }
}

/// A whole number as an `i64`, where it fits: `Decimal::to_i64`.
#[verifier::external_body]
pub(crate) fn to_i64(d: Dec) -> (r: Option<i64>)
    requires
        d.wf(),
        d.scale == 0,
    ensures
        r == (if i64::MIN <= d.mantissa <= i64::MAX {
            Some(d.mantissa as i64)
        } else {
            None
        }),
{
    Decimal::from_i128_with_scale(d.mantissa, d.scale).to_i64()
}

/// The whole number nearest to a quotient is off by at most a half, and a half goes
/// to the even one; it does not depend on the sign.
pub proof fn numbers_are_rounded_to_the_nearest(n: nat, d: nat, m: int, k: nat)
    requires
        d > 0,
    ensures
        ({
            let q = half_even(n, d);
            &&& -(d as int) <= 2 * (q * d - n) <= d
            &&& 2 * (q * d - n) == d || 2 * (q * d - n) == -(d as int) ==> q % 2 == 0
        }),
        rounded(-m, k) == -rounded(m, k),
        m >= 0 ==> rounded(m, k) == half_even(m as nat, pow(10, k) as nat),
        m >= 0 ==> rounded(m, 0) == m,
{
    let q0 = n / d;
    let r = n % d;
    let q = half_even(n, d);
    assert(n == q0 * d + r && 0 <= r < d) by (nonlinear_arith)
        requires
            d > 0,
            q0 == n / d,
            r == n % d,
    ;
    assert((q0 + 1) * d == q0 * d + d) by (nonlinear_arith);
    reveal_with_fuel(pow, 1);
    assert(pow(10, 0) == 1);
    vstd::arithmetic::power::lemma_pow_positive(10, k);
    if m == 0 {
        let u = pow(10, k) as nat;
        assert(0nat / u == 0 && 0nat % u == 0) by (nonlinear_arith)
            requires
                u > 0,
        ;
    }
}

/// The digits behind the point have the written length and give the number back.
pub proof fn padded_digits_read_back(n: nat, k: nat)
    ensures
        padded(n, k).len() == k,
        n < pow(10, k) ==> text::read_decimal(padded(n, k)) == n,
    decreases k,
{
    reveal_with_fuel(pow, 2);
    if k > 0 {
        padded_digits_read_back(n / 10, (k - 1) as nat);
        assert(padded(n, k).drop_last() =~= padded(n / 10, (k - 1) as nat));
        assert(text::digit(n % 10) as int == 48 + n % 10);
        assert(pow(10, k) == 10 * pow(10, (k - 1) as nat));
    } else {
        assert(pow(10, 0) == 1);
    }
}

} // verus!
