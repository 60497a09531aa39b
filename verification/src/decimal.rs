use vstd::prelude::*;

use vstd::arithmetic::mul::lemma_mul_inequality;

verus! {

/// Exact fixed-point money arithmetic: a `Decimal` stores an amount as an
/// integer count of 10^-9 units, so every amount with at most nine fractional
/// digits is represented exactly and arithmetic never drifts.
pub const FRAC_UNIT: i128 = 1_000_000_000;

/// The unit of the display scale: two fractional digits.
pub const DISPLAY_UNIT: i128 = 10_000_000;

/// Largest magnitude an amount may take: 10^18 whole units.
pub const MAX_UNITS: i128 = 1_000_000_000_000_000_000_000_000_000;

/// Whether a mathematical amount (counted in 10^-9 units) is representable.
pub open spec fn fits(v: int) -> bool {
    -(MAX_UNITS as int) <= v <= MAX_UNITS as int
}

/// Division rounded to the nearest integer, ties away from zero.
/// Meaningful for `d != 0`.
pub open spec fn half_up_div(n: int, d: int) -> int {
    let m = (vstd::math::abs(n) + vstd::math::abs(d) / 2) as int / vstd::math::abs(d) as int;
    if (n >= 0) == (d >= 0) {
        m
    } else {
        -m
    }
}

/// An amount rounded to two fractional digits, half away from zero.
pub open spec fn rounded_display(v: int) -> int {
    half_up_div(v, DISPLAY_UNIT as int) * (DISPLAY_UNIT as int)
}

pub open spec fn pow10(n: nat) -> int
    decreases n,
{
    if n == 0 {
        1
    } else {
        10 * pow10((n - 1) as nat)
    }
}

/// An exact decimal amount: `units` counts 10^-9 fractions of the unit.
#[derive(Clone, Copy, Debug, PartialEq, Eq, Structural)]
pub struct Decimal {
    pub units: i128,
}

/// What a decimal built from a mantissa and a fractional-digit count holds:
/// the amount `mantissa * 10^-scale`, if it is representable.
pub open spec fn spec_from_parts(mantissa: int, scale: nat) -> Option<Decimal> {
    if scale <= 9 && fits(mantissa * pow10((9 - scale) as nat)) {
        Some((Decimal { units: (mantissa * pow10((9 - scale) as nat)) as i128 }))
    } else {
        None
    }
}

/// The mantissa and fractional-digit count that `rust_decimal` parses out of
/// a numeric string, or `None` where the string is not a valid amount.
pub uninterp spec fn decimal_parts_of(s: Seq<char>) -> Option<(i128, u32)>;

/// The amount a numeric string denotes, where it parses and is representable.
pub open spec fn spec_from_string(s: Seq<char>) -> Option<Decimal> {
    match decimal_parts_of(s) {
        None => None,
        Some(p) => spec_from_parts(p.0 as int, p.1 as nat),
    }
}

/// Relies on `rust_decimal::Decimal`: its `FromStr` parse of a numeric string,
/// and its `mantissa` and `scale` accessors, which expose the parsed value as
/// `mantissa * 10^-scale`. The outcome depends on the characters alone.
#[verifier::external_body]
fn parse_decimal_str(s: &str) -> (r: Option<(i128, u32)>)
    ensures
        r == decimal_parts_of(s@),
{
    match s.parse::<rust_decimal::Decimal>() {
        Ok(d) => Some((d.mantissa(), d.scale())),
        Err(_) => None,
    }
}

impl Decimal {
    /// All stored amounts stay within the representable range.
    pub open spec fn valid(self) -> bool {
        fits(self.units as int)
    }

    pub fn zero() -> (r: Decimal)
        ensures
            r.units == 0,
            r.valid(),
    {
        Decimal { units: 0 }
    }

    pub fn from_units(units: i128) -> (r: Option<Decimal>)
        ensures
            r == (if fits(units as int) {
                Some((Decimal { units }))
            } else {
                None::<Decimal>
            }),
    {
        if -MAX_UNITS <= units && units <= MAX_UNITS {
            Some(Decimal { units })
        } else {
            None
        }
    }

    /// The amount `mantissa * 10^-scale` as a `Decimal`, where representable.
    pub fn from_parts(mantissa: i128, scale: u32) -> (r: Option<Decimal>)
        ensures
            r == spec_from_parts(mantissa as int, scale as nat),
    {
        if scale > 9 {
            return None;
        }
        let factor: i128 = pow10_exec(9 - scale);
        match mantissa.checked_mul(factor) {
            None => {
                proof {
                    lemma_pow10_pos((9 - scale) as nat);
                    assert(!fits(mantissa as int * pow10((9 - scale) as nat)));
                }
                None
            },
            Some(p) => {
                if -MAX_UNITS <= p && p <= MAX_UNITS {
                    Some(Decimal { units: p })
                } else {
                    None
                }
            },
        }
    }

    /// The amount a numeric string denotes, where it parses and is
    /// representable.
    pub fn from_string(s: &str) -> (r: Option<Decimal>)
        ensures
            r == spec_from_string(s@),
    {
        match parse_decimal_str(s) {
            None => None,
            Some((mantissa, scale)) => Decimal::from_parts(mantissa, scale),
        }
    }
}

/// What multiplying two decimals yields: the product rounded to the nearest
/// representable amount, half away from zero, where it fits both the machine
/// word and the representable range.
pub open spec fn spec_mul(a: Decimal, b: Decimal) -> Option<Decimal> {
    if i128::MIN <= a.units * b.units <= i128::MAX && fits(
        half_up_div(a.units * b.units, FRAC_UNIT as int),
    ) {
        Some((Decimal { units: half_up_div(a.units * b.units, FRAC_UNIT as int) as i128 }))
    } else {
        None
    }
}

/// What dividing one decimal by another yields: the quotient rounded to the
/// nearest representable amount, half away from zero, where it fits.
pub open spec fn spec_div(a: Decimal, b: Decimal) -> Option<Decimal> {
    if fits(half_up_div(a.units * (FRAC_UNIT as int), b.units as int)) {
        Some((Decimal { units: half_up_div(a.units * (FRAC_UNIT as int), b.units as int) as i128 }))
    } else {
        None
    }
}

impl Decimal {
    pub fn add(self, other: Decimal) -> (r: Option<Decimal>)
        requires
            self.valid(),
            other.valid(),
        ensures
            r == (if fits(self.units + other.units) {
                Some((Decimal { units: (self.units + other.units) as i128 }))
            } else {
                None::<Decimal>
            }),
    {
        let s: i128 = self.units + other.units;
        if -MAX_UNITS <= s && s <= MAX_UNITS {
            Some(Decimal { units: s })
        } else {
            None
        }
    }

    pub fn sub(self, other: Decimal) -> (r: Option<Decimal>)
        requires
            self.valid(),
            other.valid(),
        ensures
            r == (if fits(self.units - other.units) {
                Some((Decimal { units: (self.units - other.units) as i128 }))
            } else {
                None::<Decimal>
            }),
    {
        let s: i128 = self.units - other.units;
        if -MAX_UNITS <= s && s <= MAX_UNITS {
            Some(Decimal { units: s })
        } else {
            None
        }
    }

    pub fn neg(self) -> (r: Decimal)
        requires
            self.valid(),
        ensures
            r.units == -self.units,
            r.valid(),
    {
        Decimal { units: -self.units }
    }

    /// The amount multiplied by an integer count, for unit price times
    /// quantity.
    pub fn scale(self, quantity: u32) -> (r: Option<Decimal>)
        requires
            self.valid(),
        ensures
            r == (if fits(self.units * quantity) {
                Some((Decimal { units: (self.units * quantity) as i128 }))
            } else {
                None::<Decimal>
            }),
    {
        proof {
            assert(-(MAX_UNITS as int) * (u32::MAX as int) <= (self.units as int) * (
            quantity as int) <= (MAX_UNITS as int) * (u32::MAX as int)) by (nonlinear_arith)
                requires
                    -(MAX_UNITS as int) <= self.units <= MAX_UNITS as int,
                    0 <= quantity <= u32::MAX as int,
            ;
        }
        let p: i128 = self.units * (quantity as i128);
        if -MAX_UNITS <= p && p <= MAX_UNITS {
            Some(Decimal { units: p })
        } else {
            None
        }
    }

    pub fn mul(self, other: Decimal) -> (r: Option<Decimal>)
        ensures
            r == spec_mul(self, other),
    {
        match self.units.checked_mul(other.units) {
            None => None,
            Some(p) => match half_up_div_exec(p, FRAC_UNIT) {
                None => None,
                Some(q) => Some(Decimal { units: q }),
            },
        }
    }

    pub fn div(self, other: Decimal) -> (r: Option<Decimal>)
        requires
            self.valid(),
            other.units != 0,
        ensures
            r == spec_div(self, other),
    {
        proof {
            assert(-(MAX_UNITS as int) * (FRAC_UNIT as int) <= (self.units as int) * (
            FRAC_UNIT as int) <= (MAX_UNITS as int) * (FRAC_UNIT as int)) by (nonlinear_arith)
                requires
                    -(MAX_UNITS as int) <= self.units <= MAX_UNITS as int,
            ;
        }
        let n: i128 = self.units * FRAC_UNIT;
        match half_up_div_exec(n, other.units) {
            None => None,
            Some(q) => Some(Decimal { units: q }),
        }
    }

    /// The amount divided by an integer count, rounded half away from zero at
    /// the finest representable digit; total, since the result never grows.
    pub fn div_int(self, quantity: u32) -> (r: Decimal)
        requires
            self.valid(),
            quantity >= 1,
        ensures
            r.units == half_up_div(self.units as int, quantity as int),
            r.valid(),
    {
        proof {
            lemma_half_up_div_le(self.units as int, quantity as int, MAX_UNITS as int);
        }
        match half_up_div_exec(self.units, quantity as i128) {
            Some(q) => Decimal { units: q },
            None => {
                proof {
                    assert(false);
                }
                Decimal { units: 0 }
            },
        }
    }

    /// The amount rounded to two fractional digits, half away from zero; used
    /// only at presentation boundaries.
    pub fn round_display(self) -> (r: Decimal)
        requires
            self.valid(),
        ensures
            r.units == rounded_display(self.units as int),
            r.valid(),
    {
        proof {
            lemma_half_up_div_le(self.units as int, DISPLAY_UNIT as int, 100_000_000_000_000_000_000int);
        }
        match half_up_div_exec(self.units, DISPLAY_UNIT) {
            Some(q) => {
                proof {
                    let b: int = 100_000_000_000_000_000_000int;
                    lemma_mul_inequality(q as int, b, DISPLAY_UNIT as int);
                    lemma_mul_inequality(-b, q as int, DISPLAY_UNIT as int);
                }
                Decimal { units: q * DISPLAY_UNIT }
            },
            None => {
                proof {
                    assert(false);
                }
                Decimal { units: 0 }
            },
        }
    }

    pub fn is_zero(self) -> (r: bool)
        ensures
            r == (self.units == 0),
    {
        self.units == 0
    }

    pub fn is_positive(self) -> (r: bool)
        ensures
            r == (self.units > 0),
    {
        self.units > 0
    }
}

/// An amount rounded for display: two fractional digits, half away from zero.
pub fn round(amount: Decimal) -> (r: Decimal)
    requires
        amount.valid(),
    ensures
        r.units == rounded_display(amount.units as int),
        r.valid(),
{
    amount.round_display()
}

/// Law: rounding to the display scale is idempotent — rounding an
/// already-rounded amount leaves it unchanged.
pub proof fn lemma_round_display_idempotent(v: int)
    requires
        fits(v),
    ensures
        rounded_display(rounded_display(v)) == rounded_display(v),
{
    let d: int = DISPLAY_UNIT as int;
    let q = half_up_div(v, d);
    let m = vstd::math::abs(q) as int;
    assert(vstd::math::abs(q * d) == m * d && ((q * d >= 0) == (q >= 0) || q * d == 0))
        by (nonlinear_arith)
        requires
            d == DISPLAY_UNIT as int,
            m == vstd::math::abs(q) as int,
    ;
    vstd::arithmetic::div_mod::lemma_fundamental_div_mod_converse(m * d + d / 2, d, m, d / 2);
    assert(half_up_div(q * d, d) == q);
}

fn abs_mag(v: i128) -> (r: u128)
    ensures
        r == vstd::math::abs(v as int),
{
    if v >= 0 {
        v as u128
    } else {
        (-(v + 1)) as u128 + 1
    }
}

/// Division rounded half away from zero, where the result is representable.
fn half_up_div_exec(n: i128, d: i128) -> (r: Option<i128>)
    requires
        d != 0,
    ensures
        r == (if fits(half_up_div(n as int, d as int)) {
            Some(half_up_div(n as int, d as int) as i128)
        } else {
            None::<i128>
        }),
{
    let nm: u128 = abs_mag(n);
    let dm: u128 = abs_mag(d);
    let q: u128 = (nm + dm / 2) / dm;
    let neg: bool = (n < 0) != (d < 0);
    if q <= MAX_UNITS as u128 {
        let qi: i128 = q as i128;
        if neg {
            Some(-qi)
        } else {
            Some(qi)
        }
    } else {
        None
    }
}

/// Scaling a representable amount by a fraction of at most one stays
/// representable, so rate multiplications below one never overflow.
pub(crate) proof fn lemma_rate_mul_fits(a: int, r: int)
    requires
        fits(a),
        0 <= r <= FRAC_UNIT as int,
    ensures
        i128::MIN <= a * r <= i128::MAX,
        fits(half_up_div(a * r, FRAC_UNIT as int)),
        vstd::math::abs(a * r) <= (MAX_UNITS as int) * (FRAC_UNIT as int),
{
    assert(vstd::math::abs(a * r) <= (MAX_UNITS as int) * (FRAC_UNIT as int))
        by (nonlinear_arith)
        requires
            -(MAX_UNITS as int) <= a <= MAX_UNITS as int,
            0 <= r <= FRAC_UNIT as int,
    ;
    lemma_half_up_div_le(a * r, FRAC_UNIT as int, MAX_UNITS as int);
}

/// Half-away-from-zero division never exceeds `b` in magnitude when the
/// dividend is at most `b` times the divisor.
pub(crate) proof fn lemma_half_up_div_le(n: int, d: int, b: int)
    requires
        d >= 1,
        b >= 0,
        vstd::math::abs(n) <= b * d,
    ensures
        -b <= half_up_div(n, d) <= b,
{
    let x = vstd::math::abs(n) as int + d / 2;
    assert(d / 2 < d) by {
        vstd::arithmetic::div_mod::lemma_div_is_strictly_smaller(d, 2);
        if d == 1 {
            assert(1int / 2 == 0);
        }
    }
    assert(x < d * (b + 1)) by (nonlinear_arith)
        requires
            x == vstd::math::abs(n) as int + d / 2,
            vstd::math::abs(n) <= b * d,
            d / 2 < d,
            d >= 1,
            b >= 0,
    ;
    vstd::arithmetic::div_mod::lemma_multiply_divide_lt(x, d, b + 1);
    vstd::arithmetic::div_mod::lemma_div_pos_is_pos(x, d);
}

fn pow10_exec(n: u32) -> (r: i128)
    requires
        n <= 9,
    ensures
        r == pow10(n as nat),
        1 <= r <= FRAC_UNIT,
{
    proof {
        reveal_with_fuel(pow10, 10);
    }
    if n == 0 {
        1
    } else if n == 1 {
        10
    } else if n == 2 {
        100
    } else if n == 3 {
        1_000
    } else if n == 4 {
        10_000
    } else if n == 5 {
        100_000
    } else if n == 6 {
        1_000_000
    } else if n == 7 {
        10_000_000
    } else if n == 8 {
        100_000_000
    } else {
        1_000_000_000
    }
}

proof fn lemma_pow10_pos(n: nat)
    ensures
        pow10(n) >= 1,
    decreases n,
{
    if n > 0 {
        lemma_pow10_pos((n - 1) as nat);
    }
}

} // verus!
