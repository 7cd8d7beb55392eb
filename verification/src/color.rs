//! Colours: 8-bit RGB pixels, exact hue/saturation/lightness triples, and the
//! density ramp that turns an observation count into a colour.
//!
//! The ramp is computed in exact fractions, so nothing here rounds. Turning a
//! triple into an RGB pixel is a floating-point conversion and is left to the
//! caller.

use vstd::prelude::*;

verus! {

/// An 8-bit RGB pixel.
#[derive(Clone, Copy, Debug, PartialEq, Eq, Structural)]
pub struct ColorRgb {
    pub r: u8,
    pub g: u8,
    pub b: u8,
}

impl ColorRgb {
    /// Pure black, which an overlay treats as transparent.
    pub open spec fn spec_black() -> ColorRgb {
        ColorRgb { r: 0, g: 0, b: 0 }
    }

    /// Pure black.
    #[verifier::when_used_as_spec(spec_black)]
    pub fn black() -> (c: ColorRgb)
        ensures
            c == ColorRgb::spec_black(),
    {
        ColorRgb { r: 0, g: 0, b: 0 }
    }

    /// Pure white, the colour of rasterized text.
    pub open spec fn spec_white() -> ColorRgb {
        ColorRgb { r: 255, g: 255, b: 255 }
    }

    /// Pure white.
    #[verifier::when_used_as_spec(spec_white)]
    pub fn white() -> (c: ColorRgb)
        ensures
            c == ColorRgb::spec_white(),
    {
        ColorRgb { r: 255, g: 255, b: 255 }
    }
}

/// The exact fraction `num / den`. It is well formed when `den` is positive.
/// Two fractions that stand for the same number need not be field-for-field
/// equal: compare them with `same_value`.
#[derive(Clone, Copy, Debug, PartialEq, Eq, Structural)]
pub struct Fraction {
    pub num: i128,
    pub den: i128,
}

impl Fraction {
    pub open spec fn wf(self) -> bool {
        self.den > 0
    }

    /// The fraction as a pair of mathematical integers.
    pub open spec fn value(self) -> (int, int) {
        (self.num as int, self.den as int)
    }

    /// `self` and `other` stand for the same number.
    pub open spec fn same_value(self, other: Fraction) -> bool {
        q_eq(self.value(), other.value())
    }

    /// `self <= other` as numbers, for well-formed fractions.
    pub open spec fn at_most(self, other: Fraction) -> bool {
        self.num * other.den <= other.num * self.den
    }
}

/// `a + b` on fractions written as (numerator, denominator).
pub open spec fn q_add(a: (int, int), b: (int, int)) -> (int, int) {
    (a.0 * b.1 + b.0 * a.1, a.1 * b.1)
}

/// `a - b` on fractions written as (numerator, denominator).
pub open spec fn q_sub(a: (int, int), b: (int, int)) -> (int, int) {
    (a.0 * b.1 - b.0 * a.1, a.1 * b.1)
}

/// `a * b` on fractions written as (numerator, denominator).
pub open spec fn q_mul(a: (int, int), b: (int, int)) -> (int, int) {
    (a.0 * b.0, a.1 * b.1)
}

/// `a / b` on fractions written as (numerator, denominator).
pub open spec fn q_div(a: (int, int), b: (int, int)) -> (int, int) {
    (a.0 * b.1, a.1 * b.0)
}

/// `a == b` as numbers, for fractions with non-zero denominators.
pub open spec fn q_eq(a: (int, int), b: (int, int)) -> bool {
    a.0 * b.1 == b.0 * a.1
}

/// A colour as hue (degrees), saturation and lightness (both in 0..1).
#[derive(Clone, Copy, Debug, PartialEq, Eq, Structural)]
pub struct Hsl {
    pub hue: Fraction,
    pub saturation: Fraction,
    pub lightness: Fraction,
}

impl Hsl {
    pub open spec fn wf(self) -> bool {
        self.hue.wf() && self.saturation.wf() && self.lightness.wf()
    }

    /// The colour of an empty cell: hue 236 degrees, full saturation,
    /// lightness one quarter.
    pub open spec fn spec_baseline() -> Hsl {
        Hsl {
            hue: Fraction { num: 236, den: 1 },
            saturation: Fraction { num: 1, den: 1 },
            lightness: Fraction { num: 1, den: 4 },
        }
    }

    /// The colour of an empty cell.
    #[verifier::when_used_as_spec(spec_baseline)]
    pub fn baseline() -> (c: Hsl)
        ensures
            c == Hsl::spec_baseline(),
    {
        Hsl {
            hue: Fraction { num: 236, den: 1 },
            saturation: Fraction { num: 1, den: 1 },
            lightness: Fraction { num: 1, den: 4 },
        }
    }
}

/// The colour of a cell that holds `count` observations when the fullest cell
/// holds `max`.
///
/// With `n = count / max` (taken as 0 when `max` is 0) and a knee at one fifth:
/// an empty cell has the baseline colour; below the knee the hue stays at 236
/// degrees and the lightness climbs from one quarter towards one half; from the
/// knee on the lightness stays at one half and the hue falls from 236 degrees
/// to 0 at `n = 1`. Saturation is always 1.
pub open spec fn hsl_of(count: u64, max: u64) -> Hsl {
    if count == 0 || max == 0 {
        Hsl::spec_baseline()
    } else if 5 * count < max {
        Hsl {
            hue: Fraction { num: 236, den: 1 },
            saturation: Fraction { num: 1, den: 1 },
            lightness: Fraction { num: (max + 5 * count) as i128, den: (4 * max) as i128 },
        }
    } else {
        Hsl {
            hue: Fraction { num: (295 * (max - count)) as i128, den: max as i128 },
            saturation: Fraction { num: 1, den: 1 },
            lightness: Fraction { num: 1, den: 2 },
        }
    }
}

/// Maps an observation count to its colour on the ramp. Total: every pair of
/// `value` and `max` has a colour, `max == 0` included.
pub fn hsl_from_value(value: u64, max: u64) -> (c: Hsl)
    ensures
        c == hsl_of(value, max),
        c.wf(),
{
    if value == 0 || max == 0 {
        Hsl::baseline()
    } else {
        let v: i128 = value as i128;
        let m: i128 = max as i128;
        if 5 * v < m {
            Hsl {
                hue: Fraction { num: 236, den: 1 },
                saturation: Fraction { num: 1, den: 1 },
                lightness: Fraction { num: m + 5 * v, den: 4 * m },
            }
        } else {
            Hsl {
                hue: Fraction { num: 295 * (m - v), den: m },
                saturation: Fraction { num: 1, den: 1 },
                lightness: Fraction { num: 1, den: 2 },
            }
        }
    }
}

/// The colour of an empty cell does not depend on the scale.
pub proof fn lemma_baseline_independent_of_scale(max_a: u64, max_b: u64)
    requires
        max_a > 0,
        max_b > 0,
    ensures
        hsl_of(0, max_a) == hsl_of(0, max_b),
        hsl_of(0, max_a) == Hsl::spec_baseline(),
{
}

/// The fullest cell is red: hue 0 degrees at lightness one half.
pub proof fn lemma_peak_is_red(max: u64)
    requires
        max > 0,
    ensures
        hsl_of(max, max).hue.num == 0,
        hsl_of(max, max).hue.wf(),
        hsl_of(max, max).lightness == (Fraction { num: 1, den: 2 }),
        hsl_of(max, max).saturation == (Fraction { num: 1, den: 1 }),
{
}

/// With no observations anywhere every cell has the baseline colour.
pub proof fn lemma_zero_max_is_baseline(count: u64)
    ensures
        hsl_of(count, 0) == Hsl::spec_baseline(),
{
}

/// Every colour on the ramp has positive denominators and full saturation.
pub proof fn lemma_ramp_well_formed(count: u64, max: u64)
    ensures
        hsl_of(count, max).wf(),
        hsl_of(count, max).saturation == (Fraction { num: 1, den: 1 }),
{
}

/// Below the knee the lightness is `1/4 + 1/4 * (n / knee)` with
/// `n = count / max` and `knee = 1/5`, and the hue is 236 degrees.
pub proof fn lemma_lightness_below_knee(count: u64, max: u64)
    requires
        0 < count,
        5 * count < max,
    ensures
        q_eq(
            hsl_of(count, max).lightness.value(),
            q_add((1, 4), q_mul((1, 4), q_div((count as int, max as int), (1, 5)))),
        ),
        hsl_of(count, max).hue == (Fraction { num: 236, den: 1 }),
{
    let c = count as int;
    let m = max as int;
    assert((m + 5 * c) * (4 * (4 * m)) == (1 * (4 * m) + (1 * (c * 5)) * 4) * (4 * m))
        by (nonlinear_arith);
}

/// From the knee on the hue is `236 - (n - knee) * (236 / (1 - knee))` with
/// `n = count / max` and `knee = 1/5`, and the lightness is one half.
pub proof fn lemma_hue_from_knee(count: u64, max: u64)
    requires
        0 < max,
        5 * count >= max,
    ensures
        q_eq(
            hsl_of(count, max).hue.value(),
            q_sub(
                (236, 1),
                q_mul(
                    q_sub((count as int, max as int), (1, 5)),
                    q_div((236, 1), q_sub((1, 1), (1, 5))),
                ),
            ),
        ),
        hsl_of(count, max).lightness == (Fraction { num: 1, den: 2 }),
{
    let c = count as int;
    let m = max as int;
    let knee_gap = q_sub((c, m), (1, 5));
    let slope = q_div((236, 1), q_sub((1, 1), (1, 5)));
    assert(knee_gap.0 == c * 5 - m && knee_gap.1 == m * 5);
    assert(slope.0 == 1180 && slope.1 == 4);
    let drop = q_mul(knee_gap, slope);
    assert(drop.0 == (c * 5 - m) * 1180 && drop.1 == m * 20) by (nonlinear_arith)
        requires
            drop.0 == knee_gap.0 * slope.0,
            drop.1 == knee_gap.1 * slope.1,
            knee_gap.0 == c * 5 - m,
            knee_gap.1 == m * 5,
            slope.0 == 1180,
            slope.1 == 4,
    ;
    let rhs = q_sub((236, 1), drop);
    assert(rhs.0 == 236 * drop.1 - drop.0 && rhs.1 == drop.1);
    assert((295 * (m - c)) * rhs.1 == rhs.0 * m) by (nonlinear_arith)
        requires
            rhs.0 == 236 * (m * 20) - (c * 5 - m) * 1180,
            rhs.1 == m * 20,
    ;
}

/// For a fixed `max`, a fuller cell is never darker and never has a larger
/// hue: the ramp does not reverse. In particular the lightness does not fall
/// below the knee and the hue does not rise beyond it.
pub proof fn lemma_ramp_monotonic(low: u64, high: u64, max: u64)
    requires
        low <= high,
        high <= max,
    ensures
        hsl_of(low, max).lightness.at_most(hsl_of(high, max).lightness),
        hsl_of(high, max).hue.at_most(hsl_of(low, max).hue),
{
    let a = low as int;
    let b = high as int;
    let m = max as int;
    let lo = hsl_of(low, max);
    let hi = hsl_of(high, max);
    if max == 0 || high == 0 {
    } else if low == 0 {
        if 5 * high < max {
            assert(1 * (4 * m) <= (m + 5 * b) * 4) by (nonlinear_arith)
                requires
                    0 <= b,
                    0 < m,
            ;
            assert(236 * 1 <= 236 * 1);
        } else {
            assert((295 * (m - b)) * 1 <= 236 * m) by (nonlinear_arith)
                requires
                    5 * b >= m,
                    0 < m,
            ;
        }
    } else if 5 * high < max {
        assert((m + 5 * a) * (4 * m) <= (m + 5 * b) * (4 * m)) by (nonlinear_arith)
            requires
                a <= b,
                0 < m,
        ;
    } else if 5 * low < max {
        assert((m + 5 * a) * 2 <= 1 * (4 * m)) by (nonlinear_arith)
            requires
                5 * a < m,
        ;
        assert((295 * (m - b)) * 1 <= 236 * m) by (nonlinear_arith)
            requires
                5 * b >= m,
                0 < m,
        ;
    } else {
        assert((295 * (m - b)) * m <= (295 * (m - a)) * m) by (nonlinear_arith)
            requires
                a <= b,
                b <= m,
                0 < m,
        ;
    }
}

} // verus!
