//! Hard clipping to the range from -1 to 1, with its antiderivatives in closed form.
use crate::fixed::{
    lemma_quotient_toward_zero, saturate, toward_zero, Ad1, Ad2, Output, Point,
};
use crate::reals::{
    lemma_divided_difference_order, lemma_quotient_near_slope, lemma_quotient_reversed,
    lemma_twice_quotient, lemma_twice_quotient_within_one, magnitude,
};
use crate::nonlinear::NonlinearFunction;
use vstd::prelude::*;

verus! {

/// The sign of `x`: -1 below zero, 1 from zero on.
pub open spec fn signum(x: real) -> real {
    if x < 0real {
        -1real
    } else {
        1real
    }
}

/// `x` limited to the range from -1 to 1.
pub open spec fn hard_clip(x: real) -> real {
    if x < -1real {
        -1real
    } else if x > 1real {
        1real
    } else {
        x
    }
}

/// The antiderivative of [`hard_clip`] that is zero at zero.
pub open spec fn hard_clip_ad1(x: real) -> real {
    if magnitude(x) < 1real {
        x * x / 2real
    } else {
        x * signum(x) - 1real / 2real
    }
}

/// The antiderivative of [`hard_clip_ad1`] that is zero at zero.
pub open spec fn hard_clip_ad2(x: real) -> real {
    if magnitude(x) < 1real {
        x * x * x / 6real
    } else {
        (x * x / 2real + 1real / 6real) * signum(x) - x / 2real
    }
}

/// The number of point units in 1.
pub const ONE: i128 = 1_000_000_000_000;

/// `hard_clip_ad1` at `u` point units, in whole units of 1e-20.
pub open spec fn hard_clip_ad1_units(u: int) -> int {
    let m = if u < 0 {
        -u
    } else {
        u
    };
    if m < 1_000_000_000_000 {
        m * m / 20_000
    } else {
        m * 100_000_000 - 50_000_000_000_000_000_000
    }
}

/// `hard_clip_ad2` at `u` point units, in whole units of 1e-25.
pub open spec fn hard_clip_ad2_units(u: int) -> int {
    let m = if u < 0 {
        -u
    } else {
        u
    };
    let size = if m < 1_000_000_000_000 {
        m * m * m / 600_000_000_000
    } else {
        m * m * 5 - m * 5_000_000_000_000 + 1_666_666_666_666_666_666_666_666
    };
    if u < 0 {
        -size
    } else {
        size
    }
}

/// `hard_clip_ad1_units` is the integer part of `hard_clip_ad1`, counted in units of 1e-20.
proof fn lemma_ad1_units(u: int)
    ensures
        toward_zero(
            hard_clip_ad1(u as real / 1_000_000_000_000real) * 100_000_000_000_000_000_000real,
        ) == hard_clip_ad1_units(u),
{
    let ur = u as real;
    let x = ur / 1_000_000_000_000real;
    let m = if u < 0 {
        -u
    } else {
        u
    };
    if m < 1_000_000_000_000 {
        assert(x * x / 2real * 100_000_000_000_000_000_000real == ur * ur / 20_000real)
            by (nonlinear_arith)
            requires
                x == ur / 1_000_000_000_000real,
        ;
        assert((m * m) as real == ur * ur && m * m >= 0) by (nonlinear_arith)
            requires
                ur == u as real,
                m == u || m == -u,
        ;
        lemma_quotient_toward_zero(m * m, 20_000);
    }
}

/// `hard_clip_ad2_units` is the integer part of `hard_clip_ad2`, counted in units of 1e-25.
proof fn lemma_ad2_units(u: int)
    ensures
        toward_zero(
            hard_clip_ad2(u as real / 1_000_000_000_000real)
                * 10_000_000_000_000_000_000_000_000real,
        ) == hard_clip_ad2_units(u),
{
    let ur = u as real;
    let x = ur / 1_000_000_000_000real;
    let m = if u < 0 {
        -u
    } else {
        u
    };
    let mr = m as real;
    if m < 1_000_000_000_000 {
        assert(x * x * x / 6real * 10_000_000_000_000_000_000_000_000real == ur * ur * ur
            / 600_000_000_000real) by (nonlinear_arith)
            requires
                x == ur / 1_000_000_000_000real,
        ;
        assert((m * m * m) as real == mr * mr * mr && m * m * m >= 0) by (nonlinear_arith)
            requires
                mr == m as real,
                m >= 0,
        ;
        assert(ur * ur * ur == if u < 0 {
            -(mr * mr * mr)
        } else {
            mr * mr * mr
        }) by (nonlinear_arith)
            requires
                mr == if u < 0 {
                    -ur
                } else {
                    ur
                },
        ;
        lemma_quotient_toward_zero(m * m * m, 600_000_000_000);
    } else {
        assert(m * m * 5 >= m * 5_000_000_000_000) by (nonlinear_arith)
            requires
                m >= 1_000_000_000_000,
        ;
        assert((x * x / 2real + 1real / 6real) * 10_000_000_000_000_000_000_000_000real
            == ur * ur * 5real + 1_666_666_666_666_666_666_666_666real + 2real / 3real)
            by (nonlinear_arith)
            requires
                x == ur / 1_000_000_000_000real,
        ;
        assert((m * m) as real == ur * ur) by (nonlinear_arith)
            requires
                ur == u as real,
                m == u || m == -u,
        ;
    }
}

/// For a point in range, both antiderivatives are inside the range of their types.
proof fn lemma_units_in_range(u: int)
    requires
        -1_000_000_000_000_000_000 <= u <= 1_000_000_000_000_000_000,
    ensures
        0 <= hard_clip_ad1_units(u) <= 100_000_000_000_000_000_000_000_000,
        -5_000_000_000_000_000_000_000_000_000_000_000_000 <= hard_clip_ad2_units(u)
            <= 5_000_000_000_000_000_000_000_000_000_000_000_000,
{
    let m = if u < 0 {
        -u
    } else {
        u
    };
    if m < 1_000_000_000_000 {
        assert(0 <= m * m <= 1_000_000_000_000_000_000_000_000 && 0 <= m * m * m
            <= 1_000_000_000_000_000_000_000_000_000_000_000_000) by (nonlinear_arith)
            requires
                0 <= m < 1_000_000_000_000,
        ;
    } else {
        assert(0 <= m * 5_000_000_000_000 <= m * m * 5 && m * m * 5
            <= 5_000_000_000_000_000_000_000_000_000_000_000_000) by (nonlinear_arith)
            requires
                1_000_000_000_000 <= m <= 1_000_000_000_000_000_000,
        ;
    }
}

/// Clipping to the range from -1 to 1.
pub struct HardClip {}

impl NonlinearFunction for HardClip {
    /// `hard_clip` at the point's value. The result is exact.
    open spec fn f_spec(x: Point) -> Output {
        Output::from_real(hard_clip(x.value()))
    }

    /// `hard_clip_ad1` at the point's value, rounded towards zero.
    open spec fn ad1_spec(x: Point) -> Ad1 {
        Ad1::from_real(hard_clip_ad1(x.value()))
    }

    /// `hard_clip_ad2` at the point's value, rounded towards zero.
    open spec fn ad2_spec(x: Point) -> Ad2 {
        Ad2::from_real(hard_clip_ad2(x.value()))
    }

    /// The point's value, limited to the range from -1 to 1.
    fn f(x: Point) -> (y: Output)
        ensures
            y.value() == hard_clip(x.value()),
    {
        let u: i128 = x.units();
        let clipped: i128 = if u < -ONE {
            -ONE
        } else if u > ONE {
            ONE
        } else {
            u
        };
        proof {
            assert(hard_clip(x.value()) * 100_000_000_000_000_000_000real == (clipped
                * 100_000_000) as real);
        }
        Output::saturating(clipped * 100_000_000)
    }

    /// Half the square inside the range, the size less one half outside.
    fn ad1(x: Point) -> (y: Ad1) {
        let u: i128 = x.units();
        let m: i128 = if u < 0 {
            -u
        } else {
            u
        };
        proof {
            lemma_ad1_units(u as int);
            lemma_units_in_range(u as int);
            if m < ONE {
                assert(0 <= m * m <= 1_000_000_000_000_000_000_000_000) by (nonlinear_arith)
                    requires
                        0 <= m < 1_000_000_000_000,
                ;
            }
        }
        let units: i128 = if m < ONE {
            m * m / 20_000
        } else {
            m * 100_000_000 - 50_000_000_000_000_000_000
        };
        Ad1::saturating(units)
    }

    /// A sixth of the cube inside the range; outside, half the square and one sixth, with the
    /// sign of the point, less half the point.
    fn ad2(x: Point) -> (y: Ad2) {
        let u: i128 = x.units();
        let m: i128 = if u < 0 {
            -u
        } else {
            u
        };
        proof {
            lemma_ad2_units(u as int);
            lemma_units_in_range(u as int);
            if m < ONE {
                assert(0 <= m * m <= 1_000_000_000_000_000_000_000_000 && 0 <= m * m * m
                    <= 1_000_000_000_000_000_000_000_000_000_000_000_000) by (nonlinear_arith)
                    requires
                        0 <= m < 1_000_000_000_000,
                ;
            } else {
                assert(0 <= m * m <= 1_000_000_000_000_000_000_000_000_000_000_000_000 && 0 <= m
                    * 5_000_000_000_000 <= m * m * 5) by (nonlinear_arith)
                    requires
                        1_000_000_000_000 <= m <= 1_000_000_000_000_000_000,
                ;
            }
        }
        let size: i128 = if m < ONE {
            m * m * m / 600_000_000_000
        } else {
            m * m * 5 - m * 5_000_000_000_000 + 1_666_666_666_666_666_666_666_666
        };
        let units: i128 = if u < 0 {
            -size
        } else {
            size
        };
        Ad2::saturating(units)
    }
}

/// Clipping is exact on points: no rounding takes place.
pub proof fn lemma_hard_clip_exact(x: Point)
    requires
        x.in_range(),
    ensures
        HardClip::f_spec(x).value() == hard_clip(x.value()),
        HardClip::f_spec(x).in_range(),
{
    let clipped = saturate(x@, 1_000_000_000_000);
    assert(hard_clip(x.value()) * 100_000_000_000_000_000_000real == (clipped * 100_000_000)
        as real);
    Output::lemma_of(clipped * 100_000_000);
}

/// The antiderivatives of clipping in whole units, as they are computed.
pub proof fn lemma_hard_clip_units(x: Point)
    requires
        x.in_range(),
    ensures
        HardClip::f_spec(x)@ == 100_000_000 * saturate(x@, 1_000_000_000_000),
        HardClip::ad1_spec(x)@ == hard_clip_ad1_units(x@),
        HardClip::ad2_spec(x)@ == hard_clip_ad2_units(x@),
{
    let clipped = saturate(x@, 1_000_000_000_000);
    assert(hard_clip(x.value()) * 100_000_000_000_000_000_000real == (clipped * 100_000_000)
        as real);
    Output::lemma_of(clipped * 100_000_000);
    lemma_ad1_units(x@);
    lemma_ad2_units(x@);
    lemma_units_in_range(x@);
    Ad1::lemma_of(hard_clip_ad1_units(x@));
    Ad2::lemma_of(hard_clip_ad2_units(x@));
}

/// The first antiderivative is rounded down by less than one unit of 1e-20.
pub proof fn lemma_hard_clip_ad1_rounding(x: Point)
    requires
        x.in_range(),
    ensures
        HardClip::ad1_spec(x).in_range(),
        0real <= HardClip::ad1_spec(x).value() <= hard_clip_ad1(x.value()),
        hard_clip_ad1(x.value()) < HardClip::ad1_spec(x).value() + 1real
            / 100_000_000_000_000_000_000real,
{
    lemma_ad1_units(x@);
    lemma_units_in_range(x@);
    Ad1::lemma_of(hard_clip_ad1_units(x@));
    let exact = hard_clip_ad1(x.value());
    assert(exact >= 0real) by (nonlinear_arith)
        requires
            exact == hard_clip_ad1(x.value()),
    ;
}

/// The second antiderivative is rounded towards zero by less than one unit of 1e-25.
pub proof fn lemma_hard_clip_ad2_rounding(x: Point)
    requires
        x.in_range(),
    ensures
        HardClip::ad2_spec(x).in_range(),
        magnitude(HardClip::ad2_spec(x).value()) <= magnitude(hard_clip_ad2(x.value())),
        magnitude(hard_clip_ad2(x.value()) - HardClip::ad2_spec(x).value()) < 1real
            / 10_000_000_000_000_000_000_000_000real,
{
    lemma_ad2_units(x@);
    lemma_units_in_range(x@);
    Ad2::lemma_of(hard_clip_ad2_units(x@));
}

/// The two pieces of each antiderivative meet at -1 and at 1.
pub proof fn lemma_hard_clip_pieces_meet(x: real)
    requires
        x == 1real || x == -1real,
    ensures
        x * x / 2real == x * signum(x) - 1real / 2real,
        x * x * x / 6real == (x * x / 2real + 1real / 6real) * signum(x) - x / 2real,
{
}

/// `hard_clip_ad1` is an antiderivative of `hard_clip`: over a step `h` it grows by `h` times
/// the clipped value, up to half the square of the step.
pub proof fn lemma_hard_clip_ad1_slope(x: real, h: real)
    ensures
        magnitude(hard_clip_ad1(x + h) - hard_clip_ad1(x) - h * hard_clip(x)) <= h * h / 2real,
{
    assert(magnitude(hard_clip_ad1(x + h) - hard_clip_ad1(x) - h * hard_clip(x)) <= h * h / 2real)
        by (nonlinear_arith);
}

/// `hard_clip_ad2` is an antiderivative of `hard_clip_ad1`: over a step `h` it grows by `h`
/// times `hard_clip_ad1`, up to half the square of the step.
pub proof fn lemma_hard_clip_ad2_slope(x: real, h: real)
    ensures
        magnitude(hard_clip_ad2(x + h) - hard_clip_ad2(x) - h * hard_clip_ad1(x)) <= h * h / 2real,
{
    assert(magnitude(hard_clip_ad2(x + h) - hard_clip_ad2(x) - h * hard_clip_ad1(x)) <= h * h
        / 2real) by (nonlinear_arith);
}

/// The first antiderivative of clipping lies between zero and the size of its argument.
pub proof fn lemma_hard_clip_ad1_bound(x: real)
    ensures
        0real <= hard_clip_ad1(x) <= magnitude(x),
{
    assert(0real <= hard_clip_ad1(x) <= magnitude(x)) by (nonlinear_arith);
}

/// Clipping and its first antiderivative change no faster than their argument.
pub proof fn lemma_hard_clip_lipschitz(a: real, b: real)
    ensures
        magnitude(hard_clip(a) - hard_clip(b)) <= magnitude(a - b),
        magnitude(hard_clip_ad1(a) - hard_clip_ad1(b)) <= magnitude(a - b),
{
    assert(magnitude(hard_clip_ad1(a) - hard_clip_ad1(b)) <= magnitude(a - b))
        by (nonlinear_arith);
}

/// Twice the second divided difference of `hard_clip_ad2` lies between -1 and 1, as the
/// values of `hard_clip` do.
pub proof fn lemma_hard_clip_second_difference(a: real, b: real, c: real)
    requires
        a != b,
        b != c,
        a != c,
    ensures
        magnitude(
            2real * ((hard_clip_ad2(c) - hard_clip_ad2(b)) / (c - b) - (hard_clip_ad2(b)
                - hard_clip_ad2(a)) / (b - a)) / (c - a),
        ) <= 1real,
{
    let fa = hard_clip_ad2(a);
    let fb = hard_clip_ad2(b);
    let fc = hard_clip_ad2(c);
    let ab = (fb - fa) / (b - a);
    let bc = (fc - fb) / (c - b);
    let ac = (fc - fa) / (c - a);
    lemma_divided_difference_order(a, b, c, fa, fb, fc);
    if (a < b && b < c) || (c < b && b < a) {
        let g = hard_clip_ad1(b);
        lemma_hard_clip_ad2_slope(b, c - b);
        lemma_hard_clip_ad2_slope(b, a - b);
        lemma_quotient_near_slope(fc - fb, c - b, g);
        lemma_quotient_near_slope(fa - fb, a - b, g);
        lemma_quotient_reversed(fb - fa, b - a);
        assert(magnitude(bc - ab) <= magnitude(c - a) / 2real);
        lemma_twice_quotient_within_one(bc - ab, c - a);
    } else if (b < a && a < c) || (c < a && a < b) {
        let g = hard_clip_ad1(a);
        lemma_hard_clip_ad2_slope(a, b - a);
        lemma_hard_clip_ad2_slope(a, c - a);
        lemma_quotient_near_slope(fb - fa, b - a, g);
        lemma_quotient_near_slope(fc - fa, c - a, g);
        assert(magnitude(ac - ab) <= magnitude(c - b) / 2real);
        lemma_twice_quotient_within_one(ac - ab, c - b);
        lemma_twice_quotient(bc - ab, c - a);
        lemma_twice_quotient(ac - ab, c - b);
    } else {
        let g = hard_clip_ad1(c);
        lemma_hard_clip_ad2_slope(c, b - c);
        lemma_hard_clip_ad2_slope(c, a - c);
        lemma_quotient_near_slope(fb - fc, b - c, g);
        lemma_quotient_near_slope(fa - fc, a - c, g);
        lemma_quotient_reversed(fc - fb, c - b);
        lemma_quotient_reversed(fc - fa, c - a);
        assert(magnitude(bc - ac) <= magnitude(b - a) / 2real);
        lemma_twice_quotient_within_one(bc - ac, b - a);
        lemma_twice_quotient(bc - ab, c - a);
        lemma_twice_quotient(bc - ac, b - a);
    }
}

} // verus!
