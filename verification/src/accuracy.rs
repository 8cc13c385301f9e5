//! How close the processors stay to exact arithmetic when the function is hard clipping.
//!
//! The processors round every antiderivative and every quotient to a grid. The laws of this
//! module compare their outputs with what the same formulas give on real numbers, with the
//! exact antiderivatives of clipping and exact midpoints: at the tolerance of a new processor
//! the two differ by less than 1e-13.
use crate::fixed::{Ad1, Output, Point, Sample};
use crate::hard_clip::{
    hard_clip, hard_clip_ad1, hard_clip_ad2, lemma_hard_clip_ad1_bound,
    lemma_hard_clip_ad1_rounding, lemma_hard_clip_ad2_rounding, lemma_hard_clip_ad2_slope,
    lemma_hard_clip_exact, lemma_hard_clip_lipschitz, lemma_hard_clip_second_difference,
    HardClip,
};
use crate::nonlinear::NonlinearFunction;
use crate::processor::{lemma_adaa1_held_input, lemma_adaa2_held_input, Adaa1, Adaa2};
use crate::reals::{
    lemma_quotient_error, lemma_quotient_near_slope, lemma_quotient_negated,
    lemma_quotient_reversed, lemma_twice_quotient_within_five, lemma_twice_quotient_within_one,
    magnitude,
};
use vstd::prelude::*;

verus! {

/// What a first-order processor that clips returns on real numbers, with exact arithmetic.
pub open spec fn exact_adaa1(x: real, x1: real, tolerance: real) -> real {
    if magnitude(x - x1) < tolerance {
        hard_clip((x + x1) / 2real)
    } else {
        (hard_clip_ad1(x) - hard_clip_ad1(x1)) / (x - x1)
    }
}

/// The slope of `hard_clip_ad2` between two real numbers in exact arithmetic: the difference
/// quotient, or, where the two are no farther apart than the tolerance, `hard_clip_ad1`
/// halfway between them.
pub open spec fn exact_slope(to: real, from: real, tolerance: real) -> real {
    if magnitude(to - from) <= tolerance {
        hard_clip_ad1((to + from) / 2real)
    } else {
        (hard_clip_ad2(to) - hard_clip_ad2(from)) / (to - from)
    }
}

/// What a second-order processor that clips returns for three real numbers in a row, with
/// exact arithmetic.
pub open spec fn exact_adaa2(x_future: real, x_now: real, x_past: real, tolerance: real) -> real {
    let span = x_future - x_past;
    if magnitude(span) <= tolerance {
        let xbar = (x_future + x_past) / 2real;
        let delta = xbar - x_now;
        if magnitude(delta) <= tolerance {
            hard_clip((xbar + x_now) / 2real)
        } else {
            2real * (hard_clip_ad1(xbar) + (hard_clip_ad2(x_now) - hard_clip_ad2(xbar)) / delta)
                / delta
        }
    } else {
        2real * (exact_slope(x_future, x_now, tolerance) - exact_slope(
            x_now,
            x_past,
            tolerance,
        )) / span
    }
}

/// How far an output of a first-order processor of tolerance `t` may be from the exact
/// output: one unit of 1e-20, and one such unit over the tolerance.
pub open spec fn first_order_error(t: real) -> real {
    1real / 100_000_000_000_000_000_000real + 1real / 100_000_000_000_000_000_000real / t
}

/// How far a slope that a processor of tolerance `t` computes may be from the exact slope:
/// one unit of 1e-20, and two units of 1e-25 over the tolerance.
pub open spec fn slope_error(t: real) -> real {
    1real / 100_000_000_000_000_000_000real + 2real / 10_000_000_000_000_000_000_000_000real
        / t
}

/// How far an output of a second-order processor of tolerance `t` may be from the exact
/// output: one unit of 1e-20, and four slope errors over the tolerance.
pub open spec fn second_order_error(t: real) -> real {
    1real / 100_000_000_000_000_000_000real + 4real * slope_error(t) / t
}

/// The errors are positive. For a tolerance of at least one sample unit the slope error is at
/// most 3e-15 and the output errors at most 2e-4; for a tolerance of at least 1e-5, that of a
/// new processor, the slope error is at most 3e-20 and the output errors are below 1e-13.
pub proof fn lemma_error_sizes(t: real)
    requires
        t >= 1real / 10_000_000_000real,
    ensures
        1real / 100_000_000_000_000_000_000real < slope_error(t) <= 3real
            / 1_000_000_000_000_000real,
        0real < first_order_error(t) <= 2real / 10_000real,
        0real < second_order_error(t) <= 2real / 10_000real,
        t >= 1real / 100_000real ==> slope_error(t) <= 3real / 100_000_000_000_000_000_000real
            && first_order_error(t) < 1real / 10_000_000_000_000real && second_order_error(t)
            < 1real / 10_000_000_000_000real,
{
    let u1 = 1real / 100_000_000_000_000_000_000real;
    let u2 = 1real / 10_000_000_000_000_000_000_000_000real;
    let tail = 2real / 10_000_000_000_000_000_000_000_000real / t;
    assert(0real < tail <= 2real / 1_000_000_000_000_000real) by (nonlinear_arith)
        requires
            t >= 1real / 10_000_000_000real,
            tail == 2real / 10_000_000_000_000_000_000_000_000real / t,
    ;
    let se = slope_error(t);
    let rest = 4real * se / t;
    let first = u1 / t;
    assert(0real < rest <= 12real / 100_000real && 0real < first <= 1real / 10_000_000_000real)
        by (nonlinear_arith)
        requires
            t >= 1real / 10_000_000_000real,
            rest == 4real * se / t,
            first == u1 / t,
            u1 == 1real / 100_000_000_000_000_000_000real,
            0real < se <= 3real / 1_000_000_000_000_000real,
    ;
    if t >= 1real / 100_000real {
        assert(tail <= 2real * u1) by (nonlinear_arith)
            requires
                t >= 1real / 100_000real,
                tail == 2real / 10_000_000_000_000_000_000_000_000real / t,
                u1 == 1real / 100_000_000_000_000_000_000real,
        ;
        assert(rest <= 12real / 1_000_000_000_000_000real && first <= 1real
            / 1_000_000_000_000_000real) by (nonlinear_arith)
            requires
                t >= 1real / 100_000real,
                rest == 4real * se / t,
                first == u1 / t,
                u1 == 1real / 100_000_000_000_000_000_000real,
                0real < se <= 3real / 100_000_000_000_000_000_000real,
        ;
    }
}

/// A first-order processor that has only been fed zeros follows clipping, whose
/// antiderivatives are zero at zero.
pub proof fn lemma_adaa1_silence_follows_hard_clip(s: Adaa1)
    requires
        s.x1()@ == 0,
        s.ad1_x1()@ == 0,
    ensures
        s.follows::<HardClip>(),
{
    let zero = s.x1();
    Point::lemma_places(zero, zero, zero);
    assert(hard_clip_ad1(Point::at(zero).value()) == 0real);
    s.ad1_x1().lemma_of_view();
}

/// A second-order processor that has only been fed zeros follows clipping.
pub proof fn lemma_adaa2_silence_follows_hard_clip(s: Adaa2)
    requires
        s.x_now()@ == 0,
        s.x_past()@ == 0,
        s.ad2_now()@ == 0,
        s.d_past()@ == 0,
        s.tolerance()@ >= 1,
    ensures
        s.follows::<HardClip>(),
{
    let now = s.x_now();
    let past = s.x_past();
    now.lemma_of_view();
    past.lemma_of_view();
    assert(now == past);
    Point::lemma_places(now, now, now);
    assert(hard_clip_ad2(Point::at(now).value()) == 0real);
    s.ad2_now().lemma_of_view();
    assert(hard_clip_ad1(Point::halfway(now, past).value()) == 0real);
    s.d_past().lemma_of_view();
}

/// Whatever a processor that clips has taken before, its output is zero again from the
/// second zero in a row on for the first order, and from the third on for the second.
pub proof fn lemma_hard_clip_returns_to_silence(
    first: Adaa1,
    second: Adaa2,
    zero: Sample,
    times: nat,
)
    requires
        first.well_formed(),
        second.well_formed(),
        zero@ == 0,
        times >= 2,
    ensures
        first.fed::<HardClip>(zero, times).output::<HardClip>(zero)@ == 0,
        second.fed::<HardClip>(zero, times).output::<HardClip>(zero)@ == 0,
{
    lemma_adaa1_held_input::<HardClip>(first, zero, times);
    lemma_adaa2_held_input::<HardClip>(second, zero, times);
    Point::lemma_places(zero, zero, zero);
    lemma_hard_clip_exact(Point::at(zero));
    assert(hard_clip(Point::at(zero).value()) == 0real);
}

/// A quotient over a step of at least the tolerance, whose rise is within `error` of an
/// exact rise, rounds to an output within one unit and `error` over the tolerance of the
/// exact quotient, where that is no more than five in size.
proof fn lemma_output_near(rise: real, exact_rise: real, step: real, error: real, t: real)
    requires
        t >= 1real / 10_000_000_000real,
        magnitude(step) >= t,
        magnitude(rise - exact_rise) < error,
        error / t <= 1real,
        magnitude(exact_rise / step) <= 5real,
    ensures
        magnitude(Output::from_real(rise / step).value() - exact_rise / step) < 1real
            / 100_000_000_000_000_000_000real + error / t,
        magnitude(Output::from_real(rise / step).value()) <= magnitude(rise / step),
{
    lemma_quotient_error(rise, exact_rise, step, error, t);
    Output::lemma_from_real_near(rise / step);
}

/// A first-order processor that clips, in a state that follows clipping, stays within
/// `first_order_error` of the exact output, which is within the range of clipping.
pub proof fn lemma_adaa1_hard_clip_accuracy(s: Adaa1, x: Sample)
    requires
        s.well_formed(),
        x.in_range(),
        s.follows::<HardClip>(),
    ensures
        magnitude(
            s.output::<HardClip>(x).value() - exact_adaa1(
                x.value(),
                s.x1().value(),
                s.tolerance().value(),
            ),
        ) < first_order_error(s.tolerance().value()),
        magnitude(exact_adaa1(x.value(), s.x1().value(), s.tolerance().value())) <= 1real,
{
    let x1 = s.x1();
    let t = s.tolerance().value();
    let step = x.value() - x1.value();
    lemma_error_sizes(t);
    Point::lemma_places(x, x1, x1);
    Point::lemma_places(x1, x1, x1);
    if magnitude(step) < t {
        lemma_hard_clip_exact(Point::halfway(x, x1));
    } else {
        let u1 = 1real / 100_000_000_000_000_000_000real;
        lemma_hard_clip_ad1_rounding(Point::at(x));
        lemma_hard_clip_ad1_rounding(Point::at(x1));
        lemma_hard_clip_lipschitz(x.value(), x1.value());
        let a = HardClip::ad1_spec(Point::at(x)).value();
        let b = HardClip::ad1_spec(Point::at(x1)).value();
        let ea = hard_clip_ad1(x.value());
        let eb = hard_clip_ad1(x1.value());
        let q = (a - b) / step;
        let e = (ea - eb) / step;
        assert(magnitude(e) <= 1real && magnitude(q) < 1real + 1real / 10_000_000_000real)
            by (nonlinear_arith)
            requires
                q == (a - b) / step,
                e == (ea - eb) / step,
                magnitude(step) >= 1real / 10_000_000_000real,
                a <= ea < a + 1real / 100_000_000_000_000_000_000real,
                b <= eb < b + 1real / 100_000_000_000_000_000_000real,
                magnitude(ea - eb) <= magnitude(step),
        ;
        assert(u1 / t <= 1real) by (nonlinear_arith)
            requires
                t >= 1real / 10_000_000_000real,
                u1 == 1real / 100_000_000_000_000_000_000real,
        ;
        lemma_output_near(a - b, ea - eb, step, u1, t);
    }
}

/// The exact slope between two numbers is within half their distance of `hard_clip_ad1` at
/// either of them.
pub proof fn lemma_exact_slope_near(to: real, from: real, t: real)
    requires
        t > 0real,
    ensures
        magnitude(exact_slope(to, from, t) - hard_clip_ad1(from)) <= magnitude(to - from) / 2real,
        magnitude(exact_slope(to, from, t) - hard_clip_ad1(to)) <= magnitude(to - from) / 2real,
{
    let step = to - from;
    if magnitude(step) <= t {
        lemma_hard_clip_lipschitz((to + from) / 2real, from);
        lemma_hard_clip_lipschitz((to + from) / 2real, to);
    } else {
        let ea = hard_clip_ad2(to);
        let eb = hard_clip_ad2(from);
        lemma_hard_clip_ad2_slope(from, step);
        lemma_quotient_near_slope(ea - eb, step, hard_clip_ad1(from));
        lemma_hard_clip_ad2_slope(to, -step);
        lemma_quotient_near_slope(eb - ea, -step, hard_clip_ad1(to));
        lemma_quotient_reversed(ea - eb, step);
    }
}

/// The exact output of the second order over a span above the tolerance is at most five in
/// size.
pub proof fn lemma_exact_regular_bound(x_future: real, x_now: real, x_past: real, t: real)
    requires
        t > 0real,
        magnitude(x_future - x_past) > t,
    ensures
        magnitude(
            2real * (exact_slope(x_future, x_now, t) - exact_slope(x_now, x_past, t)) / (x_future
                - x_past),
        ) <= 5real,
{
    let span = x_future - x_past;
    let step = x_future - x_now;
    let last = x_now - x_past;
    let e_now = exact_slope(x_future, x_now, t);
    let e_past = exact_slope(x_now, x_past, t);
    if magnitude(step) > t && magnitude(last) > t {
        lemma_hard_clip_second_difference(x_past, x_now, x_future);
    } else {
        lemma_exact_slope_near(x_future, x_now, t);
        lemma_exact_slope_near(x_now, x_past, t);
        assert(magnitude(e_now - e_past) <= 5real * magnitude(span) / 2real);
        lemma_twice_quotient_within_five(e_now - e_past, span);
    }
}

/// The slope that a processor computes between two samples is within `slope_error` of the
/// exact slope.
pub proof fn lemma_slope_accuracy(to: Sample, from: Sample, tolerance: Sample)
    requires
        to.in_range(),
        from.in_range(),
        tolerance@ >= 1,
    ensures
        Adaa2::slope_between::<HardClip>(to, from, tolerance).in_range(),
        magnitude(
            Adaa2::slope_between::<HardClip>(to, from, tolerance).value() - exact_slope(
                to.value(),
                from.value(),
                tolerance.value(),
            ),
        ) < slope_error(tolerance.value()),
{
    let t = tolerance.value();
    let step = to.value() - from.value();
    let u2 = 1real / 10_000_000_000_000_000_000_000_000real;
    lemma_error_sizes(t);
    Point::lemma_places(to, from, from);
    Point::lemma_places(from, from, from);
    if magnitude(step) <= t {
        lemma_hard_clip_ad1_rounding(Point::halfway(to, from));
    } else {
        lemma_hard_clip_ad2_rounding(Point::at(to));
        lemma_hard_clip_ad2_rounding(Point::at(from));
        let a = HardClip::ad2_spec(Point::at(to)).value();
        let b = HardClip::ad2_spec(Point::at(from)).value();
        let ea = hard_clip_ad2(to.value());
        let eb = hard_clip_ad2(from.value());
        let q = (a - b) / step;
        lemma_quotient_error(a - b, ea - eb, step, 2real * u2, t);
        lemma_exact_slope_near(to.value(), from.value(), t);
        lemma_hard_clip_ad1_bound(from.value());
        Ad1::lemma_from_real_near(q);
    }
}

/// The exact output over a collapsed span and a distant middle sample is at most one in size,
/// and the computed sum of its two terms is within two slope errors of the exact sum.
proof fn lemma_inner_accuracy(xbar: Point, x_now: Sample, tolerance: Sample)
    requires
        xbar.in_range(),
        x_now.in_range(),
        tolerance@ >= 1,
        magnitude(xbar.value() - x_now.value()) > tolerance.value(),
    ensures
        ({
            let delta = xbar.value() - x_now.value();
            let inner = Ad1::from_real(
                (HardClip::ad2_spec(Point::at(x_now)).value() - HardClip::ad2_spec(xbar).value())
                    / delta,
            );
            let exact = hard_clip_ad1(xbar.value()) + (hard_clip_ad2(x_now.value())
                - hard_clip_ad2(xbar.value())) / delta;
            &&& magnitude(HardClip::ad1_spec(xbar).value() + inner.value() - exact) < 2real
                * slope_error(tolerance.value())
            &&& magnitude(2real * exact / delta) <= 1real
        }),
{
    let t = tolerance.value();
    let delta = xbar.value() - x_now.value();
    let u2 = 1real / 10_000_000_000_000_000_000_000_000real;
    lemma_error_sizes(t);
    Point::lemma_places(x_now, x_now, x_now);
    lemma_hard_clip_ad2_rounding(Point::at(x_now));
    lemma_hard_clip_ad2_rounding(xbar);
    lemma_hard_clip_ad1_rounding(xbar);
    let a = HardClip::ad2_spec(Point::at(x_now)).value();
    let b = HardClip::ad2_spec(xbar).value();
    let ea = hard_clip_ad2(x_now.value());
    let eb = hard_clip_ad2(xbar.value());
    let q = (a - b) / delta;
    let e = (ea - eb) / delta;
    let g = hard_clip_ad1(xbar.value());
    lemma_quotient_error(a - b, ea - eb, delta, 2real * u2, t);
    // The exact quotient is near the negated first antiderivative at `xbar`.
    lemma_hard_clip_ad2_slope(xbar.value(), -delta);
    lemma_quotient_near_slope(ea - eb, -delta, g);
    lemma_quotient_negated(ea - eb, delta);
    assert(magnitude(g + e) <= magnitude(delta) / 2real);
    lemma_twice_quotient_within_one(g + e, delta);
    // So the computed quotient is far inside the range of its type.
    lemma_hard_clip_ad1_bound(xbar.value());
    Ad1::lemma_from_real_near(q);
}

/// A second-order processor that clips, in a state that follows clipping, stays within
/// `second_order_error` of the exact output.
pub proof fn lemma_adaa2_hard_clip_accuracy(s: Adaa2, x: Sample)
    requires
        s.well_formed(),
        s.follows::<HardClip>(),
        x.in_range(),
    ensures
        magnitude(
            s.output::<HardClip>(x).value() - exact_adaa2(
                x.value(),
                s.x_now().value(),
                s.x_past().value(),
                s.tolerance().value(),
            ),
        ) < second_order_error(s.tolerance().value()),
{
    let x_now = s.x_now();
    let x_past = s.x_past();
    let tolerance = s.tolerance();
    let t = tolerance.value();
    let span = x.value() - x_past.value();
    let se = slope_error(t);
    lemma_error_sizes(t);
    Point::lemma_places(x, x_past, x_now);
    assert(4real * se / t <= 1real) by (nonlinear_arith)
        requires
            t >= 1real / 10_000_000_000real,
            0real < se <= 3real / 1_000_000_000_000_000real,
    ;
    if magnitude(span) <= t {
        let xbar = Point::halfway(x, x_past);
        let delta = xbar.value() - x_now.value();
        if magnitude(delta) <= t {
            lemma_hard_clip_exact(Point::center(x, x_past, x_now));
        } else {
            lemma_inner_accuracy(xbar, x_now, tolerance);
            let inner = Ad1::from_real(
                (HardClip::ad2_spec(Point::at(x_now)).value() - HardClip::ad2_spec(xbar).value())
                    / delta,
            );
            let sum = HardClip::ad1_spec(xbar).value() + inner.value();
            let exact = hard_clip_ad1(xbar.value()) + (hard_clip_ad2(x_now.value())
                - hard_clip_ad2(xbar.value())) / delta;
            lemma_output_near(2real * sum, 2real * exact, delta, 4real * se, t);
        }
    } else {
        lemma_slope_accuracy(x, x_now, tolerance);
        lemma_slope_accuracy(x_now, x_past, tolerance);
        lemma_exact_regular_bound(x.value(), x_now.value(), x_past.value(), t);
        let d_now = Adaa2::slope_between::<HardClip>(x, x_now, tolerance);
        assert(s.slope::<HardClip>(x) == d_now);
        let d_past = s.d_past();
        let e_now = exact_slope(x.value(), x_now.value(), t);
        let e_past = exact_slope(x_now.value(), x_past.value(), t);
        lemma_output_near(
            2real * (d_now.value() - d_past.value()),
            2real * (e_now - e_past),
            span,
            4real * se,
            t,
        );
    }
}

/// With the tolerance of a new processor, or a larger one, both processors stay within 1e-13
/// of the exact output when they clip.
pub proof fn lemma_hard_clip_accuracy_at_default(first: Adaa1, second: Adaa2, x: Sample)
    requires
        first.well_formed(),
        first.follows::<HardClip>(),
        first.tolerance()@ >= 100_000,
        second.well_formed(),
        second.follows::<HardClip>(),
        second.tolerance()@ >= 100_000,
        x.in_range(),
    ensures
        magnitude(
            first.output::<HardClip>(x).value() - exact_adaa1(
                x.value(),
                first.x1().value(),
                first.tolerance().value(),
            ),
        ) < 1real / 10_000_000_000_000real,
        magnitude(
            second.output::<HardClip>(x).value() - exact_adaa2(
                x.value(),
                second.x_now().value(),
                second.x_past().value(),
                second.tolerance().value(),
            ),
        ) < 1real / 10_000_000_000_000real,
{
    lemma_adaa1_hard_clip_accuracy(first, x);
    lemma_adaa2_hard_clip_accuracy(second, x);
    lemma_error_sizes(first.tolerance().value());
    lemma_error_sizes(second.tolerance().value());
}

} // verus!
