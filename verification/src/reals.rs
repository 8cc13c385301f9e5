//! Real numbers: sizes, and the quotients that the processors form.
use vstd::prelude::*;

verus! {

/// `x` without its sign.
pub open spec fn magnitude(x: real) -> real {
    if x < 0real {
        -x
    } else {
        x
    }
}

/// A quotient does not change when its rise and its step both change sign.
pub proof fn lemma_quotient_reversed(rise: real, step: real)
    requires
        step != 0real,
    ensures
        (-rise) / (-step) == rise / step,
{
    assert((-rise) / (-step) == rise / step) by (nonlinear_arith)
        requires
            step != 0real,
    ;
}

/// A quotient changes sign with its rise.
pub proof fn lemma_quotient_negated(rise: real, step: real)
    requires
        step != 0real,
    ensures
        (-rise) / step == -(rise / step),
        rise / (-step) == -(rise / step),
{
    assert((-rise) / step == -(rise / step) && rise / (-step) == -(rise / step))
        by (nonlinear_arith)
        requires
            step != 0real,
    ;
}

/// Twice a quotient is the quotient of twice the rise.
pub proof fn lemma_twice_quotient(rise: real, step: real)
    requires
        step != 0real,
    ensures
        2real * rise / step == 2real * (rise / step),
{
    assert(2real * rise / step == 2real * (rise / step)) by (nonlinear_arith)
        requires
            step != 0real,
    ;
}

/// Two quotients over the same step, of which the second is over a step of at least
/// `least`, differ by less than the quotient of what separates their rises and `least`.
pub proof fn lemma_quotient_error(
    rise: real,
    exact: real,
    step: real,
    error: real,
    least: real,
)
    requires
        magnitude(rise - exact) < error,
        magnitude(step) >= least,
        least > 0real,
    ensures
        magnitude(rise / step - exact / step) < error / least,
{
    let d = (rise - exact) / step;
    assert(rise / step - exact / step == d) by (nonlinear_arith)
        requires
            d == (rise - exact) / step,
            step != 0real,
    ;
    let e = error / least;
    assert(magnitude(d) < e) by (nonlinear_arith)
        requires
            d == (rise - exact) / step,
            e == error / least,
            magnitude(rise - exact) < error,
            magnitude(step) >= least,
            least > 0real,
    ;
}

/// A difference quotient is within half its step of any slope that the rise follows up to
/// half the square of the step.
pub proof fn lemma_quotient_near_slope(rise: real, step: real, slope: real)
    requires
        step != 0real,
        magnitude(rise - step * slope) <= step * step / 2real,
    ensures
        magnitude(rise / step - slope) <= magnitude(step) / 2real,
{
    let q = rise / step;
    assert(q * step == rise) by (nonlinear_arith)
        requires
            q == rise / step,
            step != 0real,
    ;
    assert(magnitude(q - slope) <= magnitude(step) / 2real) by (nonlinear_arith)
        requires
            q * step == rise,
            step != 0real,
            magnitude(rise - step * slope) <= step * step / 2real,
    ;
}

/// Twice a quotient whose rise is at most half its step lies between -1 and 1.
pub proof fn lemma_twice_quotient_within_one(rise: real, step: real)
    requires
        step != 0real,
        magnitude(rise) <= magnitude(step) / 2real,
    ensures
        magnitude(2real * rise / step) <= 1real,
{
    assert(magnitude(2real * rise / step) <= 1real) by (nonlinear_arith)
        requires
            step != 0real,
            magnitude(rise) <= magnitude(step) / 2real,
    ;
}

/// Twice a rise of at most five halves of its step, over that step, is at most five in size.
pub proof fn lemma_twice_quotient_within_five(rise: real, step: real)
    requires
        step != 0real,
        magnitude(rise) <= 5real * magnitude(step) / 2real,
    ensures
        magnitude(2real * rise / step) <= 5real,
{
    assert(magnitude(2real * rise / step) <= 5real) by (nonlinear_arith)
        requires
            step != 0real,
            magnitude(rise) <= 5real * magnitude(step) / 2real,
    ;
}

/// The second divided difference of three values does not depend on the order of its
/// points.
pub proof fn lemma_divided_difference_order(
    a: real,
    b: real,
    c: real,
    fa: real,
    fb: real,
    fc: real,
)
    requires
        a != b,
        b != c,
        a != c,
    ensures
        ((fc - fb) / (c - b) - (fb - fa) / (b - a)) / (c - a) == ((fc - fa) / (c - a) - (fb - fa)
            / (b - a)) / (c - b),
        ((fc - fb) / (c - b) - (fb - fa) / (b - a)) / (c - a) == ((fc - fb) / (c - b) - (fc - fa)
            / (c - a)) / (b - a),
{
    let ab = (fb - fa) / (b - a);
    let bc = (fc - fb) / (c - b);
    let ac = (fc - fa) / (c - a);
    assert(ab * (b - a) == fb - fa && bc * (c - b) == fc - fb && ac * (c - a) == fc - fa)
        by (nonlinear_arith)
        requires
            ab == (fb - fa) / (b - a),
            bc == (fc - fb) / (c - b),
            ac == (fc - fa) / (c - a),
            a != b,
            b != c,
            a != c,
    ;
    let first = (bc - ab) / (c - a);
    let second = (ac - ab) / (c - b);
    let third = (bc - ac) / (b - a);
    assert(first * (c - a) == bc - ab && second * (c - b) == ac - ab && third * (b - a) == bc
        - ac) by (nonlinear_arith)
        requires
            first == (bc - ab) / (c - a),
            second == (ac - ab) / (c - b),
            third == (bc - ac) / (b - a),
            a != b,
            b != c,
            a != c,
    ;
    assert(first == second) by (nonlinear_arith)
        requires
            first * (c - a) == bc - ab,
            second * (c - b) == ac - ab,
            ab * (b - a) == fb - fa,
            bc * (c - b) == fc - fb,
            ac * (c - a) == fc - fa,
            a != b,
            b != c,
            a != c,
    ;
    assert(first == third) by (nonlinear_arith)
        requires
            first * (c - a) == bc - ab,
            third * (b - a) == bc - ac,
            ab * (b - a) == fb - fa,
            bc * (c - b) == fc - fb,
            ac * (c - a) == fc - fa,
            a != b,
            b != c,
            a != c,
    ;
}

} // verus!
