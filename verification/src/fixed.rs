//! Decimal fixed-point numbers for signals and their antiderivatives.
//!
//! An input of a processor is a [`Sample`], a whole number of units of 1e-10. A function is
//! evaluated at a [`Point`], counted in units of 1e-12, so that the point halfway between two
//! samples, and the point halfway between that and a third sample, are points without any
//! rounding. A value of a first antiderivative is an [`Ad1`], counted in units of 1e-20, a
//! value of a second antiderivative is an [`Ad2`], counted in units of 1e-25, and a value of
//! the function itself or an output of a processor is an [`Output`], counted in units of 1e-20.
//!
//! Every type states what it holds as a real number (`value`), and every rounding is towards
//! zero, so that an odd function stays odd.
//!
//! The numbers are held in 128 bits, which bounds them: samples, points and outputs end at a
//! million in size, a first antiderivative at 1e17 and a second at 1e12. What lies beyond is
//! held at the end of the range.
use crate::reals::magnitude;
use vstd::prelude::*;

verus! {

/// The number of sample units in 1.
pub const UNIT: i128 = 10_000_000_000;

/// The largest number of units that a [`Sample`] holds: a million in value.
pub const SAMPLE_LIMIT: i128 = 10_000_000_000_000_000;

/// The largest number of units that a [`Point`] holds: a million in value.
pub const POINT_LIMIT: i128 = 1_000_000_000_000_000_000;

/// The largest number of units that an [`Output`] holds: a million in value.
pub const OUTPUT_LIMIT: i128 = 100_000_000_000_000_000_000_000_000;

/// The largest number of units that an [`Ad1`] or an [`Ad2`] holds. Four such numbers can be
/// summed in an `i128`.
pub const WIDE_LIMIT: i128 = 10_000_000_000_000_000_000_000_000_000_000_000_000;

/// The integer part of `r`: the integer nearest to `r` that is no farther from zero than `r`.
pub open spec fn toward_zero(r: real) -> int {
    if r >= 0real {
        r.floor()
    } else {
        -((-r).floor())
    }
}

/// `n` brought into the range from `-limit` to `limit`.
pub open spec fn saturate(n: int, limit: int) -> int {
    if n < -limit {
        -limit
    } else if n > limit {
        limit
    } else {
        n
    }
}

/// The integer part of the real quotient of two integers is the quotient of their magnitudes,
/// with the sign of the real quotient.
pub proof fn lemma_quotient_toward_zero(n: int, d: int)
    requires
        n >= 0,
        d > 0,
    ensures
        toward_zero(n as real / d as real) == n / d,
        toward_zero(-(n as real) / d as real) == -(n / d),
        toward_zero(n as real / -(d as real)) == -(n / d),
        toward_zero(-(n as real) / -(d as real)) == n / d,
{
    let q = n / d;
    let r = n % d;
    assert(n == d * q + r && 0 <= r < d && q >= 0) by (nonlinear_arith)
        requires
            d > 0,
            n >= 0,
            q == n / d,
            r == n % d,
    ;
    let nr = n as real;
    let dr = d as real;
    let qr = q as real;
    assert(qr * dr <= nr < qr * dr + dr) by (nonlinear_arith)
        requires
            n == d * q + r,
            0 <= r < d,
            nr == n as real,
            dr == d as real,
            qr == q as real,
    ;
    assert(qr <= nr / dr < qr + 1real && -nr / dr == -(nr / dr) && nr / -dr == -(nr / dr) && -nr
        / -dr == nr / dr) by (nonlinear_arith)
        requires
            qr * dr <= nr < qr * dr + dr,
            dr > 0real,
    ;
}

/// The integer part of a sum of a whole number and a quotient is the whole number and the
/// integer part of the quotient.
proof fn lemma_sum_floor(head: int, top: int, d: int)
    requires
        head >= 0,
        top >= 0,
        d > 0,
    ensures
        toward_zero(head as real + top as real / d as real) == head + top / d,
        top / d >= 0,
{
    lemma_quotient_toward_zero(top, d);
    let tail = top as real / d as real;
    let fine = top / d;
    assert(toward_zero(tail) == fine);
    assert(tail >= 0real) by (nonlinear_arith)
        requires
            tail == top as real / d as real,
            top >= 0,
            d > 0,
    ;
    assert(fine as real <= tail < fine as real + 1real);
}

/// The integer part of `(whole * d + rest) * scale / d`, in either sign, from the quotient
/// `whole` and the remainder `rest`.
proof fn lemma_scaled_parts(whole: int, rest: int, scale: int, d: int)
    requires
        whole >= 0,
        0 <= rest < d,
        scale >= 1,
    ensures
        ({
            let n = (whole * d + rest) as real;
            let total = whole * scale + (rest * scale) / d;
            let s = scale as real;
            let r = d as real;
            &&& total >= 0
            &&& toward_zero(n * s / r) == total
            &&& toward_zero((-n) * s / r) == -total
            &&& toward_zero(n * s / (-r)) == -total
            &&& toward_zero((-n) * s / (-r)) == total
        }),
{
    let head = whole * scale;
    let top = rest * scale;
    assert(head >= 0 && top >= 0) by (nonlinear_arith)
        requires
            head == whole * scale,
            top == rest * scale,
            whole >= 0,
            rest >= 0,
            scale >= 1,
    ;
    lemma_sum_floor(head, top, d);
    let n = (whole * d + rest) as real;
    let s = scale as real;
    let r = d as real;
    let q = n * s / r;
    assert(q == head as real + top as real / r) by (nonlinear_arith)
        requires
            q == n * s / r,
            n == (whole * d + rest) as real,
            s == scale as real,
            r == d as real,
            r > 0real,
            head == whole * scale,
            top == rest * scale,
    ;
    assert(q >= 0real && (-n) * s / r == -q && n * s / (-r) == -q && (-n) * s / (-r) == q)
        by (nonlinear_arith)
        requires
            q == n * s / r,
            r > 0real,
            n >= 0real,
            s >= 1real,
    ;
}

/// The integer part of `rise * scale / run`, brought into the range from `-limit` to `limit`.
/// The product `rise * scale` need not fit in an `i128`: the remainder of `rise / run` is
/// scaled and divided again.
pub fn scaled_quotient(rise: i128, scale: i128, run: i128, limit: i128) -> (q: i128)
    requires
        run != 0,
        rise > i128::MIN,
        -10_000_000_000_000_000_000 <= run <= 10_000_000_000_000_000_000,
        1 <= scale <= 1_000_000_000_000,
        0 <= limit <= WIDE_LIMIT,
    ensures
        q == saturate(toward_zero(rise as real * scale as real / run as real), limit as int),
{
    let n: i128 = if rise < 0 {
        -rise
    } else {
        rise
    };
    let d: i128 = if run < 0 {
        -run
    } else {
        run
    };
    let whole: i128 = n / d;
    let rest: i128 = n % d;
    let cap: i128 = limit / scale;
    proof {
        assert(n == whole * d + rest && 0 <= rest < d && 0 <= whole <= n) by (nonlinear_arith)
            requires
                d > 0,
                n >= 0,
                whole == n / d,
                rest == n % d,
        ;
        lemma_scaled_parts(whole as int, rest as int, scale as int, d as int);
        let nr = (whole * d + rest) as real;
        let sr = scale as real;
        let dr = d as real;
        let total = whole * scale + (rest * scale) / (d as int);
        assert(rise as real == nr || rise as real == -nr);
        assert(run as real == dr || run as real == -dr);
        assert(toward_zero(rise as real * sr / run as real) == if (rise < 0) != (run < 0) {
            -total
        } else {
            total
        });
        assert(0 <= rest * scale <= 10_000_000_000_000_000_000_000_000_000_000) by (nonlinear_arith)
            requires
                0 <= rest < 10_000_000_000_000_000_000,
                1 <= scale <= 1_000_000_000_000,
        ;
        assert(cap * scale <= limit < cap * scale + scale && cap >= 0) by (nonlinear_arith)
            requires
                cap == limit / scale,
                limit >= 0,
                scale >= 1,
        ;
        if whole > cap {
            assert(whole * scale >= cap * scale + scale) by (nonlinear_arith)
                requires
                    whole >= cap + 1,
                    scale >= 1,
            ;
        } else {
            assert(0 <= whole * scale <= cap * scale) by (nonlinear_arith)
                requires
                    0 <= whole <= cap,
                    scale >= 1,
            ;
        }
    }
    let size: i128 = if whole > cap {
        limit
    } else {
        let sum: i128 = whole * scale + rest * scale / d;
        if sum > limit {
            limit
        } else {
            sum
        }
    };
    if (rise < 0) != (run < 0) {
        -size
    } else {
        size
    }
}

/// An input of a processor: a whole number of units of 1e-10, between minus a million and a
/// million in value.
#[derive(Clone, Copy, Debug)]
pub struct Sample {
    units: i128,
}

impl View for Sample {
    type V = int;

    /// The number of units of 1e-10.
    closed spec fn view(&self) -> int {
        self.units as int
    }
}

impl Sample {
    /// A sample stays within [`SAMPLE_LIMIT`].
    #[verifier::type_invariant]
    pub open spec fn in_range(self) -> bool {
        -SAMPLE_LIMIT <= self@ <= SAMPLE_LIMIT
    }

    /// The sample of `units` units.
    pub closed spec fn of(units: int) -> Sample {
        Sample { units: units as i128 }
    }

    /// What the value is, as a real number.
    pub open spec fn value(self) -> real {
        self@ as real / 10_000_000_000real
    }

    /// `Sample::of` gives a value of that many units.
    pub proof fn lemma_of(units: int)
        requires
            i128::MIN <= units <= i128::MAX,
        ensures
            Sample::of(units)@ == units,
    {
    }

    /// A value is known by its number of units.
    pub proof fn lemma_of_view(self)
        ensures
            Sample::of(self@) == self,
    {
    }

    /// The value of `units` units, brought into range.
    pub fn saturating(units: i128) -> (s: Sample)
        ensures
            s == Sample::of(saturate(units as int, SAMPLE_LIMIT as int)),
            s@ == saturate(units as int, SAMPLE_LIMIT as int),
    {
        if units < -SAMPLE_LIMIT {
            Sample { units: -SAMPLE_LIMIT }
        } else if units > SAMPLE_LIMIT {
            Sample { units: SAMPLE_LIMIT }
        } else {
            Sample { units }
        }
    }

    /// The number of units of 1e-10.
    pub fn units(&self) -> (u: i128)
        ensures
            u == self@,
            self.in_range(),
    {
        proof {
            use_type_invariant(self);
        }
        self.units
    }
}

/// A place at which a function is evaluated: a whole number of units of 1e-12, between minus a
/// million and a million in value.
#[derive(Clone, Copy, Debug)]
pub struct Point {
    units: i128,
}

impl View for Point {
    type V = int;

    /// The number of units of 1e-12.
    closed spec fn view(&self) -> int {
        self.units as int
    }
}

impl Point {
    /// A point stays within [`POINT_LIMIT`].
    #[verifier::type_invariant]
    pub open spec fn in_range(self) -> bool {
        -POINT_LIMIT <= self@ <= POINT_LIMIT
    }

    /// The value of `units` units.
    pub closed spec fn of(units: int) -> Point {
        Point { units: units as i128 }
    }

    /// What the value is, as a real number.
    pub open spec fn value(self) -> real {
        self@ as real / 1_000_000_000_000real
    }

    /// `Point::of` gives a value of that many units.
    pub proof fn lemma_of(units: int)
        requires
            i128::MIN <= units <= i128::MAX,
        ensures
            Point::of(units)@ == units,
    {
    }

    /// A value is known by its number of units.
    pub proof fn lemma_of_view(self)
        ensures
            Point::of(self@) == self,
    {
    }

    /// The value of `units` units, brought into range.
    pub fn saturating(units: i128) -> (s: Point)
        ensures
            s == Point::of(saturate(units as int, POINT_LIMIT as int)),
            s@ == saturate(units as int, POINT_LIMIT as int),
    {
        if units < -POINT_LIMIT {
            Point { units: -POINT_LIMIT }
        } else if units > POINT_LIMIT {
            Point { units: POINT_LIMIT }
        } else {
            Point { units }
        }
    }

    /// The number of units of 1e-12.
    pub fn units(&self) -> (u: i128)
        ensures
            u == self@,
            self.in_range(),
    {
        proof {
            use_type_invariant(self);
        }
        self.units
    }

    /// The point at a sample.
    pub open spec fn spec_at(x: Sample) -> Point {
        Point::of(100 * x@)
    }

    /// The point halfway between two samples.
    pub open spec fn spec_halfway(a: Sample, b: Sample) -> Point {
        Point::of(50 * (a@ + b@))
    }

    /// The point halfway between the point halfway between `a` and `b`, and `c`.
    pub open spec fn spec_center(a: Sample, b: Sample, c: Sample) -> Point {
        Point::of(25 * (a@ + b@) + 50 * c@)
    }

    /// The three kinds of points lie exactly where their names say, and within range.
    pub proof fn lemma_places(a: Sample, b: Sample, c: Sample)
        requires
            a.in_range(),
            b.in_range(),
            c.in_range(),
        ensures
            Point::at(a).value() == a.value(),
            Point::halfway(a, b).value() == (a.value() + b.value()) / 2real,
            Point::center(a, b, c).value() == ((a.value() + b.value()) / 2real + c.value())
                / 2real,
            Point::at(a).in_range(),
            Point::halfway(a, b).in_range(),
            Point::center(a, b, c).in_range(),
            Point::halfway(a, a) == Point::at(a),
            Point::center(a, a, a) == Point::at(a),
    {
        Point::lemma_of(100 * a@);
        Point::lemma_of(50 * (a@ + b@));
        Point::lemma_of(25 * (a@ + b@) + 50 * c@);
    }

    /// The point at a sample.
    #[verifier::when_used_as_spec(spec_at)]
    pub fn at(x: Sample) -> (p: Point)
        ensures
            p == Point::spec_at(x),
            p@ == 100 * x@,
    {
        Point::saturating(100 * x.units())
    }

    /// The point halfway between two samples.
    #[verifier::when_used_as_spec(spec_halfway)]
    pub fn halfway(a: Sample, b: Sample) -> (p: Point)
        ensures
            p == Point::spec_halfway(a, b),
            p@ == 50 * (a@ + b@),
    {
        Point::saturating(50 * (a.units() + b.units()))
    }

    /// The point halfway between the point halfway between `a` and `b`, and `c`.
    #[verifier::when_used_as_spec(spec_center)]
    pub fn center(a: Sample, b: Sample, c: Sample) -> (p: Point)
        ensures
            p == Point::spec_center(a, b, c),
            p@ == 25 * (a@ + b@) + 50 * c@,
    {
        Point::saturating(25 * (a.units() + b.units()) + 50 * c.units())
    }
}

/// A value of a function, or an output of a processor: a whole number of units of 1e-20,
/// between minus a million and a million in value.
#[derive(Clone, Copy, Debug)]
pub struct Output {
    units: i128,
}

impl View for Output {
    type V = int;

    /// The number of units of 1e-20.
    closed spec fn view(&self) -> int {
        self.units as int
    }
}

impl Output {
    /// The value stays within [`OUTPUT_LIMIT`].
    #[verifier::type_invariant]
    pub open spec fn in_range(self) -> bool {
        -OUTPUT_LIMIT <= self@ <= OUTPUT_LIMIT
    }

    /// The value of `units` units.
    pub closed spec fn of(units: int) -> Output {
        Output { units: units as i128 }
    }

    /// What the value is, as a real number.
    pub open spec fn value(self) -> real {
        self@ as real / 100_000_000_000_000_000_000real
    }

    /// The value nearest to `r` that is no farther from zero, within the range of the type.
    pub open spec fn from_real(r: real) -> Output {
        Output::of(saturate(toward_zero(r * 100_000_000_000_000_000_000real), OUTPUT_LIMIT as int))
    }

    /// `Output::of` gives a value of that many units.
    pub proof fn lemma_of(units: int)
        requires
            i128::MIN <= units <= i128::MAX,
        ensures
            Output::of(units)@ == units,
    {
    }

    /// A value is known by its number of units.
    pub proof fn lemma_of_view(self)
        ensures
            Output::of(self@) == self,
    {
    }

    /// Rounding a real number within the range to a value of this type moves it towards zero
    /// by less than one unit.
    pub proof fn lemma_from_real_near(r: real)
        requires
            magnitude(r) * 100_000_000_000_000_000_000real <= OUTPUT_LIMIT as real,
        ensures
            Output::from_real(r).in_range(),
            magnitude(Output::from_real(r).value()) <= magnitude(r),
            magnitude(Output::from_real(r).value() - r) < 1real / 100_000_000_000_000_000_000real,
    {
        Output::lemma_of(toward_zero(r * 100_000_000_000_000_000_000real));
    }

    /// The value of `units` units, brought into range.
    pub fn saturating(units: i128) -> (s: Output)
        ensures
            s == Output::of(saturate(units as int, OUTPUT_LIMIT as int)),
            s@ == saturate(units as int, OUTPUT_LIMIT as int),
    {
        if units < -OUTPUT_LIMIT {
            Output { units: -OUTPUT_LIMIT }
        } else if units > OUTPUT_LIMIT {
            Output { units: OUTPUT_LIMIT }
        } else {
            Output { units }
        }
    }

    /// The number of units of 1e-20.
    pub fn units(&self) -> (u: i128)
        ensures
            u == self@,
            self.in_range(),
    {
        proof {
            use_type_invariant(self);
        }
        self.units
    }

    /// The output nearest to `rise / run` that is no farther from zero, where `rise` counts
    /// units of a first antiderivative and `run` counts units of points.
    pub fn quotient(rise: i128, run: i128) -> (s: Output)
        requires
            run != 0,
            rise > i128::MIN,
            -10_000_000_000_000_000_000 <= run <= 10_000_000_000_000_000_000,
        ensures
            s == Output::from_real(
                (rise as real / 100_000_000_000_000_000_000real) / (run as real
                    / 1_000_000_000_000real),
            ),
            s@ == saturate(
                toward_zero(rise as real * 1_000_000_000_000real / run as real),
                OUTPUT_LIMIT as int,
            ),
    {
        proof {
            let n = rise as real;
            let d = run as real;
            assert(((n / 100_000_000_000_000_000_000real) / (d / 1_000_000_000_000real))
                * 100_000_000_000_000_000_000real == n * 1_000_000_000_000real / d)
                by (nonlinear_arith)
                requires
                    d != 0real,
            ;
        }
        Output::saturating(scaled_quotient(rise, 1_000_000_000_000, run, OUTPUT_LIMIT))
    }
}

/// A value of a first antiderivative: a whole number of units of 1e-20.
#[derive(Clone, Copy, Debug)]
pub struct Ad1 {
    units: i128,
}

impl View for Ad1 {
    type V = int;

    /// The number of units of 1e-20.
    closed spec fn view(&self) -> int {
        self.units as int
    }
}

impl Ad1 {
    /// The value stays within [`WIDE_LIMIT`].
    #[verifier::type_invariant]
    pub open spec fn in_range(self) -> bool {
        -WIDE_LIMIT <= self@ <= WIDE_LIMIT
    }

    /// The value of `units` units.
    pub closed spec fn of(units: int) -> Ad1 {
        Ad1 { units: units as i128 }
    }

    /// What the value is, as a real number.
    pub open spec fn value(self) -> real {
        self@ as real / 100_000_000_000_000_000_000real
    }

    /// The value nearest to `r` that is no farther from zero, within the range of the type.
    pub open spec fn from_real(r: real) -> Ad1 {
        Ad1::of(saturate(toward_zero(r * 100_000_000_000_000_000_000real), WIDE_LIMIT as int))
    }

    /// `Ad1::of` gives a value of that many units.
    pub proof fn lemma_of(units: int)
        requires
            i128::MIN <= units <= i128::MAX,
        ensures
            Ad1::of(units)@ == units,
    {
    }

    /// A value is known by its number of units.
    pub proof fn lemma_of_view(self)
        ensures
            Ad1::of(self@) == self,
    {
    }

    /// Rounding a real number within the range to a value of this type moves it towards zero
    /// by less than one unit.
    pub proof fn lemma_from_real_near(r: real)
        requires
            magnitude(r) * 100_000_000_000_000_000_000real <= WIDE_LIMIT as real,
        ensures
            Ad1::from_real(r).in_range(),
            magnitude(Ad1::from_real(r).value()) <= magnitude(r),
            magnitude(Ad1::from_real(r).value() - r) < 1real / 100_000_000_000_000_000_000real,
    {
        Ad1::lemma_of(toward_zero(r * 100_000_000_000_000_000_000real));
    }

    /// The value of `units` units, brought into range.
    pub fn saturating(units: i128) -> (s: Ad1)
        ensures
            s == Ad1::of(saturate(units as int, WIDE_LIMIT as int)),
            s@ == saturate(units as int, WIDE_LIMIT as int),
    {
        if units < -WIDE_LIMIT {
            Ad1 { units: -WIDE_LIMIT }
        } else if units > WIDE_LIMIT {
            Ad1 { units: WIDE_LIMIT }
        } else {
            Ad1 { units }
        }
    }

    /// The number of units of 1e-20.
    pub fn units(&self) -> (u: i128)
        ensures
            u == self@,
            self.in_range(),
    {
        proof {
            use_type_invariant(self);
        }
        self.units
    }

    /// The value nearest to `rise / run` that is no farther from zero, where `rise` counts
    /// units of a second antiderivative and `run` counts units of points.
    pub fn quotient(rise: i128, run: i128) -> (s: Ad1)
        requires
            run != 0,
            rise > i128::MIN,
            -10_000_000_000_000_000_000 <= run <= 10_000_000_000_000_000_000,
        ensures
            s == Ad1::from_real(
                (rise as real / 10_000_000_000_000_000_000_000_000real) / (run as real
                    / 1_000_000_000_000real),
            ),
            s@ == saturate(
                toward_zero(rise as real * 10_000_000real / run as real),
                WIDE_LIMIT as int,
            ),
    {
        proof {
            let n = rise as real;
            let d = run as real;
            assert(((n / 10_000_000_000_000_000_000_000_000real) / (d / 1_000_000_000_000real))
                * 100_000_000_000_000_000_000real == n * 10_000_000real / d) by (nonlinear_arith)
                requires
                    d != 0real,
            ;
        }
        Ad1::saturating(scaled_quotient(rise, 10_000_000, run, WIDE_LIMIT))
    }
}

/// A value of a second antiderivative: a whole number of units of 1e-25.
#[derive(Clone, Copy, Debug)]
pub struct Ad2 {
    units: i128,
}

impl View for Ad2 {
    type V = int;

    /// The number of units of 1e-25.
    closed spec fn view(&self) -> int {
        self.units as int
    }
}

impl Ad2 {
    /// The value stays within [`WIDE_LIMIT`].
    #[verifier::type_invariant]
    pub open spec fn in_range(self) -> bool {
        -WIDE_LIMIT <= self@ <= WIDE_LIMIT
    }

    /// The value of `units` units.
    pub closed spec fn of(units: int) -> Ad2 {
        Ad2 { units: units as i128 }
    }

    /// What the value is, as a real number.
    pub open spec fn value(self) -> real {
        self@ as real / 10_000_000_000_000_000_000_000_000real
    }

    /// The value nearest to `r` that is no farther from zero, within the range of the type.
    pub open spec fn from_real(r: real) -> Ad2 {
        Ad2::of(
            saturate(toward_zero(r * 10_000_000_000_000_000_000_000_000real), WIDE_LIMIT as int),
        )
    }

    /// `Ad2::of` gives a value of that many units.
    pub proof fn lemma_of(units: int)
        requires
            i128::MIN <= units <= i128::MAX,
        ensures
            Ad2::of(units)@ == units,
    {
    }

    /// A value is known by its number of units.
    pub proof fn lemma_of_view(self)
        ensures
            Ad2::of(self@) == self,
    {
    }

    /// The value of `units` units, brought into range.
    pub fn saturating(units: i128) -> (s: Ad2)
        ensures
            s == Ad2::of(saturate(units as int, WIDE_LIMIT as int)),
            s@ == saturate(units as int, WIDE_LIMIT as int),
    {
        if units < -WIDE_LIMIT {
            Ad2 { units: -WIDE_LIMIT }
        } else if units > WIDE_LIMIT {
            Ad2 { units: WIDE_LIMIT }
        } else {
            Ad2 { units }
        }
    }

    /// The number of units of 1e-25.
    pub fn units(&self) -> (u: i128)
        ensures
            u == self@,
            self.in_range(),
    {
        proof {
            use_type_invariant(self);
        }
        self.units
    }
}

} // verus!
