//! Antiderivative antialiasing of the first and of the second order.
//!
//! Both processors take one sample per call and keep the few values of the past that the next
//! call needs. A new processor starts as if it had been fed zeros. The function that shapes
//! the signal is chosen with each call; the state holds nothing but values that some function
//! returned, so that any function can take over from any other.
//!
//! An output is counted in units of 1e-20, far finer than the samples that come in: it is the
//! real quotient that the method prescribes, rounded towards zero by less than one such unit.
//! The points halfway between samples, at which the method evaluates the function where
//! samples are close, are exact.
use crate::fixed::{Ad1, Ad2, Output, Point, Sample};
use crate::nonlinear::NonlinearFunction;
use crate::reals::magnitude;
use vstd::prelude::*;

verus! {

/// The tolerance of a new processor, in sample units: 1e-5.
pub const TOLERANCE: i128 = 100_000;

/// The processor of the first order: it keeps the last input and the first antiderivative
/// there.
pub struct Adaa1 {
    x1: Sample,
    ad1_x1: Ad1,
    tolerance: Sample,
}

impl Adaa1 {
    /// The last input.
    pub closed spec fn x1(self) -> Sample {
        self.x1
    }

    /// The first antiderivative that was computed at the last input.
    pub closed spec fn ad1_x1(self) -> Ad1 {
        self.ad1_x1
    }

    /// The step below which the processor forms no difference quotient.
    pub closed spec fn tolerance(self) -> Sample {
        self.tolerance
    }

    /// All that the processor keeps is in range, and its tolerance is at least one unit.
    #[verifier::type_invariant]
    pub open spec fn well_formed(self) -> bool {
        &&& self.x1().in_range()
        &&& self.ad1_x1().in_range()
        &&& self.tolerance().in_range()
        &&& self.tolerance()@ >= 1
    }

    /// The state is one that calls with `NL` leave: it holds the first antiderivative of
    /// `NL` at the last input.
    pub open spec fn follows<NL: NonlinearFunction>(self) -> bool {
        self.ad1_x1() == NL::ad1_spec(Point::at(self.x1()))
    }

    /// What `process` returns for the input `x` in the state `self`.
    pub open spec fn output<NL: NonlinearFunction>(self, x: Sample) -> Output {
        let step = x.value() - self.x1().value();
        if magnitude(step) < self.tolerance().value() {
            NL::f_spec(Point::halfway(x, self.x1()))
        } else {
            Output::from_real(
                (NL::ad1_spec(Point::at(x)).value() - self.ad1_x1().value()) / step,
            )
        }
    }

    /// The state that `process` leaves for the input `x`.
    pub closed spec fn after<NL: NonlinearFunction>(self, x: Sample) -> Adaa1 {
        Adaa1 { x1: x, ad1_x1: NL::ad1_spec(Point::at(x)), tolerance: self.tolerance }
    }

    /// The state after `times` calls of `process` with the same input `x`.
    pub open spec fn fed<NL: NonlinearFunction>(self, x: Sample, times: nat) -> Adaa1
        decreases times,
    {
        if times == 0 {
            self
        } else {
            self.fed::<NL>(x, (times - 1) as nat).after::<NL>(x)
        }
    }

    /// A processor that has only been fed zeros, with the given tolerance. A tolerance below
    /// one unit would let a difference quotient be formed over a step of zero: there is no
    /// such processor.
    pub fn with_tolerance(tolerance: Sample) -> (made: Option<Adaa1>)
        ensures
            made is Some <==> tolerance@ >= 1,
            made matches Some(s) ==> s.x1()@ == 0 && s.ad1_x1()@ == 0 && s.tolerance()
                == tolerance,
    {
        if tolerance.units() >= 1 {
            Some(Adaa1 { x1: Sample::saturating(0), ad1_x1: Ad1::saturating(0), tolerance })
        } else {
            None
        }
    }

    /// Takes the next input and returns the next output: the difference quotient of the first
    /// antiderivative between the last input and this one, or, where the two are closer than
    /// the tolerance, the function's value halfway between them.
    pub fn process<NL: NonlinearFunction>(&mut self, x: Sample) -> (y: Output)
        ensures
            y == old(self).output::<NL>(x),
            y.in_range(),
            *final(self) == old(self).after::<NL>(x),
            final(self).x1() == x,
            final(self).ad1_x1() == NL::ad1_spec(Point::at(x)),
            final(self).tolerance() == old(self).tolerance(),
            final(self).well_formed(),
    {
        proof {
            use_type_invariant(&*self);
        }
        let ad1_x = NL::ad1(Point::at(x));
        let step: i128 = x.units() - self.x1.units();
        let tolerance: i128 = self.tolerance.units();
        let y = if -tolerance < step && step < tolerance {
            NL::f(Point::halfway(x, self.x1))
        } else {
            Output::quotient(ad1_x.units() - self.ad1_x1.units(), 100 * step)
        };
        proof {
            use_type_invariant(&y);
            use_type_invariant(&ad1_x);
        }
        self.ad1_x1 = ad1_x;
        self.x1 = x;
        y
    }
}

impl Default for Adaa1 {
    /// The processor that has only been fed zeros, with a tolerance of [`TOLERANCE`].
    fn default() -> (s: Adaa1)
        ensures
            s.x1()@ == 0,
            s.ad1_x1()@ == 0,
            s.tolerance()@ == TOLERANCE,
    {
        Adaa1 {
            x1: Sample::saturating(0),
            ad1_x1: Ad1::saturating(0),
            tolerance: Sample::saturating(TOLERANCE),
        }
    }
}

/// Feeding a first-order processor leaves its tolerance as it was.
pub proof fn lemma_adaa1_keeps_tolerance<NL: NonlinearFunction>(
    s: Adaa1,
    x: Sample,
    times: nat,
)
    ensures
        s.fed::<NL>(x, times).tolerance() == s.tolerance(),
    decreases times,
{
    if times > 0 {
        lemma_adaa1_keeps_tolerance::<NL>(s, x, (times - 1) as nat);
    }
}

/// Held input: once a first-order processor has taken `x`, every further `x` gives exactly
/// the function's value at `x`.
pub proof fn lemma_adaa1_held_input<NL: NonlinearFunction>(
    s: Adaa1,
    x: Sample,
    times: nat,
)
    requires
        s.well_formed(),
        x.in_range(),
        times >= 1,
    ensures
        s.fed::<NL>(x, times).x1() == x,
        s.fed::<NL>(x, times).output::<NL>(x) == NL::f_spec(Point::at(x)),
{
    Point::lemma_places(x, x, x);
    lemma_adaa1_keeps_tolerance::<NL>(s, x, times);
}

/// The processor of the second order. Its output is one sample behind its input: the newest
/// input is the "future", the one before it is "now", and the one before that is the "past".
pub struct Adaa2 {
    x_now: Sample,
    x_past: Sample,
    ad2_now: Ad2,
    d_past: Ad1,
    tolerance: Sample,
}

impl Adaa2 {
    /// The last input.
    pub closed spec fn x_now(self) -> Sample {
        self.x_now
    }

    /// The input before the last.
    pub closed spec fn x_past(self) -> Sample {
        self.x_past
    }

    /// The second antiderivative that was computed at the last input.
    pub closed spec fn ad2_now(self) -> Ad2 {
        self.ad2_now
    }

    /// The slope of the second antiderivative that the last call computed.
    pub closed spec fn d_past(self) -> Ad1 {
        self.d_past
    }

    /// The step up to which the processor forms no difference quotient.
    pub closed spec fn tolerance(self) -> Sample {
        self.tolerance
    }

    /// All that the processor keeps is in range, and its tolerance is at least one unit.
    #[verifier::type_invariant]
    pub open spec fn well_formed(self) -> bool {
        &&& self.x_now().in_range()
        &&& self.x_past().in_range()
        &&& self.ad2_now().in_range()
        &&& self.d_past().in_range()
        &&& self.tolerance().in_range()
        &&& self.tolerance()@ >= 1
    }

    /// The slope of the second antiderivative of `NL` between two inputs, as a processor of
    /// the given tolerance computes it.
    pub open spec fn slope_between<NL: NonlinearFunction>(
        to: Sample,
        from: Sample,
        tolerance: Sample,
    ) -> Ad1 {
        let step = to.value() - from.value();
        if magnitude(step) <= tolerance.value() {
            NL::ad1_spec(Point::halfway(to, from))
        } else {
            Ad1::from_real(
                (NL::ad2_spec(Point::at(to)).value() - NL::ad2_spec(Point::at(from)).value())
                    / step,
            )
        }
    }

    /// The state is one that two calls with `NL` leave: it holds the second antiderivative of
    /// `NL` at the last input and its slope between the last two inputs.
    pub open spec fn follows<NL: NonlinearFunction>(self) -> bool {
        &&& self.ad2_now() == NL::ad2_spec(Point::at(self.x_now()))
        &&& self.d_past() == Self::slope_between::<NL>(
            self.x_now(),
            self.x_past(),
            self.tolerance(),
        )
    }

    /// The slope of the second antiderivative between the last input and `x_future`: their
    /// difference quotient, or, where the two are no farther apart than the tolerance, the
    /// first antiderivative halfway between them.
    pub open spec fn slope<NL: NonlinearFunction>(self, x_future: Sample) -> Ad1 {
        let step = x_future.value() - self.x_now().value();
        if magnitude(step) <= self.tolerance().value() {
            NL::ad1_spec(Point::halfway(x_future, self.x_now()))
        } else {
            Ad1::from_real(
                (NL::ad2_spec(Point::at(x_future)).value() - self.ad2_now().value()) / step,
            )
        }
    }

    /// What `process` returns for the input `x_future` in the state `self`.
    ///
    /// In general it is twice the difference quotient of the slopes over the last two steps.
    /// Where the input is no farther from the input before the last than the tolerance, the
    /// two are replaced by the point `xbar` halfway between them: the output is then formed
    /// from the antiderivatives at `xbar` and at the last input, or, where these two are also
    /// no farther apart than the tolerance, it is the function's value halfway between them.
    pub open spec fn output<NL: NonlinearFunction>(self, x_future: Sample) -> Output {
        let span = x_future.value() - self.x_past().value();
        if magnitude(span) <= self.tolerance().value() {
            let xbar = Point::halfway(x_future, self.x_past());
            let delta = xbar.value() - self.x_now().value();
            if magnitude(delta) <= self.tolerance().value() {
                NL::f_spec(Point::center(x_future, self.x_past(), self.x_now()))
            } else {
                let inner = Ad1::from_real(
                    (self.ad2_now().value() - NL::ad2_spec(xbar).value()) / delta,
                );
                Output::from_real(2real * (NL::ad1_spec(xbar).value() + inner.value()) / delta)
            }
        } else {
            Output::from_real(
                2real * (self.slope::<NL>(x_future).value() - self.d_past().value()) / span,
            )
        }
    }

    /// The state that `process` leaves for the input `x_future`.
    pub closed spec fn after<NL: NonlinearFunction>(self, x_future: Sample) -> Adaa2 {
        Adaa2 {
            x_now: x_future,
            x_past: self.x_now,
            ad2_now: NL::ad2_spec(Point::at(x_future)),
            d_past: self.slope::<NL>(x_future),
            tolerance: self.tolerance,
        }
    }

    /// The state after `times` calls of `process` with the same input `x`.
    pub open spec fn fed<NL: NonlinearFunction>(self, x: Sample, times: nat) -> Adaa2
        decreases times,
    {
        if times == 0 {
            self
        } else {
            self.fed::<NL>(x, (times - 1) as nat).after::<NL>(x)
        }
    }

    /// A processor that has only been fed zeros, with the given tolerance, which is at least
    /// one unit.
    pub fn with_tolerance(tolerance: Sample) -> (made: Option<Adaa2>)
        ensures
            made is Some <==> tolerance@ >= 1,
            made matches Some(s) ==> s.x_now()@ == 0 && s.x_past()@ == 0 && s.ad2_now()@ == 0
                && s.d_past()@ == 0 && s.tolerance() == tolerance,
    {
        if tolerance.units() >= 1 {
            Some(
                Adaa2 {
                    x_now: Sample::saturating(0),
                    x_past: Sample::saturating(0),
                    ad2_now: Ad2::saturating(0),
                    d_past: Ad1::saturating(0),
                    tolerance,
                },
            )
        } else {
            None
        }
    }

    /// Takes the next input and returns the output for the input before it.
    pub fn process<NL: NonlinearFunction>(&mut self, x_future: Sample) -> (y: Output)
        ensures
            y == old(self).output::<NL>(x_future),
            y.in_range(),
            *final(self) == old(self).after::<NL>(x_future),
            final(self).x_now() == x_future,
            final(self).x_past() == old(self).x_now(),
            final(self).ad2_now() == NL::ad2_spec(Point::at(x_future)),
            final(self).d_past() == old(self).slope::<NL>(x_future),
            final(self).tolerance() == old(self).tolerance(),
            final(self).well_formed(),
    {
        proof {
            use_type_invariant(&*self);
        }
        let tolerance: i128 = self.tolerance.units();
        let ad2_future = NL::ad2(Point::at(x_future));
        let step: i128 = x_future.units() - self.x_now.units();
        let d_now = if -tolerance <= step && step <= tolerance {
            NL::ad1(Point::halfway(x_future, self.x_now))
        } else {
            Ad1::quotient(ad2_future.units() - self.ad2_now.units(), 100 * step)
        };
        let span: i128 = x_future.units() - self.x_past.units();
        let y = if -tolerance <= span && span <= tolerance {
            let xbar = Point::halfway(x_future, self.x_past);
            let delta: i128 = xbar.units() - 100 * self.x_now.units();
            let wide: i128 = 100 * tolerance;
            if -wide <= delta && delta <= wide {
                NL::f(Point::center(x_future, self.x_past, self.x_now))
            } else {
                let inner = Ad1::quotient(self.ad2_now.units() - NL::ad2(xbar).units(), delta);
                Output::quotient(2 * (NL::ad1(xbar).units() + inner.units()), delta)
            }
        } else {
            Output::quotient(2 * (d_now.units() - self.d_past.units()), 100 * span)
        };
        proof {
            use_type_invariant(&y);
            use_type_invariant(&d_now);
            use_type_invariant(&ad2_future);
        }
        self.d_past = d_now;
        self.x_past = self.x_now;
        self.x_now = x_future;
        self.ad2_now = ad2_future;
        y
    }
}

impl Default for Adaa2 {
    /// The processor that has only been fed zeros, with a tolerance of [`TOLERANCE`].
    fn default() -> (s: Adaa2)
        ensures
            s.x_now()@ == 0,
            s.x_past()@ == 0,
            s.ad2_now()@ == 0,
            s.d_past()@ == 0,
            s.tolerance()@ == TOLERANCE,
    {
        Adaa2 {
            x_now: Sample::saturating(0),
            x_past: Sample::saturating(0),
            ad2_now: Ad2::saturating(0),
            d_past: Ad1::saturating(0),
            tolerance: Sample::saturating(TOLERANCE),
        }
    }
}

/// A call with `NL` leaves a first-order processor in a state that follows `NL`.
pub proof fn lemma_adaa1_follows<NL: NonlinearFunction>(s: Adaa1, x: Sample)
    ensures
        s.after::<NL>(x).follows::<NL>(),
{
}

/// Two calls with `NL` leave a second-order processor in a state that follows `NL`; one call
/// is enough where the state held the second antiderivative of `NL` before.
pub proof fn lemma_adaa2_follows<NL: NonlinearFunction>(
    s: Adaa2,
    x: Sample,
    next: Sample,
)
    ensures
        s.after::<NL>(x).after::<NL>(next).follows::<NL>(),
        s.ad2_now() == NL::ad2_spec(Point::at(s.x_now())) ==> s.after::<NL>(x).follows::<NL>(),
{
}

/// Feeding a second-order processor leaves its tolerance as it was.
pub proof fn lemma_adaa2_keeps_tolerance<NL: NonlinearFunction>(
    s: Adaa2,
    x: Sample,
    times: nat,
)
    ensures
        s.fed::<NL>(x, times).tolerance() == s.tolerance(),
    decreases times,
{
    if times > 0 {
        lemma_adaa2_keeps_tolerance::<NL>(s, x, (times - 1) as nat);
    }
}

/// Held input: once a second-order processor has taken `x` twice in a row, every further `x`
/// gives exactly the function's value at `x`.
pub proof fn lemma_adaa2_held_input<NL: NonlinearFunction>(
    s: Adaa2,
    x: Sample,
    times: nat,
)
    requires
        s.well_formed(),
        x.in_range(),
        times >= 2,
    ensures
        s.fed::<NL>(x, times).x_now() == x,
        s.fed::<NL>(x, times).x_past() == x,
        s.fed::<NL>(x, times).output::<NL>(x) == NL::f_spec(Point::at(x)),
{
    Point::lemma_places(x, x, x);
    lemma_adaa2_keeps_tolerance::<NL>(s, x, times);
    reveal_with_fuel(Adaa2::fed, 3);
}

} // verus!
