//! Memoryless nonlinear functions, each with its first and second antiderivative.
use crate::fixed::{Ad1, Ad2, Output, Point};
use vstd::prelude::*;

verus! {

/// A memoryless transfer function `f` with its antiderivatives `ad1` and `ad2`, both chosen
/// to be zero at zero.
///
/// The processors ask nothing of the three but that each is a function of its argument alone.
/// The `_spec` functions name what they return; an implementation outside verified code
/// writes each `_spec` function as a call of the function it names.
pub trait NonlinearFunction {
    /// What `f` returns for `x`.
    spec fn f_spec(x: Point) -> Output;

    /// What `ad1` returns for `x`.
    spec fn ad1_spec(x: Point) -> Ad1;

    /// What `ad2` returns for `x`.
    spec fn ad2_spec(x: Point) -> Ad2;

    /// The function's value at `x`.
    fn f(x: Point) -> (y: Output)
        ensures
            y == Self::f_spec(x),
    ;

    /// The first antiderivative at `x`.
    fn ad1(x: Point) -> (y: Ad1)
        ensures
            y == Self::ad1_spec(x),
    ;

    /// The second antiderivative at `x`.
    fn ad2(x: Point) -> (y: Ad2)
        ensures
            y == Self::ad2_spec(x),
    ;
}

} // verus!
