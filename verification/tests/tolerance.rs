use adaa::fixed::{SAMPLE_LIMIT, UNIT};
use adaa::processor::TOLERANCE;
use adaa::{Ad1, Ad2, Adaa1, Adaa2, HardClip, NonlinearFunction, Output, Point, Sample};

/// A function whose three parts are unrelated, so that an output shows which of its parts
/// produced it: `f` is 7 units everywhere, `ad1` has slope 3 and `ad2` is twice the square.
struct Marker;

impl NonlinearFunction for Marker {
    fn f_spec(x: Point) -> Output {
        Self::f(x)
    }

    fn ad1_spec(x: Point) -> Ad1 {
        Self::ad1(x)
    }

    fn ad2_spec(x: Point) -> Ad2 {
        Self::ad2(x)
    }

    fn f(_x: Point) -> Output {
        Output::saturating(7)
    }

    fn ad1(x: Point) -> Ad1 {
        Ad1::saturating(3 * x.units() * 100_000_000)
    }

    fn ad2(x: Point) -> Ad2 {
        Ad2::saturating(20 * x.units() * x.units())
    }
}

fn run_first<NL: NonlinearFunction>(tolerance: i128, inputs: &[i128]) -> Vec<i128> {
    let mut adaa = Adaa1::with_tolerance(Sample::saturating(tolerance)).unwrap();
    inputs.iter().map(|&u| adaa.process::<NL>(Sample::saturating(u)).units()).collect()
}

fn run_second<NL: NonlinearFunction>(tolerance: i128, inputs: &[i128]) -> Vec<i128> {
    let mut adaa = Adaa2::with_tolerance(Sample::saturating(tolerance)).unwrap();
    inputs.iter().map(|&u| adaa.process::<NL>(Sample::saturating(u)).units()).collect()
}

#[test]
fn default_tolerance_is_ten_micro() {
    assert_eq!(TOLERANCE, UNIT / 100_000);
}

#[test]
fn tolerance_below_one_unit_is_refused() {
    assert!(Adaa1::with_tolerance(Sample::saturating(0)).is_none());
    assert!(Adaa1::with_tolerance(Sample::saturating(-1)).is_none());
    assert!(Adaa1::with_tolerance(Sample::saturating(-SAMPLE_LIMIT)).is_none());
    assert!(Adaa2::with_tolerance(Sample::saturating(0)).is_none());
    assert!(Adaa2::with_tolerance(Sample::saturating(-1)).is_none());
    assert!(Adaa2::with_tolerance(Sample::saturating(-SAMPLE_LIMIT)).is_none());
}

#[test]
fn tolerance_from_one_unit_is_accepted() {
    for units in [1, 2, TOLERANCE, UNIT, SAMPLE_LIMIT] {
        assert!(Adaa1::with_tolerance(Sample::saturating(units)).is_some());
        assert!(Adaa2::with_tolerance(Sample::saturating(units)).is_some());
    }
}

#[test]
fn first_order_with_default_tolerance_is_the_default() {
    let mut a = Adaa1::default();
    let mut b = Adaa1::with_tolerance(Sample::saturating(TOLERANCE)).unwrap();
    for units in [3, TOLERANCE, TOLERANCE - 1, UNIT, UNIT + TOLERANCE, -UNIT, 0, 0] {
        let x = Sample::saturating(units);
        assert_eq!(a.process::<Marker>(x).units(), b.process::<Marker>(x).units());
    }
}

#[test]
fn second_order_with_default_tolerance_is_the_default() {
    let mut a = Adaa2::default();
    let mut b = Adaa2::with_tolerance(Sample::saturating(TOLERANCE)).unwrap();
    for units in [3, TOLERANCE, 2 * TOLERANCE + 1, UNIT, UNIT + TOLERANCE, UNIT, -UNIT, 0, 0] {
        let x = Sample::saturating(units);
        assert_eq!(a.process::<Marker>(x).units(), b.process::<Marker>(x).units());
    }
}

#[test]
fn first_order_tolerance_moves_the_threshold() {
    let inputs = [
        9,
        18,
        28,
        19,
        9,
    ];
    assert_eq!(
        run_first::<Marker>(10, &inputs),
        vec![
            7,
            7,
            300_000_000_000_000_000_000,
            7,
            300_000_000_000_000_000_000,
        ]
    );
}

#[test]
fn first_order_smallest_tolerance_divides_by_one_unit() {
    let inputs = [
        0,
        1,
        0,
        0,
        -1,
    ];
    assert_eq!(
        run_first::<Marker>(1, &inputs),
        vec![
            7,
            300_000_000_000_000_000_000,
            300_000_000_000_000_000_000,
            7,
            300_000_000_000_000_000_000,
        ]
    );
}

#[test]
fn second_order_tolerance_moves_the_threshold() {
    // Within the tolerance of silence; a step and a span above it; a span above it with a
    // step of zero; all three equal.
    let inputs = [
        10,
        21,
        21,
        21,
    ];
    assert_eq!(
        run_second::<Marker>(10, &inputs),
        vec![
            7,
            447_619_047_619_047_619_047,
            18_181_818_181_818_181_818,
            7,
        ]
    );
}

#[test]
fn second_order_smallest_tolerance() {
    let inputs = [
        1,
        2,
        4,
        4,
        5,
        4,
        4,
        4,
    ];
    assert_eq!(
        run_second::<HardClip>(1, &inputs),
        vec![
            2_500_000_000,
            10_000_000_000,
            -6_666_666_666,
            80_000_000_000,
            42_500_000_000,
            45_000_000_000,
            42_500_000_000,
            40_000_000_000,
        ]
    );
}

#[test]
fn first_order_largest_tolerance_always_takes_the_midpoint() {
    let inputs = [
        10_000_000_000,
        30_000_000_000,
        -5_000_000_000,
        0,
    ];
    assert_eq!(
        run_first::<HardClip>(10_000_000_000_000_000, &inputs),
        vec![
            50_000_000_000_000_000_000,
            100_000_000_000_000_000_000,
            100_000_000_000_000_000_000,
            -25_000_000_000_000_000_000,
        ]
    );
}

#[test]
fn second_order_largest_tolerance_always_takes_the_midpoint() {
    let inputs = [
        10_000_000_000,
        30_000_000_000,
        -5_000_000_000,
        0,
    ];
    assert_eq!(
        run_second::<HardClip>(10_000_000_000_000_000, &inputs),
        vec![
            25_000_000_000_000_000_000,
            100_000_000_000_000_000_000,
            100_000_000_000_000_000_000,
            50_000_000_000_000_000_000,
        ]
    );
}

