use adaa::fixed::{POINT_LIMIT, SAMPLE_LIMIT};
use adaa::hard_clip::ONE;
use adaa::{HardClip, NonlinearFunction, Point, Sample};

fn point(x: f64) -> Point {
    Point::saturating((x * 1e12).round() as i128)
}

fn f(x: f64) -> f64 {
    HardClip::f(point(x)).units() as f64 / 1e20
}

fn ad1(x: f64) -> f64 {
    HardClip::ad1(point(x)).units() as f64 / 1e20
}

fn ad2(x: f64) -> f64 {
    HardClip::ad2(point(x)).units() as f64 / 1e25
}

#[test]
fn f_clamps_to_one() {
    for units in [
        0,
        1,
        -1,
        ONE / 2,
        -ONE / 2,
        ONE - 1,
        ONE,
        ONE + 1,
        -ONE + 1,
        -ONE,
        -ONE - 1,
        2 * ONE,
        -2 * ONE,
        POINT_LIMIT,
        -POINT_LIMIT,
    ] {
        let y = HardClip::f(Point::saturating(units)).units();
        assert_eq!(y, units.clamp(-ONE, ONE) * 100_000_000);
    }
}

#[test]
fn f_clamps_samples() {
    for units in [0, 3, -3, 5_000_000_000, 10_000_000_000, 10_000_000_001, -SAMPLE_LIMIT] {
        let y = HardClip::f(Point::at(Sample::saturating(units))).units();
        assert_eq!(y, units.clamp(-10_000_000_000, 10_000_000_000) * 10_000_000_000);
    }
}

#[test]
fn f_clamps_like_floats() {
    for x in [-7.5, -1.0, -0.999, -0.25, 0.0, 0.25, 0.999, 1.0, 1.001, 42.0] {
        assert_eq!(f(x), f64::clamp(x, -1.0, 1.0));
    }
}

#[test]
fn ad1_exact_values() {
    let at = |units: i128| HardClip::ad1(Point::saturating(units)).units();
    assert_eq!(at(0), 0);
    assert_eq!(at(500_000_000_000), 12_500_000_000_000_000_000);
    assert_eq!(at(-500_000_000_000), 12_500_000_000_000_000_000);
    assert_eq!(at(1_000_000_000_000), 50_000_000_000_000_000_000);
    assert_eq!(at(-1_000_000_000_000), 50_000_000_000_000_000_000);
    assert_eq!(at(1_500_000_000_000), 100_000_000_000_000_000_000);
    assert_eq!(at(2_000_000_000_000), 150_000_000_000_000_000_000);
    assert_eq!(at(-2_000_000_000_000), 150_000_000_000_000_000_000);
    assert_eq!(at(1_000_000_000_000_000_000), 99_999_950_000_000_000_000_000_000);
    assert_eq!(at(-1_000_000_000_000_000_000), 99_999_950_000_000_000_000_000_000);
}

#[test]
fn ad1_rounds_towards_zero() {
    let at = |units: i128| HardClip::ad1(Point::saturating(units)).units();
    assert_eq!(at(1), 0);
    assert_eq!(at(-1), 0);
    assert_eq!(at(100), 0);
    assert_eq!(at(-100), 0);
    assert_eq!(at(300), 4);
    assert_eq!(at(-300), 4);
    assert_eq!(at(8_434), 3_556);
    assert_eq!(at(-8_434), 3_556);
    assert_eq!(at(8_435), 3_557);
    assert_eq!(at(999_999_999_999), 49_999_999_999_900_000_000);
    assert_eq!(at(-999_999_999_999), 49_999_999_999_900_000_000);
    assert_eq!(at(1_000_000_000_001), 50_000_000_000_100_000_000);
    assert_eq!(at(50), 0);
}

#[test]
fn ad2_exact_values() {
    let at = |units: i128| HardClip::ad2(Point::saturating(units)).units();
    assert_eq!(at(0), 0);
    assert_eq!(at(500_000_000_000), 208_333_333_333_333_333_333_333);
    assert_eq!(at(-500_000_000_000), -208_333_333_333_333_333_333_333);
    assert_eq!(at(1_000_000_000_000), 1_666_666_666_666_666_666_666_666);
    assert_eq!(at(-1_000_000_000_000), -1_666_666_666_666_666_666_666_666);
    assert_eq!(at(1_500_000_000_000), 5_416_666_666_666_666_666_666_666);
    assert_eq!(at(2_000_000_000_000), 11_666_666_666_666_666_666_666_666);
    assert_eq!(at(-2_000_000_000_000), -11_666_666_666_666_666_666_666_666);
    assert_eq!(at(1_000_000_000_000_000_000), 4_999_995_000_001_666_666_666_666_666_666_666_666);
    assert_eq!(at(-1_000_000_000_000_000_000), -4_999_995_000_001_666_666_666_666_666_666_666_666);
}

#[test]
fn ad2_rounds_towards_zero() {
    let at = |units: i128| HardClip::ad2(Point::saturating(units)).units();
    assert_eq!(at(1), 0);
    assert_eq!(at(-1), 0);
    assert_eq!(at(100), 0);
    assert_eq!(at(-100), 0);
    assert_eq!(at(300), 0);
    assert_eq!(at(-300), 0);
    assert_eq!(at(8_434), 0);
    assert_eq!(at(-8_434), 0);
    assert_eq!(at(8_435), 1);
    assert_eq!(at(999_999_999_999), 1_666_666_666_661_666_666_666_671);
    assert_eq!(at(-999_999_999_999), -1_666_666_666_661_666_666_666_671);
    assert_eq!(at(1_000_000_000_001), 1_666_666_666_671_666_666_666_671);
    assert_eq!(at(50), 0);
}

#[test]
fn antiderivatives_vanish_at_zero() {
    let zero = Point::saturating(0);
    assert_eq!(HardClip::f(zero).units(), 0);
    assert_eq!(HardClip::ad1(zero).units(), 0);
    assert_eq!(HardClip::ad2(zero).units(), 0);
}

#[test]
fn pieces_meet_at_the_corners() {
    // One unit inside the corner, at the corner and one unit outside, the values differ by
    // no more than the slope allows.
    let a1 = |units: i128| HardClip::ad1(Point::saturating(units)).units();
    let a2 = |units: i128| HardClip::ad2(Point::saturating(units)).units();
    for corner in [ONE, -ONE] {
        let inside = corner - corner.signum();
        let outside = corner + corner.signum();
        assert!((a1(corner) - a1(inside)).abs() <= 100_000_000);
        assert!((a1(outside) - a1(corner)).abs() <= 100_000_000);
        assert!((a2(corner) - a2(inside)).abs() <= 5_000_000_000_000);
        assert!((a2(outside) - a2(corner)).abs() <= 5_000_000_000_000 + 5);
    }
    assert_eq!(ad1(1.0), 0.5);
    assert_eq!(ad1(-1.0), 0.5);
    assert!((ad2(1.0) - 1.0 / 6.0).abs() < 1e-15);
    assert!((ad2(-1.0) + 1.0 / 6.0).abs() < 1e-15);
}

#[test]
fn ad1_differentiates_to_f() {
    let eps = 1e-6;
    for x in [-5.0, -2.0, -1.0, -0.999999, -0.5, -0.1, 0.0, 0.1, 0.5, 0.999999, 1.0, 2.0, 5.0] {
        let slope = (ad1(x + eps) - ad1(x - eps)) / (2.0 * eps);
        assert!((slope - f(x)).abs() < 1e-4, "at {x}: {slope} against {}", f(x));
    }
}

#[test]
fn ad2_differentiates_to_ad1() {
    let eps = 1e-6;
    for x in [-5.0, -2.0, -1.0, -0.999999, -0.5, -0.1, 0.0, 0.1, 0.5, 0.999999, 1.0, 2.0, 5.0] {
        let slope = (ad2(x + eps) - ad2(x - eps)) / (2.0 * eps);
        assert!((slope - ad1(x)).abs() < 1e-4, "at {x}: {slope} against {}", ad1(x));
    }
}

#[test]
fn ad1_is_even_and_ad2_is_odd() {
    for units in [1, 17, ONE / 3, ONE - 1, ONE, ONE + 1, 5 * ONE, POINT_LIMIT] {
        let p = Point::saturating(units);
        let n = Point::saturating(-units);
        assert_eq!(HardClip::f(p).units(), -HardClip::f(n).units());
        assert_eq!(HardClip::ad1(p).units(), HardClip::ad1(n).units());
        assert_eq!(HardClip::ad2(p).units(), -HardClip::ad2(n).units());
    }
}
