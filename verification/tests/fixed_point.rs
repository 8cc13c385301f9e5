use adaa::fixed::{
    scaled_quotient, OUTPUT_LIMIT, POINT_LIMIT, SAMPLE_LIMIT, UNIT, WIDE_LIMIT,
};
use adaa::{Ad1, Ad2, Output, Point, Sample};

#[test]
fn constants_are_powers_of_ten() {
    assert_eq!(UNIT, 10i128.pow(10));
    assert_eq!(SAMPLE_LIMIT, 1_000_000 * UNIT);
    assert_eq!(POINT_LIMIT, 100 * SAMPLE_LIMIT);
    assert_eq!(OUTPUT_LIMIT, 1_000_000 * 10i128.pow(20));
    assert_eq!(WIDE_LIMIT, 10i128.pow(37));
}

#[test]
fn scaled_quotient_keeps_the_digits_of_the_remainder() {
    assert_eq!(scaled_quotient(1, 1000, 3, WIDE_LIMIT), 333);
    assert_eq!(scaled_quotient(-1, 1000, 3, WIDE_LIMIT), -333);
    assert_eq!(scaled_quotient(1, 1000, -3, WIDE_LIMIT), -333);
    assert_eq!(scaled_quotient(-1, 1000, -3, WIDE_LIMIT), 333);
    assert_eq!(scaled_quotient(7, 1, 2, WIDE_LIMIT), 3);
    assert_eq!(scaled_quotient(7, 10, 2, WIDE_LIMIT), 35);
    assert_eq!(scaled_quotient(0, 1000, 3, WIDE_LIMIT), 0);
    assert_eq!(scaled_quotient(2, 1_000_000_000_000, 3, WIDE_LIMIT), 666_666_666_666);
    assert_eq!(
        scaled_quotient(10i128.pow(20), 1_000_000_000_000, 3 * 10i128.pow(12), WIDE_LIMIT),
        33_333_333_333_333_333_333
    );
}

#[test]
fn scaled_quotient_does_not_overflow() {
    let run = 10_000_000_000_000_000;
    let scale = 1_000_000_000_000;
    assert_eq!(scaled_quotient(i128::MAX, scale, run, WIDE_LIMIT), i128::MAX / 10_000);
    assert_eq!(scaled_quotient(-i128::MAX, scale, run, WIDE_LIMIT), -(i128::MAX / 10_000));
    assert_eq!(scaled_quotient(i128::MAX, scale, run / 100_000, WIDE_LIMIT), WIDE_LIMIT);
    assert_eq!(scaled_quotient(i128::MAX, scale, 1, 5), 5);
    assert_eq!(scaled_quotient(i128::MAX, 1, -1, WIDE_LIMIT), -WIDE_LIMIT);
    assert_eq!(scaled_quotient(run - 1, scale, run, WIDE_LIMIT), scale - 1);
    assert_eq!(scaled_quotient(run - 1, scale, -run, WIDE_LIMIT), 1 - scale);
    assert_eq!(scaled_quotient(3 * run + 1, scale, run, WIDE_LIMIT), 3 * scale);
    assert_eq!(scaled_quotient(3 * run, scale, run, 3 * scale), 3 * scale);
    assert_eq!(scaled_quotient(3 * run, scale, run, 3 * scale - 1), 3 * scale - 1);
    assert_eq!(scaled_quotient(100, 7, 3, 0), 0);
}

#[test]
fn sample_keeps_units_in_range() {
    assert_eq!(Sample::saturating(0).units(), 0);
    assert_eq!(Sample::saturating(123).units(), 123);
    assert_eq!(Sample::saturating(-123).units(), -123);
    assert_eq!(Sample::saturating(SAMPLE_LIMIT).units(), SAMPLE_LIMIT);
    assert_eq!(Sample::saturating(-SAMPLE_LIMIT).units(), -SAMPLE_LIMIT);
}

#[test]
fn sample_saturates_out_of_range() {
    assert_eq!(Sample::saturating(SAMPLE_LIMIT + 1).units(), SAMPLE_LIMIT);
    assert_eq!(Sample::saturating(-SAMPLE_LIMIT - 1).units(), -SAMPLE_LIMIT);
    assert_eq!(Sample::saturating(i128::MAX).units(), SAMPLE_LIMIT);
    assert_eq!(Sample::saturating(i128::MIN).units(), -SAMPLE_LIMIT);
}

#[test]
fn other_values_saturate_out_of_range() {
    assert_eq!(Point::saturating(42).units(), 42);
    assert_eq!(Point::saturating(POINT_LIMIT + 1).units(), POINT_LIMIT);
    assert_eq!(Point::saturating(i128::MIN).units(), -POINT_LIMIT);
    assert_eq!(Output::saturating(-42).units(), -42);
    assert_eq!(Output::saturating(OUTPUT_LIMIT + 1).units(), OUTPUT_LIMIT);
    assert_eq!(Output::saturating(i128::MIN).units(), -OUTPUT_LIMIT);
    assert_eq!(Ad1::saturating(42).units(), 42);
    assert_eq!(Ad1::saturating(-WIDE_LIMIT).units(), -WIDE_LIMIT);
    assert_eq!(Ad1::saturating(WIDE_LIMIT + 1).units(), WIDE_LIMIT);
    assert_eq!(Ad1::saturating(i128::MIN).units(), -WIDE_LIMIT);
    assert_eq!(Ad2::saturating(-42).units(), -42);
    assert_eq!(Ad2::saturating(WIDE_LIMIT).units(), WIDE_LIMIT);
    assert_eq!(Ad2::saturating(i128::MAX).units(), WIDE_LIMIT);
    assert_eq!(Ad2::saturating(-WIDE_LIMIT - 1).units(), -WIDE_LIMIT);
}

#[test]
fn points_lie_exactly_between_samples() {
    let s = Sample::saturating;
    assert_eq!(Point::at(s(7)).units(), 700);
    assert_eq!(Point::at(s(-SAMPLE_LIMIT)).units(), -POINT_LIMIT);
    assert_eq!(Point::halfway(s(4), s(8)).units(), 600);
    assert_eq!(Point::halfway(s(3), s(4)).units(), 350);
    assert_eq!(Point::halfway(s(-3), s(4)).units(), 50);
    assert_eq!(Point::halfway(s(-3), s(-4)).units(), -350);
    assert_eq!(Point::halfway(s(SAMPLE_LIMIT), s(SAMPLE_LIMIT)).units(), POINT_LIMIT);
    assert_eq!(Point::halfway(s(-SAMPLE_LIMIT), s(SAMPLE_LIMIT)).units(), 0);
    assert_eq!(Point::center(s(3), s(4), s(0)).units(), 175);
    assert_eq!(Point::center(s(3), s(4), s(4)).units(), 375);
    assert_eq!(Point::center(s(-3), s(-4), s(1)).units(), -125);
    assert_eq!(
        Point::center(s(SAMPLE_LIMIT), s(SAMPLE_LIMIT), s(SAMPLE_LIMIT)).units(),
        POINT_LIMIT
    );
}

#[test]
fn points_between_a_sample_and_itself_are_at_that_sample() {
    for units in [0, 1, -1, 7, -7, UNIT, -UNIT + 1, SAMPLE_LIMIT, -SAMPLE_LIMIT] {
        let x = Sample::saturating(units);
        assert_eq!(Point::halfway(x, x).units(), Point::at(x).units());
        assert_eq!(Point::center(x, x, x).units(), Point::at(x).units());
    }
}

#[test]
fn output_quotient_drops_one_order() {
    // 0.125 in units of 1e-20 over 0.5 in units of 1e-12 is 0.25 in units of 1e-20.
    let eighth = 12_500_000_000_000_000_000;
    let half = 500_000_000_000;
    assert_eq!(Output::quotient(eighth, half).units(), 25_000_000_000_000_000_000);
    assert_eq!(Output::quotient(-eighth, half).units(), -25_000_000_000_000_000_000);
    // One third, to twenty places.
    assert_eq!(
        Output::quotient(10i128.pow(20), 3_000_000_000_000).units(),
        33_333_333_333_333_333_333
    );
    assert_eq!(Output::quotient(10, 3).units(), 3_333_333_333_333);
    assert_eq!(Output::quotient(-10, 3).units(), -3_333_333_333_333);
    assert_eq!(Output::quotient(10, -3).units(), -3_333_333_333_333);
    assert_eq!(Output::quotient(2, 3).units(), 666_666_666_666);
    assert_eq!(Output::quotient(0, 3).units(), 0);
}

#[test]
fn output_quotient_saturates() {
    assert_eq!(Output::quotient(WIDE_LIMIT, 1).units(), OUTPUT_LIMIT);
    assert_eq!(Output::quotient(WIDE_LIMIT, -1).units(), -OUTPUT_LIMIT);
    assert_eq!(Output::quotient(OUTPUT_LIMIT, 1_000_000_000_000).units(), OUTPUT_LIMIT);
    assert_eq!(Output::quotient(OUTPUT_LIMIT + 1, 1_000_000_000_000).units(), OUTPUT_LIMIT);
    assert_eq!(Output::quotient(OUTPUT_LIMIT - 1, 1_000_000_000_000).units(), OUTPUT_LIMIT - 1);
}

#[test]
fn ad1_quotient_drops_one_order() {
    // 1/6 in units of 1e-25 over 1 in units of 1e-12 is 1/6 in units of 1e-20.
    assert_eq!(
        Ad1::quotient(1_666_666_666_666_666_666_666_666, 1_000_000_000_000).units(),
        16_666_666_666_666_666_666
    );
    assert_eq!(Ad1::quotient(-9, 200).units(), -450_000);
    assert_eq!(Ad1::quotient(9, -200).units(), -450_000);
    assert_eq!(Ad1::quotient(-9, -200).units(), 450_000);
    assert_eq!(Ad1::quotient(1, 3).units(), 3_333_333);
    assert_eq!(Ad1::quotient(1, 30_000_000).units(), 0);
}

#[test]
fn ad1_quotient_saturates() {
    assert_eq!(Ad1::quotient(2 * WIDE_LIMIT, 100).units(), WIDE_LIMIT);
    assert_eq!(Ad1::quotient(2 * WIDE_LIMIT, -100).units(), -WIDE_LIMIT);
    assert_eq!(Ad1::quotient(2 * WIDE_LIMIT, 20_000_000).units(), WIDE_LIMIT);
    assert_eq!(Ad1::quotient(2 * WIDE_LIMIT, 40_000_000).units(), WIDE_LIMIT / 2);
    assert_eq!(Ad1::quotient(2 * WIDE_LIMIT, 1).units(), WIDE_LIMIT);
}
