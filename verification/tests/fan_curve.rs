use lact_daemon::fan_curve::{duty, CurvePoint, FanCurve, FULL_SPEED};

fn point(temperature: i64, speed: u32) -> CurvePoint {
    CurvePoint { temperature, speed }
}

#[test]
fn curve_orders_points_by_temperature() {
    let curve = FanCurve::from_points(&vec![point(80, 10_000), point(30, 2_000), point(60, 6_000)])
        .unwrap();
    assert_eq!(
        curve.points(),
        &vec![point(30, 2_000), point(60, 6_000), point(80, 10_000)]
    );
}

#[test]
fn later_point_replaces_earlier_point_of_same_temperature() {
    let curve = FanCurve::from_points(&vec![point(50, 1_000), point(50, 3_000)]).unwrap();
    assert_eq!(curve.points(), &vec![point(50, 3_000)]);
}

#[test]
fn curve_without_points_is_refused() {
    assert!(FanCurve::from_points(&vec![]).is_none());
}

#[test]
fn curve_with_speed_beyond_full_is_refused() {
    assert!(FanCurve::from_points(&vec![point(50, FULL_SPEED + 1)]).is_none());
    assert!(FanCurve::from_points(&vec![point(50, FULL_SPEED)]).is_some());
}

#[test]
fn evaluation_clamps_below_and_above() {
    let curve = FanCurve::from_points(&vec![point(30, 2_000), point(60, 6_000), point(80, 10_000)])
        .unwrap();
    assert_eq!(curve.evaluate(i64::MIN), 2_000);
    assert_eq!(curve.evaluate(29), 2_000);
    assert_eq!(curve.evaluate(30), 2_000);
    assert_eq!(curve.evaluate(80), 10_000);
    assert_eq!(curve.evaluate(81), 10_000);
    assert_eq!(curve.evaluate(i64::MAX), 10_000);
}

#[test]
fn evaluation_interpolates_between_keys() {
    let curve = FanCurve::from_points(&vec![point(30, 2_000), point(60, 6_000), point(80, 10_000)])
        .unwrap();
    assert_eq!(curve.evaluate(45), 4_000);
    assert_eq!(curve.evaluate(60), 6_000);
    assert_eq!(curve.evaluate(70), 8_000);
    assert_eq!(curve.evaluate(31), 2_133);
}

#[test]
fn evaluation_follows_a_falling_line() {
    let curve = FanCurve::from_points(&vec![point(0, 9_000), point(3, 8_000)]).unwrap();
    assert_eq!(curve.evaluate(1), 8_666);
    assert_eq!(curve.evaluate(2), 8_333);
}

#[test]
fn evaluation_spans_the_whole_temperature_range() {
    let curve = FanCurve::from_points(&vec![point(i64::MIN, 0), point(i64::MAX, 10_000)]).unwrap();
    assert_eq!(curve.evaluate(-1), 4_999);
    assert_eq!(curve.evaluate(i64::MAX - 1), 9_999);
}

#[test]
fn duty_is_the_same_fraction_of_the_full_duty_cycle() {
    assert_eq!(duty(0), 0);
    assert_eq!(duty(10_000), 255);
    assert_eq!(duty(5_000), 127);
    assert_eq!(duty(20_000), 255);
}

#[test]
fn the_order_of_arrival_does_not_matter() {
    let a = FanCurve::from_points(&vec![point(30, 2_000), point(60, 6_000), point(80, 10_000)]);
    let b = FanCurve::from_points(&vec![point(80, 10_000), point(30, 2_000), point(60, 6_000)]);
    let c = FanCurve::from_points(&vec![point(60, 6_000), point(80, 10_000), point(30, 2_000)]);
    assert_eq!(a, b);
    assert_eq!(b, c);
    assert_eq!(a.unwrap().evaluate(50), c.unwrap().evaluate(50));
}

#[test]
fn a_copy_of_a_curve_equals_the_curve() {
    let curve = FanCurve::from_points(&vec![point(30, 2_000), point(60, 6_000)]).unwrap();
    assert_eq!(curve.clone(), curve);
    assert_eq!(FanCurve::default_curve().points().len(), 5);
}
