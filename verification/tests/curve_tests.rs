//! Tests of the monotone cubic interpolant.  Coordinates are
//! fixed-point thousandths: `1000` stands for `1.0`.

use stretchrs::curve::CurveFunction;

#[test]
fn extremes() {
    let spline = CurveFunction::new(&[]);
    assert_eq!(spline.interpolate(0), 0);
    assert_eq!(spline.interpolate(1000), 1000);
}

#[test]
fn saturates() {
    let spline = CurveFunction::new(&[]);
    assert_eq!(spline.interpolate(1500), 1000);
    assert_eq!(spline.interpolate(-200), 0);
}

#[test]
fn high_blackpoint() {
    let spline = CurveFunction::new(&[(0, 200)]);
    assert_eq!(spline.interpolate(0), 200);
}

#[test]
fn low_whitepoint() {
    let spline = CurveFunction::new(&[(1000, 800)]);
    assert_eq!(spline.interpolate(1000), 800);
}

#[test]
fn identity_between_anchors() {
    let spline = CurveFunction::new(&[]);
    assert_eq!(spline.interpolate(500), 500);
    assert_eq!(spline.interpolate(250), 250);
}

#[test]
fn exact_at_control_points() {
    let spline = CurveFunction::new(&[(250, 400), (500, 600), (750, 650)]);
    assert_eq!(spline.interpolate(250), 400);
    assert_eq!(spline.interpolate(500), 600);
    assert_eq!(spline.interpolate(750), 650);
    assert_eq!(spline.interpolate(0), 0);
    assert_eq!(spline.interpolate(1000), 1000);
}

#[test]
fn flat_beyond_unanchored_ends() {
    let spline = CurveFunction::new(&[(100, 0), (900, 1500)]);
    assert_eq!(spline.interpolate(-50), 0);
    assert_eq!(spline.interpolate(50), 0);
    assert_eq!(spline.interpolate(950), 1500);
    assert_eq!(spline.interpolate(2000), 1500);
}

#[test]
fn interpolation_stays_between_monotone_knots() {
    let spline = CurveFunction::new(&[(500, 600)]);
    let mid = spline.interpolate(250);
    assert!(mid > 0 && mid < 600);
    let upper = spline.interpolate(750);
    assert!(upper > 600 && upper < 1000);
}
