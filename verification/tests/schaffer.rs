use approx::RelativeEq;
use argmin_testfunctions::{schaffer_from_wave, schaffer_phase};

fn schaffer_n2_f32(param: &[f32; 2]) -> f32 {
    schaffer_from_wave(param, schaffer_phase(param).sin())
}

fn schaffer_n2_f64(param: &[f64; 2]) -> f64 {
    schaffer_from_wave(param, schaffer_phase(param).sin())
}

fn schaffer_n4_f32(param: &[f32; 2]) -> f32 {
    schaffer_from_wave(param, schaffer_phase(param).abs().sin().cos())
}

fn schaffer_n4_f64(param: &[f64; 2]) -> f64 {
    schaffer_from_wave(param, schaffer_phase(param).abs().sin().cos())
}

#[test]
fn test_schaffer_n2_optimum() {
    assert!(schaffer_n2_f32(&[0_f32, 0_f32]).relative_eq(&0.0, f32::EPSILON, f32::EPSILON));
    assert!(schaffer_n2_f64(&[0_f64, 0_f64]).relative_eq(&0.0, f64::EPSILON, f64::EPSILON));
}

#[test]
fn test_schaffer_n4_optimum() {
    assert!(schaffer_n4_f32(&[0_f32, 1.25313_f32]).relative_eq(
        &0.291992,
        f32::EPSILON,
        f32::EPSILON
    ));
}

#[test]
fn schaffer_constants_are_the_decimal_ones() {
    // wave 0 at the origin: 0.5 + (0 - 0.5) / 1
    assert_eq!(schaffer_from_wave(&[0.0_f64, 0.0], 0.0), 0.0);
    // wave 1 at the origin: 0.5 + (1 - 0.5) / 1
    assert_eq!(schaffer_from_wave(&[0.0_f64, 0.0], 1.0), 1.0);
    // at (100, 0) the damping is 1 + 0.0001 * 10000 = 2: 0.5 + (9 - 0.5) / 4
    assert_eq!(schaffer_from_wave(&[100.0_f64, 0.0], 3.0), 2.625);
    assert_eq!(schaffer_from_wave(&[100.0_f32, 0.0], 3.0), 2.625);
    // 0.5 + (0 - 0.5) / (1 + 0.0001 * 2)^2
    assert_eq!(
        schaffer_from_wave(&[1.0_f64, 1.0], 0.0),
        0.5 + (0.0 - 0.5) / ((1.0 + 0.0001 * 2.0) * (1.0 + 0.0001 * 2.0))
    );
    assert_eq!(
        schaffer_from_wave(&[1.0_f32, 1.0], 0.0),
        0.5 + (0.0 - 0.5) / ((1.0 + 0.0001_f32 * 2.0) * (1.0 + 0.0001_f32 * 2.0))
    );
}

#[test]
fn schaffer_phase_is_the_difference_of_the_squares() {
    assert_eq!(schaffer_phase(&[3.0_f64, 2.0]), 5.0);
    assert_eq!(schaffer_phase(&[0.0_f32, 1.5]), -2.25);
    assert_eq!(schaffer_phase(&[-7_i64, 4]), 33);
}

#[test]
fn schaffer_n4_at_its_other_optimum() {
    let here = schaffer_n4_f64(&[0.0, 1.25313]);
    let there = schaffer_n4_f64(&[0.0, -1.25313]);
    assert_eq!(here, there);
    assert!((here - 0.291992).abs() < 1e-6);
}

#[test]
fn schaffer_n2_away_from_the_optimum() {
    let value = schaffer_n2_f64(&[1.0, 0.0]);
    let sine = 1.0_f64.sin();
    assert_eq!(value, 0.5 + (sine * sine - 0.5) / (1.0001 * 1.0001));
}

#[test]
fn schaffer_on_integers_divides_as_integers_do() {
    // one half and one ten-thousandth are 0 among the integers
    assert_eq!(schaffer_from_wave(&[3_i64, 4], 5), 25);
}
