use approx::RelativeEq;
use argmin_testfunctions::{
    rosenbrock, rosenbrock_derivative, rosenbrock_derivative_const, rosenbrock_hessian,
    rosenbrock_hessian_const,
};

#[test]
fn test_rosenbrock_optimum() {
    assert!(rosenbrock(&[1.0_f32, 1.0_f32], 1.0, 100.0).relative_eq(
        &0.0,
        f32::EPSILON,
        f32::EPSILON
    ));
    assert!(f64::relative_eq(
        &rosenbrock(&[1.0, 1.0], 1.0, 100.0),
        &0.0,
        f64::EPSILON,
        f64::EPSILON
    ));
    assert!(f64::relative_eq(
        &rosenbrock(&[1.0, 1.0, 1.0], 1.0, 100.0),
        &0.0,
        f64::EPSILON,
        f64::EPSILON
    ));
}

#[test]
fn test_rosenbrock_derivative_optimum() {
    let derivative = rosenbrock_derivative(&[1.0, 1.0, 1.0, 1.0, 1.0, 1.0, 1.0, 1.0], 1.0, 100.0);
    for elem in derivative {
        assert!(f64::relative_eq(&elem, &0.0, f64::EPSILON, f64::EPSILON));
    }
}

#[test]
fn test_rosenbrock_derivative_const_optimum() {
    let derivative =
        rosenbrock_derivative_const(&[1.0, 1.0, 1.0, 1.0, 1.0, 1.0, 1.0, 1.0], 1.0, 100.0);
    for elem in derivative {
        assert!(f64::relative_eq(&elem, &0.0, f64::EPSILON, f64::EPSILON));
    }
}

#[test]
fn test_rosenbrock_hessian() {
    let hessian = rosenbrock_hessian(&[0.0, 0.1, 0.2, 0.3], 1.0, 100.0);
    let res = vec![
        vec![-38.0, 0.0, 0.0, 0.0],
        vec![0.0, 134.0, -40.0, 0.0],
        vec![0.0, -40.0, 130.0, -80.0],
        vec![0.0, 0.0, -80.0, 200.0],
    ];
    let n = hessian.len();
    for i in 0..n {
        assert_eq!(hessian[i].len(), n);
        for j in 0..n {
            assert!(f64::relative_eq(&hessian[i][j], &res[i][j], f64::EPSILON, f64::EPSILON));
        }
    }
}

#[test]
fn test_rosenbrock_hessian_const() {
    let hessian = rosenbrock_hessian_const(&[0.0, 0.1, 0.2, 0.3], 1.0, 100.0);
    let res = vec![
        vec![-38.0, 0.0, 0.0, 0.0],
        vec![0.0, 134.0, -40.0, 0.0],
        vec![0.0, -40.0, 130.0, -80.0],
        vec![0.0, 0.0, -80.0, 200.0],
    ];
    let n = hessian.len();
    for i in 0..n {
        assert_eq!(hessian[i].len(), n);
        for j in 0..n {
            assert!(f64::relative_eq(&hessian[i][j], &res[i][j], f64::EPSILON, f64::EPSILON));
        }
    }
}

#[test]
fn rosenbrock_value_of_eight_ones() {
    assert_eq!(rosenbrock(&[1.0_f64; 8], 1.0, 100.0), 0.0);
    assert_eq!(rosenbrock(&[1.0_f32; 8], 1.0, 100.0), 0.0);
}

#[test]
fn rosenbrock_value_away_from_the_optimum() {
    // (1 - 0.5)^2 + 100 * (2 - 0.25)^2 = 0.25 + 306.25
    assert_eq!(rosenbrock(&[0.5_f64, 2.0], 1.0, 100.0), 306.5);
    // ... and (1 - 2)^2 + 100 * (0 - 4)^2 = 1601 for the second pair
    assert_eq!(rosenbrock(&[0.5_f64, 2.0, 0.0], 1.0, 100.0), 1907.5);
    assert_eq!(rosenbrock(&[-1.2_f64, 1.0], 1.0, 100.0), 24.199999999999996);
}

#[test]
fn rosenbrock_gradient_away_from_the_optimum() {
    // pair (0.5, 2): -4 * 100 * 0.5 * 1.75 + 2 * (0.5 - 1) = -351 and 2 * 100 * 1.75 = 350
    // pair (2, 0): -4 * 100 * 2 * (-4) + 2 * (2 - 1) = 3202 and 2 * 100 * (-4) = -800
    assert_eq!(
        rosenbrock_derivative(&[0.5_f64, 2.0, 0.0], 1.0, 100.0),
        vec![-351.0, 3552.0, -800.0]
    );
    assert_eq!(
        rosenbrock_derivative_const(&[0.5_f64, 2.0, 0.0], 1.0, 100.0),
        [-351.0, 3552.0, -800.0]
    );
}

#[test]
fn rosenbrock_hessian_of_two_coordinates() {
    // 12 * 100 * 0.25 - 4 * 100 * 2 + 2 = -498, and -4 * 100 * 0.5 = -200
    assert_eq!(
        rosenbrock_hessian(&[0.5_f64, 2.0], 1.0, 100.0),
        vec![vec![-498.0, -200.0], vec![-200.0, 200.0]]
    );
    assert_eq!(
        rosenbrock_hessian_const(&[0.5_f64, 2.0], 1.0, 100.0),
        [[-498.0, -200.0], [-200.0, 200.0]]
    );
}

#[test]
fn rosenbrock_hessian_takes_twice_a_on_the_diagonal() {
    // 12 * 10 * 1 - 4 * 10 * 1 + 2 * 3 = 86
    assert_eq!(
        rosenbrock_hessian(&[1.0_f64, 1.0], 3.0, 10.0),
        vec![vec![86.0, -40.0], vec![-40.0, 20.0]]
    );
}

#[test]
fn rosenbrock_hessian_is_symmetric_and_tridiagonal() {
    let x = [0.3_f64, -0.7, 0.2, 0.9, -0.4, 0.1];
    let hessian = rosenbrock_hessian(&x, 1.0, 100.0);
    assert_eq!(hessian.len(), 6);
    for i in 0..6 {
        assert_eq!(hessian[i].len(), 6);
        for j in 0..6 {
            assert_eq!(hessian[i][j].to_bits(), hessian[j][i].to_bits());
            if i + 1 < j || j + 1 < i {
                assert_eq!(hessian[i][j], 0.0);
            }
        }
    }
    assert_eq!(hessian[5][5], 200.0);
}

#[test]
fn rosenbrock_fixed_size_agrees_with_dynamic() {
    let x = [0.3_f64, -0.7, 0.2, 0.9, -0.4, 0.1, 0.8, -1.0];
    let gradient = rosenbrock_derivative(&x, 1.0, 100.0);
    let gradient_fixed = rosenbrock_derivative_const(&x, 1.0, 100.0);
    let hessian = rosenbrock_hessian(&x, 1.0, 100.0);
    let hessian_fixed = rosenbrock_hessian_const(&x, 1.0, 100.0);
    assert_eq!(gradient.len(), 8);
    assert_eq!(hessian.len(), 8);
    for i in 0..8 {
        assert_eq!(gradient[i].to_bits(), gradient_fixed[i].to_bits());
        for j in 0..8 {
            assert_eq!(hessian[i][j].to_bits(), hessian_fixed[i][j].to_bits());
        }
    }
}

#[test]
fn rosenbrock_of_a_single_coordinate() {
    assert_eq!(rosenbrock(&[3.0_f64], 1.0, 100.0), 0.0);
    assert_eq!(rosenbrock_derivative(&[3.0_f64], 1.0, 100.0), vec![0.0]);
    assert_eq!(rosenbrock_derivative_const(&[3.0_f64], 1.0, 100.0), [0.0]);
    assert_eq!(rosenbrock_hessian(&[3.0_f64], 1.0, 100.0), vec![vec![0.0]]);
    assert_eq!(rosenbrock_hessian_const(&[3.0_f64], 1.0, 100.0), [[0.0]]);
}

#[test]
fn rosenbrock_of_no_coordinate() {
    let empty: [f64; 0] = [];
    assert_eq!(rosenbrock(&empty, 1.0, 100.0), 0.0);
    assert_eq!(rosenbrock_derivative(&empty, 1.0, 100.0), Vec::<f64>::new());
    assert_eq!(rosenbrock_derivative_const(&empty, 1.0, 100.0), empty);
    assert_eq!(rosenbrock_hessian(&empty, 1.0, 100.0), Vec::<Vec<f64>>::new());
    let empty_matrix: [[f64; 0]; 0] = [];
    assert_eq!(rosenbrock_hessian_const(&empty, 1.0, 100.0), empty_matrix);
}

#[test]
fn rosenbrock_is_exact_on_integers() {
    assert_eq!(rosenbrock(&[1_i64, 2, 3], 1, 2), 5);
    assert_eq!(rosenbrock_derivative(&[1_i64, 2, 3], 1, 2), vec![-8, 22, -4]);
    assert_eq!(rosenbrock_derivative_const(&[1_i64, 2, 3], 1, 2), [-8, 22, -4]);
    assert_eq!(
        rosenbrock_hessian(&[1_i64, 2, 3], 1, 2),
        vec![vec![10, -8, 0], vec![-8, 78, -16], vec![0, -16, 4]]
    );
    assert_eq!(
        rosenbrock_hessian_const(&[1_i64, 2, 3], 1, 2),
        [[10, -8, 0], [-8, 78, -16], [0, -16, 4]]
    );
}

#[test]
fn rosenbrock_at_integer_ones() {
    let ones = [1_i64; 5];
    for b in [-7_i64, 0, 1, 100, 1 << 40] {
        assert_eq!(rosenbrock(&ones, 1, b), 0);
        assert_eq!(rosenbrock_derivative(&ones, 1, b), vec![0; 5]);
        assert_eq!(rosenbrock_derivative_const(&ones, 1, b), [0; 5]);
    }
    assert_eq!(rosenbrock(&ones, 1, i64::MAX), 0);
    assert_eq!(rosenbrock(&ones, 1, i64::MIN), 0);
}
