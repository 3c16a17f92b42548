use argmin_testfunctions::{rosenbrock, rosenbrock_derivative, rosenbrock_hessian};

fn shifted(x: &[i64], i: usize, h: i64) -> Vec<i64> {
    let mut y = x.to_vec();
    y[i] += h;
    y
}

#[test]
fn central_difference_of_the_value_is_the_gradient_up_to_third_order() {
    let x = [2_i64, -1, 3, 0, -2];
    let (a, b) = (1_i64, 5_i64);
    let gradient = rosenbrock_derivative(&x, a, b);
    for h in [-3_i64, -1, 0, 1, 2, 7] {
        for i in 0..x.len() {
            let forth = rosenbrock(&shifted(&x, i, h), a, b);
            let back = rosenbrock(&shifted(&x, i, -h), a, b);
            let excess = if i + 1 < x.len() { 8 * b * x[i] * h * h * h } else { 0 };
            assert_eq!(forth - back, 2 * h * gradient[i] + excess);
        }
    }
}

#[test]
fn central_difference_at_chosen_values() {
    // f(2, 1) = 1 + 5 * 9 = 46, f(4, 1) = 9 + 5 * 225 = 1134, f(0, 1) = 1 + 5 = 6
    assert_eq!(rosenbrock(&[2_i64, 1], 1, 5), 46);
    assert_eq!(rosenbrock(&[4_i64, 1], 1, 5), 1134);
    assert_eq!(rosenbrock(&[0_i64, 1], 1, 5), 6);
    // gradient at (2, 1): -4 * 5 * 2 * (1 - 4) + 2 * (2 - 1) = 122 and 2 * 5 * (1 - 4) = -30
    assert_eq!(rosenbrock_derivative(&[2_i64, 1], 1, 5), vec![122, -30]);
    // 1134 - 6 = 2 * 2 * 122 + 8 * 5 * 2 * 8
    assert_eq!(1134 - 6, 2 * 2 * 122 + 8 * 5 * 2 * 8);
}

#[test]
fn forward_difference_of_the_gradient_is_the_hessian_up_to_second_order() {
    let x = [2_i64, -1, 3, 0, -2];
    let b = 5_i64;
    for a in [1_i64, 4] {
        let gradient = rosenbrock_derivative(&x, a, b);
        let hessian = rosenbrock_hessian(&x, a, b);
        for h in [-3_i64, -1, 0, 1, 2, 7] {
            for i in 0..x.len() {
                let moved = rosenbrock_derivative(&shifted(&x, i, h), a, b);
                for j in 0..x.len() {
                    let excess = if j == i && i + 1 < x.len() {
                        12 * b * x[i] * h * h + 4 * b * h * h * h - 2 * (a - 1) * h
                    } else if j == i + 1 {
                        -2 * b * h * h
                    } else {
                        0
                    };
                    assert_eq!(moved[j] - gradient[j], h * hessian[j][i] + excess);
                }
            }
        }
    }
}

#[test]
fn hessian_of_integers_is_symmetric() {
    let hessian = rosenbrock_hessian(&[2_i64, -1, 3, 0, -2], 1, 5);
    assert_eq!(
        hessian,
        vec![
            vec![262, -40, 0, 0, 0],
            vec![-40, 12, 20, 0, 0],
            vec![0, 20, 552, -60, 0],
            vec![0, 0, -60, 52, 0],
            vec![0, 0, 0, 0, 10],
        ]
    );
    for i in 0..5 {
        for j in 0..5 {
            assert_eq!(hessian[i][j], hessian[j][i]);
        }
    }
}
