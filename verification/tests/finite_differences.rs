use approx::RelativeEq;
use argmin_testfunctions::{
    rosenbrock, rosenbrock_derivative, rosenbrock_derivative_const, rosenbrock_hessian,
    rosenbrock_hessian_const,
};
use finitediff::FiniteDiff;

#[test]
fn rosenbrock_derivative_matches_central_differences() {
    let param = [0.3, -0.7, 0.2, 0.9, -0.4, 0.1, 0.8, -1.0];
    let derivative = rosenbrock_derivative(&param, 1.0, 100.0);
    let derivative_fd = Vec::from(param).central_diff(&|x| rosenbrock(x, 1.0, 100.0));
    assert_eq!(derivative.len(), 8);
    for i in 0..derivative.len() {
        assert!(f64::relative_eq(&derivative[i], &derivative_fd[i], 1e-4, f64::EPSILON));
    }
}

#[test]
fn rosenbrock_derivative_const_matches_central_differences() {
    let param = [-0.9, 0.5, 0.0, -0.2, 1.0, 0.6, -0.3, 0.4];
    let derivative = rosenbrock_derivative_const(&param, 1.0, 100.0);
    let derivative_fd = Vec::from(param).central_diff(&|x| rosenbrock(x, 1.0, 100.0));
    for i in 0..derivative.len() {
        assert!(f64::relative_eq(&derivative[i], &derivative_fd[i], 1e-4, f64::EPSILON));
    }
}

#[test]
fn rosenbrock_hessian_matches_forward_differences() {
    let param = [0.3, -0.7, 0.2, 0.9, -0.4, 0.1, 0.8, -1.0];
    let hessian = rosenbrock_hessian(&param, 1.0, 100.0);
    let hessian_fd =
        Vec::from(param).forward_hessian(&|x| rosenbrock_derivative(x, 1.0, 100.0));
    let n = hessian.len();
    assert_eq!(n, 8);
    for i in 0..n {
        assert_eq!(hessian[i].len(), n);
        for j in 0..n {
            assert!(f64::relative_eq(&hessian[i][j], &hessian_fd[i][j], 1e-4, f64::EPSILON));
        }
    }
}

#[test]
fn rosenbrock_hessian_const_matches_forward_differences() {
    let param = [-0.9, 0.5, 0.0, -0.2, 1.0, 0.6, -0.3, 0.4];
    let hessian = rosenbrock_hessian_const(&param, 1.0, 100.0);
    let hessian_fd =
        Vec::from(param).forward_hessian(&|x| rosenbrock_derivative(x, 1.0, 100.0));
    let n = hessian.len();
    for i in 0..n {
        assert_eq!(hessian[i].len(), n);
        for j in 0..n {
            assert!(f64::relative_eq(&hessian[i][j], &hessian_fd[i][j], 1e-4, f64::EPSILON));
        }
    }
}
