//! What holds of the derivatives of the Rosenbrock function in every exact
//! arithmetic.
use crate::rosenbrock::{
    fixed_rows, hessian_entry, rosenbrock_derivative, rosenbrock_derivative_const,
    rosenbrock_hessian, rosenbrock_hessian_const, rows,
};
use crate::scalar::{exact_arithmetic, Scalar};
use vstd::prelude::*;

verus! {

/// Where the arithmetic is exact, the gradient that is computed for a number
/// of coordinates fixed at compile time is, entry for entry, the one that is
/// computed for a slice of the same coordinates.
pub proof fn law_fixed_size_gradient_agrees<const N: usize, T: Scalar>(
    fixed_param: [T; N],
    param: &[T],
    a: T,
    b: T,
    fixed: [T; N],
    dynamic: Vec<T>,
)
    requires
        exact_arithmetic::<T>(),
        param@ == fixed_param@,
        call_ensures(rosenbrock_derivative_const::<N, T>, (&fixed_param, a, b), fixed),
        call_ensures(rosenbrock_derivative::<T>, (param, a, b), dynamic),
    ensures
        fixed@ == dynamic@,
{
}

/// Where the arithmetic is exact, the Hessian that is computed for a number
/// of coordinates fixed at compile time is, entry for entry, the one that is
/// computed for a slice of the same coordinates.
pub proof fn law_fixed_size_hessian_agrees<const N: usize, T: Scalar>(
    fixed_param: [T; N],
    param: &[T],
    a: T,
    b: T,
    fixed: [[T; N]; N],
    dynamic: Vec<Vec<T>>,
)
    requires
        exact_arithmetic::<T>(),
        param@ == fixed_param@,
        call_ensures(rosenbrock_hessian_const::<N, T>, (&fixed_param, a, b), fixed),
        call_ensures(rosenbrock_hessian::<T>, (param, a, b), dynamic),
    ensures
        fixed_rows(fixed@) == rows(dynamic@),
{
}

/// The Hessian is symmetric.
pub proof fn law_hessian_symmetric<T: Scalar>(x: Seq<T>, a: T, b: T, i: int, j: int)
    ensures
        hessian_entry(x, a, b, i, j) == hessian_entry(x, a, b, j, i),
{
}

} // verus!
