//! Himmelblau's function,
//! `f(x1, x2) = (x1^2 + x2 - 11)^2 + (x1 + x2^2 - 7)^2`.
//!
//! It has four global minima, all with value 0: at `(3, 2)` and near
//! `(-2.805118, 3.131312)`, `(-3.779310, -3.283186)` and
//! `(3.584428, -1.848126)`.
use crate::scalar::{
    constant, evaluates, exact_arithmetic, is_constant, is_difference, is_product, is_sum, minus,
    plus, squared, Scalar,
};
use vstd::prelude::*;

verus! {

/// Himmelblau's function at `(x1, x2)`, evaluated in the arithmetic of `T`.
pub open spec fn himmelblau_value<T: Scalar>(x1: T, x2: T) -> Option<T> {
    let first = minus(plus(squared(Some(x1)), Some(x2)), constant(11));
    let second = minus(plus(Some(x1), squared(Some(x2))), constant(7));
    plus(squared(first), squared(second))
}

/// `value` is what Himmelblau's function comes to at `(x1, x2)` when it is
/// computed with the operators of `T`, as `(x1 * x1 + x2 - 11)` squared
/// plus `(x1 + x2 * x2 - 7)` squared, whatever the operators return.
pub open spec fn himmelblau_computed<T: Scalar>(x1: T, x2: T, value: T) -> bool {
    exists|
        n11: T,
        n7: T,
        x1_squared: T,
        x2_squared: T,
        first_sum: T,
        second_sum: T,
        first: T,
        second: T,
        first_squared: T,
        second_squared: T,
    |
        {
            &&& #[trigger] is_constant(11, n11)
            &&& #[trigger] is_constant(7, n7)
            &&& #[trigger] is_product(x1, x1, x1_squared)
            &&& #[trigger] is_product(x2, x2, x2_squared)
            &&& #[trigger] is_sum(x1_squared, x2, first_sum)
            &&& #[trigger] is_sum(x1, x2_squared, second_sum)
            &&& #[trigger] is_difference(first_sum, n11, first)
            &&& #[trigger] is_difference(second_sum, n7, second)
            &&& #[trigger] is_product(first, first, first_squared)
            &&& #[trigger] is_product(second, second, second_squared)
            &&& is_sum(first_squared, second_squared, value)
        }
}

/// Himmelblau's function at `param`.
pub fn himmelblau<T: Scalar>(param: &[T; 2]) -> (value: T)
    requires
        evaluates::<T, T>(himmelblau_value(param@[0], param@[1])),
    ensures
        himmelblau_computed(param@[0], param@[1], value),
        exact_arithmetic::<T>() ==> himmelblau_value(param@[0], param@[1]) == Some(value),
{
    let x1 = param[0];
    let x2 = param[1];
    let n7 = T::from(7i8);
    let n11 = T::from(11i8);
    let x1_squared = x1 * x1;
    let x2_squared = x2 * x2;
    let first_sum = x1_squared + x2;
    let second_sum = x1 + x2_squared;
    let first = first_sum - n11;
    let second = second_sum - n7;
    let first_squared = first * first;
    let second_squared = second * second;
    let value = first_squared + second_squared;
    proof {
        assert(is_constant(11, n11));
        assert(is_constant(7, n7));
        assert(is_product(x1, x1, x1_squared));
        assert(is_product(x2, x2, x2_squared));
        assert(is_sum(x1_squared, x2, first_sum));
        assert(is_sum(x1, x2_squared, second_sum));
        assert(is_difference(first_sum, n11, first));
        assert(is_difference(second_sum, n7, second));
        assert(is_product(first, first, first_squared));
        assert(is_product(second, second, second_squared));
        assert(is_sum(first_squared, second_squared, value));
    }
    value
}

} // verus!
