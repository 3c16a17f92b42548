//! The arithmetic that the benchmark functions are written over.
//!
//! An element type brings `+`, `-`, `*`, unary `-` and a conversion from small
//! integer constants; some functions ask for `/` too. What these compute is
//! the element type's business, so the contracts of this crate speak of the
//! operators in two ways.
//!
//! * Whatever the type: [`is_sum`], [`is_product`] and the like say that a
//!   value is one that an operator returns for given operands. A contract in
//!   these terms says which operators a function applies to what, and that
//!   the result is what the last of them returns. It holds of the
//!   floating-point types, of whose operators Verus knows no more than that
//!   they return something.
//! * For a type with [`exact_arithmetic`], whose operators return what their
//!   own contracts state: [`plus`], [`times`] and the like name that one
//!   value. The signed integers of 16 bits and more are such types. For them
//!   every result is pinned down as a formula.
//!
//! A type with [`total_arithmetic`] accepts every operand; the floating-point
//! types do, though Verus has no statement of it. The integers do not (they
//! overflow), so on them an evaluation has to stay in range. What "in range"
//! means is part of the formula of each function, which is `None` as soon as
//! one operation is not accepted.
use std::ops::{Add, Div, Mul, Neg, Sub};
use vstd::prelude::*;
use vstd::std_specs::convert::FromSpec;
use vstd::std_specs::ops::{AddSpec, DivSpec, MulSpec, NegSpec, SubSpec};

verus! {

/// An element type: copyable, closed under the four operators, and able to
/// represent small integer constants.
pub trait Scalar: Copy + Add<Output = Self> + Sub<Output = Self> + Mul<Output = Self> + Neg<
    Output = Self,
> + From<i8> {

}

impl<T> Scalar for T where
    T: Copy + Add<Output = T> + Sub<Output = T> + Mul<Output = T> + Neg<Output = T> + From<i8>,
 {

}

/// An element type that can also divide.
pub trait Fraction: Scalar + Div<Output = Self> {

}

impl<T> Fraction for T where T: Scalar + Div<Output = T> {

}

/// The operators of `T`, and its conversion from integer constants, return
/// exactly what their contracts state.
pub open spec fn exact_arithmetic<T: Scalar>() -> bool {
    &&& T::obeys_add_spec()
    &&& T::obeys_sub_spec()
    &&& T::obeys_mul_spec()
    &&& T::obeys_neg_spec()
    &&& <T as FromSpec<i8>>::obeys_from_spec()
}

/// The operators of `T` accept every operand.
pub open spec fn total_arithmetic<T: Scalar>() -> bool {
    &&& forall|x: T, y: T| #[trigger] x.add_req(y)
    &&& forall|x: T, y: T| #[trigger] x.sub_req(y)
    &&& forall|x: T, y: T| #[trigger] x.mul_req(y)
    &&& forall|x: T| #[trigger] x.neg_req()
}

/// Whether an evaluation with the given outcome may be run on `T`: either
/// `T` accepts every operand, or its arithmetic is exact and the outcome is
/// defined, which is to say that every operation on the way is accepted.
pub open spec fn evaluates<T: Scalar, R>(outcome: Option<R>) -> bool {
    total_arithmetic::<T>() || (exact_arithmetic::<T>() && outcome is Some)
}

/// The operators of `T`, its division among them, return exactly what their
/// contracts state.
pub open spec fn exact_division<T: Fraction>() -> bool {
    exact_arithmetic::<T>() && T::obeys_div_spec()
}

/// The operators of `T`, its division among them, accept every operand.
pub open spec fn total_division<T: Fraction>() -> bool {
    total_arithmetic::<T>() && forall|x: T, y: T| #[trigger] x.div_req(y)
}

/// Whether an evaluation that divides, with the given outcome, may be run on
/// `T`: as [`evaluates`], with the division among the operators.
pub open spec fn evaluates_dividing<T: Fraction, R>(outcome: Option<R>) -> bool {
    total_division::<T>() || (exact_division::<T>() && outcome is Some)
}

/// `v` is a value that the conversion of the integer constant `k` into `T`
/// returns. Where the arithmetic of `T` is exact there is one such value,
/// the one that [`constant`] names.
pub open spec fn is_constant<T: Scalar>(k: i8, v: T) -> bool {
    call_ensures(<T as From<i8>>::from, (k,), v)
}

/// `r` is a value that `x + y` returns in `T`.
pub open spec fn is_sum<T: Scalar>(x: T, y: T, r: T) -> bool {
    call_ensures(<T as Add>::add, (x, y), r)
}

/// `r` is a value that `x - y` returns in `T`.
pub open spec fn is_difference<T: Scalar>(x: T, y: T, r: T) -> bool {
    call_ensures(<T as Sub>::sub, (x, y), r)
}

/// `r` is a value that `x * y` returns in `T`.
pub open spec fn is_product<T: Scalar>(x: T, y: T, r: T) -> bool {
    call_ensures(<T as Mul>::mul, (x, y), r)
}

/// `r` is a value that `-x` returns in `T`.
pub open spec fn is_negation<T: Scalar>(x: T, r: T) -> bool {
    call_ensures(<T as Neg>::neg, (x,), r)
}

/// `r` is a value that `x / y` returns in `T`.
pub open spec fn is_quotient<T: Fraction>(x: T, y: T, r: T) -> bool {
    call_ensures(<T as Div>::div, (x, y), r)
}

/// The integer constant `k` as an element.
pub open spec fn constant<T: Scalar>(k: i8) -> Option<T> {
    Some(<T as FromSpec<i8>>::from_spec(k))
}

/// `x + y`, where both are defined and `T` accepts the addition.
pub open spec fn plus<T: Scalar>(x: Option<T>, y: Option<T>) -> Option<T> {
    match (x, y) {
        (Some(u), Some(v)) => if u.add_req(v) {
            Some(u.add_spec(v))
        } else {
            None
        },
        _ => None,
    }
}

/// `x - y`, where both are defined and `T` accepts the subtraction.
pub open spec fn minus<T: Scalar>(x: Option<T>, y: Option<T>) -> Option<T> {
    match (x, y) {
        (Some(u), Some(v)) => if u.sub_req(v) {
            Some(u.sub_spec(v))
        } else {
            None
        },
        _ => None,
    }
}

/// `x * y`, where both are defined and `T` accepts the multiplication.
pub open spec fn times<T: Scalar>(x: Option<T>, y: Option<T>) -> Option<T> {
    match (x, y) {
        (Some(u), Some(v)) => if u.mul_req(v) {
            Some(u.mul_spec(v))
        } else {
            None
        },
        _ => None,
    }
}

/// `-x`, where `x` is defined and `T` accepts the negation.
pub open spec fn negated<T: Scalar>(x: Option<T>) -> Option<T> {
    match x {
        Some(u) => if u.neg_req() {
            Some(u.neg_spec())
        } else {
            None
        },
        None => None,
    }
}

/// `x / y`, where both are defined and `T` accepts the division.
pub open spec fn over<T: Fraction>(x: Option<T>, y: Option<T>) -> Option<T> {
    match (x, y) {
        (Some(u), Some(v)) => if u.div_req(v) {
            Some(u.div_spec(v))
        } else {
            None
        },
        _ => None,
    }
}

/// `x * x`.
pub open spec fn squared<T: Scalar>(x: Option<T>) -> Option<T> {
    times(x, x)
}

/// The signed integers of 16 bits and more have exact arithmetic.
pub proof fn law_signed_integers_are_exact()
    ensures
        exact_arithmetic::<i16>(),
        exact_arithmetic::<i32>(),
        exact_arithmetic::<i64>(),
        exact_arithmetic::<i128>(),
        exact_arithmetic::<isize>(),
{
}

/// Where the arithmetic of `T` is exact, what an operator returns is the
/// value that its formula names, as far as the formula is defined.
pub proof fn law_exact_operators_return_one_value<T: Scalar>(k: i8, x: T, y: T, r: T)
    requires
        exact_arithmetic::<T>(),
    ensures
        is_constant(k, r) ==> constant::<T>(k) == Some(r),
        is_sum(x, y, r) && plus(Some(x), Some(y)) is Some ==> plus(Some(x), Some(y)) == Some(r),
        is_difference(x, y, r) && minus(Some(x), Some(y)) is Some ==> minus(Some(x), Some(y))
            == Some(r),
        is_product(x, y, r) && times(Some(x), Some(y)) is Some ==> times(Some(x), Some(y)) == Some(
            r,
        ),
        is_negation(x, r) && negated(Some(x)) is Some ==> negated(Some(x)) == Some(r),
{
}

/// Where the arithmetic of `T` is exact, its division with it, what the
/// division returns is the value that its formula names, as far as the
/// formula is defined.
pub proof fn law_exact_division_returns_one_value<T: Fraction>(x: T, y: T, r: T)
    requires
        exact_division::<T>(),
    ensures
        is_quotient(x, y, r) && over(Some(x), Some(y)) is Some ==> over(Some(x), Some(y)) == Some(
            r,
        ),
{
}

} // verus!
