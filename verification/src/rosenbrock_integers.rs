//! The Rosenbrock function over the mathematical integers.
//!
//! On the 64-bit integers the functions of [`crate::rosenbrock`] compute, as
//! long as no operation overflows, the polynomials that are written out
//! here. Over the integers these can be differentiated exactly, which shows
//! how the value, the gradient and the Hessian belong together.
use crate::rosenbrock::{
    diagonal_arrival, gradient_arrival, gradient_entry, hessian_entry, pair_curvature,
    pair_residual, pair_slope_first, pair_slope_second, pair_value, pairs, partial_value,
    rosenbrock_gradient, rosenbrock_hessian_matrix, rosenbrock_value,
};
use crate::scalar::{constant, minus, negated, plus, squared, times};
use vstd::prelude::*;

verus! {

/// A vector of 64-bit integers as a vector of integers.
pub open spec fn integers(x: Seq<i64>) -> Seq<int> {
    Seq::new(x.len(), |i: int| x[i] as int)
}

/// `(a - x[i])^2 + b * (x[i+1] - x[i]^2)^2`.
pub open spec fn integer_pair_value(a: int, b: int, xi: int, xi1: int) -> int {
    (a - xi) * (a - xi) + b * ((xi1 - xi * xi) * (xi1 - xi * xi))
}

/// The sum of the values of the first `k` pairs.
pub open spec fn integer_partial_value(x: Seq<int>, a: int, b: int, k: nat) -> int
    decreases k,
{
    if k == 0 {
        0
    } else {
        integer_partial_value(x, a, b, (k - 1) as nat) + integer_pair_value(
            a,
            b,
            x[k - 1],
            x[k as int],
        )
    }
}

/// The Rosenbrock function at `x`.
pub open spec fn integer_value(x: Seq<int>, a: int, b: int) -> int {
    integer_partial_value(x, a, b, pairs(x.len()))
}

/// `-4 * b * x[i] * (x[i+1] - x[i]^2) + 2 * (x[i] - a)`.
pub open spec fn integer_pair_slope_first(a: int, b: int, xi: int, xi1: int) -> int {
    -4 * b * xi * (xi1 - xi * xi) + 2 * (xi - a)
}

/// `2 * b * (x[i+1] - x[i]^2)`.
pub open spec fn integer_pair_slope_second(b: int, xi: int, xi1: int) -> int {
    2 * b * (xi1 - xi * xi)
}

/// Entry `i` of the gradient at `x`.
pub open spec fn integer_gradient(x: Seq<int>, a: int, b: int, i: int) -> int {
    (if i >= 1 {
        integer_pair_slope_second(b, x[i - 1], x[i])
    } else {
        0
    }) + (if i + 1 < x.len() {
        integer_pair_slope_first(a, b, x[i], x[i + 1])
    } else {
        0
    })
}

/// Entry `(i, j)` of the Hessian at `x`.
pub open spec fn integer_hessian(x: Seq<int>, a: int, b: int, i: int, j: int) -> int {
    if i == j {
        (if i >= 1 {
            2 * b
        } else {
            0
        }) + (if i + 1 < x.len() {
            12 * b * (x[i] * x[i]) - 4 * b * x[i + 1] + 2 * a
        } else {
            0
        })
    } else if j == i + 1 {
        -4 * b * x[i]
    } else if i == j + 1 {
        -4 * b * x[j]
    } else {
        0
    }
}

/// What the checked operations are on the 64-bit integers: where one is
/// defined, it is the operation of the integers.
proof fn lemma_checked_operations(u: Option<i64>, v: Option<i64>)
    ensures
        plus(u, v) matches Some(w) ==> u is Some && v is Some && w == u.unwrap() + v.unwrap(),
        minus(u, v) matches Some(w) ==> u is Some && v is Some && w == u.unwrap() - v.unwrap(),
        times(u, v) matches Some(w) ==> u is Some && v is Some && w == u.unwrap() * v.unwrap(),
        negated(u) matches Some(w) ==> u is Some && w == -u.unwrap(),
        squared(u) matches Some(w) ==> u is Some && w == u.unwrap() * u.unwrap(),
{
}

/// The constants of the Rosenbrock function on the 64-bit integers.
proof fn lemma_constants()
    ensures
        constant::<i64>(0) == Some(0i64),
        constant::<i64>(2) == Some(2i64),
        constant::<i64>(4) == Some(4i64),
        constant::<i64>(12) == Some(12i64),
        negated(constant::<i64>(4)) == Some(-4i64),
{
}

/// On the 64-bit integers, the value that one pair adds is, where it is
/// defined, the one over the integers.
proof fn lemma_pair_value_over_integers(a: i64, b: i64, xi: i64, xi1: i64)
    ensures
        pair_value(a, b, xi, xi1) matches Some(v) ==> v == integer_pair_value(
            a as int,
            b as int,
            xi as int,
            xi1 as int,
        ),
{
    let deviation = minus(Some(a), Some(xi));
    let residual = pair_residual(xi, xi1);
    lemma_checked_operations(Some(a), Some(xi));
    lemma_checked_operations(Some(xi), Some(xi));
    lemma_checked_operations(Some(xi1), squared(Some(xi)));
    lemma_checked_operations(deviation, deviation);
    lemma_checked_operations(residual, residual);
    lemma_checked_operations(Some(b), squared(residual));
    lemma_checked_operations(squared(deviation), times(Some(b), squared(residual)));
}

/// On the 64-bit integers, the sum of the first `k` pairs is, where it is
/// defined, the one over the integers.
proof fn lemma_partial_value_over_integers(x: Seq<i64>, a: i64, b: i64, k: nat)
    requires
        k <= pairs(x.len()),
    ensures
        partial_value(x, a, b, k) matches Some(v) ==> v == integer_partial_value(
            integers(x),
            a as int,
            b as int,
            k,
        ),
    decreases k,
{
    lemma_constants();
    if k > 0 {
        lemma_partial_value_over_integers(x, a, b, (k - 1) as nat);
        lemma_pair_value_over_integers(a, b, x[k - 1], x[k as int]);
        lemma_checked_operations(
            partial_value(x, a, b, (k - 1) as nat),
            pair_value(a, b, x[k - 1], x[k as int]),
        );
    }
}

/// On the 64-bit integers, the Rosenbrock function is, where no operation
/// overflows, the one over the integers.
pub proof fn law_value_over_integers(x: Seq<i64>, a: i64, b: i64)
    ensures
        rosenbrock_value(x, a, b) matches Some(v) ==> v == integer_value(
            integers(x),
            a as int,
            b as int,
        ),
{
    lemma_partial_value_over_integers(x, a, b, pairs(x.len()));
}

/// On the 64-bit integers, what one pair adds to the gradient is, where it is
/// defined, what it adds over the integers.
proof fn lemma_pair_slopes_over_integers(a: i64, b: i64, xi: i64, xi1: i64)
    ensures
        pair_slope_first(a, b, xi, xi1) matches Some(v) ==> v == integer_pair_slope_first(
            a as int,
            b as int,
            xi as int,
            xi1 as int,
        ),
        pair_slope_second(b, xi, xi1) matches Some(v) ==> v == integer_pair_slope_second(
            b as int,
            xi as int,
            xi1 as int,
        ),
{
    let residual = pair_residual(xi, xi1);
    lemma_checked_operations(Some(xi), Some(xi));
    lemma_checked_operations(Some(xi1), squared(Some(xi)));
    lemma_constants();
    let fourfold = times(negated(constant(4)), Some(b));
    lemma_checked_operations(negated(constant(4)), Some(b));
    lemma_checked_operations(fourfold, Some(xi));
    lemma_checked_operations(times(fourfold, Some(xi)), residual);
    lemma_checked_operations(Some(xi), Some(a));
    lemma_checked_operations(constant(2), minus(Some(xi), Some(a)));
    lemma_checked_operations(
        times(times(fourfold, Some(xi)), residual),
        times(constant(2), minus(Some(xi), Some(a))),
    );
    lemma_checked_operations(constant(2), Some(b));
    lemma_checked_operations(times(constant(2), Some(b)), residual);
}

/// On the 64-bit integers, an entry of the gradient is, where it is defined,
/// the entry of the gradient over the integers.
proof fn lemma_gradient_entry_over_integers(x: Seq<i64>, a: i64, b: i64, i: int)
    requires
        0 <= i < x.len(),
    ensures
        gradient_entry(x, a, b, i) matches Some(v) ==> v == integer_gradient(
            integers(x),
            a as int,
            b as int,
            i,
        ),
{
    lemma_constants();
    if i >= 1 {
        lemma_pair_slopes_over_integers(a, b, x[i - 1], x[i]);
        lemma_checked_operations(constant(0), pair_slope_second(b, x[i - 1], x[i]));
    }
    if i + 1 < x.len() {
        lemma_pair_slopes_over_integers(a, b, x[i], x[i + 1]);
        lemma_checked_operations(
            gradient_arrival(x, b, i),
            pair_slope_first(a, b, x[i], x[i + 1]),
        );
    }
}

/// On the 64-bit integers, the gradient is, where no operation overflows, the
/// gradient over the integers.
pub proof fn law_gradient_over_integers(x: Seq<i64>, a: i64, b: i64)
    ensures
        rosenbrock_gradient(x, a, b) matches Some(gradient) ==> gradient.len() == x.len()
            && forall|i: int|
            0 <= i < x.len() ==> (#[trigger] gradient[i]) == integer_gradient(
                integers(x),
                a as int,
                b as int,
                i,
            ),
{
    if rosenbrock_gradient(x, a, b) is Some {
        let gradient = rosenbrock_gradient(x, a, b).unwrap();
        assert forall|i: int| 0 <= i < x.len() implies (#[trigger] gradient[i])
            == integer_gradient(integers(x), a as int, b as int, i) by {
            lemma_gradient_entry_over_integers(x, a, b, i);
        }
    }
}

/// On the 64-bit integers, an entry of the Hessian is, where it is defined,
/// the entry of the Hessian over the integers.
proof fn lemma_hessian_entry_over_integers(x: Seq<i64>, a: i64, b: i64, i: int, j: int)
    requires
        0 <= i < x.len(),
        0 <= j < x.len(),
    ensures
        hessian_entry(x, a, b, i, j) matches Some(v) ==> v == integer_hessian(
            integers(x),
            a as int,
            b as int,
            i,
            j,
        ),
{
    lemma_constants();
    let fourfold = times(negated(constant(4)), Some(b));
    lemma_checked_operations(negated(constant(4)), Some(b));
    lemma_checked_operations(constant(2), Some(b));
    if i == j {
        if i + 1 < x.len() {
            let xi = x[i];
            let xi1 = x[i + 1];
            let twelvefold = times(times(constant(12), Some(b)), squared(Some(xi)));
            let fourfold_next = times(times(constant(4), Some(b)), Some(xi1));
            lemma_checked_operations(Some(xi), Some(xi));
            lemma_checked_operations(constant(12), Some(b));
            lemma_checked_operations(times(constant(12), Some(b)), squared(Some(xi)));
            lemma_checked_operations(constant(4), Some(b));
            lemma_checked_operations(times(constant(4), Some(b)), Some(xi1));
            lemma_checked_operations(twelvefold, fourfold_next);
            lemma_checked_operations(constant(2), Some(a));
            lemma_checked_operations(minus(twelvefold, fourfold_next), times(constant(2), Some(a)));
            lemma_checked_operations(diagonal_arrival(b, i), pair_curvature(a, b, xi, xi1));
        }
    } else if j == i + 1 {
        lemma_checked_operations(fourfold, Some(x[i]));
    } else if i == j + 1 {
        lemma_checked_operations(fourfold, Some(x[j]));
    }
}

/// On the 64-bit integers, the Hessian is, where no operation overflows, the
/// Hessian over the integers.
pub proof fn law_hessian_over_integers(x: Seq<i64>, a: i64, b: i64)
    ensures
        rosenbrock_hessian_matrix(x, a, b) matches Some(hessian) ==> hessian.len() == x.len()
            && forall|i: int, j: int|
            0 <= i < x.len() && 0 <= j < x.len() ==> (#[trigger] hessian[i][j])
                == integer_hessian(integers(x), a as int, b as int, i, j),
{
    if rosenbrock_hessian_matrix(x, a, b) is Some {
        let hessian = rosenbrock_hessian_matrix(x, a, b).unwrap();
        assert forall|i: int, j: int| 0 <= i < x.len() && 0 <= j < x.len() implies (
        #[trigger] hessian[i][j]) == integer_hessian(integers(x), a as int, b as int, i, j) by {
            lemma_hessian_entry_over_integers(x, a, b, i, j);
        }
    }
}

/// The vector of `len` coordinates that are all 1.
pub open spec fn ones(len: nat) -> Seq<i64> {
    Seq::new(len, |i: int| 1i64)
}

/// The vector of `len` coordinates that are all 0.
pub open spec fn zeros(len: nat) -> Seq<i64> {
    Seq::new(len, |i: int| 0i64)
}

/// On the 64-bit integers, with `a = 1` and any `b`, one pair of ones adds 0
/// to the value.
proof fn lemma_pair_of_ones_has_no_value(b: i64)
    ensures
        pair_value(1i64, b, 1i64, 1i64) == Some(0i64),
{
    assert(minus(Some(1i64), Some(1i64)) == Some(0i64));
    assert(squared(Some(1i64)) == Some(1i64));
    assert(pair_residual(1i64, 1i64) == Some(0i64));
    assert(squared(Some(0i64)) == Some(0i64));
    assert(times(Some(b), Some(0i64)) == Some(0i64));
    assert(plus(Some(0i64), Some(0i64)) == Some(0i64));
}

/// On the 64-bit integers, with `a = 1` and any `b`, the first `k` pairs of
/// a vector of ones add up to 0.
proof fn lemma_partial_value_at_ones(len: nat, b: i64, k: nat)
    requires
        k <= pairs(len),
    ensures
        partial_value(ones(len), 1i64, b, k) == Some(0i64),
    decreases k,
{
    assert(constant::<i64>(0) == Some(0i64));
    if k > 0 {
        lemma_partial_value_at_ones(len, b, (k - 1) as nat);
        lemma_pair_of_ones_has_no_value(b);
        assert(plus(Some(0i64), Some(0i64)) == Some(0i64));
    }
}

/// On the 64-bit integers, with `a = 1` and any `b`, the Rosenbrock function
/// is 0 at the vector of ones of any length.
pub proof fn law_value_at_ones_is_zero(len: nat, b: i64)
    ensures
        rosenbrock_value(ones(len), 1i64, b) == Some(0i64),
{
    lemma_partial_value_at_ones(len, b, pairs(len));
}

/// The coefficients `b` of which the 64-bit integers hold `-4 * b`, which
/// the gradient of every pair takes.
pub open spec fn fourfold_in_range(b: i64) -> bool {
    i64::MIN <= -4 * b <= i64::MAX
}

/// On the 64-bit integers, with `a = 1`, one pair of ones adds 0 to both of
/// its gradient entries.
proof fn lemma_pair_of_ones_has_no_slope(b: i64)
    requires
        fourfold_in_range(b),
    ensures
        pair_slope_first(1i64, b, 1i64, 1i64) == Some(0i64),
        pair_slope_second(b, 1i64, 1i64) == Some(0i64),
{
    assert(minus(Some(1i64), Some(1i64)) == Some(0i64));
    assert(squared(Some(1i64)) == Some(1i64));
    assert(pair_residual(1i64, 1i64) == Some(0i64));
    assert(constant::<i64>(4) == Some(4i64));
    assert(constant::<i64>(2) == Some(2i64));
    assert(negated(Some(4i64)) == Some(-4i64));
    let m: i64 = (-4 * b) as i64;
    assert(times(Some(-4i64), Some(b)) == Some(m));
    assert(times(Some(m), Some(1i64)) == Some(m));
    assert(times(Some(m), Some(0i64)) == Some(0i64));
    assert(times(Some(2i64), Some(0i64)) == Some(0i64));
    assert(plus(Some(0i64), Some(0i64)) == Some(0i64));
    let d: i64 = (2 * b) as i64;
    assert(times(Some(2i64), Some(b)) == Some(d));
    assert(times(Some(d), Some(0i64)) == Some(0i64));
}

/// On the 64-bit integers, with `a = 1` and any `b` of which they hold the
/// fourfold, the gradient of the Rosenbrock function is 0 at the vector of
/// ones of any length.
pub proof fn law_gradient_at_ones_is_zero(len: nat, b: i64)
    requires
        fourfold_in_range(b),
    ensures
        rosenbrock_gradient(ones(len), 1i64, b) == Some(zeros(len)),
{
    let x = ones(len);
    lemma_pair_of_ones_has_no_slope(b);
    assert(constant::<i64>(0) == Some(0i64));
    assert(plus(Some(0i64), Some(0i64)) == Some(0i64));
    assert forall|i: int| 0 <= i < len implies #[trigger] gradient_entry(x, 1i64, b, i) == Some(
        0i64,
    ) by {
        assert(gradient_arrival(x, b, i) == Some(0i64));
    }
    assert(rosenbrock_gradient(x, 1i64, b).unwrap() =~= zeros(len));
}

/// `x` with `h` added to coordinate `i`.
pub open spec fn shifted(x: Seq<int>, i: int, h: int) -> Seq<int> {
    x.update(i, x[i] + h)
}

/// By how much the central difference of the value along coordinate `i`,
/// with step `h`, exceeds `2 * h` times entry `i` of the gradient.
pub open spec fn central_difference_excess(x: Seq<int>, b: int, i: int, h: int) -> int {
    if i + 1 < x.len() {
        8 * b * x[i] * (h * h * h)
    } else {
        0
    }
}

/// By how much the forward difference of entry `j` of the gradient along
/// coordinate `i`, with step `h`, exceeds `h` times entry `(j, i)` of the
/// Hessian.
pub open spec fn forward_difference_excess(
    x: Seq<int>,
    a: int,
    b: int,
    i: int,
    j: int,
    h: int,
) -> int {
    if j == i && i + 1 < x.len() {
        12 * b * x[i] * (h * h) + 4 * b * (h * h * h) - 2 * (a - 1) * h
    } else if j == i + 1 {
        -2 * b * (h * h)
    } else {
        0
    }
}

/// How the value of a pair changes between a step of `h` forth and back in
/// its second coordinate.
proof fn lemma_pair_value_difference_second(a: int, b: int, z: int, s: int, h: int)
    ensures
        integer_pair_value(a, b, z, s + h) - integer_pair_value(a, b, z, s - h) == 2 * h
            * integer_pair_slope_second(b, z, s),
{
    let r = s - z * z;
    let rp = (s + h) - z * z;
    let rm = (s - h) - z * z;
    assert(rp * rp - rm * rm == 4 * (h * r)) by (nonlinear_arith)
        requires
            rp == r + h,
            rm == r - h,
    ;
    assert(b * (rp * rp) - b * (rm * rm) == 4 * (b * (h * r))) by (nonlinear_arith)
        requires
            rp * rp - rm * rm == 4 * (h * r),
    ;
    assert(2 * h * (2 * b * r) == 4 * (b * (h * r))) by (nonlinear_arith);
}

/// How the value of a pair changes between a step of `h` forth and back in
/// its first coordinate.
proof fn lemma_pair_value_difference_first(a: int, b: int, t: int, y: int, h: int)
    ensures
        integer_pair_value(a, b, t + h, y) - integer_pair_value(a, b, t - h, y) == 2 * h
            * integer_pair_slope_first(a, b, t, y) + 8 * b * t * (h * h * h),
{
    let u = t * h;
    let hh = h * h;
    let r = y - t * t;
    let rp = y - (t + h) * (t + h);
    let rm = y - (t - h) * (t - h);
    assert(rp == r - 2 * u - hh && rm == r + 2 * u - hh) by (nonlinear_arith)
        requires
            u == t * h,
            hh == h * h,
            r == y - t * t,
            rp == y - (t + h) * (t + h),
            rm == y - (t - h) * (t - h),
    ;
    let dp = a - (t + h);
    let dm = a - (t - h);
    assert(dp * dp - dm * dm == 4 * u - 4 * (h * a)) by (nonlinear_arith)
        requires
            dp == a - (t + h),
            dm == a - (t - h),
            u == t * h,
    ;
    assert(rp * rp - rm * rm == 8 * (u * hh) - 8 * (u * r)) by (nonlinear_arith)
        requires
            rp == r - 2 * u - hh,
            rm == r + 2 * u - hh,
    ;
    assert(b * (rp * rp) - b * (rm * rm) == 8 * (b * (u * hh)) - 8 * (b * (u * r)))
        by (nonlinear_arith)
        requires
            rp * rp - rm * rm == 8 * (u * hh) - 8 * (u * r),
    ;
    assert(-4 * b * t * r * h == -4 * (b * (u * r))) by (nonlinear_arith)
        requires
            u == t * h,
    ;
    assert(2 * h * (-4 * b * t * r + 2 * (t - a)) == 2 * (-4 * b * t * r * h) + 4 * u - 4 * (h
        * a)) by (nonlinear_arith)
        requires
            u == t * h,
    ;
    assert(8 * b * t * (h * h * h) == 8 * (b * (u * hh))) by (nonlinear_arith)
        requires
            u == t * h,
            hh == h * h,
    ;
}

/// How the sum of the first `k` pairs changes between a step of `h` forth and
/// back in coordinate `i`: by what the pair to the left of `x[i]` and the
/// pair to its right change, as far as they are among the `k`.
proof fn lemma_partial_value_difference(x: Seq<int>, a: int, b: int, i: int, h: int, k: nat)
    requires
        0 <= i < x.len(),
        k <= pairs(x.len()),
    ensures
        integer_partial_value(shifted(x, i, h), a, b, k) - integer_partial_value(
            shifted(x, i, -h),
            a,
            b,
            k,
        ) == (if i >= 1 && k >= i {
            2 * h * integer_pair_slope_second(b, x[i - 1], x[i])
        } else {
            0
        }) + (if k >= i + 1 {
            2 * h * integer_pair_slope_first(a, b, x[i], x[i + 1]) + 8 * b * x[i] * (h * h * h)
        } else {
            0
        }),
    decreases k,
{
    if k > 0 {
        lemma_partial_value_difference(x, a, b, i, h, (k - 1) as nat);
        if k == i {
            lemma_pair_value_difference_second(a, b, x[i - 1], x[i], h);
        } else if k == i + 1 {
            lemma_pair_value_difference_first(a, b, x[i], x[i + 1], h);
        }
    }
}

/// The gradient is the derivative of the value: the central difference of
/// the value along coordinate `i`, with any step `h`, is `2 * h` times entry
/// `i` of the gradient, up to a term of third order in `h`.
pub proof fn law_gradient_is_central_difference(x: Seq<int>, a: int, b: int, i: int, h: int)
    requires
        0 <= i < x.len(),
    ensures
        integer_value(shifted(x, i, h), a, b) - integer_value(shifted(x, i, -h), a, b) == 2 * h
            * integer_gradient(x, a, b, i) + central_difference_excess(x, b, i, h),
{
    lemma_partial_value_difference(x, a, b, i, h, pairs(x.len()));
    let left = if i >= 1 {
        integer_pair_slope_second(b, x[i - 1], x[i])
    } else {
        0
    };
    let right = if i + 1 < x.len() {
        integer_pair_slope_first(a, b, x[i], x[i + 1])
    } else {
        0
    };
    assert(2 * h * (left + right) == 2 * h * left + 2 * h * right) by (nonlinear_arith);
    assert(2 * h * 0 == 0);
}

/// How what a pair adds to the gradient entry of its first coordinate
/// changes with a step of `h` in its first and in its second coordinate.
proof fn lemma_pair_slope_first_difference(a: int, b: int, t: int, y: int, h: int)
    ensures
        integer_pair_slope_first(a, b, t + h, y) - integer_pair_slope_first(a, b, t, y) == h * (12
            * b * (t * t) - 4 * b * y + 2) + 12 * b * t * (h * h) + 4 * b * (h * h * h),
        integer_pair_slope_first(a, b, t, y + h) - integer_pair_slope_first(a, b, t, y) == h * (-4
            * b * t),
{
    let c = -4 * b;
    let tt = t * t;
    let hh = h * h;
    let r = y - tt;
    let rp = y - (t + h) * (t + h);
    assert(rp == r - 2 * (t * h) - hh) by (nonlinear_arith)
        requires
            tt == t * t,
            hh == h * h,
            r == y - tt,
            rp == y - (t + h) * (t + h),
    ;
    // the part without the coefficient
    assert((t + h) * rp - t * r == h * y - 3 * (h * tt) - 3 * (t * hh) - h * hh)
        by (nonlinear_arith)
        requires
            rp == r - 2 * (t * h) - hh,
            r == y - tt,
            tt == t * t,
            hh == h * h,
    ;
    assert(c * (t + h) * rp - c * t * r == c * ((t + h) * rp - t * r)) by (nonlinear_arith);
    let p = h * y;
    let q = h * tt;
    let s = t * hh;
    let w = h * hh;
    assert(c * (p - 3 * q - 3 * s - w) == c * p - 3 * (c * q) - 3 * (c * s) - c * w)
        by (nonlinear_arith);
    assert(c * p == -4 * (b * p) && c * q == -4 * (b * q) && c * s == -4 * (b * s) && c * w == -4
        * (b * w)) by (nonlinear_arith)
        requires
            c == -4 * b,
    ;
    assert(h * (12 * b * tt - 4 * b * y) == 12 * (b * q) - 4 * (b * p)) by (nonlinear_arith)
        requires
            p == h * y,
            q == h * tt,
    ;
    assert(12 * b * t * hh == 12 * (b * s)) by (nonlinear_arith)
        requires
            s == t * hh,
    ;
    assert(4 * b * (h * hh) == 4 * (b * w)) by (nonlinear_arith)
        requires
            w == h * hh,
    ;
    assert(h * (12 * b * tt - 4 * b * y + 2) == h * (12 * b * tt - 4 * b * y) + 2 * h)
        by (nonlinear_arith);
    assert(h * h * h == h * hh) by (nonlinear_arith)
        requires
            hh == h * h,
    ;
    // a step in the second coordinate
    assert(c * t * (y + h - tt) - c * t * r == h * (c * t)) by (nonlinear_arith)
        requires
            r == y - tt,
    ;
}

/// How what a pair adds to the gradient entry of its second coordinate
/// changes with a step of `h` in its first and in its second coordinate.
proof fn lemma_pair_slope_second_difference(b: int, t: int, y: int, h: int)
    ensures
        integer_pair_slope_second(b, t + h, y) - integer_pair_slope_second(b, t, y) == h * (-4 * b
            * t) - 2 * b * (h * h),
        integer_pair_slope_second(b, t, y + h) - integer_pair_slope_second(b, t, y) == h * (2 * b),
{
    let c = 2 * b;
    let r = y - t * t;
    let rp = y - (t + h) * (t + h);
    assert(rp == r - 2 * (t * h) - h * h) by (nonlinear_arith)
        requires
            r == y - t * t,
            rp == y - (t + h) * (t + h),
    ;
    assert(c * rp - c * r == h * (-4 * b * t) - 2 * b * (h * h)) by (nonlinear_arith)
        requires
            rp == r - 2 * (t * h) - h * h,
            c == 2 * b,
    ;
    assert(c * (y + h - t * t) - c * r == h * c) by (nonlinear_arith)
        requires
            r == y - t * t,
    ;
}

/// The Hessian is the derivative of the gradient where `a = 1`: the forward
/// difference of entry `j` of the gradient along coordinate `i`, with any
/// step `h`, is `h` times entry `(j, i)` of the Hessian, up to terms of
/// higher order in `h` and, on the diagonal, up to `2 * (a - 1) * h`.
pub proof fn law_hessian_is_forward_difference(
    x: Seq<int>,
    a: int,
    b: int,
    i: int,
    j: int,
    h: int,
)
    requires
        0 <= i < x.len(),
        0 <= j < x.len(),
    ensures
        integer_gradient(shifted(x, i, h), a, b, j) - integer_gradient(x, a, b, j) == h
            * integer_hessian(x, a, b, j, i) + forward_difference_excess(x, a, b, i, j, h),
{
    if j == i {
        let left = if i >= 1 {
            2 * b
        } else {
            0
        };
        let right = if i + 1 < x.len() {
            12 * b * (x[i] * x[i]) - 4 * b * x[i + 1] + 2
        } else {
            0
        };
        let twice = if i + 1 < x.len() {
            2 * (a - 1)
        } else {
            0
        };
        if i + 1 < x.len() {
            lemma_pair_slope_first_difference(a, b, x[i], x[i + 1], h);
        }
        if i >= 1 {
            lemma_pair_slope_second_difference(b, x[i - 1], x[i], h);
        }
        assert(integer_hessian(x, a, b, i, i) == left + right + twice);
        assert(h * (left + right + twice) == h * left + h * right + twice * h)
            by (nonlinear_arith);
        assert(h * 0 == 0);
    } else if j == i + 1 {
        lemma_pair_slope_second_difference(b, x[i], x[i + 1], h);
        assert(-2 * b * (h * h) == -(2 * b * (h * h))) by (nonlinear_arith);
    } else if i == j + 1 {
        lemma_pair_slope_first_difference(a, b, x[j], x[i], h);
    } else {
        assert(h * integer_hessian(x, a, b, j, i) == 0) by (nonlinear_arith)
            requires
                integer_hessian(x, a, b, j, i) == 0,
        ;
    }
}

} // verus!
