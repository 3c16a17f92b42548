//! The generalised Rosenbrock function,
//! `f(x) = sum over i of (a - x[i])^2 + b * (x[i+1] - x[i]^2)^2`,
//! with its gradient and its Hessian.
//!
//! The sum runs over the adjacent pairs `(x[i], x[i+1])` of the parameter
//! vector. With the customary `a = 1` and `b = 100` the minimum is 0, at
//! `(1, ..., 1)`.
//!
//! A vector of fewer than two coordinates has no adjacent pair. This crate
//! treats it as the degenerate case that it is: the value is the constant 0,
//! and the gradient and the Hessian have the size of the input (empty for an
//! empty input) and hold the constant 0 throughout.
//!
//! On its diagonal the Hessian carries the term `2 * a`. This is the second
//! derivative of `(a - x)^2` where `a = 1`, the customary coefficient.
//!
//! Every pair is worked in once, from the first to the last. It adds to the
//! gradient entries of its two coordinates; in the Hessian it adds to the
//! diagonal entry of its first coordinate and sets the diagonal entry of its
//! second and the two entries that couple them. The contracts state what
//! this comes to for each entry: in terms of what the operators return
//! (`rosenbrock_computed`, `gradient_computed`, `hessian_computed`), and for
//! an exact arithmetic as a formula (`rosenbrock_value`,
//! `rosenbrock_gradient`, `rosenbrock_hessian_matrix`).
use crate::scalar::{
    constant, evaluates, exact_arithmetic, is_constant, is_difference, is_negation, is_product,
    is_sum, minus, negated, plus, squared, times, Scalar,
};
use std::ops::Neg;
use vstd::prelude::*;

verus! {

/// The number of adjacent pairs in a vector of `len` coordinates.
pub open spec fn pairs(len: nat) -> nat {
    if len == 0 {
        0
    } else {
        (len - 1) as nat
    }
}

/// `x[i+1] - x[i]^2`, the residual of one pair.
pub open spec fn pair_residual<T: Scalar>(xi: T, xi1: T) -> Option<T> {
    minus(Some(xi1), squared(Some(xi)))
}

/// `(a - x[i])^2 + b * (x[i+1] - x[i]^2)^2`: what one pair adds to the value.
pub open spec fn pair_value<T: Scalar>(a: T, b: T, xi: T, xi1: T) -> Option<T> {
    plus(squared(minus(Some(a), Some(xi))), times(Some(b), squared(pair_residual(xi, xi1))))
}

/// The contributions of the first `k` pairs, added from the left onto the
/// constant 0.
pub open spec fn partial_value<T: Scalar>(x: Seq<T>, a: T, b: T, k: nat) -> Option<T>
    decreases k,
{
    if k == 0 {
        constant(0)
    } else {
        plus(partial_value(x, a, b, (k - 1) as nat), pair_value(a, b, x[k - 1], x[k as int]))
    }
}

/// The Rosenbrock function at `x`.
pub open spec fn rosenbrock_value<T: Scalar>(x: Seq<T>, a: T, b: T) -> Option<T> {
    partial_value(x, a, b, pairs(x.len()))
}

/// `-4 * b * x[i] * (x[i+1] - x[i]^2) + 2 * (x[i] - a)`: what one pair adds to
/// the gradient entry of its first coordinate.
pub open spec fn pair_slope_first<T: Scalar>(a: T, b: T, xi: T, xi1: T) -> Option<T> {
    plus(
        times(times(times(negated(constant(4)), Some(b)), Some(xi)), pair_residual(xi, xi1)),
        times(constant(2), minus(Some(xi), Some(a))),
    )
}

/// `2 * b * (x[i+1] - x[i]^2)`: what one pair adds to the gradient entry of
/// its second coordinate.
pub open spec fn pair_slope_second<T: Scalar>(b: T, xi: T, xi1: T) -> Option<T> {
    times(times(constant(2), Some(b)), pair_residual(xi, xi1))
}

/// Gradient entry `i` once the pair to its left has been added, and before
/// the pair to its right is.
pub open spec fn gradient_arrival<T: Scalar>(x: Seq<T>, b: T, i: int) -> Option<T> {
    if i >= 1 {
        plus(constant(0), pair_slope_second(b, x[i - 1], x[i]))
    } else {
        constant(0)
    }
}

/// Entry `i` of the gradient: the constant 0, plus what the pair to the left
/// of `x[i]` adds, plus what the pair to its right adds, in this order. The
/// first coordinate has no pair to its left, the last none to its right.
pub open spec fn gradient_entry<T: Scalar>(x: Seq<T>, a: T, b: T, i: int) -> Option<T> {
    if i + 1 < x.len() {
        plus(gradient_arrival(x, b, i), pair_slope_first(a, b, x[i], x[i + 1]))
    } else {
        gradient_arrival(x, b, i)
    }
}

/// The gradient of the Rosenbrock function at `x`: defined where every entry
/// is.
pub open spec fn rosenbrock_gradient<T: Scalar>(x: Seq<T>, a: T, b: T) -> Option<Seq<T>> {
    if forall|i: int| 0 <= i < x.len() ==> (#[trigger] gradient_entry(x, a, b, i)) is Some {
        Some(Seq::new(x.len(), |i: int| gradient_entry(x, a, b, i).unwrap()))
    } else {
        None
    }
}

/// `12 * b * x[i]^2 - 4 * b * x[i+1] + 2 * a`: what one pair adds to the
/// diagonal Hessian entry of its first coordinate.
pub open spec fn pair_curvature<T: Scalar>(a: T, b: T, xi: T, xi1: T) -> Option<T> {
    plus(
        minus(
            times(times(constant(12), Some(b)), squared(Some(xi))),
            times(times(constant(4), Some(b)), Some(xi1)),
        ),
        times(constant(2), Some(a)),
    )
}

/// `2 * b`: the diagonal Hessian entry that one pair sets for its second
/// coordinate.
pub open spec fn pair_curvature_second<T: Scalar>(b: T) -> Option<T> {
    times(constant(2), Some(b))
}

/// `-4 * b * x[i]`: the two Hessian entries off the diagonal that one pair
/// sets.
pub open spec fn pair_coupling<T: Scalar>(b: T, xi: T) -> Option<T> {
    times(times(negated(constant(4)), Some(b)), Some(xi))
}

/// Diagonal Hessian entry `i` once the pair to the left of `x[i]` has set it,
/// and before the pair to its right adds to it.
pub open spec fn diagonal_arrival<T: Scalar>(b: T, i: int) -> Option<T> {
    if i >= 1 {
        pair_curvature_second(b)
    } else {
        constant(0)
    }
}

/// Entry `(i, j)` of the Hessian.
///
/// On the diagonal: what the pair to the left of `x[i]` sets (the constant 0
/// for the first coordinate), plus what the pair to its right adds (nothing
/// for the last coordinate). Next to the diagonal: the coupling of the pair
/// that joins the two coordinates. The constant 0 elsewhere.
pub open spec fn hessian_entry<T: Scalar>(x: Seq<T>, a: T, b: T, i: int, j: int) -> Option<T> {
    if i == j {
        if i + 1 < x.len() {
            plus(diagonal_arrival(b, i), pair_curvature(a, b, x[i], x[i + 1]))
        } else {
            diagonal_arrival(b, i)
        }
    } else if j == i + 1 {
        pair_coupling(b, x[i])
    } else if i == j + 1 {
        pair_coupling(b, x[j])
    } else {
        constant(0)
    }
}

/// The Hessian of the Rosenbrock function at `x`, as a sequence of rows:
/// defined where every entry is.
pub open spec fn rosenbrock_hessian_matrix<T: Scalar>(x: Seq<T>, a: T, b: T) -> Option<
    Seq<Seq<T>>,
> {
    if forall|i: int, j: int|
        0 <= i < x.len() && 0 <= j < x.len() ==> (#[trigger] hessian_entry(x, a, b, i, j)) is Some {
        Some(
            Seq::new(
                x.len(),
                |i: int| Seq::new(x.len(), |j: int| hessian_entry(x, a, b, i, j).unwrap()),
            ),
        )
    } else {
        None
    }
}

/// The rows of a matrix that is held as a vector of vectors.
pub open spec fn rows<T>(matrix: Seq<Vec<T>>) -> Seq<Seq<T>> {
    Seq::new(matrix.len(), |i: int| matrix[i]@)
}

/// The rows of a matrix that is held as an array of arrays.
pub open spec fn fixed_rows<T, const N: usize>(matrix: Seq<[T; N]>) -> Seq<Seq<T>> {
    Seq::new(matrix.len(), |i: int| matrix[i]@)
}

/// `residual` is what the residual `x[i+1] - x[i] * x[i]` of a pair comes to
/// when it is computed with the operators of `T`.
pub open spec fn pair_residual_computed<T: Scalar>(xi: T, xi1: T, residual: T) -> bool {
    exists|xi_squared: T| #[trigger]
        is_product(xi, xi, xi_squared) && is_difference(xi1, xi_squared, residual)
}

/// `term` is what a pair adds to the value when it is computed with the
/// operators of `T`, as `(a - x[i])` squared plus `b` times the square of the
/// residual.
pub open spec fn pair_value_computed<T: Scalar>(a: T, b: T, xi: T, xi1: T, term: T) -> bool {
    exists|
        deviation: T,
        residual: T,
        deviation_squared: T,
        residual_squared: T,
        scaled: T,
    |
        {
            &&& #[trigger] is_difference(a, xi, deviation)
            &&& #[trigger] pair_residual_computed(xi, xi1, residual)
            &&& #[trigger] is_product(deviation, deviation, deviation_squared)
            &&& #[trigger] is_product(residual, residual, residual_squared)
            &&& #[trigger] is_product(b, residual_squared, scaled)
            &&& is_sum(deviation_squared, scaled, term)
        }
}

/// `value` is made of the `terms` of the pairs of `x`, one for every pair,
/// added one after the other, from the left, onto the constant 0: `sums[k]`
/// is what the first `k` terms come to, and `value` is the last of the sums.
pub open spec fn value_made_of<T: Scalar>(
    x: Seq<T>,
    a: T,
    b: T,
    terms: Seq<T>,
    sums: Seq<T>,
    value: T,
) -> bool {
    &&& terms.len() == pairs(x.len())
    &&& sums.len() == pairs(x.len()) + 1
    &&& is_constant(0, sums[0])
    &&& forall|k: int|
        0 <= k < pairs(x.len()) ==> pair_value_computed(a, b, x[k], x[k + 1], #[trigger] terms[k])
            && is_sum(sums[k], terms[k], sums[k + 1])
    &&& value == sums[pairs(x.len()) as int]
}

/// `value` is what the Rosenbrock function comes to at `x` when it is
/// computed with the operators of `T`, whatever these return.
pub open spec fn rosenbrock_computed<T: Scalar>(x: Seq<T>, a: T, b: T, value: T) -> bool {
    exists|terms: Seq<T>, sums: Seq<T>| #[trigger] value_made_of(x, a, b, terms, sums, value)
}

/// `first` and `second` are what a pair adds to the gradient entries of its
/// first and of its second coordinate when they are computed with the
/// operators of `T`: `-4 * b * x[i] * residual + 2 * (x[i] - a)` and
/// `2 * b * residual`, each product taken from the left.
pub open spec fn pair_slopes_computed<T: Scalar>(
    a: T,
    b: T,
    xi: T,
    xi1: T,
    first: T,
    second: T,
) -> bool {
    exists|
        n2: T,
        n4: T,
        residual: T,
        minus_four: T,
        minus_four_b: T,
        minus_four_b_xi: T,
        descent: T,
        two_b: T,
        deviation: T,
        pull: T,
    |
        {
            &&& #[trigger] is_constant(2, n2)
            &&& #[trigger] is_constant(4, n4)
            &&& #[trigger] pair_residual_computed(xi, xi1, residual)
            &&& #[trigger] is_negation(n4, minus_four)
            &&& #[trigger] is_product(minus_four, b, minus_four_b)
            &&& #[trigger] is_product(minus_four_b, xi, minus_four_b_xi)
            &&& #[trigger] is_product(minus_four_b_xi, residual, descent)
            &&& #[trigger] is_product(n2, b, two_b)
            &&& is_product(two_b, residual, second)
            &&& #[trigger] is_difference(xi, a, deviation)
            &&& #[trigger] is_product(n2, deviation, pull)
            &&& is_sum(descent, pull, first)
        }
}

/// `entry` is what an entry of the gradient comes to when `left`, the
/// second slope of the pair to the left of the coordinate, and then
/// `right`, the first slope of the pair to its right, are added onto
/// the constant `zero`. The coordinate `i` of `len` has a pair to its left
/// unless it is the first, and one to its right unless it is the last.
pub open spec fn gradient_entry_computed<T: Scalar>(
    len: nat,
    i: int,
    zero: T,
    left: T,
    right: T,
    entry: T,
) -> bool {
    exists|arrival: T|
        {
            &&& #[trigger] gradient_arrival_computed(i, zero, left, arrival)
            &&& if i + 1 < len {
                is_sum(arrival, right, entry)
            } else {
                entry == arrival
            }
        }
}

/// `arrival` is what an entry of the gradient comes to when `left` has
/// been added onto the constant `zero`, for every coordinate but the first.
pub open spec fn gradient_arrival_computed<T: Scalar>(
    i: int,
    zero: T,
    left: T,
    arrival: T,
) -> bool {
    if i >= 1 {
        is_sum(zero, left, arrival)
    } else {
        arrival == zero
    }
}

/// What the pair to the left of coordinate `i` has given, where there is
/// one: entry `i - 1` of `given`. `otherwise` for the first coordinate.
pub open spec fn from_left<T>(given: Seq<T>, i: int, otherwise: T) -> T {
    if 1 <= i <= given.len() {
        given[i - 1]
    } else {
        otherwise
    }
}

/// What the pair to the right of coordinate `i` gives, where there is one:
/// entry `i` of `given`. `otherwise` for the last coordinate.
pub open spec fn from_right<T>(given: Seq<T>, i: int, otherwise: T) -> T {
    if 0 <= i < given.len() {
        given[i]
    } else {
        otherwise
    }
}

/// What the pairs have set in entry `(i, j)` off the diagonal: the coupling
/// that the pair of the two coordinates has given, where they are adjacent,
/// and `otherwise` where they are not.
pub open spec fn from_between<T>(given: Seq<T>, i: int, j: int, otherwise: T) -> T {
    if j == i + 1 {
        from_right(given, i, otherwise)
    } else if i == j + 1 {
        from_right(given, j, otherwise)
    } else {
        otherwise
    }
}

/// `gradient` is made of the slopes `firsts` and `seconds` of the pairs of
/// `x`, one of each for every pair, and of the constant `zero`.
pub open spec fn gradient_made_of<T: Scalar>(
    x: Seq<T>,
    a: T,
    b: T,
    zero: T,
    firsts: Seq<T>,
    seconds: Seq<T>,
    gradient: Seq<T>,
) -> bool {
    &&& is_constant(0, zero)
    &&& firsts.len() == pairs(x.len())
    &&& seconds.len() == pairs(x.len())
    &&& forall|k: int|
        0 <= k < pairs(x.len()) ==> pair_slopes_computed(
            a,
            b,
            x[k],
            x[k + 1],
            #[trigger] firsts[k],
            seconds[k],
        )
    &&& forall|i: int|
        0 <= i < x.len() ==> gradient_entry_computed(
            x.len(),
            i,
            zero,
            from_left(seconds, i, zero),
            from_right(firsts, i, zero),
            #[trigger] gradient[i],
        )
}

/// `gradient` is what the gradient of the Rosenbrock function comes to at
/// `x` when it is computed with the operators of `T`, whatever these return:
/// it has an entry for each coordinate, made of the slopes of the pairs next
/// to the coordinate.
pub open spec fn gradient_computed<T: Scalar>(x: Seq<T>, a: T, b: T, gradient: Seq<T>) -> bool {
    &&& gradient.len() == x.len()
    &&& exists|zero: T, firsts: Seq<T>, seconds: Seq<T>| #[trigger]
        gradient_made_of(x, a, b, zero, firsts, seconds, gradient)
}

/// `first`, `second` and `coupling` are what a pair gives to the Hessian when
/// they are computed with the operators of `T`:
/// `12 * b * (x[i] * x[i]) - 4 * b * x[i+1] + 2 * a`, which it adds to the
/// diagonal entry of its first coordinate, `2 * b`, which it sets as the
/// diagonal entry of its second, and `-4 * b * x[i]`, which it sets on either
/// side of the diagonal, each product taken from the left.
pub open spec fn pair_curvatures_computed<T: Scalar>(
    a: T,
    b: T,
    xi: T,
    xi1: T,
    first: T,
    second: T,
    coupling: T,
) -> bool {
    exists|
        n2: T,
        n4: T,
        n12: T,
        twelve_b: T,
        xi_squared: T,
        bend: T,
        four_b: T,
        lift: T,
        bend_less_lift: T,
        two_a: T,
        minus_four: T,
        minus_four_b: T,
    |
        {
            &&& #[trigger] is_constant(2, n2)
            &&& #[trigger] is_constant(4, n4)
            &&& #[trigger] is_constant(12, n12)
            &&& #[trigger] is_product(n12, b, twelve_b)
            &&& #[trigger] is_product(xi, xi, xi_squared)
            &&& #[trigger] is_product(twelve_b, xi_squared, bend)
            &&& #[trigger] is_product(n4, b, four_b)
            &&& #[trigger] is_product(four_b, xi1, lift)
            &&& #[trigger] is_difference(bend, lift, bend_less_lift)
            &&& #[trigger] is_product(n2, a, two_a)
            &&& is_sum(bend_less_lift, two_a, first)
            &&& is_product(n2, b, second)
            &&& #[trigger] is_negation(n4, minus_four)
            &&& #[trigger] is_product(minus_four, b, minus_four_b)
            &&& is_product(minus_four_b, xi, coupling)
        }
}

/// `entry` is what the diagonal entry of coordinate `i` of `len` comes to:
/// what the pair to the left of the coordinate has set, `left` (the
/// constant `zero` for the first coordinate), and added to it what the pair
/// to its right adds, `right` (nothing for the last coordinate).
pub open spec fn diagonal_entry_computed<T: Scalar>(
    len: nat,
    i: int,
    zero: T,
    left: T,
    right: T,
    entry: T,
) -> bool {
    let arrival = if i >= 1 {
        left
    } else {
        zero
    };
    if i + 1 < len {
        is_sum(arrival, right, entry)
    } else {
        entry == arrival
    }
}

/// `hessian` is made of what the pairs of `x` give, `firsts`, `seconds` and
/// `couplings`, one of each for every pair, and of the constant `zero`: the
/// diagonal as [`diagonal_entry_computed`] says, the couplings next to the
/// diagonal, on either side, and the constant everywhere else.
pub open spec fn hessian_made_of<T: Scalar>(
    x: Seq<T>,
    a: T,
    b: T,
    zero: T,
    firsts: Seq<T>,
    seconds: Seq<T>,
    couplings: Seq<T>,
    hessian: Seq<Seq<T>>,
) -> bool {
    &&& is_constant(0, zero)
    &&& firsts.len() == pairs(x.len())
    &&& seconds.len() == pairs(x.len())
    &&& couplings.len() == pairs(x.len())
    &&& forall|k: int|
        0 <= k < pairs(x.len()) ==> pair_curvatures_computed(
            a,
            b,
            x[k],
            x[k + 1],
            #[trigger] firsts[k],
            seconds[k],
            couplings[k],
        )
    &&& forall|i: int|
        0 <= i < x.len() ==> diagonal_entry_computed(
            x.len(),
            i,
            zero,
            from_left(seconds, i, zero),
            from_right(firsts, i, zero),
            #[trigger] hessian[i][i],
        )
    &&& forall|i: int, j: int|
        0 <= i < x.len() && 0 <= j < x.len() && i != j ==> (#[trigger] hessian[i][j])
            == from_between(couplings, i, j, zero)
}

/// `hessian` is what the Hessian of the Rosenbrock function comes to at `x`
/// when it is computed with the operators of `T`, whatever these return: it
/// is square, of the size of `x`, and made of what the pairs give.
pub open spec fn hessian_computed<T: Scalar>(x: Seq<T>, a: T, b: T, hessian: Seq<Seq<T>>) -> bool {
    &&& hessian.len() == x.len()
    &&& forall|i: int| 0 <= i < x.len() ==> (#[trigger] hessian[i]).len() == x.len()
    &&& exists|zero: T, firsts: Seq<T>, seconds: Seq<T>, couplings: Seq<T>| #[trigger]
        hessian_made_of(x, a, b, zero, firsts, seconds, couplings, hessian)
}

/// Entry `(i, j)` of the Hessian after the first `visited` pairs have been
/// worked in.
spec fn hessian_progress<T: Scalar>(x: Seq<T>, a: T, b: T, visited: int, i: int, j: int) -> Option<
    T,
> {
    if i == j {
        if i < visited {
            hessian_entry(x, a, b, i, i)
        } else if i == visited {
            diagonal_arrival(b, i)
        } else {
            constant(0)
        }
    } else if j == i + 1 && i < visited {
        pair_coupling(b, x[i])
    } else if i == j + 1 && j < visited {
        pair_coupling(b, x[j])
    } else {
        constant(0)
    }
}

/// Where the contributions of the first `k` pairs add up, so do those of the
/// first `j <= k`, and each of these pairs has a defined contribution.
proof fn lemma_partial_value_prefix<T: Scalar>(x: Seq<T>, a: T, b: T, k: nat, j: nat)
    requires
        partial_value(x, a, b, k) is Some,
        j <= k,
    ensures
        partial_value(x, a, b, j) is Some,
        j < k ==> pair_value(a, b, x[j as int], x[j as int + 1]) is Some,
    decreases k,
{
    if j < k {
        if j + 1 < k {
            lemma_partial_value_prefix(x, a, b, (k - 1) as nat, j);
        }
    }
}

/// What the pair `(xi, xi1)` adds to the value.
fn pair_term<T: Scalar>(a: T, b: T, xi: T, xi1: T) -> (term: T)
    requires
        evaluates::<T, T>(pair_value(a, b, xi, xi1)),
    ensures
        pair_value_computed(a, b, xi, xi1, term),
        exact_arithmetic::<T>() ==> pair_value(a, b, xi, xi1) == Some(term),
{
    let deviation = a - xi;
    let xi_squared = xi * xi;
    let residual = xi1 - xi_squared;
    let deviation_squared = deviation * deviation;
    let residual_squared = residual * residual;
    let scaled = b * residual_squared;
    let term = deviation_squared + scaled;
    proof {
        assert(is_difference(a, xi, deviation));
        assert(is_product(xi, xi, xi_squared));
        assert(pair_residual_computed(xi, xi1, residual));
        assert(is_product(deviation, deviation, deviation_squared));
        assert(is_product(residual, residual, residual_squared));
        assert(is_product(b, residual_squared, scaled));
    }
    term
}

/// The Rosenbrock function at `param`, with coefficients `a` and `b`.
pub fn rosenbrock<T: Scalar>(param: &[T], a: T, b: T) -> (value: T)
    requires
        evaluates::<T, T>(rosenbrock_value(param@, a, b)),
    ensures
        rosenbrock_computed(param@, a, b, value),
        exact_arithmetic::<T>() ==> rosenbrock_value(param@, a, b) == Some(value),
{
    let n = param.len();
    let mut sum = T::from(0i8);
    let ghost mut terms: Seq<T> = Seq::empty();
    let ghost mut sums: Seq<T> = seq![sum];
    let mut i: usize = 0;
    while i + 1 < n
        invariant
            n == param@.len(),
            i <= pairs(n as nat),
            terms.len() == i,
            sums.len() == i + 1,
            is_constant(0, sums[0]),
            forall|k: int|
                0 <= k < i ==> pair_value_computed(
                    a,
                    b,
                    param@[k],
                    param@[k + 1],
                    #[trigger] terms[k],
                ) && is_sum(sums[k], terms[k], sums[k + 1]),
            sum == sums[i as int],
            evaluates::<T, T>(rosenbrock_value(param@, a, b)),
            exact_arithmetic::<T>() ==> partial_value(param@, a, b, i as nat) == Some(sum),
        decreases n - i,
    {
        proof {
            if exact_arithmetic::<T>() && rosenbrock_value(param@, a, b) is Some {
                lemma_partial_value_prefix(param@, a, b, pairs(n as nat), (i + 1) as nat);
                lemma_partial_value_prefix(param@, a, b, pairs(n as nat), i as nat);
            }
        }
        let term = pair_term(a, b, param[i], param[i + 1]);
        let ghost before = sum;
        sum = sum + term;
        proof {
            assert(is_sum(before, term, sum));
            terms = terms.push(term);
            sums = sums.push(sum);
        }
        i += 1;
    }
    assert(value_made_of(param@, a, b, terms, sums, sum));
    sum
}

/// A vector of `len` copies of `value`.
fn filled<T: Copy>(value: T, len: usize) -> (v: Vec<T>)
    ensures
        v@.len() == len,
        forall|i: int| 0 <= i < len ==> #[trigger] v@[i] == value,
{
    let mut v: Vec<T> = Vec::with_capacity(len);
    let mut i: usize = 0;
    while i < len
        invariant
            i <= len,
            v@.len() == i,
            forall|j: int| 0 <= j < i ==> #[trigger] v@[j] == value,
        decreases len - i,
    {
        v.push(value);
        i += 1;
    }
    v
}

/// What the pair `(xi, xi1)` adds to the gradient entries of its two
/// coordinates.
fn pair_slopes<T: Scalar>(a: T, b: T, xi: T, xi1: T) -> (slopes: (T, T))
    requires
        evaluates::<T, T>(pair_slope_first(a, b, xi, xi1)),
        evaluates::<T, T>(pair_slope_second(b, xi, xi1)),
    ensures
        pair_slopes_computed(a, b, xi, xi1, slopes.0, slopes.1),
        exact_arithmetic::<T>() ==> pair_slope_first(a, b, xi, xi1) == Some(slopes.0),
        exact_arithmetic::<T>() ==> pair_slope_second(b, xi, xi1) == Some(slopes.1),
{
    let n2 = T::from(2i8);
    let n4 = T::from(4i8);
    let xi_squared = xi * xi;
    let residual = xi1 - xi_squared;
    let minus_four = n4.neg();
    let minus_four_b = minus_four * b;
    let minus_four_b_xi = minus_four_b * xi;
    let descent = minus_four_b_xi * residual;
    let two_b = n2 * b;
    let second = two_b * residual;
    let deviation = xi - a;
    let pull = n2 * deviation;
    let first = descent + pull;
    proof {
        assert(is_constant(2, n2));
        assert(is_constant(4, n4));
        assert(is_product(xi, xi, xi_squared));
        assert(pair_residual_computed(xi, xi1, residual));
        assert(is_negation(n4, minus_four));
        assert(is_product(minus_four, b, minus_four_b));
        assert(is_product(minus_four_b, xi, minus_four_b_xi));
        assert(is_product(minus_four_b_xi, residual, descent));
        assert(is_product(n2, b, two_b));
        assert(is_difference(xi, a, deviation));
        assert(is_product(n2, deviation, pull));
    }
    (first, second)
}

/// What the pair `(xi, xi1)` gives to the Hessian: what it adds to the
/// diagonal entry of its first coordinate, what it sets as the diagonal entry
/// of its second, and the entry it sets on either side of the diagonal.
fn pair_curvatures<T: Scalar>(a: T, b: T, xi: T, xi1: T) -> (parts: (T, T, T))
    requires
        evaluates::<T, T>(pair_curvature(a, b, xi, xi1)),
        evaluates::<T, T>(pair_curvature_second(b)),
        evaluates::<T, T>(pair_coupling(b, xi)),
    ensures
        pair_curvatures_computed(a, b, xi, xi1, parts.0, parts.1, parts.2),
        exact_arithmetic::<T>() ==> pair_curvature(a, b, xi, xi1) == Some(parts.0),
        exact_arithmetic::<T>() ==> pair_curvature_second(b) == Some(parts.1),
        exact_arithmetic::<T>() ==> pair_coupling(b, xi) == Some(parts.2),
{
    let n2 = T::from(2i8);
    let n4 = T::from(4i8);
    let n12 = T::from(12i8);
    let twelve_b = n12 * b;
    let xi_squared = xi * xi;
    let bend = twelve_b * xi_squared;
    let four_b = n4 * b;
    let lift = four_b * xi1;
    let bend_less_lift = bend - lift;
    let two_a = n2 * a;
    let first = bend_less_lift + two_a;
    let second = n2 * b;
    let minus_four = n4.neg();
    let minus_four_b = minus_four * b;
    let coupling = minus_four_b * xi;
    proof {
        assert(is_constant(2, n2));
        assert(is_constant(4, n4));
        assert(is_constant(12, n12));
        assert(is_product(n12, b, twelve_b));
        assert(is_product(xi, xi, xi_squared));
        assert(is_product(twelve_b, xi_squared, bend));
        assert(is_product(n4, b, four_b));
        assert(is_product(four_b, xi1, lift));
        assert(is_difference(bend, lift, bend_less_lift));
        assert(is_product(n2, a, two_a));
        assert(is_negation(n4, minus_four));
        assert(is_product(minus_four, b, minus_four_b));
    }
    (first, second, coupling)
}

/// The gradient of the Rosenbrock function at `param`.
///
/// It has one entry for each coordinate of `param`.
pub fn rosenbrock_derivative<T: Scalar>(param: &[T], a: T, b: T) -> (gradient: Vec<T>)
    requires
        evaluates::<T, Seq<T>>(rosenbrock_gradient(param@, a, b)),
    ensures
        gradient_computed(param@, a, b, gradient@),
        exact_arithmetic::<T>() ==> rosenbrock_gradient(param@, a, b) == Some(gradient@),
{
    let n = param.len();
    let n0 = T::from(0i8);
    let mut result = filled(n0, n);
    let ghost mut firsts: Seq<T> = Seq::empty();
    let ghost mut seconds: Seq<T> = Seq::empty();
    let mut i: usize = 0;
    while i + 1 < n
        invariant
            n == param@.len(),
            result@.len() == n,
            i <= pairs(n as nat),
            is_constant(0, n0),
            firsts.len() == i,
            seconds.len() == i,
            forall|k: int|
                0 <= k < i ==> pair_slopes_computed(
                    a,
                    b,
                    param@[k],
                    param@[k + 1],
                    #[trigger] firsts[k],
                    seconds[k],
                ),
            forall|j: int|
                0 <= j < i ==> gradient_entry_computed(
                    n as nat,
                    j,
                    n0,
                    from_left(seconds, j, n0),
                    from_right(firsts, j, n0),
                    #[trigger] result@[j],
                ),
            i < n ==> gradient_arrival_computed(
                i as int,
                n0,
                from_left(seconds, i as int, n0),
                result@[i as int],
            ),
            forall|j: int| i < j < n ==> #[trigger] result@[j] == n0,
            evaluates::<T, Seq<T>>(rosenbrock_gradient(param@, a, b)),
            exact_arithmetic::<T>() ==> {
                &&& forall|j: int|
                    0 <= j < i ==> gradient_entry(param@, a, b, j) == Some(#[trigger] result@[j])
                &&& i < n ==> gradient_arrival(param@, b, i as int) == Some(result@[i as int])
                &&& forall|j: int| i < j < n ==> constant::<T>(0) == Some(#[trigger] result@[j])
            },
        decreases n - i,
    {
        proof {
            if exact_arithmetic::<T>() && rosenbrock_gradient(param@, a, b) is Some {
                assert(gradient_entry(param@, a, b, i as int) is Some);
                assert(gradient_entry(param@, a, b, i + 1) is Some);
            }
        }
        let (first, second) = pair_slopes(a, b, param[i], param[i + 1]);
        let ghost arrival = result@[i as int];
        let ghost finished = result@;
        let ghost firsts_so_far = firsts;
        let ghost seconds_so_far = seconds;
        result[i] = result[i] + first;
        result[i + 1] = result[i + 1] + second;
        proof {
            assert(is_sum(arrival, first, result@[i as int]));
            assert(is_sum(n0, second, result@[i + 1]));
            firsts = firsts.push(first);
            seconds = seconds.push(second);
            assert forall|j: int| 0 <= j < i implies from_left(seconds, j, n0) == from_left(
                seconds_so_far,
                j,
                n0,
            ) && from_right(firsts, j, n0) == from_right(firsts_so_far, j, n0) && result@[j]
                == finished[j] by {}
            assert(gradient_arrival_computed(
                i as int,
                n0,
                from_left(seconds, i as int, n0),
                arrival,
            ));
        }
        i += 1;
    }
    proof {
        assert forall|j: int| 0 <= j < n implies gradient_entry_computed(
            n as nat,
            j,
            n0,
            from_left(seconds, j, n0),
            from_right(firsts, j, n0),
            #[trigger] result@[j],
        ) by {
            if j == i {
                assert(gradient_arrival_computed(j, n0, from_left(seconds, j, n0), result@[j]));
            }
        }
        assert(gradient_made_of(param@, a, b, n0, firsts, seconds, result@));
        if exact_arithmetic::<T>() {
            assert forall|j: int| 0 <= j < n implies gradient_entry(param@, a, b, j) == Some(
                #[trigger] result@[j],
            ) by {}
            assert(rosenbrock_gradient(param@, a, b).unwrap() =~= result@);
        }
    }
    result
}

/// The Hessian of the Rosenbrock function at `param`, as a vector of rows.
///
/// It is square, of the size of `param`, and symmetric.
pub fn rosenbrock_hessian<T: Scalar>(param: &[T], a: T, b: T) -> (hessian: Vec<Vec<T>>)
    requires
        evaluates::<T, Seq<Seq<T>>>(rosenbrock_hessian_matrix(param@, a, b)),
    ensures
        hessian_computed(param@, a, b, rows(hessian@)),
        forall|i: int, j: int|
            0 <= i < param@.len() && 0 <= j < param@.len() ==> (#[trigger] hessian@[i]@[j])
                == hessian@[j]@[i],
        exact_arithmetic::<T>() ==> rosenbrock_hessian_matrix(param@, a, b) == Some(
            rows(hessian@),
        ),
{
    let n = param.len();
    let n0 = T::from(0i8);
    let mut hessian: Vec<Vec<T>> = Vec::with_capacity(n);
    let mut r: usize = 0;
    while r < n
        invariant
            r <= n,
            hessian@.len() == r,
            forall|i: int| 0 <= i < r ==> (#[trigger] hessian@[i])@.len() == n,
            forall|i: int, j: int| 0 <= i < r && 0 <= j < n ==> (#[trigger] hessian@[i]@[j]) == n0,
        decreases n - r,
    {
        hessian.push(filled(n0, n));
        r += 1;
    }
    let ghost mut firsts: Seq<T> = Seq::empty();
    let ghost mut seconds: Seq<T> = Seq::empty();
    let ghost mut couplings: Seq<T> = Seq::empty();
    let mut i: usize = 0;
    while i + 1 < n
        invariant
            n == param@.len(),
            hessian@.len() == n,
            forall|r: int| 0 <= r < n ==> (#[trigger] hessian@[r])@.len() == n,
            i <= pairs(n as nat),
            is_constant(0, n0),
            firsts.len() == i,
            seconds.len() == i,
            couplings.len() == i,
            forall|k: int|
                0 <= k < i ==> pair_curvatures_computed(
                    a,
                    b,
                    param@[k],
                    param@[k + 1],
                    #[trigger] firsts[k],
                    seconds[k],
                    couplings[k],
                ),
            forall|r: int|
                0 <= r < i ==> diagonal_entry_computed(
                    n as nat,
                    r,
                    n0,
                    from_left(seconds, r, n0),
                    from_right(firsts, r, n0),
                    #[trigger] hessian@[r]@[r],
                ),
            i < n ==> hessian@[i as int]@[i as int] == from_left(seconds, i as int, n0),
            forall|r: int| i < r < n ==> #[trigger] hessian@[r]@[r] == n0,
            forall|r: int, c: int|
                0 <= r < n && 0 <= c < n && r != c ==> (#[trigger] hessian@[r]@[c])
                    == from_between(couplings, r, c, n0),
            evaluates::<T, Seq<Seq<T>>>(rosenbrock_hessian_matrix(param@, a, b)),
            exact_arithmetic::<T>() ==> forall|r: int, c: int|
                0 <= r < n && 0 <= c < n ==> hessian_progress(param@, a, b, i as int, r, c)
                    == Some(#[trigger] hessian@[r]@[c]),
        decreases n - i,
    {
        proof {
            if exact_arithmetic::<T>() && rosenbrock_hessian_matrix(param@, a, b) is Some {
                assert(hessian_entry(param@, a, b, i as int, i as int) is Some);
                assert(hessian_entry(param@, a, b, i + 1, i + 1) is Some);
                assert(hessian_entry(param@, a, b, i as int, i + 1) is Some);
            }
        }
        let (first, second, coupling) = pair_curvatures(a, b, param[i], param[i + 1]);
        let ghost arrival = hessian@[i as int]@[i as int];
        hessian[i][i] = hessian[i][i] + first;
        hessian[i + 1][i + 1] = second;
        hessian[i][i + 1] = coupling;
        hessian[i + 1][i] = coupling;
        proof {
            assert(is_sum(arrival, first, hessian@[i as int]@[i as int]));
            firsts = firsts.push(first);
            seconds = seconds.push(second);
            couplings = couplings.push(coupling);
        }
        i += 1;
    }
    proof {
        let matrix = rows(hessian@);
        assert forall|r: int| 0 <= r < n implies diagonal_entry_computed(
            n as nat,
            r,
            n0,
            from_left(seconds, r, n0),
            from_right(firsts, r, n0),
            #[trigger] matrix[r][r],
        ) by {
            assert(matrix[r][r] == hessian@[r]@[r]);
        }
        assert forall|r: int, c: int| 0 <= r < n && 0 <= c < n && r != c implies (
        #[trigger] matrix[r][c]) == from_between(couplings, r, c, n0) by {
            assert(matrix[r][c] == hessian@[r]@[c]);
        }
        assert(hessian_made_of(param@, a, b, n0, firsts, seconds, couplings, matrix));
        assert forall|r: int| 0 <= r < n implies (#[trigger] matrix[r]).len() == n by {
            assert(matrix[r] == hessian@[r]@);
        }
        if exact_arithmetic::<T>() {
            assert forall|r: int, c: int| 0 <= r < n && 0 <= c < n implies hessian_entry(
                param@,
                a,
                b,
                r,
                c,
            ) == Some(#[trigger] hessian@[r]@[c]) by {}
            assert(rosenbrock_hessian_matrix(param@, a, b).unwrap() =~~= matrix);
        }
    }
    hessian
}

/// The gradient of the Rosenbrock function at `param`, for a number of
/// coordinates that is known when the program is compiled.
pub fn rosenbrock_derivative_const<const N: usize, T: Scalar>(
    param: &[T; N],
    a: T,
    b: T,
) -> (gradient: [T; N])
    requires
        evaluates::<T, Seq<T>>(rosenbrock_gradient(param@, a, b)),
    ensures
        gradient_computed(param@, a, b, gradient@),
        exact_arithmetic::<T>() ==> rosenbrock_gradient(param@, a, b) == Some(gradient@),
{
    let n0 = T::from(0i8);
    let mut result = [n0;N];
    let ghost mut firsts: Seq<T> = Seq::empty();
    let ghost mut seconds: Seq<T> = Seq::empty();
    let mut i: usize = 0;
    while i + 1 < N
        invariant
            i <= pairs(N as nat),
            is_constant(0, n0),
            firsts.len() == i,
            seconds.len() == i,
            forall|k: int|
                0 <= k < i ==> pair_slopes_computed(
                    a,
                    b,
                    param@[k],
                    param@[k + 1],
                    #[trigger] firsts[k],
                    seconds[k],
                ),
            forall|j: int|
                0 <= j < i ==> gradient_entry_computed(
                    N as nat,
                    j,
                    n0,
                    from_left(seconds, j, n0),
                    from_right(firsts, j, n0),
                    #[trigger] result@[j],
                ),
            i < N ==> gradient_arrival_computed(
                i as int,
                n0,
                from_left(seconds, i as int, n0),
                result@[i as int],
            ),
            forall|j: int| i < j < N ==> #[trigger] result@[j] == n0,
            evaluates::<T, Seq<T>>(rosenbrock_gradient(param@, a, b)),
            exact_arithmetic::<T>() ==> {
                &&& forall|j: int|
                    0 <= j < i ==> gradient_entry(param@, a, b, j) == Some(#[trigger] result@[j])
                &&& i < N ==> gradient_arrival(param@, b, i as int) == Some(result@[i as int])
                &&& forall|j: int| i < j < N ==> constant::<T>(0) == Some(#[trigger] result@[j])
            },
        decreases N - i,
    {
        proof {
            if exact_arithmetic::<T>() && rosenbrock_gradient(param@, a, b) is Some {
                assert(gradient_entry(param@, a, b, i as int) is Some);
                assert(gradient_entry(param@, a, b, i + 1) is Some);
            }
        }
        let (first, second) = pair_slopes(a, b, param[i], param[i + 1]);
        let ghost arrival = result@[i as int];
        let ghost finished = result@;
        let ghost firsts_so_far = firsts;
        let ghost seconds_so_far = seconds;
        result[i] = result[i] + first;
        result[i + 1] = result[i + 1] + second;
        proof {
            assert(is_sum(arrival, first, result@[i as int]));
            assert(is_sum(n0, second, result@[i + 1]));
            firsts = firsts.push(first);
            seconds = seconds.push(second);
            assert forall|j: int| 0 <= j < i implies from_left(seconds, j, n0) == from_left(
                seconds_so_far,
                j,
                n0,
            ) && from_right(firsts, j, n0) == from_right(firsts_so_far, j, n0) && result@[j]
                == finished[j] by {}
            assert(gradient_arrival_computed(
                i as int,
                n0,
                from_left(seconds, i as int, n0),
                arrival,
            ));
        }
        i += 1;
    }
    proof {
        assert forall|j: int| 0 <= j < N implies gradient_entry_computed(
            N as nat,
            j,
            n0,
            from_left(seconds, j, n0),
            from_right(firsts, j, n0),
            #[trigger] result@[j],
        ) by {
            if j == i {
                assert(gradient_arrival_computed(j, n0, from_left(seconds, j, n0), result@[j]));
            }
        }
        assert(gradient_made_of(param@, a, b, n0, firsts, seconds, result@));
        if exact_arithmetic::<T>() {
            assert forall|j: int| 0 <= j < N implies gradient_entry(param@, a, b, j) == Some(
                #[trigger] result@[j],
            ) by {}
            assert(rosenbrock_gradient(param@, a, b).unwrap() =~= result@);
        }
    }
    result
}

/// The Hessian of the Rosenbrock function at `x`, for a number of coordinates
/// that is known when the program is compiled.
///
/// It is square, of the size of `x`, and symmetric.
pub fn rosenbrock_hessian_const<const N: usize, T: Scalar>(
    x: &[T; N],
    a: T,
    b: T,
) -> (hessian: [[T; N]; N])
    requires
        evaluates::<T, Seq<Seq<T>>>(rosenbrock_hessian_matrix(x@, a, b)),
    ensures
        hessian_computed(x@, a, b, fixed_rows(hessian@)),
        forall|i: int, j: int|
            0 <= i < x@.len() && 0 <= j < x@.len() ==> (#[trigger] hessian@[i]@[j])
                == hessian@[j]@[i],
        exact_arithmetic::<T>() ==> rosenbrock_hessian_matrix(x@, a, b) == Some(
            fixed_rows(hessian@),
        ),
{
    let n0 = T::from(0i8);
    let mut hessian = [[n0;N];N];
    let ghost mut firsts: Seq<T> = Seq::empty();
    let ghost mut seconds: Seq<T> = Seq::empty();
    let ghost mut couplings: Seq<T> = Seq::empty();
    let mut i: usize = 0;
    while i + 1 < N
        invariant
            i <= pairs(N as nat),
            is_constant(0, n0),
            firsts.len() == i,
            seconds.len() == i,
            couplings.len() == i,
            forall|k: int|
                0 <= k < i ==> pair_curvatures_computed(
                    a,
                    b,
                    x@[k],
                    x@[k + 1],
                    #[trigger] firsts[k],
                    seconds[k],
                    couplings[k],
                ),
            forall|r: int|
                0 <= r < i ==> diagonal_entry_computed(
                    N as nat,
                    r,
                    n0,
                    from_left(seconds, r, n0),
                    from_right(firsts, r, n0),
                    #[trigger] hessian@[r]@[r],
                ),
            i < N ==> hessian@[i as int]@[i as int] == from_left(seconds, i as int, n0),
            forall|r: int| i < r < N ==> #[trigger] hessian@[r]@[r] == n0,
            forall|r: int, c: int|
                0 <= r < N && 0 <= c < N && r != c ==> (#[trigger] hessian@[r]@[c])
                    == from_between(couplings, r, c, n0),
            evaluates::<T, Seq<Seq<T>>>(rosenbrock_hessian_matrix(x@, a, b)),
            exact_arithmetic::<T>() ==> forall|r: int, c: int|
                0 <= r < N && 0 <= c < N ==> hessian_progress(x@, a, b, i as int, r, c)
                    == Some(#[trigger] hessian@[r]@[c]),
        decreases N - i,
    {
        proof {
            if exact_arithmetic::<T>() && rosenbrock_hessian_matrix(x@, a, b) is Some {
                assert(hessian_entry(x@, a, b, i as int, i as int) is Some);
                assert(hessian_entry(x@, a, b, i + 1, i + 1) is Some);
                assert(hessian_entry(x@, a, b, i as int, i + 1) is Some);
            }
        }
        let (first, second, coupling) = pair_curvatures(a, b, x[i], x[i + 1]);
        let ghost arrival = hessian@[i as int]@[i as int];
        hessian[i][i] = hessian[i][i] + first;
        hessian[i + 1][i + 1] = second;
        hessian[i][i + 1] = coupling;
        hessian[i + 1][i] = coupling;
        proof {
            assert(is_sum(arrival, first, hessian@[i as int]@[i as int]));
            firsts = firsts.push(first);
            seconds = seconds.push(second);
            couplings = couplings.push(coupling);
        }
        i += 1;
    }
    proof {
        let matrix = fixed_rows(hessian@);
        assert forall|r: int| 0 <= r < N implies diagonal_entry_computed(
            N as nat,
            r,
            n0,
            from_left(seconds, r, n0),
            from_right(firsts, r, n0),
            #[trigger] matrix[r][r],
        ) by {
            assert(matrix[r][r] == hessian@[r]@[r]);
        }
        assert forall|r: int, c: int| 0 <= r < N && 0 <= c < N && r != c implies (
        #[trigger] matrix[r][c]) == from_between(couplings, r, c, n0) by {
            assert(matrix[r][c] == hessian@[r]@[c]);
        }
        assert(hessian_made_of(x@, a, b, n0, firsts, seconds, couplings, matrix));
        assert forall|r: int| 0 <= r < N implies (#[trigger] matrix[r]).len() == N by {
            assert(matrix[r] == hessian@[r]@);
        }
        if exact_arithmetic::<T>() {
            assert forall|r: int, c: int| 0 <= r < N && 0 <= c < N implies hessian_entry(
                x@,
                a,
                b,
                r,
                c,
            ) == Some(#[trigger] hessian@[r]@[c]) by {}
            assert(rosenbrock_hessian_matrix(x@, a, b).unwrap() =~~= matrix);
        }
    }
    hessian
}

} // verus!
