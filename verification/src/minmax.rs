//! The lesser and the greater of two numbers.
//!
//! [`ArgminMinMax`] is implemented for the signed and unsigned integers of 8
//! to 64 bits, which are ordered as usual, and for the complex numbers over
//! each of them, which are ordered by their real parts and, where these are
//! equal, by their imaginary parts. The order of the complex numbers breaks
//! ties consistently; it says nothing about magnitude.
//!
//! The choice between the two numbers is made by [`lesser`] and [`greater`],
//! and by [`lesser_complex`] and [`greater_complex`], which go by the
//! comparison that a type brings. Their contracts state the choice in terms
//! of what the comparison answers, so they hold of the floating-point types
//! too, whose comparison is no total order: a NaN comes neither before nor
//! after any number.
use num_complex::Complex;
use vstd::prelude::*;
use vstd::std_specs::cmp::{PartialEqSpec, PartialOrdIs, PartialOrdSpec};

verus! {

/// `num_complex::Complex<T>`, as its crate declares it: a struct of two
/// public fields, the real part `re` and the imaginary part `im`.
#[verifier::external_type_specification]
#[verifier::reject_recursive_types(T)]
pub struct ExComplex<T>(Complex<T>);

/// The comparisons of `T`, `<` and `==`, answer exactly what their contracts
/// state.
pub open spec fn exact_comparison<T: PartialOrd>() -> bool {
    T::obeys_partial_cmp_spec() && T::obeys_eq_spec()
}

/// `y` comes before `x` in the order of the complex numbers over `T`: by the
/// real parts, then by the imaginary parts.
pub open spec fn before_lexicographically<T: PartialOrd>(y: Complex<T>, x: Complex<T>) -> bool {
    y.re.is_lt(&x.re) || (y.re.eq_spec(&x.re) && y.im.is_lt(&x.im))
}

/// The lesser of `x` and `y`: `y` where the comparison `y < x` answers yes,
/// else `x`.
pub fn lesser<T: Copy + PartialOrd>(x: &T, y: &T) -> (chosen: T)
    ensures
        exists|before: bool| #[trigger]
            call_ensures(T::lt, (y, x), before) && chosen == (if before {
                *y
            } else {
                *x
            }),
        T::obeys_partial_cmp_spec() ==> chosen == (if y.is_lt(x) {
            *y
        } else {
            *x
        }),
{
    if *y < *x {
        *y
    } else {
        *x
    }
}

/// The greater of `x` and `y`: `x` where the comparison `y < x` answers yes,
/// else `y`.
pub fn greater<T: Copy + PartialOrd>(x: &T, y: &T) -> (chosen: T)
    ensures
        exists|before: bool| #[trigger]
            call_ensures(T::lt, (y, x), before) && chosen == (if before {
                *x
            } else {
                *y
            }),
        T::obeys_partial_cmp_spec() ==> chosen == (if y.is_lt(x) {
            *x
        } else {
            *y
        }),
{
    if *y < *x {
        *x
    } else {
        *y
    }
}

/// What the comparisons of `T` answer when two complex numbers are compared
/// by their real parts, then by their imaginary parts: `before` is whether
/// they put `y` before `x`.
pub open spec fn answers_lexicographically<T: PartialOrd>(
    y: Complex<T>,
    x: Complex<T>,
    before: bool,
) -> bool {
    exists|real_before: bool, real_equal: bool, imaginary_before: bool|
        {
            &&& #[trigger] call_ensures(T::lt, (&y.re, &x.re), real_before)
            &&& #[trigger] call_ensures(T::eq, (&y.re, &x.re), real_equal)
            &&& #[trigger] call_ensures(T::lt, (&y.im, &x.im), imaginary_before)
            &&& before == (real_before || (real_equal && imaginary_before))
        }
}

/// The lesser of the complex numbers `x` and `y`: `y` where the comparisons
/// put it before `x`, by the real parts and then by the imaginary parts,
/// else `x`.
pub fn lesser_complex<T: Copy + PartialOrd>(x: &Complex<T>, y: &Complex<T>) -> (chosen: Complex<T>)
    ensures
        exists|before: bool| #[trigger]
            answers_lexicographically(*y, *x, before) && chosen == (if before {
                *y
            } else {
                *x
            }),
        exact_comparison::<T>() ==> chosen == (if before_lexicographically(*y, *x) {
            *y
        } else {
            *x
        }),
{
    let real_before = y.re < x.re;
    let real_equal = y.re == x.re;
    let imaginary_before = y.im < x.im;
    let before = real_before || (real_equal && imaginary_before);
    assert(answers_lexicographically(*y, *x, before));
    if before {
        *y
    } else {
        *x
    }
}

/// The greater of the complex numbers `x` and `y`: `x` where the comparisons
/// put `y` before it, by the real parts and then by the imaginary parts,
/// else `y`.
pub fn greater_complex<T: Copy + PartialOrd>(x: &Complex<T>, y: &Complex<T>) -> (chosen: Complex<
    T,
>)
    ensures
        exists|before: bool| #[trigger]
            answers_lexicographically(*y, *x, before) && chosen == (if before {
                *x
            } else {
                *y
            }),
        exact_comparison::<T>() ==> chosen == (if before_lexicographically(*y, *x) {
            *x
        } else {
            *y
        }),
{
    let real_before = y.re < x.re;
    let real_equal = y.re == x.re;
    let imaginary_before = y.im < x.im;
    let before = real_before || (real_equal && imaginary_before);
    assert(answers_lexicographically(*y, *x, before));
    if before {
        *x
    } else {
        *y
    }
}

/// A type of numbers with a lesser and a greater of any two.
pub trait ArgminMinMax: Sized {
    /// The order of the type: `x` comes strictly before `y`.
    spec fn precedes(x: Self, y: Self) -> bool;

    /// `precedes` is a strict total order.
    proof fn precedes_is_strict_total_order(x: Self, y: Self, z: Self)
        ensures
            !Self::precedes(x, x),
            Self::precedes(x, y) && Self::precedes(y, z) ==> Self::precedes(x, z),
            Self::precedes(x, y) || Self::precedes(y, x) || x == y,
    ;

    /// The lesser of `x` and `y`: `y` where it comes before `x`, else `x`.
    /// This is [`lesser_of`].
    fn min(x: &Self, y: &Self) -> (chosen: Self)
        ensures
            chosen == (if Self::precedes(*y, *x) {
                *y
            } else {
                *x
            }),
    ;

    /// The greater of `x` and `y`: `x` where `y` comes before it, else `y`.
    /// This is [`greater_of`].
    fn max(x: &Self, y: &Self) -> (chosen: Self)
        ensures
            chosen == (if Self::precedes(*y, *x) {
                *x
            } else {
                *y
            }),
    ;
}

/// The lesser of `x` and `y` in the order of `T`: what `T::min` returns.
pub open spec fn lesser_of<T: ArgminMinMax>(x: T, y: T) -> T {
    if T::precedes(y, x) {
        y
    } else {
        x
    }
}

/// The greater of `x` and `y` in the order of `T`: what `T::max` returns.
pub open spec fn greater_of<T: ArgminMinMax>(x: T, y: T) -> T {
    if T::precedes(y, x) {
        x
    } else {
        y
    }
}

/// The order of the complex numbers over an ordered type: by the real parts,
/// then by the imaginary parts.
pub open spec fn precedes_lexicographically<T: ArgminMinMax>(x: Complex<T>, y: Complex<T>) -> bool {
    T::precedes(x.re, y.re) || (x.re == y.re && T::precedes(x.im, y.im))
}

/// What `min` and `max` return are the lesser and the greater of their
/// arguments.
pub proof fn law_min_max_return_lesser_and_greater<T: ArgminMinMax>(
    x: T,
    y: T,
    least: T,
    greatest: T,
)
    requires
        call_ensures(T::min, (&x, &y), least),
        call_ensures(T::max, (&x, &y), greatest),
    ensures
        least == lesser_of(x, y),
        greatest == greater_of(x, y),
{
}

/// Of two numbers of which the first comes before the second, the first is
/// the lesser and the second the greater, in whichever order they are given.
pub proof fn law_ordered_pair<T: ArgminMinMax>(x: T, y: T)
    requires
        T::precedes(x, y),
    ensures
        lesser_of(x, y) == x,
        greater_of(x, y) == y,
        lesser_of(y, x) == x,
        greater_of(y, x) == y,
{
    T::precedes_is_strict_total_order(x, y, x);
}

/// The lesser and the greater of two numbers do not depend on the order in
/// which the two are given.
pub proof fn law_symmetric<T: ArgminMinMax>(x: T, y: T)
    ensures
        lesser_of(x, y) == lesser_of(y, x),
        greater_of(x, y) == greater_of(y, x),
{
    T::precedes_is_strict_total_order(x, y, x);
}

/// The lesser and the greater of two numbers are these two numbers: each is
/// one of them, and where one is the first the other is the second.
pub proof fn law_selects_arguments<T: ArgminMinMax>(x: T, y: T)
    ensures
        (lesser_of(x, y) == x && greater_of(x, y) == y) || (lesser_of(x, y) == y && greater_of(
            x,
            y,
        ) == x),
        lesser_of(x, y) == x && lesser_of(x, y) == y <==> x == y,
{
    T::precedes_is_strict_total_order(x, y, x);
}

/// The lesser of two numbers comes before the greater, unless they are equal.
pub proof fn law_lesser_precedes_greater<T: ArgminMinMax>(x: T, y: T)
    ensures
        x != y ==> T::precedes(lesser_of(x, y), greater_of(x, y)),
        !T::precedes(greater_of(x, y), lesser_of(x, y)),
{
    T::precedes_is_strict_total_order(x, y, x);
}

impl ArgminMinMax for i8 {
    open spec fn precedes(x: Self, y: Self) -> bool {
        x < y
    }

    proof fn precedes_is_strict_total_order(x: Self, y: Self, z: Self) {
    }

    fn min(x: &Self, y: &Self) -> (chosen: Self) {
        lesser(x, y)
    }

    fn max(x: &Self, y: &Self) -> (chosen: Self) {
        greater(x, y)
    }
}

impl ArgminMinMax for i16 {
    open spec fn precedes(x: Self, y: Self) -> bool {
        x < y
    }

    proof fn precedes_is_strict_total_order(x: Self, y: Self, z: Self) {
    }

    fn min(x: &Self, y: &Self) -> (chosen: Self) {
        lesser(x, y)
    }

    fn max(x: &Self, y: &Self) -> (chosen: Self) {
        greater(x, y)
    }
}

impl ArgminMinMax for i32 {
    open spec fn precedes(x: Self, y: Self) -> bool {
        x < y
    }

    proof fn precedes_is_strict_total_order(x: Self, y: Self, z: Self) {
    }

    fn min(x: &Self, y: &Self) -> (chosen: Self) {
        lesser(x, y)
    }

    fn max(x: &Self, y: &Self) -> (chosen: Self) {
        greater(x, y)
    }
}

impl ArgminMinMax for i64 {
    open spec fn precedes(x: Self, y: Self) -> bool {
        x < y
    }

    proof fn precedes_is_strict_total_order(x: Self, y: Self, z: Self) {
    }

    fn min(x: &Self, y: &Self) -> (chosen: Self) {
        lesser(x, y)
    }

    fn max(x: &Self, y: &Self) -> (chosen: Self) {
        greater(x, y)
    }
}

impl ArgminMinMax for u8 {
    open spec fn precedes(x: Self, y: Self) -> bool {
        x < y
    }

    proof fn precedes_is_strict_total_order(x: Self, y: Self, z: Self) {
    }

    fn min(x: &Self, y: &Self) -> (chosen: Self) {
        lesser(x, y)
    }

    fn max(x: &Self, y: &Self) -> (chosen: Self) {
        greater(x, y)
    }
}

impl ArgminMinMax for u16 {
    open spec fn precedes(x: Self, y: Self) -> bool {
        x < y
    }

    proof fn precedes_is_strict_total_order(x: Self, y: Self, z: Self) {
    }

    fn min(x: &Self, y: &Self) -> (chosen: Self) {
        lesser(x, y)
    }

    fn max(x: &Self, y: &Self) -> (chosen: Self) {
        greater(x, y)
    }
}

impl ArgminMinMax for u32 {
    open spec fn precedes(x: Self, y: Self) -> bool {
        x < y
    }

    proof fn precedes_is_strict_total_order(x: Self, y: Self, z: Self) {
    }

    fn min(x: &Self, y: &Self) -> (chosen: Self) {
        lesser(x, y)
    }

    fn max(x: &Self, y: &Self) -> (chosen: Self) {
        greater(x, y)
    }
}

impl ArgminMinMax for u64 {
    open spec fn precedes(x: Self, y: Self) -> bool {
        x < y
    }

    proof fn precedes_is_strict_total_order(x: Self, y: Self, z: Self) {
    }

    fn min(x: &Self, y: &Self) -> (chosen: Self) {
        lesser(x, y)
    }

    fn max(x: &Self, y: &Self) -> (chosen: Self) {
        greater(x, y)
    }
}

impl ArgminMinMax for Complex<i8> {
    open spec fn precedes(x: Self, y: Self) -> bool {
        precedes_lexicographically(x, y)
    }

    proof fn precedes_is_strict_total_order(x: Self, y: Self, z: Self) {
    }

    fn min(x: &Self, y: &Self) -> (chosen: Self) {
        lesser_complex(x, y)
    }

    fn max(x: &Self, y: &Self) -> (chosen: Self) {
        greater_complex(x, y)
    }
}

impl ArgminMinMax for Complex<i16> {
    open spec fn precedes(x: Self, y: Self) -> bool {
        precedes_lexicographically(x, y)
    }

    proof fn precedes_is_strict_total_order(x: Self, y: Self, z: Self) {
    }

    fn min(x: &Self, y: &Self) -> (chosen: Self) {
        lesser_complex(x, y)
    }

    fn max(x: &Self, y: &Self) -> (chosen: Self) {
        greater_complex(x, y)
    }
}

impl ArgminMinMax for Complex<i32> {
    open spec fn precedes(x: Self, y: Self) -> bool {
        precedes_lexicographically(x, y)
    }

    proof fn precedes_is_strict_total_order(x: Self, y: Self, z: Self) {
    }

    fn min(x: &Self, y: &Self) -> (chosen: Self) {
        lesser_complex(x, y)
    }

    fn max(x: &Self, y: &Self) -> (chosen: Self) {
        greater_complex(x, y)
    }
}

impl ArgminMinMax for Complex<i64> {
    open spec fn precedes(x: Self, y: Self) -> bool {
        precedes_lexicographically(x, y)
    }

    proof fn precedes_is_strict_total_order(x: Self, y: Self, z: Self) {
    }

    fn min(x: &Self, y: &Self) -> (chosen: Self) {
        lesser_complex(x, y)
    }

    fn max(x: &Self, y: &Self) -> (chosen: Self) {
        greater_complex(x, y)
    }
}

impl ArgminMinMax for Complex<u8> {
    open spec fn precedes(x: Self, y: Self) -> bool {
        precedes_lexicographically(x, y)
    }

    proof fn precedes_is_strict_total_order(x: Self, y: Self, z: Self) {
    }

    fn min(x: &Self, y: &Self) -> (chosen: Self) {
        lesser_complex(x, y)
    }

    fn max(x: &Self, y: &Self) -> (chosen: Self) {
        greater_complex(x, y)
    }
}

impl ArgminMinMax for Complex<u16> {
    open spec fn precedes(x: Self, y: Self) -> bool {
        precedes_lexicographically(x, y)
    }

    proof fn precedes_is_strict_total_order(x: Self, y: Self, z: Self) {
    }

    fn min(x: &Self, y: &Self) -> (chosen: Self) {
        lesser_complex(x, y)
    }

    fn max(x: &Self, y: &Self) -> (chosen: Self) {
        greater_complex(x, y)
    }
}

impl ArgminMinMax for Complex<u32> {
    open spec fn precedes(x: Self, y: Self) -> bool {
        precedes_lexicographically(x, y)
    }

    proof fn precedes_is_strict_total_order(x: Self, y: Self, z: Self) {
    }

    fn min(x: &Self, y: &Self) -> (chosen: Self) {
        lesser_complex(x, y)
    }

    fn max(x: &Self, y: &Self) -> (chosen: Self) {
        greater_complex(x, y)
    }
}

impl ArgminMinMax for Complex<u64> {
    open spec fn precedes(x: Self, y: Self) -> bool {
        precedes_lexicographically(x, y)
    }

    proof fn precedes_is_strict_total_order(x: Self, y: Self, z: Self) {
    }

    fn min(x: &Self, y: &Self) -> (chosen: Self) {
        lesser_complex(x, y)
    }

    fn max(x: &Self, y: &Self) -> (chosen: Self) {
        greater_complex(x, y)
    }
}

} // verus!
