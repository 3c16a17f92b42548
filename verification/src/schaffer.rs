//! Schaffer's functions No. 2 and No. 4, but for their sine and cosine.
//!
//! No. 2 is
//! `f(x1, x2) = 0.5 + (sin^2(x1^2 - x2^2) - 0.5) / (1 + 0.0001 * (x1^2 + x2^2))^2`,
//! with its global minimum `f(0, 0) = 0`.
//!
//! No. 4 is
//! `f(x1, x2) = 0.5 + (cos^2(sin(abs(x1^2 - x2^2))) - 0.5) / (1 + 0.0001 * (x1^2 + x2^2))^2`,
//! with its global minimum `f(0, 1.25313) = 0.291992`.
//!
//! Both functions take a wave of the phase `x1^2 - x2^2` (its sine in No. 2,
//! the cosine of the sine of its absolute value in No. 4) and damp the square
//! of the wave in the same way. The sine and the cosine are no arithmetic
//! operators, and the caller brings them. A caller computes the phase with
//! [`schaffer_phase`], takes the wave of it, and hands the wave to
//! [`schaffer_from_wave`].
use crate::scalar::{
    constant, evaluates, evaluates_dividing, exact_arithmetic, exact_division, is_constant,
    is_difference, is_product, is_quotient, is_sum, minus, over, plus, squared, times, Fraction,
    Scalar,
};
use vstd::prelude::*;

verus! {

/// `x1^2 - x2^2`, the phase of the wave.
pub open spec fn schaffer_phase_value<T: Scalar>(x1: T, x2: T) -> Option<T> {
    minus(squared(Some(x1)), squared(Some(x2)))
}

/// The constant 0.5, as the quotient of the constants 1 and 2.
pub open spec fn half<T: Fraction>() -> Option<T> {
    over(constant(1), constant(2))
}

/// The constant 0.0001, as the quotient of the constant 1 and the square of
/// the constant 100.
pub open spec fn ten_thousandth<T: Fraction>() -> Option<T> {
    over(constant(1), times(constant(100), constant(100)))
}

/// `1 + 0.0001 * (x1^2 + x2^2)`, whose square damps the wave.
pub open spec fn schaffer_damping<T: Fraction>(x1: T, x2: T) -> Option<T> {
    plus(constant(1), times(ten_thousandth(), plus(squared(Some(x1)), squared(Some(x2)))))
}

/// `0.5 + (wave^2 - 0.5) / (1 + 0.0001 * (x1^2 + x2^2))^2`: the value of
/// either function at `(x1, x2)`, given its wave.
pub open spec fn schaffer_value<T: Fraction>(x1: T, x2: T, wave: T) -> Option<T> {
    plus(half(), over(minus(squared(Some(wave)), half()), squared(schaffer_damping(x1, x2))))
}

/// `phase` is what the phase comes to at `(x1, x2)` when it is computed with
/// the operators of `T`, as `x1 * x1 - x2 * x2`, whatever these return.
pub open spec fn schaffer_phase_computed<T: Scalar>(x1: T, x2: T, phase: T) -> bool {
    exists|x1_squared: T, x2_squared: T|
        {
            &&& #[trigger] is_product(x1, x1, x1_squared)
            &&& #[trigger] is_product(x2, x2, x2_squared)
            &&& is_difference(x1_squared, x2_squared, phase)
        }
}

/// `value` is what either function comes to at `(x1, x2)`, given its wave,
/// when it is computed with the operators of `T`, whatever these return: with
/// `1 / 2` for 0.5 and `1 / (100 * 100)` for 0.0001, as
/// `0.5 + (wave * wave - 0.5) / (damping * damping)`, where `damping` is
/// `1 + 0.0001 * (x1 * x1 + x2 * x2)`.
pub open spec fn schaffer_computed<T: Fraction>(x1: T, x2: T, wave: T, value: T) -> bool {
    exists|
        n1: T,
        n2: T,
        n100: T,
        n05: T,
        n10000: T,
        n0001: T,
        x1_squared: T,
        x2_squared: T,
        radius_squared: T,
        scaled: T,
        damping: T,
        damping_squared: T,
        wave_squared: T,
        swing: T,
        damped: T,
    |
        {
            &&& #[trigger] is_constant(1, n1)
            &&& #[trigger] is_constant(2, n2)
            &&& #[trigger] is_constant(100, n100)
            &&& #[trigger] is_quotient(n1, n2, n05)
            &&& #[trigger] is_product(n100, n100, n10000)
            &&& #[trigger] is_quotient(n1, n10000, n0001)
            &&& #[trigger] is_product(x1, x1, x1_squared)
            &&& #[trigger] is_product(x2, x2, x2_squared)
            &&& #[trigger] is_sum(x1_squared, x2_squared, radius_squared)
            &&& #[trigger] is_product(n0001, radius_squared, scaled)
            &&& #[trigger] is_sum(n1, scaled, damping)
            &&& #[trigger] is_product(damping, damping, damping_squared)
            &&& #[trigger] is_product(wave, wave, wave_squared)
            &&& #[trigger] is_difference(wave_squared, n05, swing)
            &&& #[trigger] is_quotient(swing, damping_squared, damped)
            &&& is_sum(n05, damped, value)
        }
}

/// The phase `x1^2 - x2^2` at `param`, of which the functions No. 2 and No. 4
/// take their wave.
pub fn schaffer_phase<T: Scalar>(param: &[T; 2]) -> (phase: T)
    requires
        evaluates::<T, T>(schaffer_phase_value(param@[0], param@[1])),
    ensures
        schaffer_phase_computed(param@[0], param@[1], phase),
        exact_arithmetic::<T>() ==> schaffer_phase_value(param@[0], param@[1]) == Some(phase),
{
    let x1 = param[0];
    let x2 = param[1];
    let x1_squared = x1 * x1;
    let x2_squared = x2 * x2;
    let phase = x1_squared - x2_squared;
    proof {
        assert(is_product(x1, x1, x1_squared));
        assert(is_product(x2, x2, x2_squared));
    }
    phase
}

/// The value at `param` of the function whose wave at `param` is `wave`:
/// the sine of the phase for No. 2, the cosine of the sine of the absolute
/// value of the phase for No. 4.
pub fn schaffer_from_wave<T: Fraction>(param: &[T; 2], wave: T) -> (value: T)
    requires
        evaluates_dividing::<T, T>(schaffer_value(param@[0], param@[1], wave)),
    ensures
        schaffer_computed(param@[0], param@[1], wave, value),
        exact_division::<T>() ==> schaffer_value(param@[0], param@[1], wave) == Some(value),
{
    let x1 = param[0];
    let x2 = param[1];
    let n1 = T::from(1i8);
    let n2 = T::from(2i8);
    let n100 = T::from(100i8);
    let n05 = n1 / n2;
    let n10000 = n100 * n100;
    let n0001 = n1 / n10000;
    let x1_squared = x1 * x1;
    let x2_squared = x2 * x2;
    let radius_squared = x1_squared + x2_squared;
    let scaled = n0001 * radius_squared;
    let damping = n1 + scaled;
    let damping_squared = damping * damping;
    let wave_squared = wave * wave;
    let swing = wave_squared - n05;
    let damped = swing / damping_squared;
    let value = n05 + damped;
    proof {
        assert(is_constant(1, n1));
        assert(is_constant(2, n2));
        assert(is_constant(100, n100));
        assert(is_quotient(n1, n2, n05));
        assert(is_product(n100, n100, n10000));
        assert(is_quotient(n1, n10000, n0001));
        assert(is_product(x1, x1, x1_squared));
        assert(is_product(x2, x2, x2_squared));
        assert(is_sum(x1_squared, x2_squared, radius_squared));
        assert(is_product(n0001, radius_squared, scaled));
        assert(is_sum(n1, scaled, damping));
        assert(is_product(damping, damping, damping_squared));
        assert(is_product(wave, wave, wave_squared));
        assert(is_difference(wave_squared, n05, swing));
        assert(is_quotient(swing, damping_squared, damped));
    }
    value
}

} // verus!
