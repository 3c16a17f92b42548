//! Benchmark functions for optimisation routines, with their derivatives, and
//! the lesser and the greater of two numbers.
//!
//! * [`himmelblau`] is Himmelblau's function of two coordinates.
//! * [`rosenbrock`] is the generalised Rosenbrock function of any number of
//!   coordinates, with its gradient and its Hessian, each for a vector whose
//!   length is known when the program runs and for one whose length is known
//!   when it is compiled.
//! * [`schaffer`] holds Schaffer's functions No. 2 and No. 4 of two
//!   coordinates, up to the sine and the cosine that they take.
//! * [`minmax`] chooses the lesser and the greater of two numbers, and orders
//!   the integers and the complex numbers over them.
//!
//! The benchmark functions are written once, over any element type that has
//! the arithmetic operators. Each contract states the value that is computed
//! in terms of what Verus knows of these operators, so it is as strong as
//! what is known of the element type: see [`scalar`]. On the integers the
//! functions are polynomials, and [`rosenbrock_integers`] proves how the
//! value, the gradient and the Hessian of the Rosenbrock function belong
//! together.

pub mod himmelblau;
pub mod minmax;
pub mod rosenbrock;
pub mod rosenbrock_integers;
pub mod rosenbrock_laws;
pub mod scalar;
pub mod schaffer;

pub use himmelblau::himmelblau;
pub use minmax::{greater, greater_complex, lesser, lesser_complex, ArgminMinMax};
pub use schaffer::{schaffer_from_wave, schaffer_phase};
pub use rosenbrock::{
    rosenbrock, rosenbrock_derivative, rosenbrock_derivative_const, rosenbrock_hessian,
    rosenbrock_hessian_const,
};
