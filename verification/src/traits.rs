//! The operations of the generated code, as traits that the generated classes implement.

use vstd::prelude::*;

verus! {

/// All elements set to zero.
pub trait Zero: Sized {
    fn zero() -> Self;
}

/// All elements set to zero, except for the scalar, which is set to one.
pub trait One: Sized {
    fn one() -> Self;
}

/// Element order reversed.
pub trait Dual {
    type Output;

    fn dual(self) -> Self::Output;
}

/// Negates elements with `grade % 2 == 1`.
///
/// Also called main involution.
pub trait Automorphism {
    type Output;

    fn automorphism(self) -> Self::Output;
}

/// Negates elements with `grade % 4 >= 2`.
///
/// Also called transpose.
pub trait Reversal {
    type Output;

    fn reversal(self) -> Self::Output;
}

/// Negates elements with `(grade + 3) % 4 < 2`.
pub trait Conjugation {
    type Output;

    fn conjugation(self) -> Self::Output;
}

/// General multivector multiplication.
pub trait GeometricProduct<T> {
    type Output;

    fn geometric_product(self, other: T) -> Self::Output;
}

/// Dual of the geometric product grade filtered by `t == r + s`.
///
/// Also called join.
pub trait RegressiveProduct<T> {
    type Output;

    fn regressive_product(self, other: T) -> Self::Output;
}

/// Geometric product grade filtered by `t == r + s`.
///
/// Also called meet or exterior product.
pub trait OuterProduct<T> {
    type Output;

    fn outer_product(self, other: T) -> Self::Output;
}

/// Geometric product grade filtered by `t == (r - s).abs()`.
///
/// Also called fat dot product.
pub trait InnerProduct<T> {
    type Output;

    fn inner_product(self, other: T) -> Self::Output;
}

/// Geometric product grade filtered by `t == s - r`.
pub trait LeftContraction<T> {
    type Output;

    fn left_contraction(self, other: T) -> Self::Output;
}

/// Geometric product grade filtered by `t == r - s`.
pub trait RightContraction<T> {
    type Output;

    fn right_contraction(self, other: T) -> Self::Output;
}

/// Geometric product grade filtered by `t == 0`.
pub trait ScalarProduct<T> {
    type Output;

    fn scalar_product(self, other: T) -> Self::Output;
}

/// `self * other * self.reversal()`.
///
/// Also called sandwich product.
pub trait Transformation<T> {
    type Output;

    fn transformation(self, other: T) -> Self::Output;
}

/// Square of the magnitude.
pub trait SquaredMagnitude {
    type Output;

    fn squared_magnitude(self) -> Self::Output;
}

/// Length as scalar.
///
/// Also called amplitude, absolute value or norm.
pub trait Magnitude {
    type Output;

    fn magnitude(self) -> Self::Output;
}

/// Direction without magnitude.
///
/// Also called sign or normalize.
pub trait Signum {
    type Output;

    fn signum(self) -> Self::Output;
}

/// Raises a number to the scalar power of minus one.
pub trait Inverse {
    type Output;

    fn inverse(self) -> Self::Output;
}

/// The natural logarithm.
pub trait Ln {
    type Output;

    fn ln(self) -> Self::Output;
}

/// The exponential function.
pub trait Exp {
    type Output;

    fn exp(self) -> Self::Output;
}

/// Raises a number to an integer scalar power.
pub trait Powi {
    type Output;

    fn powi(self, exponent: isize) -> Self::Output;
}

} // verus!
