//! A finite-field arithmetic engine and an elliptic-curve point group over
//! it, with machine-checked contracts.
//!
//! [`field_element::FieldElement`] carries its prime modulus as a type
//! parameter and keeps every value reduced into `[0, P)`;
//! [`field_element2::FieldElement`] carries the modulus at runtime instead
//! and reports a mismatch as an error. [`point::Point`] builds the curve
//! group over any scalar that offers the [`FieldOps`] capability set —
//! a field element or a plain machine integer — with the chord-and-tangent
//! addition law and double-and-add scalar multiplication.

use vstd::prelude::*;

pub mod field_element;
pub mod field_element2;
pub mod point;

verus! {

/// Exponentiation with an `i32` exponent.
///
/// Each implementation states through `pow_req` on which inputs `pow` is
/// defined and through `spec_pow` what it returns there.
pub trait Pow: Sized {
    type Output;

    /// The inputs on which `pow` is defined.
    spec fn pow_req(self, exponent: int) -> bool;

    /// The value `pow` returns.
    spec fn spec_pow(self, exponent: int) -> Self::Output;

    fn pow(self, rhs: i32) -> (r: Self::Output)
        requires
            self.pow_req(rhs as int),
        ensures
            r == self.spec_pow(rhs as int),
    ;
}

/// The capability set a scalar type must offer so that curve points can be
/// built over it: add, sub, mul, div, pow, equality, copying, and small
/// constants. Each operation comes with a predicate saying where it is
/// defined and a spec function saying what it returns there.
pub trait FieldOps: Pow<Output = Self> + Sized + Copy + PartialEq + core::fmt::Debug {
    /// The inputs on which `add` is defined.
    spec fn add_req(self, other: Self) -> bool;

    /// The value `add` returns.
    spec fn spec_add(self, other: Self) -> Self;

    fn add(self, other: Self) -> (r: Self)
        requires
            self.add_req(other),
        ensures
            r == self.spec_add(other),
    ;

    /// The inputs on which `sub` is defined.
    spec fn sub_req(self, other: Self) -> bool;

    /// The value `sub` returns.
    spec fn spec_sub(self, other: Self) -> Self;

    fn sub(self, other: Self) -> (r: Self)
        requires
            self.sub_req(other),
        ensures
            r == self.spec_sub(other),
    ;

    /// The inputs on which `mul` is defined.
    spec fn mul_req(self, other: Self) -> bool;

    /// The value `mul` returns.
    spec fn spec_mul(self, other: Self) -> Self;

    fn mul(self, other: Self) -> (r: Self)
        requires
            self.mul_req(other),
        ensures
            r == self.spec_mul(other),
    ;

    /// The inputs on which `div` is defined.
    spec fn div_req(self, other: Self) -> bool;

    /// The value `div` returns.
    spec fn spec_div(self, other: Self) -> Self;

    fn div(self, other: Self) -> (r: Self)
        requires
            self.div_req(other),
        ensures
            r == self.spec_div(other),
    ;

    /// The small constants `n` that the type can represent.
    spec fn small_req(n: u64) -> bool;

    /// The scalar standing for the small constant `n`.
    spec fn spec_from_small(n: u64) -> Self;

    fn from_small(n: u64) -> (r: Self)
        requires
            Self::small_req(n),
        ensures
            r == Self::spec_from_small(n),
    ;

    /// Executable equality, agreeing with mathematical equality.
    fn eq_val(self, other: Self) -> (r: bool)
        ensures
            r == (self == other),
    ;
}

/// The failure kinds the library reports. Every fallible operation returns
/// one of these rather than panicking.
#[derive(Debug)]
pub enum Error {
    ValueError(String),
    TypeError(String),
    Conversion(std::num::TryFromIntError),
}

} // verus!
