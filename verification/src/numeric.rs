//! The numeric abstraction: what an element type must offer so that one
//! generic code path serves real and complex elements alike.
//!
//! Real element types are supplied by the user of the crate, who implements
//! [`Scalar`], [`Float`] and [`Approx`] for them. Each executable method has
//! a specification twin, named with the suffix `_spec`, that stands for its
//! mathematical result; an implementation gives the twin the value that the
//! method computes. Complex elements are provided here, as [`Complex`] pairs
//! of any real element type.

use vstd::prelude::*;
use crate::cases::ElementType;

verus! {

/// The minimal arithmetic that the reference computation needs: a zero, a
/// test for zero, addition, subtraction and multiplication on copyable
/// values.
///
/// No algebraic law is assumed of the operations: floating-point arithmetic
/// neither associates nor distributes, and results are stated in terms of
/// the operations applied in a fixed order.
pub trait Scalar: Copy {
    /// The additive identity.
    spec fn zero_spec() -> Self;

    /// Whether a value counts as zero when it scales a matrix.
    spec fn is_zero_spec(self) -> bool;

    /// The sum `self + rhs`.
    spec fn add_spec(self, rhs: Self) -> Self;

    /// The difference `self - rhs`.
    spec fn sub_spec(self, rhs: Self) -> Self;

    /// The product `self * rhs`.
    spec fn mul_spec(self, rhs: Self) -> Self;

    /// The additive identity, which tests as zero.
    fn zero() -> (r: Self)
        ensures
            r == Self::zero_spec(),
            r.is_zero_spec(),
    ;

    /// Whether `self` counts as zero.
    fn is_zero(self) -> (r: bool)
        ensures
            r == self.is_zero_spec(),
    ;

    /// `self + rhs`.
    fn add(self, rhs: Self) -> (r: Self)
        ensures
            r == self.add_spec(rhs),
    ;

    /// `self - rhs`.
    fn sub(self, rhs: Self) -> (r: Self)
        ensures
            r == self.sub_spec(rhs),
    ;

    /// `self * rhs`.
    fn mul(self, rhs: Self) -> (r: Self)
        ensures
            r == self.mul_spec(rhs),
    ;
}

/// The full numeric capability of an element type: constants, construction
/// from integers, a NaN sentinel and test, access to the real and imaginary
/// parts, and the name of the type.
///
/// The zero of the type is that of its [`Scalar`]. The provided methods are
/// right for a real type. A complex type overrides them; what they return
/// there is stated by that type.
pub trait Float: Scalar + PartialEq + std::fmt::Debug {
    /// The multiplicative identity.
    spec fn one_spec() -> Self;

    /// The integer `x` as an element.
    spec fn from_spec(x: i64) -> Self;

    /// The NaN sentinel.
    spec fn nan_spec() -> Self;

    /// Whether any component of the value is NaN.
    spec fn is_nan_spec(self) -> bool;

    /// Whether the type has an imaginary component.
    spec fn is_complex_spec() -> bool;

    /// Which of the element types this is.
    spec fn element_type_spec() -> ElementType;

    /// The multiplicative identity, which does not test as zero.
    fn one() -> (r: Self)
        ensures
            r == Self::one_spec(),
            !r.is_zero_spec(),
    ;

    /// The integer `x` as an element; its imaginary part, if the type has
    /// one, is zero. The integer 0 gives the zero of the type.
    fn from(x: i64) -> (r: Self)
        ensures
            r == Self::from_spec(x),
            x == 0 ==> r == Self::zero_spec(),
    ;

    /// The number `x + y i`. A real type ignores `y`; with `y` zero every
    /// type gives the integer `x`.
    fn from2(x: i64, y: i64) -> (r: Self)
        ensures
            (!Self::is_complex_spec() || y == 0) ==> r == Self::from_spec(x),
    {
        Self::from(x)
    }

    /// A value every component of which is NaN.
    fn nan() -> (r: Self)
        ensures
            r == Self::nan_spec(),
            r.is_nan_spec(),
    ;

    /// The real part, as an element with no imaginary part. On a real type
    /// this is the value itself.
    fn real_part(self) -> (r: Self)
        ensures
            !Self::is_complex_spec() ==> r == self,
    {
        self
    }

    /// The imaginary part, as an element with no imaginary part. On a real
    /// type this is zero.
    fn imag(self) -> (r: Self)
        ensures
            !Self::is_complex_spec() ==> r == Self::zero_spec(),
    {
        Self::zero()
    }

    /// Whether any component of `self` is NaN.
    fn is_nan(self) -> (r: bool)
        ensures
            r == self.is_nan_spec(),
    ;

    /// Whether the type has an imaginary component.
    fn is_complex() -> (r: bool)
        ensures
            r == Self::is_complex_spec(),
    ;

    /// Which of the element types this is; it is a complex one exactly when
    /// the type has an imaginary component.
    fn element_type() -> (r: ElementType)
        ensures
            r == Self::element_type_spec(),
            r.is_complex_spec() == Self::is_complex_spec(),
    ;
}

/// Comparison within the tolerance that suits the element type.
pub trait Approx: Copy {
    /// Whether two values, neither of them NaN, are equal within the
    /// tolerance of the type.
    spec fn near_spec(self, other: Self) -> bool;

    /// Whether `self` and `other` are equal within the tolerance of the
    /// type. Called only on values that are not NaN.
    fn near(self, other: Self) -> (r: bool)
        ensures
            r == self.near_spec(other),
    ;
}

/// A complex element: a pair of reals, the real part first.
#[derive(Debug, PartialEq)]
pub struct Complex<R> {
    /// The real part.
    pub re: R,
    /// The imaginary part.
    pub im: R,
}

impl<R: Copy> Clone for Complex<R> {
    fn clone(&self) -> (r: Self)
        ensures
            r == *self,
    {
        *self
    }
}

impl<R: Copy> Copy for Complex<R> {

}

impl<R: Scalar> Scalar for Complex<R> {
    open spec fn zero_spec() -> Self {
        Complex { re: R::zero_spec(), im: R::zero_spec() }
    }

    open spec fn is_zero_spec(self) -> bool {
        self.re.is_zero_spec() && self.im.is_zero_spec()
    }

    open spec fn add_spec(self, rhs: Self) -> Self {
        Complex { re: self.re.add_spec(rhs.re), im: self.im.add_spec(rhs.im) }
    }

    open spec fn sub_spec(self, rhs: Self) -> Self {
        Complex { re: self.re.sub_spec(rhs.re), im: self.im.sub_spec(rhs.im) }
    }

    open spec fn mul_spec(self, rhs: Self) -> Self {
        Complex {
            re: self.re.mul_spec(rhs.re).sub_spec(self.im.mul_spec(rhs.im)),
            im: self.im.mul_spec(rhs.re).add_spec(self.re.mul_spec(rhs.im)),
        }
    }

    fn zero() -> (r: Self) {
        Complex { re: R::zero(), im: R::zero() }
    }

    fn is_zero(self) -> (r: bool) {
        self.re.is_zero() && self.im.is_zero()
    }

    fn add(self, rhs: Self) -> (r: Self) {
        Complex { re: self.re.add(rhs.re), im: self.im.add(rhs.im) }
    }

    fn sub(self, rhs: Self) -> (r: Self) {
        Complex { re: self.re.sub(rhs.re), im: self.im.sub(rhs.im) }
    }

    fn mul(self, rhs: Self) -> (r: Self) {
        Complex {
            re: self.re.mul(rhs.re).sub(self.im.mul(rhs.im)),
            im: self.im.mul(rhs.re).add(self.re.mul(rhs.im)),
        }
    }
}

impl<R: Float> Complex<R> {
    /// The number `x + y i`.
    pub open spec fn from2_spec(x: i64, y: i64) -> Self {
        Complex { re: R::from_spec(x), im: R::from_spec(y) }
    }

    /// The real part, with the imaginary part zeroed.
    pub open spec fn real_part_spec(self) -> Self {
        Complex { re: self.re, im: R::zero_spec() }
    }

    /// The imaginary part moved to the real component, with the imaginary
    /// component zeroed.
    pub open spec fn imag_spec(self) -> Self {
        Complex { re: self.im, im: R::zero_spec() }
    }
}

impl<R: Float> Float for Complex<R> {
    open spec fn one_spec() -> Self {
        Complex { re: R::one_spec(), im: R::zero_spec() }
    }

    open spec fn from_spec(x: i64) -> Self {
        Complex { re: R::from_spec(x), im: R::zero_spec() }
    }

    open spec fn nan_spec() -> Self {
        Complex { re: R::nan_spec(), im: R::nan_spec() }
    }

    open spec fn is_nan_spec(self) -> bool {
        self.re.is_nan_spec() || self.im.is_nan_spec()
    }

    open spec fn is_complex_spec() -> bool {
        true
    }

    open spec fn element_type_spec() -> ElementType {
        R::element_type_spec().paired_spec()
    }

    fn one() -> (r: Self) {
        Complex { re: R::one(), im: R::zero() }
    }

    fn from(x: i64) -> (r: Self) {
        Complex { re: R::from(x), im: R::zero() }
    }

    fn from2(x: i64, y: i64) -> (r: Self)
        ensures
            r == Self::from2_spec(x, y),
    {
        Complex { re: R::from(x), im: R::from(y) }
    }

    fn nan() -> (r: Self) {
        Complex { re: R::nan(), im: R::nan() }
    }

    fn real_part(self) -> (r: Self)
        ensures
            r == self.real_part_spec(),
    {
        Complex { re: self.re, im: R::zero() }
    }

    fn imag(self) -> (r: Self)
        ensures
            r == self.imag_spec(),
    {
        Complex { re: self.im, im: R::zero() }
    }

    fn is_nan(self) -> (r: bool) {
        self.re.is_nan() || self.im.is_nan()
    }

    fn is_complex() -> (r: bool) {
        true
    }

    fn element_type() -> (r: ElementType) {
        R::element_type().paired()
    }
}

impl<R: Approx> Approx for Complex<R> {
    open spec fn near_spec(self, other: Self) -> bool {
        self.re.near_spec(other.re) && self.im.near_spec(other.im)
    }

    fn near(self, other: Self) -> (r: bool) {
        self.re.near(other.re) && self.im.near(other.im)
    }
}

/// Taking the parts of `x + y i` gives back `x` and `y`, each as a complex
/// number without imaginary part, and a complex type says that it is
/// complex.
pub proof fn lemma_complex_parts<R: Float>(x: i64, y: i64)
    ensures
        Complex::<R>::from2_spec(x, y).real_part_spec() == Complex::<R>::from_spec(x),
        Complex::<R>::from2_spec(x, y).imag_spec() == Complex::<R>::from_spec(y),
        Complex::<R>::is_complex_spec(),
{
}

} // verus!
