//! The ways in which a case can fail.

use vstd::prelude::*;
use crate::cases::ElementType;
use crate::shapes::Shape;

verus! {

/// Why a case did not pass.
#[derive(Clone, Copy, Debug, PartialEq, Eq, Structural)]
pub enum Failure {
    /// A buffer is too short for the shape it is used with, or a size
    /// computed from the shape does not fit the machine.
    InvalidDimension,
    /// The kernel and the reference disagree, on elements of type `element`
    /// in a product of shape `shape`. `index` is the first position of the
    /// row-major output on which they do.
    Mismatch { element: ElementType, shape: Shape, index: usize },
}

} // verus!
