//! The cases to run: one for every element type in the active set and every
//! shape.

use vstd::prelude::*;
use crate::shapes::{all_shapes, all_shapes_spec, Shape};

verus! {

/// The element types that a kernel may exist for.
#[derive(Clone, Copy, Debug, PartialEq, Eq, Structural)]
pub enum ElementType {
    /// Real, single precision.
    Real32,
    /// Real, double precision.
    Real64,
    /// Complex, a pair of single precision reals.
    Complex32,
    /// Complex, a pair of double precision reals.
    Complex64,
}

/// One case: an element type and a shape.
#[derive(Clone, Copy, Debug, PartialEq, Eq, Structural)]
pub struct Case {
    /// The element type of all three matrices.
    pub element: ElementType,
    /// The shape of the product.
    pub shape: Shape,
}

impl ElementType {
    /// Whether the type has an imaginary component.
    pub open spec fn is_complex_spec(self) -> bool {
        self == ElementType::Complex32 || self == ElementType::Complex64
    }

    /// The complex type of the same precision.
    pub open spec fn paired_spec(self) -> ElementType {
        match self {
            ElementType::Real32 => ElementType::Complex32,
            ElementType::Real64 => ElementType::Complex64,
            ElementType::Complex32 => ElementType::Complex32,
            ElementType::Complex64 => ElementType::Complex64,
        }
    }

    /// Whether the type has an imaginary component.
    pub fn is_complex(self) -> (r: bool)
        ensures
            r == self.is_complex_spec(),
    {
        match self {
            ElementType::Real32 => false,
            ElementType::Real64 => false,
            ElementType::Complex32 => true,
            ElementType::Complex64 => true,
        }
    }

    /// The complex type of the same precision: the type of pairs of this
    /// type, where it is real.
    pub fn paired(self) -> (r: ElementType)
        ensures
            r == self.paired_spec(),
            r.is_complex_spec(),
    {
        match self {
            ElementType::Real32 => ElementType::Complex32,
            ElementType::Real64 => ElementType::Complex64,
            ElementType::Complex32 => ElementType::Complex32,
            ElementType::Complex64 => ElementType::Complex64,
        }
    }
}

/// The active set of element types: the two real types, followed by the two
/// complex types where complex kernels are present.
pub open spec fn element_types_spec(with_complex: bool) -> Seq<ElementType> {
    if with_complex {
        seq![
            ElementType::Real32,
            ElementType::Real64,
            ElementType::Complex32,
            ElementType::Complex64,
        ]
    } else {
        seq![ElementType::Real32, ElementType::Real64]
    }
}

/// Every shape for each element type in turn.
pub open spec fn cases_spec(with_complex: bool) -> Seq<Case> {
    let types = element_types_spec(with_complex);
    let shapes = all_shapes_spec();
    Seq::new(
        types.len() * shapes.len(),
        |t: int|
            Case { element: types[t / (shapes.len() as int)], shape: shapes[t % (shapes.len() as int)] },
    )
}

/// The active set of element types: the two real types, followed by the two
/// complex types where complex kernels are present.
pub fn element_types(with_complex: bool) -> (r: Vec<ElementType>)
    ensures
        r@ == element_types_spec(with_complex),
        forall|t: int|
            0 <= t < r@.len() ==> ((#[trigger] r@[t]).is_complex_spec() ==> with_complex),
{
    let mut r: Vec<ElementType> = Vec::new();
    r.push(ElementType::Real32);
    r.push(ElementType::Real64);
    if with_complex {
        r.push(ElementType::Complex32);
        r.push(ElementType::Complex64);
    }
    proof {
        assert(r@ =~= element_types_spec(with_complex));
    }
    r
}

/// The cases to run: every shape for each element type of the active set in
/// turn.
pub fn cases(with_complex: bool) -> (r: Vec<Case>)
    ensures
        r@ == cases_spec(with_complex),
        r@.len() == if with_complex {
            68int
        } else {
            34int
        },
{
    let types: Vec<ElementType> = element_types(with_complex);
    let shapes: Vec<Shape> = all_shapes();
    let mut r: Vec<Case> = Vec::new();
    let mut i: usize = 0;
    while i < types.len()
        invariant
            i <= types.len(),
            types@ == element_types_spec(with_complex),
            shapes@ == all_shapes_spec(),
            shapes@.len() == 17,
            r@.len() == i * 17,
            forall|t: int|
                0 <= t < r@.len() ==> r@[t] == (Case {
                    element: types@[t / 17],
                    shape: shapes@[t % 17],
                }),
        decreases types.len() - i,
    {
        let mut j: usize = 0;
        while j < shapes.len()
            invariant
                i < types.len(),
                j <= shapes.len(),
                shapes@.len() == 17,
                r@.len() == i * 17 + j,
                forall|t: int|
                    0 <= t < r@.len() ==> r@[t] == (Case {
                        element: types@[t / 17],
                        shape: shapes@[t % 17],
                    }),
            decreases shapes.len() - j,
        {
            r.push(Case { element: types[i], shape: shapes[j] });
            j += 1;
        }
        i += 1;
    }
    proof {
        assert(r@ =~= cases_spec(with_complex));
    }
    r
}

} // verus!
