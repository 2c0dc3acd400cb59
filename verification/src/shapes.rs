//! Shapes of matrix products, and the families of shapes to exercise.
//!
//! The families are chosen to straddle the sizes at which a blocked kernel
//! changes strategy: small squares below any blocking threshold, medium
//! squares around typical tile sizes, large squares, and rectangles with
//! lopsided proportions.

use vstd::prelude::*;

verus! {

/// The shape of a product: `A` is `m x k`, `B` is `k x n`, `C` is `m x n`.
#[derive(Clone, Copy, Debug, PartialEq, Eq, Structural)]
pub struct Shape {
    /// Rows of `A` and of `C`.
    pub m: usize,
    /// Columns of `A` and rows of `B`.
    pub k: usize,
    /// Columns of `B` and of `C`.
    pub n: usize,
}

impl Shape {
    /// The square shape with all three dimensions equal to `side`.
    pub open spec fn square_spec(side: usize) -> Shape {
        Shape { m: side, k: side, n: side }
    }

    /// Whether the three dimensions are equal.
    pub open spec fn is_square_spec(self) -> bool {
        self.m == self.k && self.k == self.n
    }

    /// Whether every dimension lies between `low` and `high`, both included.
    pub open spec fn within(self, low: int, high: int) -> bool {
        &&& low <= self.m <= high
        &&& low <= self.k <= high
        &&& low <= self.n <= high
    }

    /// The shape with the given dimensions.
    pub fn new(m: usize, k: usize, n: usize) -> (r: Shape)
        ensures
            r == (Shape { m, k, n }),
    {
        Shape { m, k, n }
    }

    /// The square shape with all three dimensions equal to `side`.
    pub fn square(side: usize) -> (r: Shape)
        ensures
            r == Shape::square_spec(side),
    {
        Shape { m: side, k: side, n: side }
    }

    /// Whether the three dimensions are equal.
    pub fn is_square(&self) -> (r: bool)
        ensures
            r == self.is_square_spec(),
    {
        self.m == self.k && self.k == self.n
    }

    /// The number of elements of `A`, if it fits the machine.
    pub fn a_len(&self) -> (r: Option<usize>)
        ensures
            self.m * self.k <= usize::MAX ==> r == Some((self.m * self.k) as usize),
            self.m * self.k > usize::MAX ==> r.is_none(),
    {
        self.m.checked_mul(self.k)
    }

    /// The number of elements of `B`, if it fits the machine.
    pub fn b_len(&self) -> (r: Option<usize>)
        ensures
            self.k * self.n <= usize::MAX ==> r == Some((self.k * self.n) as usize),
            self.k * self.n > usize::MAX ==> r.is_none(),
    {
        self.k.checked_mul(self.n)
    }

    /// The number of elements of `C`, if it fits the machine.
    pub fn c_len(&self) -> (r: Option<usize>)
        ensures
            self.m * self.n <= usize::MAX ==> r == Some((self.m * self.n) as usize),
            self.m * self.n > usize::MAX ==> r.is_none(),
    {
        self.m.checked_mul(self.n)
    }
}

/// The square shape of each side, in order.
pub open spec fn squares_spec(sides: Seq<usize>) -> Seq<Shape> {
    Seq::new(sides.len(), |i: int| Shape::square_spec(sides[i]))
}

/// The sides of the small squares.
pub open spec fn small_sides() -> Seq<usize> {
    seq![4usize, 5usize, 6usize, 7usize, 8usize, 9usize, 12usize, 16usize]
}

/// The sides of the medium squares.
pub open spec fn medium_sides() -> Seq<usize> {
    seq![32usize, 64usize, 127usize]
}

/// The sides of the large squares.
pub open spec fn large_sides() -> Seq<usize> {
    seq![256usize, 512usize]
}

/// The rectangular shapes.
pub open spec fn skewed_spec() -> Seq<Shape> {
    seq![
        Shape { m: 32, k: 4, n: 32 },
        Shape { m: 32, k: 2, n: 32 },
        Shape { m: 97, k: 97, n: 125 },
        Shape { m: 128, k: 10000, n: 128 },
    ]
}

/// Every shape to exercise: the small, medium and large squares, then the
/// rectangles.
pub open spec fn all_shapes_spec() -> Seq<Shape> {
    squares_spec(small_sides()) + squares_spec(medium_sides()) + squares_spec(large_sides())
        + skewed_spec()
}

/// The square shape of each side, in order.
pub fn squares(sides: &[usize]) -> (r: Vec<Shape>)
    ensures
        r@ == squares_spec(sides@),
{
    let mut r: Vec<Shape> = Vec::new();
    let mut i: usize = 0;
    while i < sides.len()
        invariant
            i <= sides.len(),
            r@.len() == i,
            forall|t: int| 0 <= t < i ==> r@[t] == Shape::square_spec(sides@[t]),
        decreases sides.len() - i,
    {
        r.push(Shape::square(sides[i]));
        i += 1;
    }
    proof {
        assert(r@ =~= squares_spec(sides@));
    }
    r
}

/// The small squares, with sides from 4 to 16: below any blocking
/// threshold, where a kernel runs its edge-case paths.
pub fn small_squares() -> (r: Vec<Shape>)
    ensures
        r@ == squares_spec(small_sides()),
        forall|t: int|
            0 <= t < r@.len() ==> (#[trigger] r@[t]).is_square_spec() && r@[t].within(4, 16),
{
    let sides: [usize; 8] = [4, 5, 6, 7, 8, 9, 12, 16];
    proof {
        assert(sides@ =~= small_sides());
    }
    squares(sides.as_slice())
}

/// The medium squares, with sides from 32 to 127: around typical tile
/// sizes, one of them not a power of two.
pub fn medium_squares() -> (r: Vec<Shape>)
    ensures
        r@ == squares_spec(medium_sides()),
        forall|t: int|
            0 <= t < r@.len() ==> (#[trigger] r@[t]).is_square_spec() && r@[t].within(32, 127),
{
    let sides: [usize; 3] = [32, 64, 127];
    proof {
        assert(sides@ =~= medium_sides());
    }
    squares(sides.as_slice())
}

/// The large squares, with sides from 256 to 512.
pub fn large_squares() -> (r: Vec<Shape>)
    ensures
        r@ == squares_spec(large_sides()),
        forall|t: int|
            0 <= t < r@.len() ==> (#[trigger] r@[t]).is_square_spec() && r@[t].within(256, 512),
{
    let sides: [usize; 2] = [256, 512];
    proof {
        assert(sides@ =~= large_sides());
    }
    squares(sides.as_slice())
}

/// The rectangles: thin inner dimensions, sizes that are no power of two,
/// and one inner dimension about a hundred times the outer ones.
pub fn skewed() -> (r: Vec<Shape>)
    ensures
        r@ == skewed_spec(),
        forall|t: int| 0 <= t < r@.len() ==> !(#[trigger] r@[t]).is_square_spec(),
{
    let mut r: Vec<Shape> = Vec::new();
    r.push(Shape::new(32, 4, 32));
    r.push(Shape::new(32, 2, 32));
    r.push(Shape::new(97, 97, 125));
    r.push(Shape::new(128, 10000, 128));
    proof {
        assert(r@ =~= skewed_spec());
    }
    r
}

/// Every shape to exercise: the small, medium and large squares, then the
/// rectangles.
pub fn all_shapes() -> (r: Vec<Shape>)
    ensures
        r@ == all_shapes_spec(),
        r@.len() == 17,
{
    let mut r: Vec<Shape> = small_squares();
    let mut medium: Vec<Shape> = medium_squares();
    let mut large: Vec<Shape> = large_squares();
    let mut rest: Vec<Shape> = skewed();
    r.append(&mut medium);
    r.append(&mut large);
    r.append(&mut rest);
    r
}

} // verus!
