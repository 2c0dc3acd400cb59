//! The strided kernel under scrutiny, as a capability of the element type.
//!
//! The kernel computes `C := alpha * (A x B) + beta * C` in place, over
//! matrices given as buffers with an origin and a pair of strides each. It
//! checks nothing: the caller establishes that every element of the three
//! matrices lies inside its buffer and that no two elements of `C` share a
//! position. In return the kernel touches no buffer position outside the
//! view of `C`. What it writes inside the view is not
//! stated here, because a fast kernel is free to round differently from any
//! fixed order of summation; finding out whether it computed the right
//! values is what the rest of this crate is for.

use vstd::prelude::*;
use crate::failure::Failure;
use crate::layout::MatrixView;
use crate::numeric::Complex;

verus! {

/// The view of a `rows x cols` matrix whose element `(0, 0)` is at `origin`.
pub open spec fn view_of(rows: usize, cols: usize, origin: usize, rs: isize, cs: isize)
    -> MatrixView {
    MatrixView { rows, cols, origin, rs, cs }
}

/// What a caller of a kernel owes it: `A` is `m x k`, `B` is `k x n` and `C`
/// is `m x n`, each inside its buffer, and no two elements of `C` share a
/// buffer position.
pub open spec fn kernel_ready(
    m: usize,
    k: usize,
    n: usize,
    a_len: int,
    a0: usize,
    rsa: isize,
    csa: isize,
    b_len: int,
    b0: usize,
    rsb: isize,
    csb: isize,
    c_len: int,
    c0: usize,
    rsc: isize,
    csc: isize,
) -> bool {
    &&& view_of(m, k, a0, rsa, csa).in_bounds(a_len)
    &&& view_of(k, n, b0, rsb, csb).in_bounds(b_len)
    &&& view_of(m, n, c0, rsc, csc).in_bounds(c_len)
    &&& view_of(m, n, c0, rsc, csc).distinct()
}

/// What every kernel guarantees: the buffer of `C` keeps its length, and
/// every position that is not an element of the `m x n` view keeps its
/// value.
pub open spec fn kernel_frame<T>(
    before: Seq<T>,
    after: Seq<T>,
    m: usize,
    n: usize,
    c0: usize,
    rsc: isize,
    csc: isize,
) -> bool {
    &&& after.len() == before.len()
    &&& forall|idx: int|
        0 <= idx < before.len() && !view_of(m, n, c0, rsc, csc).addresses(idx)
            ==> #[trigger] after[idx] == before[idx]
}

/// An element type for which a strided matrix-multiply kernel exists.
pub trait Gemm: Sized {
    /// Overwrites `C` with `alpha * (A x B) + beta * C`.
    ///
    /// `a`, `b` and `c` are the buffers; `a0`, `b0`, `c0` are the buffer
    /// positions of the elements `(0, 0)`; `rs*` and `cs*` are the row and
    /// column strides. Element `(i, j)` of a matrix is at
    /// `origin + i * rs + j * cs`.
    fn gemm(
        m: usize,
        k: usize,
        n: usize,
        alpha: Self,
        a: &[Self],
        a0: usize,
        rsa: isize,
        csa: isize,
        b: &[Self],
        b0: usize,
        rsb: isize,
        csb: isize,
        beta: Self,
        c: &mut [Self],
        c0: usize,
        rsc: isize,
        csc: isize,
    )
        requires
            kernel_ready(
                m,
                k,
                n,
                a@.len() as int,
                a0,
                rsa,
                csa,
                b@.len() as int,
                b0,
                rsb,
                csb,
                old(c)@.len() as int,
                c0,
                rsc,
                csc,
            ),
        ensures
            kernel_frame(old(c)@, final(c)@, m, n, c0, rsc, csc),
    ;
}

/// How a complex kernel is to treat an operand.
#[derive(Clone, Copy, Debug, PartialEq, Eq, Structural)]
pub enum CGemmOption {
    /// The operand as it is: neither transposed nor conjugated.
    Standard,
}

/// A real type over whose pairs a complex kernel exists.
pub trait ComplexGemm: Sized {
    /// Overwrites `C` with `alpha * (A x B) + beta * C` over complex
    /// elements, with `A` treated as `flaga` says and `B` as `flagb` says.
    /// The other parameters are those of [`Gemm::gemm`].
    fn cgemm(
        flaga: CGemmOption,
        flagb: CGemmOption,
        m: usize,
        k: usize,
        n: usize,
        alpha: Complex<Self>,
        a: &[Complex<Self>],
        a0: usize,
        rsa: isize,
        csa: isize,
        b: &[Complex<Self>],
        b0: usize,
        rsb: isize,
        csb: isize,
        beta: Complex<Self>,
        c: &mut [Complex<Self>],
        c0: usize,
        rsc: isize,
        csc: isize,
    )
        requires
            kernel_ready(
                m,
                k,
                n,
                a@.len() as int,
                a0,
                rsa,
                csa,
                b@.len() as int,
                b0,
                rsb,
                csb,
                old(c)@.len() as int,
                c0,
                rsc,
                csc,
            ),
        ensures
            kernel_frame(old(c)@, final(c)@, m, n, c0, rsc, csc),
    ;
}

impl<R: ComplexGemm> Gemm for Complex<R> {
    /// The complex kernel of the underlying real type, asked for both
    /// operands as they are: what it leaves in `c` is what that kernel
    /// leaves there under the option `Standard` for `A` and for `B`.
    fn gemm(
        m: usize,
        k: usize,
        n: usize,
        alpha: Self,
        a: &[Self],
        a0: usize,
        rsa: isize,
        csa: isize,
        b: &[Self],
        b0: usize,
        rsb: isize,
        csb: isize,
        beta: Self,
        c: &mut [Self],
        c0: usize,
        rsc: isize,
        csc: isize,
    )
        ensures
            exists|handed: &mut [Self]|
                handed@ == old(c)@ && final(handed)@ == final(c)@ && #[trigger] call_ensures(
                    R::cgemm,
                    (
                        CGemmOption::Standard,
                        CGemmOption::Standard,
                        m,
                        k,
                        n,
                        alpha,
                        a,
                        a0,
                        rsa,
                        csa,
                        b,
                        b0,
                        rsb,
                        csb,
                        beta,
                        handed,
                        c0,
                        rsc,
                        csc,
                    ),
                    (),
                ),
    {
        R::cgemm(
            CGemmOption::Standard,
            CGemmOption::Standard,
            m,
            k,
            n,
            alpha,
            a,
            a0,
            rsa,
            csa,
            b,
            b0,
            rsb,
            csb,
            beta,
            c,
            c0,
            rsc,
            csc,
        )
    }
}

/// The three views belong to one product, each lies inside its buffer, and
/// no two elements of `C` share a buffer position.
pub open spec fn views_ready(
    av: MatrixView,
    bv: MatrixView,
    cv: MatrixView,
    a_len: int,
    b_len: int,
    c_len: int,
) -> bool {
    &&& av.rows == cv.rows
    &&& av.cols == bv.rows
    &&& bv.cols == cv.cols
    &&& av.in_bounds(a_len)
    &&& bv.in_bounds(b_len)
    &&& cv.in_bounds(c_len)
    &&& cv.distinct()
}

/// The kernel of the element type behind a check: establishes what the
/// kernel takes on trust, and calls it only then, on the three views as
/// they are given.
///
/// Fails with [`Failure::InvalidDimension`], touching nothing, when the
/// views do not belong to one product, when an element of a view lies
/// outside its buffer, or when two elements of `C` share a position.
pub fn checked_gemm<T: Gemm>(
    alpha: T,
    a: &[T],
    av: MatrixView,
    b: &[T],
    bv: MatrixView,
    beta: T,
    c: &mut [T],
    cv: MatrixView,
) -> (r: Result<(), Failure>)
    ensures
        views_ready(av, bv, cv, a.len() as int, b.len() as int, old(c).len() as int) ==> r == Ok::<
            (),
            Failure,
        >(()) && kernel_frame(old(c)@, final(c)@, cv.rows, cv.cols, cv.origin, cv.rs, cv.cs),
        views_ready(av, bv, cv, a.len() as int, b.len() as int, old(c).len() as int) ==> exists|
            handed: &mut [T],
        |
            handed@ == old(c)@ && final(handed)@ == final(c)@ && #[trigger] call_ensures(
                T::gemm,
                (
                    cv.rows,
                    av.cols,
                    cv.cols,
                    alpha,
                    a,
                    av.origin,
                    av.rs,
                    av.cs,
                    b,
                    bv.origin,
                    bv.rs,
                    bv.cs,
                    beta,
                    handed,
                    cv.origin,
                    cv.rs,
                    cv.cs,
                ),
                (),
            ),
        !views_ready(av, bv, cv, a.len() as int, b.len() as int, old(c).len() as int) ==> r
            == Err::<(), Failure>(Failure::InvalidDimension) && final(c)@ == old(c)@,
{
    let same_product: bool = av.rows == cv.rows && av.cols == bv.rows && bv.cols == cv.cols;
    if !same_product || !av.fits(a.len()) || !bv.fits(b.len()) || !cv.fits(c.len())
        || !cv.is_distinct() {
        return Err(Failure::InvalidDimension);
    }
    proof {
        assert(view_of(av.rows, av.cols, av.origin, av.rs, av.cs) == av);
        assert(view_of(bv.rows, bv.cols, bv.origin, bv.rs, bv.cs) == bv);
        assert(view_of(cv.rows, cv.cols, cv.origin, cv.rs, cv.cs) == cv);
    }
    T::gemm(
        cv.rows,
        av.cols,
        cv.cols,
        alpha,
        a,
        av.origin,
        av.rs,
        av.cs,
        b,
        bv.origin,
        bv.rs,
        bv.cs,
        beta,
        c,
        cv.origin,
        cv.rs,
        cv.cs,
    );
    Ok(())
}

} // verus!
