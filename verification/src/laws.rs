//! What holds of the affine update `C := alpha * (A x B) + beta * C` as the
//! reference computes it, for every element type and every shape.

use vstd::prelude::*;
use crate::buffers::{identity_spec, lemma_identity_at};
use crate::numeric::{Float, Scalar};
use crate::reference::{affine, dot, gemm_spec, lemma_cell_of, scaled};

verus! {

/// The buffer `c` with its first `count` elements scaled by `beta`.
pub open spec fn scale_spec<T: Scalar>(count: int, beta: T, c: Seq<T>) -> Seq<T> {
    Seq::new(
        c.len(),
        |t: int|
            if t < count {
                scaled(beta, c[t])
            } else {
                c[t]
            },
    )
}

/// The buffer `c` with its first `m * n` elements replaced by the product
/// `A x B` scaled by `alpha`.
pub open spec fn scaled_product_spec<T: Scalar>(
    m: int,
    k: int,
    n: int,
    alpha: T,
    a: Seq<T>,
    b: Seq<T>,
    c: Seq<T>,
) -> Seq<T> {
    Seq::new(
        c.len(),
        |t: int|
            if t < m * n {
                scaled(alpha, dot(a, b, k, n, t / n, t % n, k as nat))
            } else {
                c[t]
            },
    )
}

/// Zero and one act on `y` as they do on an ordinary number: multiplying by
/// one or adding zero gives `y`, and multiplying by zero gives zero.
///
/// A floating-point NaN or infinity is not such a value, since its product
/// with zero is NaN.
pub open spec fn plain<T: Float>(y: T) -> bool {
    &&& y.mul_spec(T::one_spec()) == y
    &&& T::one_spec().mul_spec(y) == y
    &&& y.mul_spec(T::zero_spec()) == T::zero_spec()
    &&& T::zero_spec().add_spec(y) == y
    &&& y.add_spec(T::zero_spec()) == y
}

/// Annihilation: with a zero `alpha` the result is `beta * C`, whatever `A`
/// and `B` hold.
pub proof fn lemma_annihilation<T: Scalar>(
    m: int,
    k: int,
    n: int,
    alpha: T,
    a: Seq<T>,
    b: Seq<T>,
    beta: T,
    c: Seq<T>,
)
    requires
        alpha.is_zero_spec(),
    ensures
        gemm_spec(m, k, n, alpha, a, b, beta, c) == scale_spec(m * n, beta, c),
{
    assert(gemm_spec(m, k, n, alpha, a, b, beta, c) =~= scale_spec(m * n, beta, c));
}

/// Scale: with a zero `beta` the result is `alpha * (A x B)`, whatever `C`
/// held before; two runs that differ only in the old contents of `C` agree
/// on every element of the matrix.
pub proof fn lemma_scale<T: Scalar>(
    m: int,
    k: int,
    n: int,
    alpha: T,
    a: Seq<T>,
    b: Seq<T>,
    beta: T,
    c: Seq<T>,
    other: Seq<T>,
)
    requires
        beta.is_zero_spec(),
        other.len() == c.len(),
    ensures
        gemm_spec(m, k, n, alpha, a, b, beta, c) == scaled_product_spec(m, k, n, alpha, a, b, c),
        forall|t: int|
            0 <= t < c.len() && t < m * n ==> gemm_spec(m, k, n, alpha, a, b, beta, c)[t]
                == #[trigger] gemm_spec(m, k, n, alpha, a, b, beta, other)[t],
{
    assert(gemm_spec(m, k, n, alpha, a, b, beta, c) =~= scaled_product_spec(
        m,
        k,
        n,
        alpha,
        a,
        b,
        c,
    ));
}

/// The inner product of row `i` of `A` with column `j` of the identity, as
/// far as it has been summed: zero until the diagonal is reached, and
/// `A[i, j]` from there on.
proof fn lemma_dot_identity<T: Float>(a: Seq<T>, n: int, i: int, j: int, upto: nat)
    requires
        0 <= i,
        0 <= j < n,
        upto <= n,
        (i + 1) * n <= a.len(),
        T::zero_spec().add_spec(T::zero_spec()) == T::zero_spec(),
        forall|x: int| 0 <= x < n ==> plain(#[trigger] a[i * n + x]),
    ensures
        dot(a, identity_spec::<T>(n), n, n, i, j, upto) == if upto <= j {
            T::zero_spec()
        } else {
            a[i * n + j]
        },
    decreases upto,
{
    if upto > 0 {
        let x = upto - 1;
        lemma_dot_identity(a, n, i, j, x as nat);
        lemma_identity_at::<T>(n, x, j);
        assert(plain(a[i * n + x]));
        assert(plain(a[i * n + j]));
    }
}

/// Identity: with `alpha` one, `beta` zero and `B` the `n x n` identity, the
/// result is `A`.
///
/// This is stated for matrices `A` all of whose elements are [`plain`], and
/// for element types whose one does not test as zero and whose zero added
/// to itself is zero.
pub proof fn lemma_identity<T: Float>(m: int, n: int, a: Seq<T>, beta: T, c: Seq<T>)
    requires
        0 <= m,
        0 <= n,
        m * n <= a.len(),
        m * n <= c.len(),
        beta.is_zero_spec(),
        !T::one_spec().is_zero_spec(),
        T::zero_spec().add_spec(T::zero_spec()) == T::zero_spec(),
        forall|t: int| 0 <= t < m * n ==> plain(#[trigger] a[t]),
    ensures
        forall|t: int|
            0 <= t < m * n ==> #[trigger] gemm_spec(
                m,
                n,
                n,
                T::one_spec(),
                a,
                identity_spec::<T>(n),
                beta,
                c,
            )[t] == a[t],
{
    let id = identity_spec::<T>(n);
    assert forall|t: int| 0 <= t < m * n implies #[trigger] gemm_spec(
        m,
        n,
        n,
        T::one_spec(),
        a,
        id,
        beta,
        c,
    )[t] == a[t] by {
        lemma_cell_of(m, n, t);
        let i = t / n;
        let j = t % n;
        assert((i + 1) * n <= m * n) by (nonlinear_arith)
            requires
                0 <= i < m,
                0 <= n,
        ;
        assert forall|x: int| 0 <= x < n implies plain(#[trigger] a[i * n + x]) by {
            assert(0 <= i * n + x < m * n) by (nonlinear_arith)
                requires
                    0 <= i < m,
                    0 <= x < n,
            ;
        }
        lemma_dot_identity(a, n, i, j, n as nat);
        assert(plain(a[t]));
        assert(affine(T::one_spec(), a[t], beta, c[t]) == a[t]);
    }
}

} // verus!
