//! The oracle: a plain, slow matrix multiplication whose order of summation
//! is fixed, and the affine update `C := alpha * (A x B) + beta * C` built
//! on it.
//!
//! Matrices are packed row-major here: element `(i, j)` of a matrix with `n`
//! columns is at `i * n + j`.

use vstd::prelude::*;
use vstd::arithmetic::div_mod::lemma_fundamental_div_mod_converse;
use crate::failure::Failure;
use crate::numeric::Scalar;

verus! {

/// The first `upto` terms of the inner product of row `i` of `A` with column
/// `j` of `B`, where `A` has `k` columns and `B` has `n`: starting from
/// zero, the products `A[i, x] * B[x, j]` are added one by one as `x`
/// ascends.
pub open spec fn dot<T: Scalar>(a: Seq<T>, b: Seq<T>, k: int, n: int, i: int, j: int, upto: nat)
    -> T
    decreases upto,
{
    if upto == 0 {
        T::zero_spec()
    } else {
        dot(a, b, k, n, i, j, (upto - 1) as nat).add_spec(
            a[i * k + (upto - 1)].mul_spec(b[(upto - 1) * n + j]),
        )
    }
}

/// The buffers are long enough for an `m x k` matrix `A`, a `k x n` matrix
/// `B` and an `m x n` matrix `C`.
pub open spec fn dims_ok(m: int, k: int, n: int, a_len: int, b_len: int, c_len: int) -> bool {
    m * k <= a_len && k * n <= b_len && m * n <= c_len
}

/// The buffer of `C` after the product `A x B` has been written over its
/// first `m * n` elements.
pub open spec fn product_spec<T: Scalar>(m: int, k: int, n: int, a: Seq<T>, b: Seq<T>, c: Seq<T>)
    -> Seq<T> {
    Seq::new(
        c.len(),
        |idx: int|
            if idx < m * n {
                dot(a, b, k, n, idx / n, idx % n, k as nat)
            } else {
                c[idx]
            },
    )
}

/// `s * x`, where scaling by zero gives zero whatever `x` is.
pub open spec fn scaled<T: Scalar>(s: T, x: T) -> T {
    if s.is_zero_spec() {
        T::zero_spec()
    } else {
        s.mul_spec(x)
    }
}

/// One element of `alpha * P + beta * C`. A zero `alpha` leaves `P` out of
/// the result and a zero `beta` leaves `C` out, so that a NaN in what is
/// left out cannot reach the result.
pub open spec fn affine<T: Scalar>(alpha: T, p: T, beta: T, c: T) -> T {
    if alpha.is_zero_spec() {
        scaled(beta, c)
    } else if beta.is_zero_spec() {
        alpha.mul_spec(p)
    } else {
        alpha.mul_spec(p).add_spec(beta.mul_spec(c))
    }
}

/// The buffer of `C` after `C := alpha * (A x B) + beta * C` on its first
/// `m * n` elements.
pub open spec fn gemm_spec<T: Scalar>(
    m: int,
    k: int,
    n: int,
    alpha: T,
    a: Seq<T>,
    b: Seq<T>,
    beta: T,
    c: Seq<T>,
) -> Seq<T> {
    Seq::new(
        c.len(),
        |idx: int|
            if idx < m * n {
                affine(alpha, dot(a, b, k, n, idx / n, idx % n, k as nat), beta, c[idx])
            } else {
                c[idx]
            },
    )
}

/// Row `i`, column `j` of a matrix with `n` columns is at `i * n + j`, and
/// that position lies inside the matrix and belongs to no other element.
pub proof fn lemma_cell(m: int, n: int, i: int, j: int)
    requires
        0 <= i < m,
        0 <= j < n,
    ensures
        0 <= i * n + j < m * n,
        (i * n + j) / n == i,
        (i * n + j) % n == j,
{
    assert(0 <= i * n && (i + 1) * n <= m * n && (i + 1) * n == i * n + n) by (nonlinear_arith)
        requires
            0 <= i < m,
            0 < n,
    ;
    lemma_fundamental_div_mod_converse(i * n + j, n, i, j);
}

/// Position `idx` of a matrix with `n` columns is row `idx / n`, column
/// `idx % n`.
pub proof fn lemma_cell_of(m: int, n: int, idx: int)
    requires
        0 <= idx < m * n,
        0 <= m,
        0 <= n,
    ensures
        0 <= idx / n < m,
        0 <= idx % n < n,
        idx == (idx / n) * n + idx % n,
{
    assert(n > 0) by (nonlinear_arith)
        requires
            0 <= idx < m * n,
            0 <= m,
            0 <= n,
    ;
    vstd::arithmetic::div_mod::lemma_fundamental_div_mod(idx, n);
    vstd::arithmetic::div_mod::lemma_mod_bound(idx, n);
    let q = idx / n;
    let r = idx % n;
    assert(idx == n * q + r);
    assert(0 <= q < m) by (nonlinear_arith)
        requires
            idx == n * q + r,
            0 <= r < n,
            0 <= idx < m * n,
    ;
    assert(n * q == q * n) by (nonlinear_arith);
}

/// Element `(i, j)` of the product.
pub proof fn lemma_product_at<T: Scalar>(
    m: int,
    k: int,
    n: int,
    a: Seq<T>,
    b: Seq<T>,
    c: Seq<T>,
    i: int,
    j: int,
)
    requires
        0 <= i < m,
        0 <= j < n,
        m * n <= c.len(),
    ensures
        product_spec(m, k, n, a, b, c)[i * n + j] == dot(a, b, k, n, i, j, k as nat),
{
    lemma_cell(m, n, i, j);
}

/// Element `(i, j)` of the affine update.
pub proof fn lemma_gemm_at<T: Scalar>(
    m: int,
    k: int,
    n: int,
    alpha: T,
    a: Seq<T>,
    b: Seq<T>,
    beta: T,
    c: Seq<T>,
    i: int,
    j: int,
)
    requires
        0 <= i < m,
        0 <= j < n,
        m * n <= c.len(),
    ensures
        gemm_spec(m, k, n, alpha, a, b, beta, c)[i * n + j] == affine(
            alpha,
            dot(a, b, k, n, i, j, k as nat),
            beta,
            c[i * n + j],
        ),
{
    lemma_cell(m, n, i, j);
}

/// Decides whether the buffers are long enough for the shape.
pub fn check_dims(m: usize, k: usize, n: usize, a_len: usize, b_len: usize, c_len: usize) -> (r:
    bool)
    ensures
        r == dims_ok(m as int, k as int, n as int, a_len as int, b_len as int, c_len as int),
{
    let a_ok: bool = match m.checked_mul(k) {
        Some(need) => need <= a_len,
        None => false,
    };
    let b_ok: bool = match k.checked_mul(n) {
        Some(need) => need <= b_len,
        None => false,
    };
    let c_ok: bool = match m.checked_mul(n) {
        Some(need) => need <= c_len,
        None => false,
    };
    a_ok && b_ok && c_ok
}

/// The inner product of row `i` of `A` with column `j` of `B`, summed from
/// zero in ascending order.
pub fn dot_product<T: Scalar>(a: &[T], b: &[T], k: usize, n: usize, i: usize, j: usize) -> (s: T)
    requires
        j < n,
        (i + 1) * k <= a.len(),
        k * n <= b.len(),
    ensures
        s == dot(a@, b@, k as int, n as int, i as int, j as int, k as nat),
{
    let mut s: T = T::zero();
    let mut x: usize = 0;
    while x < k
        invariant
            x <= k,
            j < n,
            (i + 1) * k <= a.len(),
            k * n <= b.len(),
            s == dot(a@, b@, k as int, n as int, i as int, j as int, x as nat),
        decreases k - x,
    {
        assert(i * k + x < (i + 1) * k && 0 <= i * k) by (nonlinear_arith)
            requires
                x < k,
                0 <= i,
        ;
        assert(x * n + j < k * n && 0 <= x * n) by (nonlinear_arith)
            requires
                x < k,
                j < n,
                0 <= x,
        ;
        let p: T = a[i * k + x].mul(b[x * n + j]);
        s = s.add(p);
        x += 1;
    }
    s
}

/// The reference multiplication: writes `A x B` over the first `m * n`
/// elements of `c`, each element summed in ascending order from zero, and
/// leaves the rest of `c` alone.
///
/// Fails with [`Failure::InvalidDimension`], touching nothing, when a buffer
/// is shorter than its matrix.
pub fn reference_mat_mul<T: Scalar>(m: usize, k: usize, n: usize, a: &[T], b: &[T], c: &mut [T])
    -> (r: Result<(), Failure>)
    ensures
        dims_ok(m as int, k as int, n as int, a.len() as int, b.len() as int, old(c).len() as int)
            ==> r == Ok::<(), Failure>(()) && final(c)@ == product_spec(
            m as int,
            k as int,
            n as int,
            a@,
            b@,
            old(c)@,
        ),
        dims_ok(m as int, k as int, n as int, a.len() as int, b.len() as int, old(c).len() as int)
            ==> forall|i: int, j: int|
            0 <= i < m && 0 <= j < n ==> final(c)@[i * n + j] == #[trigger] dot(
                a@,
                b@,
                k as int,
                n as int,
                i,
                j,
                k as nat,
            ),
        !dims_ok(
            m as int,
            k as int,
            n as int,
            a.len() as int,
            b.len() as int,
            old(c).len() as int,
        ) ==> r == Err::<(), Failure>(Failure::InvalidDimension) && final(c)@ == old(c)@,
{
    if !check_dims(m, k, n, a.len(), b.len(), c.len()) {
        return Err(Failure::InvalidDimension);
    }
    let ghost want = product_spec(m as int, k as int, n as int, a@, b@, old(c)@);
    let mut i: usize = 0;
    while i < m
        invariant
            i <= m,
            dims_ok(m as int, k as int, n as int, a.len() as int, b.len() as int, c.len() as int),
            c.len() == old(c).len(),
            want == product_spec(m as int, k as int, n as int, a@, b@, old(c)@),
            forall|t: int| 0 <= t < i * n ==> c@[t] == want[t],
            forall|t: int| i * n <= t < c.len() ==> c@[t] == old(c)@[t],
        decreases m - i,
    {
        let mut j: usize = 0;
        while j < n
            invariant
                i < m,
                j <= n,
                dims_ok(
                    m as int,
                    k as int,
                    n as int,
                    a.len() as int,
                    b.len() as int,
                    c.len() as int,
                ),
                c.len() == old(c).len(),
                want == product_spec(m as int, k as int, n as int, a@, b@, old(c)@),
                forall|t: int| 0 <= t < i * n + j ==> c@[t] == want[t],
                forall|t: int| i * n + j <= t < c.len() ==> c@[t] == old(c)@[t],
            decreases n - j,
        {
            proof {
                lemma_cell(m as int, n as int, i as int, j as int);
                assert((i + 1) * k <= m * k) by (nonlinear_arith)
                    requires
                        i < m,
                        0 <= k,
                ;
            }
            let s: T = dot_product(a, b, k, n, i, j);
            c[i * n + j] = s;
            j += 1;
        }
        proof {
            assert((i + 1) * n == i * n + n) by (nonlinear_arith);
        }
        i += 1;
    }
    proof {
        assert(c@ =~= want);
        assert forall|i: int, j: int| 0 <= i < m && 0 <= j < n implies c@[i * n + j]
            == #[trigger] dot(a@, b@, k as int, n as int, i, j, k as nat) by {
            lemma_product_at(m as int, k as int, n as int, a@, b@, old(c)@, i, j);
        }
    }
    Ok(())
}

/// The reference for the whole operation: overwrites the first `m * n`
/// elements of `c` with `alpha * (A x B) + beta * C`, the product summed as
/// in [`reference_mat_mul`], and leaves the rest of `c` alone.
///
/// With a zero `alpha` the product is not computed and `A` and `B` are not
/// read; with a zero `beta` the old contents of `c` are not read.
///
/// Fails with [`Failure::InvalidDimension`], touching nothing, when a buffer
/// is shorter than its matrix.
pub fn reference_gemm<T: Scalar>(
    m: usize,
    k: usize,
    n: usize,
    alpha: T,
    a: &[T],
    b: &[T],
    beta: T,
    c: &mut [T],
) -> (r: Result<(), Failure>)
    ensures
        dims_ok(m as int, k as int, n as int, a.len() as int, b.len() as int, old(c).len() as int)
            ==> r == Ok::<(), Failure>(()) && final(c)@ == gemm_spec(
            m as int,
            k as int,
            n as int,
            alpha,
            a@,
            b@,
            beta,
            old(c)@,
        ),
        dims_ok(m as int, k as int, n as int, a.len() as int, b.len() as int, old(c).len() as int)
            ==> forall|i: int, j: int|
            0 <= i < m && 0 <= j < n ==> final(c)@[i * n + j] == affine(
                alpha,
                #[trigger] dot(a@, b@, k as int, n as int, i, j, k as nat),
                beta,
                old(c)@[i * n + j],
            ),
        !dims_ok(m as int, k as int, n as int, a.len() as int, b.len() as int, old(c).len() as int)
            ==> r == Err::<(), Failure>(Failure::InvalidDimension) && final(c)@ == old(c)@,
{
    if !check_dims(m, k, n, a.len(), b.len(), c.len()) {
        return Err(Failure::InvalidDimension);
    }
    let ghost want = gemm_spec(m as int, k as int, n as int, alpha, a@, b@, beta, old(c)@);
    let drop_product: bool = alpha.is_zero();
    let drop_old: bool = beta.is_zero();
    let mut i: usize = 0;
    while i < m
        invariant
            i <= m,
            dims_ok(m as int, k as int, n as int, a.len() as int, b.len() as int, c.len() as int),
            c.len() == old(c).len(),
            drop_product == alpha.is_zero_spec(),
            drop_old == beta.is_zero_spec(),
            want == gemm_spec(m as int, k as int, n as int, alpha, a@, b@, beta, old(c)@),
            forall|t: int| 0 <= t < i * n ==> c@[t] == want[t],
            forall|t: int| i * n <= t < c.len() ==> c@[t] == old(c)@[t],
        decreases m - i,
    {
        let mut j: usize = 0;
        while j < n
            invariant
                i < m,
                j <= n,
                dims_ok(
                    m as int,
                    k as int,
                    n as int,
                    a.len() as int,
                    b.len() as int,
                    c.len() as int,
                ),
                c.len() == old(c).len(),
                drop_product == alpha.is_zero_spec(),
                drop_old == beta.is_zero_spec(),
                want == gemm_spec(m as int, k as int, n as int, alpha, a@, b@, beta, old(c)@),
                forall|t: int| 0 <= t < i * n + j ==> c@[t] == want[t],
                forall|t: int| i * n + j <= t < c.len() ==> c@[t] == old(c)@[t],
            decreases n - j,
        {
            proof {
                lemma_cell(m as int, n as int, i as int, j as int);
                assert((i + 1) * k <= m * k) by (nonlinear_arith)
                    requires
                        i < m,
                        0 <= k,
                ;
            }
            let at: usize = i * n + j;
            let value: T = if drop_product {
                if drop_old {
                    T::zero()
                } else {
                    beta.mul(c[at])
                }
            } else {
                let p: T = dot_product(a, b, k, n, i, j);
                if drop_old {
                    alpha.mul(p)
                } else {
                    alpha.mul(p).add(beta.mul(c[at]))
                }
            };
            c[at] = value;
            j += 1;
        }
        proof {
            assert((i + 1) * n == i * n + n) by (nonlinear_arith);
        }
        i += 1;
    }
    proof {
        assert(c@ =~= want);
        assert forall|i: int, j: int| 0 <= i < m && 0 <= j < n implies c@[i * n + j] == affine(
            alpha,
            #[trigger] dot(a@, b@, k as int, n as int, i, j, k as nat),
            beta,
            old(c)@[i * n + j],
        ) by {
            lemma_gemm_at(m as int, k as int, n as int, alpha, a@, b@, beta, old(c)@, i, j);
        }
    }
    Ok(())
}

} // verus!
