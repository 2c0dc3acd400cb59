//! Running a kernel against the oracle, and running either one repeatedly.

use vstd::prelude::*;
use crate::buffers::{zeros, zeros_spec};
use crate::dispatch::Gemm;
use crate::failure::Failure;
use crate::layout::lemma_packed;
use crate::numeric::{Approx, Float, Scalar};
use crate::reference::{gemm_spec, product_spec, reference_gemm, reference_mat_mul};
use crate::shapes::Shape;

verus! {

/// Two values agree: both are NaN, or neither is and they are equal within
/// the tolerance of the type. A NaN never agrees with a number.
pub open spec fn agree_spec<T: Float + Approx>(x: T, y: T) -> bool {
    if x.is_nan_spec() || y.is_nan_spec() {
        x.is_nan_spec() && y.is_nan_spec()
    } else {
        x.near_spec(y)
    }
}

/// The two outputs have the same length and agree at every position.
pub open spec fn all_agree<T: Float + Approx>(expected: Seq<T>, got: Seq<T>) -> bool {
    &&& expected.len() == got.len()
    &&& forall|t: int| 0 <= t < expected.len() ==> agree_spec(#[trigger] expected[t], got[t])
}

/// The two outputs differ at position `t`: one of them ends before it, or
/// their values there do not agree.
pub open spec fn differs_at<T: Float + Approx>(expected: Seq<T>, got: Seq<T>, t: int) -> bool {
    t >= expected.len() || t >= got.len() || !agree_spec(expected[t], got[t])
}

/// Position `i` is the first at which the two outputs differ.
pub open spec fn is_first_difference<T: Float + Approx>(expected: Seq<T>, got: Seq<T>, i: int)
    -> bool {
    &&& 0 <= i
    &&& i < expected.len() || i < got.len()
    &&& differs_at(expected, got, i)
    &&& forall|t: int| 0 <= t < i ==> !#[trigger] differs_at(expected, got, t)
}

/// `r` is the verdict on a kernel that produced `got` where `expected` was
/// due: a pass when the two agree everywhere, and otherwise a mismatch that
/// names the element type, the shape and the first position at which they
/// differ.
pub open spec fn is_verdict<T: Float + Approx>(
    r: Result<(), Failure>,
    shape: Shape,
    expected: Seq<T>,
    got: Seq<T>,
) -> bool {
    match r {
        Ok(_) => all_agree(expected, got),
        Err(Failure::Mismatch { element, shape: s, index }) => {
            &&& element == T::element_type_spec()
            &&& s == shape
            &&& is_first_difference(expected, got, index as int)
        },
        Err(Failure::InvalidDimension) => false,
    }
}

/// The buffers have exactly the sizes of the shape, and the row lengths fit
/// a stride.
pub open spec fn case_ok(shape: Shape, a_len: int, b_len: int, c_len: int) -> bool {
    &&& shape.m * shape.k == a_len
    &&& shape.k * shape.n == b_len
    &&& shape.m * shape.n == c_len
    &&& shape.k <= isize::MAX
    &&& shape.n <= isize::MAX
}

/// There is at most one first difference.
pub proof fn lemma_first_difference_unique<T: Float + Approx>(
    expected: Seq<T>,
    got: Seq<T>,
    i: int,
    j: int,
)
    requires
        is_first_difference(expected, got, i),
        is_first_difference(expected, got, j),
    ensures
        i == j,
{
    if i < j {
        assert(!differs_at(expected, got, i));
    }
    if j < i {
        assert(!differs_at(expected, got, j));
    }
}

/// Whether two values agree: both NaN, or neither NaN and equal within
/// tolerance.
pub fn agree<T: Float + Approx>(x: T, y: T) -> (r: bool)
    ensures
        r == agree_spec(x, y),
{
    let x_nan: bool = x.is_nan();
    let y_nan: bool = y.is_nan();
    if x_nan || y_nan {
        x_nan && y_nan
    } else {
        x.near(y)
    }
}

/// The first position at which two outputs differ, or `None` when they have
/// the same length and agree throughout.
pub fn first_difference<T: Float + Approx>(expected: &[T], got: &[T]) -> (r: Option<usize>)
    ensures
        r.is_none() <==> all_agree(expected@, got@),
        r matches Some(i) ==> is_first_difference(expected@, got@, i as int),
        forall|i: int| #[trigger] is_first_difference(expected@, got@, i) ==> r == Some(i as usize),
{
    let shorter: usize = if expected.len() < got.len() {
        expected.len()
    } else {
        got.len()
    };
    let mut i: usize = 0;
    while i < shorter
        invariant
            i <= shorter,
            shorter <= expected.len(),
            shorter <= got.len(),
            shorter == expected.len() || shorter == got.len(),
            forall|t: int| 0 <= t < i ==> agree_spec(#[trigger] expected@[t], got@[t]),
        decreases shorter - i,
    {
        if !agree(expected[i], got[i]) {
            proof {
                assert forall|t: int| 0 <= t < i implies !#[trigger] differs_at(
                    expected@,
                    got@,
                    t,
                ) by {
                    assert(agree_spec(expected@[t], got@[t]));
                }
                assert forall|j: int| #[trigger]
                    is_first_difference(expected@, got@, j) implies j == i by {
                    lemma_first_difference_unique(expected@, got@, i as int, j);
                }
            }
            return Some(i);
        }
        i += 1;
    }
    if expected.len() != got.len() {
        proof {
            assert forall|t: int| 0 <= t < shorter implies !#[trigger] differs_at(
                expected@,
                got@,
                t,
            ) by {
                assert(agree_spec(expected@[t], got@[t]));
            }
            assert forall|j: int| #[trigger]
                is_first_difference(expected@, got@, j) implies j == shorter by {
                lemma_first_difference_unique(expected@, got@, shorter as int, j);
            }
        }
        Some(shorter)
    } else {
        proof {
            assert forall|j: int| #[trigger] is_first_difference(expected@, got@, j) implies false by {
                if j < expected@.len() {
                    assert(agree_spec(expected@[j], got@[j]));
                }
            }
        }
        None
    }
}

/// The verdict on a kernel that produced `got` where `expected` was due.
pub fn verdict<T: Float + Approx>(shape: Shape, expected: &[T], got: &[T]) -> (r: Result<
    (),
    Failure,
>)
    ensures
        is_verdict(r, shape, expected@, got@),
        r.is_ok() <==> all_agree(expected@, got@),
{
    match first_difference(expected, got) {
        None => Ok(()),
        Some(index) => Err(Failure::Mismatch { element: T::element_type(), shape, index }),
    }
}

/// A copy of a buffer.
pub fn copy_of<T: Copy>(source: &[T]) -> (v: Vec<T>)
    ensures
        v@ == source@,
{
    let mut v: Vec<T> = Vec::new();
    let mut i: usize = 0;
    while i < source.len()
        invariant
            i <= source.len(),
            v@.len() == i,
            forall|t: int| 0 <= t < i ==> v@[t] == source@[t],
        decreases source.len() - i,
    {
        v.push(source[i]);
        i += 1;
    }
    proof {
        assert(v@ =~= source@);
    }
    v
}

/// Decides whether the buffers have exactly the sizes of the shape and the
/// row lengths fit a stride.
pub fn check_case_sizes(shape: Shape, a_len: usize, b_len: usize, c_len: usize) -> (r: bool)
    ensures
        r == case_ok(shape, a_len as int, b_len as int, c_len as int),
{
    let a_ok: bool = match shape.a_len() {
        Some(need) => need == a_len,
        None => false,
    };
    let b_ok: bool = match shape.b_len() {
        Some(need) => need == b_len,
        None => false,
    };
    let c_ok: bool = match shape.c_len() {
        Some(need) => need == c_len,
        None => false,
    };
    a_ok && b_ok && c_ok && shape.k <= isize::MAX as usize && shape.n <= isize::MAX as usize
}

/// Hands packed row-major matrices to the kernel of the element type: what
/// is left in `c` is what that kernel leaves there when `A`, `B` and `C`
/// start at position 0 of their buffers, with their row lengths as row
/// strides and 1 as column stride.
pub fn call_kernel<T: Gemm>(shape: Shape, alpha: T, a: &[T], b: &[T], beta: T, c: &mut [T])
    requires
        case_ok(shape, a.len() as int, b.len() as int, old(c).len() as int),
    ensures
        final(c).len() == old(c).len(),
        exists|handed: &mut [T]|
            handed@ == old(c)@ && final(handed)@ == final(c)@ && #[trigger] call_ensures(
                T::gemm,
                (
                    shape.m,
                    shape.k,
                    shape.n,
                    alpha,
                    a,
                    0usize,
                    shape.k as isize,
                    1isize,
                    b,
                    0usize,
                    shape.n as isize,
                    1isize,
                    beta,
                    handed,
                    0usize,
                    shape.n as isize,
                    1isize,
                ),
                (),
            ),
{
    proof {
        lemma_packed(shape.m, shape.k, a.len() as int);
        lemma_packed(shape.k, shape.n, b.len() as int);
        lemma_packed(shape.m, shape.n, c.len() as int);
    }
    T::gemm(
        shape.m,
        shape.k,
        shape.n,
        alpha,
        a,
        0,
        shape.k as isize,
        1,
        b,
        0,
        shape.n as isize,
        1,
        beta,
        c,
        0,
        shape.n as isize,
        1,
    );
}

/// One case in correctness mode: runs the kernel and the reference on the
/// same packed inputs and compares what they leave in `C`. The result is
/// the verdict on what the kernel of the element type leaves in a copy of
/// `c`, when it is handed the matrices as [`call_kernel`] hands them.
///
/// `a`, `b` and `c` are packed row-major and sized exactly to the shape;
/// `c` holds the contents that `C` starts out with, and is not changed.
pub fn check_case<T: Float + Approx + Gemm>(
    shape: Shape,
    alpha: T,
    a: &[T],
    b: &[T],
    beta: T,
    c: &[T],
) -> (r: Result<(), Failure>)
    ensures
        !case_ok(shape, a.len() as int, b.len() as int, c.len() as int) <==> r == Err::<
            (),
            Failure,
        >(Failure::InvalidDimension),
        case_ok(shape, a.len() as int, b.len() as int, c.len() as int) ==> exists|
            handed: &mut [T],
        |
            handed@ == c@ && #[trigger] call_ensures(
                T::gemm,
                (
                    shape.m,
                    shape.k,
                    shape.n,
                    alpha,
                    a,
                    0usize,
                    shape.k as isize,
                    1isize,
                    b,
                    0usize,
                    shape.n as isize,
                    1isize,
                    beta,
                    handed,
                    0usize,
                    shape.n as isize,
                    1isize,
                ),
                (),
            ) && is_verdict(
                r,
                shape,
                gemm_spec(shape.m as int, shape.k as int, shape.n as int, alpha, a@, b@, beta, c@),
                final(handed)@,
            ),
{
    if !check_case_sizes(shape, a.len(), b.len(), c.len()) {
        return Err(Failure::InvalidDimension);
    }
    let mut expected: Vec<T> = copy_of(c);
    let mut got: Vec<T> = copy_of(c);
    let _ = reference_gemm(
        shape.m,
        shape.k,
        shape.n,
        alpha,
        a,
        b,
        beta,
        expected.as_mut_slice(),
    );
    call_kernel(shape, alpha, a, b, beta, got.as_mut_slice());
    verdict(shape, expected.as_slice(), got.as_slice())
}

/// The three matrices of the shape fit the machine, and the row lengths fit
/// a stride.
pub open spec fn sizes_fit(shape: Shape) -> bool {
    &&& shape.m * shape.k <= usize::MAX
    &&& shape.k * shape.n <= usize::MAX
    &&& shape.m * shape.n <= usize::MAX
    &&& shape.k <= isize::MAX
    &&& shape.n <= isize::MAX
}

/// One case in benchmark mode: on zero-filled packed buffers sized exactly
/// to the shape, runs the kernel `rounds` times with `alpha` one and `beta`
/// zero, and hands back what is left in `C`.
///
/// `C` starts out as zeros, and each round leaves in it what the kernel of
/// the element type makes of what the round before left, when it is handed
/// the matrices as [`call_kernel`] hands them.
pub fn bench_kernel<T: Float + Gemm>(shape: Shape, rounds: usize) -> (r: Result<Vec<T>, Failure>)
    ensures
        !sizes_fit(shape) <==> r == Err::<Vec<T>, Failure>(Failure::InvalidDimension),
        sizes_fit(shape) ==> r.is_ok(),
        r matches Ok(c) ==> c@.len() == shape.m * shape.n && (rounds == 0 ==> c@ == zeros_spec::<T>(
            shape.m * shape.n,
        )),
        r matches Ok(c) ==> exists|a: &[T], b: &[T], states: Seq<Seq<T>>|
            a@ == zeros_spec::<T>(shape.m * shape.k) && b@ == zeros_spec::<T>(shape.k * shape.n)
                && states.len() == rounds + 1 && states[0] == zeros_spec::<T>(shape.m * shape.n)
                && states[rounds as int] == c@ && forall|i: int|
                0 <= i < rounds ==> exists|handed: &mut [T]|
                    handed@ == #[trigger] states[i] && final(handed)@ == states[i + 1]
                        && #[trigger] call_ensures(
                        T::gemm,
                        (
                            shape.m,
                            shape.k,
                            shape.n,
                            T::one_spec(),
                            a,
                            0usize,
                            shape.k as isize,
                            1isize,
                            b,
                            0usize,
                            shape.n as isize,
                            1isize,
                            T::zero_spec(),
                            handed,
                            0usize,
                            shape.n as isize,
                            1isize,
                        ),
                        (),
                    ),
{
    let (a_len, b_len, c_len) = match (shape.a_len(), shape.b_len(), shape.c_len()) {
        (Some(a_len), Some(b_len), Some(c_len)) => (a_len, b_len, c_len),
        _ => {
            return Err(Failure::InvalidDimension);
        },
    };
    if shape.k > isize::MAX as usize || shape.n > isize::MAX as usize {
        return Err(Failure::InvalidDimension);
    }
    let a_buffer: Vec<T> = zeros(a_len);
    let b_buffer: Vec<T> = zeros(b_len);
    let a: &[T] = a_buffer.as_slice();
    let b: &[T] = b_buffer.as_slice();
    let mut c: Vec<T> = zeros(c_len);
    let alpha: T = T::one();
    let beta: T = T::zero();
    let ghost mut states: Seq<Seq<T>> = seq![c@];
    let mut round: usize = 0;
    while round < rounds
        invariant
            round <= rounds,
            case_ok(shape, a.len() as int, b.len() as int, c.len() as int),
            c.len() == c_len,
            alpha == T::one_spec(),
            beta == T::zero_spec(),
            states.len() == round + 1,
            states[0] == zeros_spec::<T>(c_len as int),
            states[round as int] == c@,
            forall|i: int|
                0 <= i < round ==> exists|handed: &mut [T]|
                    handed@ == #[trigger] states[i] && final(handed)@ == states[i + 1]
                        && #[trigger] call_ensures(
                        T::gemm,
                        (
                            shape.m,
                            shape.k,
                            shape.n,
                            T::one_spec(),
                            a,
                            0usize,
                            shape.k as isize,
                            1isize,
                            b,
                            0usize,
                            shape.n as isize,
                            1isize,
                            T::zero_spec(),
                            handed,
                            0usize,
                            shape.n as isize,
                            1isize,
                        ),
                        (),
                    ),
        decreases rounds - round,
    {
        let ghost earlier = states;
        call_kernel(shape, alpha, a, b, beta, c.as_mut_slice());
        proof {
            states = earlier.push(c@);
            assert forall|i: int| 0 <= i < round + 1 implies exists|handed: &mut [T]|
                handed@ == #[trigger] states[i] && final(handed)@ == states[i + 1]
                    && #[trigger] call_ensures(
                    T::gemm,
                    (
                        shape.m,
                        shape.k,
                        shape.n,
                        T::one_spec(),
                        a,
                        0usize,
                        shape.k as isize,
                        1isize,
                        b,
                        0usize,
                        shape.n as isize,
                        1isize,
                        T::zero_spec(),
                        handed,
                        0usize,
                        shape.n as isize,
                        1isize,
                    ),
                    (),
                ) by {
                if i < round {
                    assert(states[i] == earlier[i]);
                    assert(states[i + 1] == earlier[i + 1]);
                }
            }
        }
        round += 1;
    }
    Ok(c)
}

/// One case in benchmark mode for the baseline: on zero-filled packed
/// buffers sized exactly to the shape, runs the reference multiplication
/// `rounds` times, and hands back what is left in `C`.
pub fn bench_reference<T: Scalar>(shape: Shape, rounds: usize) -> (r: Result<Vec<T>, Failure>)
    ensures
        !(shape.m * shape.k <= usize::MAX && shape.k * shape.n <= usize::MAX && shape.m * shape.n
            <= usize::MAX) <==> r == Err::<Vec<T>, Failure>(Failure::InvalidDimension),
        (shape.m * shape.k <= usize::MAX && shape.k * shape.n <= usize::MAX && shape.m * shape.n
            <= usize::MAX) ==> r.is_ok(),
        r matches Ok(c) ==> c@ == if rounds == 0 {
            zeros_spec::<T>(shape.m * shape.n)
        } else {
            product_spec(
                shape.m as int,
                shape.k as int,
                shape.n as int,
                zeros_spec::<T>(shape.m * shape.k),
                zeros_spec::<T>(shape.k * shape.n),
                zeros_spec::<T>(shape.m * shape.n),
            )
        },
{
    let (a_len, b_len, c_len) = match (shape.a_len(), shape.b_len(), shape.c_len()) {
        (Some(a_len), Some(b_len), Some(c_len)) => (a_len, b_len, c_len),
        _ => {
            return Err(Failure::InvalidDimension);
        },
    };
    let a: Vec<T> = zeros(a_len);
    let b: Vec<T> = zeros(b_len);
    let mut c: Vec<T> = zeros(c_len);
    let ghost start = c@;
    let mut round: usize = 0;
    while round < rounds
        invariant
            round <= rounds,
            a_len == shape.m * shape.k,
            b_len == shape.k * shape.n,
            c_len == shape.m * shape.n,
            a@ == zeros_spec::<T>(a_len as int),
            b@ == zeros_spec::<T>(b_len as int),
            start == zeros_spec::<T>(c_len as int),
            c.len() == c_len,
            round == 0 ==> c@ == start,
            round > 0 ==> c@ == product_spec(
                shape.m as int,
                shape.k as int,
                shape.n as int,
                a@,
                b@,
                start,
            ),
        decreases rounds - round,
    {
        let _ = reference_mat_mul(
            shape.m,
            shape.k,
            shape.n,
            a.as_slice(),
            b.as_slice(),
            c.as_mut_slice(),
        );
        proof {
            assert(c@ =~= product_spec(
                shape.m as int,
                shape.k as int,
                shape.n as int,
                a@,
                b@,
                start,
            ));
        }
        round += 1;
    }
    Ok(c)
}

} // verus!
