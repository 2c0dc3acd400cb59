//! The contents that the buffers of a case start out with.

use vstd::prelude::*;
use crate::numeric::{Float, Scalar};
use crate::reference::{lemma_cell, lemma_cell_of};

verus! {

/// `len` copies of `value`.
pub open spec fn filled_spec<T>(len: int, value: T) -> Seq<T> {
    Seq::new(len as nat, |i: int| value)
}

/// `len` zeros.
pub open spec fn zeros_spec<T: Scalar>(len: int) -> Seq<T> {
    filled_spec(len, T::zero_spec())
}

/// The elements `0, 1, 2, ...`: position `i` holds the integer `i`.
pub open spec fn ramp_spec<T: Float>(len: int) -> Seq<T> {
    Seq::new(len as nat, |i: int| T::from_spec(i as i64))
}

/// The `n x n` identity matrix, packed row-major: one on the diagonal and
/// zero elsewhere.
pub open spec fn identity_spec<T: Float>(n: int) -> Seq<T> {
    Seq::new(
        (n * n) as nat,
        |idx: int|
            if idx / n == idx % n {
                T::one_spec()
            } else {
                T::zero_spec()
            },
    )
}

/// Element `(i, j)` of the identity matrix.
pub proof fn lemma_identity_at<T: Float>(n: int, i: int, j: int)
    requires
        0 <= i < n,
        0 <= j < n,
    ensures
        0 <= i * n + j < identity_spec::<T>(n).len(),
        identity_spec::<T>(n)[i * n + j] == if i == j {
            T::one_spec()
        } else {
            T::zero_spec()
        },
{
    lemma_cell(n, n, i, j);
}

/// A buffer of `len` copies of `value`.
pub fn filled<T: Copy>(len: usize, value: T) -> (v: Vec<T>)
    ensures
        v@ == filled_spec(len as int, value),
{
    let mut v: Vec<T> = Vec::new();
    let mut i: usize = 0;
    while i < len
        invariant
            i <= len,
            v@.len() == i,
            forall|t: int| 0 <= t < i ==> v@[t] == value,
        decreases len - i,
    {
        v.push(value);
        i += 1;
    }
    proof {
        assert(v@ =~= filled_spec(len as int, value));
    }
    v
}

/// A buffer of `len` zeros.
pub fn zeros<T: Scalar>(len: usize) -> (v: Vec<T>)
    ensures
        v@ == zeros_spec::<T>(len as int),
{
    filled(len, T::zero())
}

/// A buffer of `len` NaNs.
pub fn nans<T: Float>(len: usize) -> (v: Vec<T>)
    ensures
        v@ == filled_spec(len as int, T::nan_spec()),
        forall|t: int| 0 <= t < len ==> (#[trigger] v@[t]).is_nan_spec(),
{
    filled(len, T::nan())
}

/// A buffer of `len` elements that count up from zero.
pub fn ramp<T: Float>(len: usize) -> (v: Vec<T>)
    requires
        len <= i64::MAX,
    ensures
        v@ == ramp_spec::<T>(len as int),
{
    let mut v: Vec<T> = Vec::new();
    let mut i: usize = 0;
    while i < len
        invariant
            i <= len,
            len <= i64::MAX,
            v@.len() == i,
            forall|t: int| 0 <= t < i ==> v@[t] == T::from_spec(t as i64),
        decreases len - i,
    {
        v.push(T::from(i as i64));
        i += 1;
    }
    proof {
        assert(v@ =~= ramp_spec::<T>(len as int));
    }
    v
}

/// The `n x n` identity matrix, packed row-major. `None` when `n * n` does
/// not fit the machine.
pub fn identity<T: Float>(n: usize) -> (r: Option<Vec<T>>)
    ensures
        n * n <= usize::MAX ==> r.is_some() && r.unwrap()@ == identity_spec::<T>(n as int),
        n * n > usize::MAX ==> r.is_none(),
{
    let len: usize = match n.checked_mul(n) {
        Some(len) => len,
        None => {
            return None;
        },
    };
    let mut v: Vec<T> = zeros(len);
    let mut i: usize = 0;
    while i < n
        invariant
            i <= n,
            len == n * n,
            v@.len() == len,
            forall|t: int|
                0 <= t < len ==> v@[t] == if t / (n as int) == t % (n as int) && t / (n as int)
                    < i {
                    T::one_spec()
                } else {
                    T::zero_spec()
                },
        decreases n - i,
    {
        proof {
            lemma_cell(n as int, n as int, i as int, i as int);
        }
        let at: usize = i * n + i;
        v[at] = T::one();
        proof {
            assert forall|t: int| 0 <= t < len implies v@[t] == if t / (n as int) == t % (
            n as int) && t / (n as int) < i + 1 {
                T::one_spec()
            } else {
                T::zero_spec()
            } by {
                lemma_cell_of(n as int, n as int, t);
            }
        }
        i += 1;
    }
    proof {
        assert forall|t: int| 0 <= t < len implies v@[t] == identity_spec::<T>(n as int)[t] by {
            lemma_cell_of(n as int, n as int, t);
        }
        assert(v@ =~= identity_spec::<T>(n as int));
    }
    Some(v)
}

/// The real part of element `i` of the whole-number pattern: the numbers
/// from -3 to 3 in a cycle that `phase` shifts.
pub open spec fn real_at(i: int, phase: int) -> int {
    (i % 7 + phase) % 7 - 3
}

/// The imaginary part of element `i` of the whole-number pattern: the
/// numbers from -2 to 2 in a cycle that `phase` shifts.
pub open spec fn imag_at(i: int, phase: int) -> int {
    (i % 5 + phase) % 5 - 2
}

/// `v` holds the whole-number pattern: element `i` is what the element type
/// makes of the pair `(real_at(i, phase), imag_at(i, phase))`.
pub open spec fn is_whole_numbers<T: Float>(v: Seq<T>, phase: int) -> bool {
    forall|i: int|
        0 <= i < v.len() ==> call_ensures(
            T::from2,
            (real_at(i, phase) as i64, imag_at(i, phase) as i64),
            #[trigger] v[i],
        )
}

/// A buffer of `len` small whole numbers: element `i` is the number
/// `real_at(i, phase) + imag_at(i, phase) i`. Sums of products of such
/// numbers are exact in single precision for tens of thousands of terms.
pub fn whole_numbers<T: Float>(len: usize, phase: u8) -> (v: Vec<T>)
    ensures
        v@.len() == len,
        is_whole_numbers(v@, phase as int),
{
    let mut v: Vec<T> = Vec::new();
    let mut i: usize = 0;
    while i < len
        invariant
            i <= len,
            v@.len() == i,
            is_whole_numbers(v@, phase as int),
        decreases len - i,
    {
        let re: i64 = ((i % 7) as i64 + phase as i64) % 7 - 3;
        let im: i64 = ((i % 5) as i64 + phase as i64) % 5 - 2;
        let ghost before = v@;
        let element: T = T::from2(re, im);
        v.push(element);
        proof {
            assert forall|t: int| 0 <= t < v@.len() implies call_ensures(
                T::from2,
                (real_at(t, phase as int) as i64, imag_at(t, phase as int) as i64),
                #[trigger] v@[t],
            ) by {
                if t < i {
                    assert(v@[t] == before[t]);
                }
            }
        }
        i += 1;
    }
    v
}

} // verus!
