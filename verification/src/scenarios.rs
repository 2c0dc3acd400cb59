//! The scenarios that every case is run through: which scalars and which
//! starting contents put which law of the affine update to the test.

use vstd::prelude::*;
use crate::buffers::{filled_spec, is_whole_numbers, nans, whole_numbers};
use crate::dispatch::Gemm;
use crate::failure::Failure;
use crate::harness::{check_case, is_verdict, sizes_fit};
use crate::numeric::{Approx, Float, Scalar};
use crate::reference::gemm_spec;
use crate::shapes::Shape;

verus! {

/// One way of putting a kernel to the test on a shape.
#[derive(Clone, Copy, Debug, PartialEq, Eq, Structural)]
pub enum Scenario {
    /// The plain product: `alpha` one and `beta` zero, on whole numbers.
    Product,
    /// The full update: neither scalar zero, on whole numbers.
    Update,
    /// `beta` zero and `C` full of NaN: the old `C` must not show.
    Scale,
    /// `alpha` zero and `A` and `B` full of NaN: the product must not show.
    Annihilation,
}

/// The four scenarios, in the order in which they run.
pub open spec fn scenarios_spec() -> Seq<Scenario> {
    seq![Scenario::Product, Scenario::Update, Scenario::Scale, Scenario::Annihilation]
}

/// What a scenario hands to the kernel and to the reference on a shape.
///
/// Where a scalar is not zero or one it is what the element type makes of
/// `2 + 3i` for `alpha` and of `2 + i` for `beta`. Where a buffer is not
/// full of NaN it holds whole numbers, shifted by 0, 1 and 2 for `A`, `B`
/// and `C`.
pub open spec fn scenario_inputs<T: Float>(
    scenario: Scenario,
    shape: Shape,
    alpha: T,
    beta: T,
    a: Seq<T>,
    b: Seq<T>,
    c: Seq<T>,
) -> bool {
    &&& a.len() == shape.m * shape.k
    &&& b.len() == shape.k * shape.n
    &&& c.len() == shape.m * shape.n
    &&& match scenario {
        Scenario::Product => alpha == T::one_spec(),
        Scenario::Update => call_ensures(T::from2, (2i64, 3i64), alpha),
        Scenario::Scale => call_ensures(T::from2, (2i64, 3i64), alpha),
        Scenario::Annihilation => alpha == T::zero_spec(),
    }
    &&& match scenario {
        Scenario::Product => beta == T::zero_spec(),
        Scenario::Update => call_ensures(T::from2, (2i64, 1i64), beta),
        Scenario::Scale => beta == T::zero_spec(),
        Scenario::Annihilation => call_ensures(T::from2, (2i64, 1i64), beta),
    }
    &&& if scenario == Scenario::Annihilation {
        a == filled_spec(shape.m * shape.k, T::nan_spec()) && b == filled_spec(
            shape.k * shape.n,
            T::nan_spec(),
        )
    } else {
        is_whole_numbers(a, 0) && is_whole_numbers(b, 1)
    }
    &&& if scenario == Scenario::Scale {
        c == filled_spec(shape.m * shape.n, T::nan_spec())
    } else {
        is_whole_numbers(c, 2)
    }
}

/// The four scenarios, in the order in which they run.
pub fn scenarios() -> (r: Vec<Scenario>)
    ensures
        r@ == scenarios_spec(),
{
    let mut r: Vec<Scenario> = Vec::new();
    r.push(Scenario::Product);
    r.push(Scenario::Update);
    r.push(Scenario::Scale);
    r.push(Scenario::Annihilation);
    proof {
        assert(r@ =~= scenarios_spec());
    }
    r
}

/// Runs one scenario on one shape: fills packed buffers as the scenario
/// says and checks the kernel of the element type against the reference.
///
/// Fails with [`Failure::InvalidDimension`] exactly when the shape does not
/// fit the machine. Otherwise the result is the verdict on what the kernel
/// leaves in `C` when it is handed the inputs of the scenario as packed
/// row-major matrices.
pub fn run_scenario<T: Float + Approx + Gemm>(scenario: Scenario, shape: Shape) -> (r: Result<
    (),
    Failure,
>)
    ensures
        !sizes_fit(shape) <==> r == Err::<(), Failure>(Failure::InvalidDimension),
        sizes_fit(shape) ==> exists|alpha: T, beta: T, a: &[T], b: &[T], handed: &mut [T]|
            scenario_inputs(scenario, shape, alpha, beta, a@, b@, handed@) && #[trigger] call_ensures(
                T::gemm,
                (
                    shape.m,
                    shape.k,
                    shape.n,
                    alpha,
                    a,
                    0usize,
                    shape.k as isize,
                    1isize,
                    b,
                    0usize,
                    shape.n as isize,
                    1isize,
                    beta,
                    handed,
                    0usize,
                    shape.n as isize,
                    1isize,
                ),
                (),
            ) && is_verdict(
                r,
                shape,
                gemm_spec(
                    shape.m as int,
                    shape.k as int,
                    shape.n as int,
                    alpha,
                    a@,
                    b@,
                    beta,
                    handed@,
                ),
                final(handed)@,
            ),
{
    let (a_len, b_len, c_len) = match (shape.a_len(), shape.b_len(), shape.c_len()) {
        (Some(a_len), Some(b_len), Some(c_len)) => (a_len, b_len, c_len),
        _ => {
            return Err(Failure::InvalidDimension);
        },
    };
    if shape.k > isize::MAX as usize || shape.n > isize::MAX as usize {
        return Err(Failure::InvalidDimension);
    }
    let alpha: T = match scenario {
        Scenario::Product => T::one(),
        Scenario::Update => T::from2(2, 3),
        Scenario::Scale => T::from2(2, 3),
        Scenario::Annihilation => T::zero(),
    };
    let beta: T = match scenario {
        Scenario::Product => T::zero(),
        Scenario::Update => T::from2(2, 1),
        Scenario::Scale => T::zero(),
        Scenario::Annihilation => T::from2(2, 1),
    };
    let (a, b): (Vec<T>, Vec<T>) = match scenario {
        Scenario::Annihilation => (nans(a_len), nans(b_len)),
        _ => (whole_numbers(a_len, 0), whole_numbers(b_len, 1)),
    };
    let c: Vec<T> = match scenario {
        Scenario::Scale => nans(c_len),
        _ => whole_numbers(c_len, 2),
    };
    check_case(shape, alpha, a.as_slice(), b.as_slice(), beta, c.as_slice())
}

} // verus!
