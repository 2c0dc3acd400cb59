//! Validation harness for a strided general matrix multiply,
//! `C := alpha * (A x B) + beta * C`.
//!
//! The crate is generic over the element type. A real element type supplies
//! its arithmetic through [`numeric::Scalar`], its constructors and NaN test
//! through [`numeric::Float`], and the kernel under scrutiny through
//! [`dispatch::Gemm`]. On top of that the crate provides, fully verified,
//! complex elements as pairs of reals, the geometry of strided matrix views,
//! a reference multiplication that serves as the oracle, the families of
//! shapes, the cases and the scenarios to exercise, and the routine that
//! runs a kernel against the oracle and reports the first element on which
//! the two disagree.

pub mod buffers;
pub mod cases;
pub mod dispatch;
pub mod failure;
pub mod harness;
pub mod laws;
pub mod layout;
pub mod numeric;
pub mod reference;
pub mod scenarios;
pub mod shapes;

pub use buffers::{filled, identity, nans, ramp, whole_numbers, zeros};
pub use cases::{cases, element_types, Case, ElementType};
pub use dispatch::{checked_gemm, CGemmOption, ComplexGemm, Gemm};
pub use failure::Failure;
pub use harness::{
    agree, bench_kernel, bench_reference, call_kernel, check_case, check_case_sizes, copy_of,
    first_difference, verdict,
};
pub use layout::MatrixView;
pub use numeric::{Approx, Complex, Float, Scalar};
pub use reference::{check_dims, dot_product, reference_gemm, reference_mat_mul};
pub use scenarios::{run_scenario, scenarios, Scenario};
pub use shapes::{
    all_shapes, large_squares, medium_squares, skewed, small_squares, squares, Shape,
};
