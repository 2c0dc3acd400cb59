use gemm_harness::{
    bench_kernel, call_kernel, check_case, checked_gemm, first_difference, identity, nans, ramp,
    run_scenario,
    reference_gemm, zeros, Approx, CGemmOption, Complex, ComplexGemm, ElementType, Failure,
    Float, Gemm,
    MatrixView, Scalar, Scenario, Shape,
};
use ndarray::linalg::general_mat_mul;
use ndarray::{ArrayView2, ArrayViewMut2, Axis, LinalgScalar, ShapeBuilder};
use num_complex::Complex as Pair;

// The kernels under test here are those of the matrixmultiply crate, reached
// through the strided views of ndarray.

/// A real element over `f32`.
#[derive(Clone, Copy, Debug, PartialEq)]
struct N32(f32);

impl Scalar for N32 {
    fn zero_spec() -> Self {
        Self::zero()
    }
    fn is_zero_spec(self) -> bool {
        self.is_zero()
    }
    fn add_spec(self, rhs: Self) -> Self {
        self.add(rhs)
    }
    fn sub_spec(self, rhs: Self) -> Self {
        self.sub(rhs)
    }
    fn mul_spec(self, rhs: Self) -> Self {
        self.mul(rhs)
    }
    fn zero() -> Self {
        N32(0.0)
    }
    fn is_zero(self) -> bool {
        self.0 == 0.0
    }
    fn add(self, rhs: Self) -> Self {
        N32(self.0 + rhs.0)
    }
    fn sub(self, rhs: Self) -> Self {
        N32(self.0 - rhs.0)
    }
    fn mul(self, rhs: Self) -> Self {
        N32(self.0 * rhs.0)
    }
}

impl Float for N32 {
    fn one_spec() -> Self {
        Self::one()
    }
    fn from_spec(x: i64) -> Self {
        <Self as Float>::from(x)
    }
    fn nan_spec() -> Self {
        Self::nan()
    }
    fn is_nan_spec(self) -> bool {
        self.is_nan()
    }
    fn is_complex_spec() -> bool {
        Self::is_complex()
    }
    fn element_type_spec() -> ElementType {
        Self::element_type()
    }
    fn one() -> Self {
        N32(1.0)
    }
    fn from(x: i64) -> Self {
        N32(x as f32)
    }
    fn nan() -> Self {
        N32(f32::NAN)
    }
    fn is_nan(self) -> bool {
        self.0.is_nan()
    }
    fn is_complex() -> bool {
        false
    }
    fn element_type() -> ElementType {
        ElementType::Real32
    }
}

impl Approx for N32 {
    fn near_spec(self, other: Self) -> bool {
        self.near(other)
    }
    fn near(self, other: Self) -> bool {
        // relative to the larger magnitude, and absolute below one
        let scale = self.0.abs().max(other.0.abs()).max(1.0);
        self.0 == other.0 || (scale.is_finite() && (self.0 - other.0).abs() <= 1e-4 * scale)
    }
}

/// A real element over `f64`.
#[derive(Clone, Copy, Debug, PartialEq)]
struct N64(f64);

impl Scalar for N64 {
    fn zero_spec() -> Self {
        Self::zero()
    }
    fn is_zero_spec(self) -> bool {
        self.is_zero()
    }
    fn add_spec(self, rhs: Self) -> Self {
        self.add(rhs)
    }
    fn sub_spec(self, rhs: Self) -> Self {
        self.sub(rhs)
    }
    fn mul_spec(self, rhs: Self) -> Self {
        self.mul(rhs)
    }
    fn zero() -> Self {
        N64(0.0)
    }
    fn is_zero(self) -> bool {
        self.0 == 0.0
    }
    fn add(self, rhs: Self) -> Self {
        N64(self.0 + rhs.0)
    }
    fn sub(self, rhs: Self) -> Self {
        N64(self.0 - rhs.0)
    }
    fn mul(self, rhs: Self) -> Self {
        N64(self.0 * rhs.0)
    }
}

impl Float for N64 {
    fn one_spec() -> Self {
        Self::one()
    }
    fn from_spec(x: i64) -> Self {
        <Self as Float>::from(x)
    }
    fn nan_spec() -> Self {
        Self::nan()
    }
    fn is_nan_spec(self) -> bool {
        self.is_nan()
    }
    fn is_complex_spec() -> bool {
        Self::is_complex()
    }
    fn element_type_spec() -> ElementType {
        Self::element_type()
    }
    fn one() -> Self {
        N64(1.0)
    }
    fn from(x: i64) -> Self {
        N64(x as f64)
    }
    fn nan() -> Self {
        N64(f64::NAN)
    }
    fn is_nan(self) -> bool {
        self.0.is_nan()
    }
    fn is_complex() -> bool {
        false
    }
    fn element_type() -> ElementType {
        ElementType::Real64
    }
}

impl Approx for N64 {
    fn near_spec(self, other: Self) -> bool {
        self.near(other)
    }
    fn near(self, other: Self) -> bool {
        // relative to the larger magnitude, and absolute below one
        let scale = self.0.abs().max(other.0.abs()).max(1.0);
        self.0 == other.0 || (scale.is_finite() && (self.0 - other.0).abs() <= 1e-12 * scale)
    }
}

impl Gemm for N32 {
    fn gemm(
        m: usize,
        k: usize,
        n: usize,
        alpha: Self,
        a: &[Self],
        a0: usize,
        rsa: isize,
        csa: isize,
        b: &[Self],
        b0: usize,
        rsb: isize,
        csb: isize,
        beta: Self,
        c: &mut [Self],
        c0: usize,
        rsc: isize,
        csc: isize,
    ) {
        let plain_a: Vec<f32> = a.iter().map(|x| x.0).collect();
        let plain_b: Vec<f32> = b.iter().map(|x| x.0).collect();
        let mut plain_c: Vec<f32> = c.iter().map(|x| x.0).collect();
        multiply(
            m, k, n, alpha.0, &plain_a, a0, rsa, csa, &plain_b, b0, rsb, csb, beta.0,
            &mut plain_c, c0, rsc, csc,
        );
        for (to, from) in c.iter_mut().zip(plain_c) {
            *to = N32(from);
        }
    }
}

impl ComplexGemm for N32 {
    fn cgemm(
        flaga: CGemmOption,
        flagb: CGemmOption,
        m: usize,
        k: usize,
        n: usize,
        alpha: Complex<Self>,
        a: &[Complex<Self>],
        a0: usize,
        rsa: isize,
        csa: isize,
        b: &[Complex<Self>],
        b0: usize,
        rsb: isize,
        csb: isize,
        beta: Complex<Self>,
        c: &mut [Complex<Self>],
        c0: usize,
        rsc: isize,
        csc: isize,
    ) {
        assert_eq!((flaga, flagb), (CGemmOption::Standard, CGemmOption::Standard));
        let pair = |z: &Complex<Self>| Pair::new(z.re.0, z.im.0);
        let plain_a: Vec<Pair<f32>> = a.iter().map(pair).collect();
        let plain_b: Vec<Pair<f32>> = b.iter().map(pair).collect();
        let mut plain_c: Vec<Pair<f32>> = c.iter().map(pair).collect();
        multiply(
            m, k, n, pair(&alpha), &plain_a, a0, rsa, csa, &plain_b, b0, rsb, csb, pair(&beta),
            &mut plain_c, c0, rsc, csc,
        );
        for (to, from) in c.iter_mut().zip(plain_c) {
            *to = Complex { re: N32(from.re), im: N32(from.im) };
        }
    }
}

impl Gemm for N64 {
    fn gemm(
        m: usize,
        k: usize,
        n: usize,
        alpha: Self,
        a: &[Self],
        a0: usize,
        rsa: isize,
        csa: isize,
        b: &[Self],
        b0: usize,
        rsb: isize,
        csb: isize,
        beta: Self,
        c: &mut [Self],
        c0: usize,
        rsc: isize,
        csc: isize,
    ) {
        let plain_a: Vec<f64> = a.iter().map(|x| x.0).collect();
        let plain_b: Vec<f64> = b.iter().map(|x| x.0).collect();
        let mut plain_c: Vec<f64> = c.iter().map(|x| x.0).collect();
        multiply(
            m, k, n, alpha.0, &plain_a, a0, rsa, csa, &plain_b, b0, rsb, csb, beta.0,
            &mut plain_c, c0, rsc, csc,
        );
        for (to, from) in c.iter_mut().zip(plain_c) {
            *to = N64(from);
        }
    }
}

impl ComplexGemm for N64 {
    fn cgemm(
        flaga: CGemmOption,
        flagb: CGemmOption,
        m: usize,
        k: usize,
        n: usize,
        alpha: Complex<Self>,
        a: &[Complex<Self>],
        a0: usize,
        rsa: isize,
        csa: isize,
        b: &[Complex<Self>],
        b0: usize,
        rsb: isize,
        csb: isize,
        beta: Complex<Self>,
        c: &mut [Complex<Self>],
        c0: usize,
        rsc: isize,
        csc: isize,
    ) {
        assert_eq!((flaga, flagb), (CGemmOption::Standard, CGemmOption::Standard));
        let pair = |z: &Complex<Self>| Pair::new(z.re.0, z.im.0);
        let plain_a: Vec<Pair<f64>> = a.iter().map(pair).collect();
        let plain_b: Vec<Pair<f64>> = b.iter().map(pair).collect();
        let mut plain_c: Vec<Pair<f64>> = c.iter().map(pair).collect();
        multiply(
            m, k, n, pair(&alpha), &plain_a, a0, rsa, csa, &plain_b, b0, rsb, csb, pair(&beta),
            &mut plain_c, c0, rsc, csc,
        );
        for (to, from) in c.iter_mut().zip(plain_c) {
            *to = Complex { re: N64(from.re), im: N64(from.im) };
        }
    }
}

/// The lowest buffer position of a view, and its strides without sign.
fn low_end(v: &MatrixView) -> (usize, usize, usize) {
    let back = |count: usize, stride: isize| {
        if stride < 0 && count > 0 {
            (count - 1) * stride.unsigned_abs()
        } else {
            0
        }
    };
    (
        v.origin - back(v.rows, v.rs) - back(v.cols, v.cs),
        v.rs.unsigned_abs(),
        v.cs.unsigned_abs(),
    )
}

fn window<'a, E>(buf: &'a [E], v: MatrixView) -> ArrayView2<'a, E> {
    if v.rows == 0 || v.cols == 0 {
        return ArrayView2::from_shape((v.rows, v.cols), &buf[..0]).unwrap();
    }
    let (low, rs, cs) = low_end(&v);
    let mut w = ArrayView2::from_shape((v.rows, v.cols).strides((rs, cs)), &buf[low..]).unwrap();
    if v.rs < 0 {
        w.invert_axis(Axis(0));
    }
    if v.cs < 0 {
        w.invert_axis(Axis(1));
    }
    w
}

fn window_mut<'a, E>(buf: &'a mut [E], v: MatrixView) -> ArrayViewMut2<'a, E> {
    if v.rows == 0 || v.cols == 0 {
        return ArrayViewMut2::from_shape((v.rows, v.cols), &mut buf[..0]).unwrap();
    }
    let (low, rs, cs) = low_end(&v);
    let mut w =
        ArrayViewMut2::from_shape((v.rows, v.cols).strides((rs, cs)), &mut buf[low..]).unwrap();
    if v.rs < 0 {
        w.invert_axis(Axis(0));
    }
    if v.cs < 0 {
        w.invert_axis(Axis(1));
    }
    w
}

fn multiply<E: LinalgScalar>(
    m: usize,
    k: usize,
    n: usize,
    alpha: E,
    a: &[E],
    a0: usize,
    rsa: isize,
    csa: isize,
    b: &[E],
    b0: usize,
    rsb: isize,
    csb: isize,
    beta: E,
    c: &mut [E],
    c0: usize,
    rsc: isize,
    csc: isize,
) {
    let av = window(a, MatrixView { rows: m, cols: k, origin: a0, rs: rsa, cs: csa });
    let bv = window(b, MatrixView { rows: k, cols: n, origin: b0, rs: rsb, cs: csb });
    let mut cv = window_mut(c, MatrixView { rows: m, cols: n, origin: c0, rs: rsc, cs: csc });
    general_mat_mul(alpha, &av, &bv, beta, &mut cv);
}

/// Whole numbers between -3 and 3, in no obvious order.
fn scatter<T: Float>(len: usize, seed: u64) -> Vec<T> {
    let mut state = seed;
    (0..len)
        .map(|_| {
            state = state.wrapping_mul(6364136223846793005).wrapping_add(1442695040888963407);
            T::from2(((state >> 33) % 7) as i64 - 3, ((state >> 43) % 5) as i64 - 2)
        })
        .collect()
}

fn run<T: Float + Approx + Gemm>(shape: Shape, alpha: T, beta: T, seed: u64) -> Result<(), Failure> {
    let a = scatter::<T>(shape.m * shape.k, seed);
    let b = scatter::<T>(shape.k * shape.n, seed + 1);
    let c = scatter::<T>(shape.m * shape.n, seed + 2);
    check_case(shape, alpha, &a, &b, beta, &c)
}

/// The elements of a view, packed row-major.
fn gather<T: Copy>(buf: &[T], v: MatrixView) -> Vec<T> {
    let mut packed = Vec::new();
    for i in 0..v.rows {
        for j in 0..v.cols {
            packed.push(buf[v.index(i, j)]);
        }
    }
    packed
}

/// Runs the kernel on three views and the reference on their packed
/// contents; hands back the first difference and the buffer of `C`.
fn run_strided<T: Float + Approx + Gemm>(
    alpha: T,
    a: &[T],
    av: MatrixView,
    b: &[T],
    bv: MatrixView,
    beta: T,
    c: &[T],
    cv: MatrixView,
) -> (Option<usize>, Vec<T>) {
    assert!(av.fits(a.len()) && bv.fits(b.len()) && cv.fits(c.len()));
    let (m, k, n) = (av.rows, av.cols, bv.cols);
    let mut expected = gather(c, cv);
    reference_gemm(m, k, n, alpha, &gather(a, av), &gather(b, bv), beta, &mut expected).unwrap();
    let mut out = c.to_vec();
    assert_eq!(checked_gemm(alpha, a, av, b, bv, beta, &mut out, cv), Ok(()));
    (first_difference(&expected, &gather(&out, cv)), out)
}

#[test]
fn single_precision_tiny() {
    assert_eq!(run(Shape::square(4), N32(1.0), N32(0.0), 1), Ok(()));
    assert_eq!(run(Shape::square(4), N32(2.0), N32(-3.0), 2), Ok(()));
}

#[test]
fn single_precision_blocking_boundary() {
    assert_eq!(run(Shape::square(32), N32(1.0), N32(0.0), 3), Ok(()));
    assert_eq!(run(Shape::square(32), N32(-1.0), N32(2.0), 4), Ok(()));
}

#[test]
fn single_precision_non_power_of_two() {
    assert_eq!(run(Shape::new(97, 97, 125), N32(1.0), N32(0.0), 5), Ok(()));
    assert_eq!(run(Shape::new(97, 97, 125), N32(3.0), N32(1.0), 6), Ok(()));
}

#[test]
fn single_precision_extreme_skew() {
    assert_eq!(run(Shape::new(128, 10000, 128), N32(1.0), N32(0.0), 7), Ok(()));
}

#[test]
fn double_precision_tiny() {
    assert_eq!(run(Shape::square(4), N64(1.0), N64(0.0), 1), Ok(()));
    assert_eq!(run(Shape::square(4), N64(2.0), N64(-3.0), 2), Ok(()));
}

#[test]
fn double_precision_blocking_boundary() {
    assert_eq!(run(Shape::square(32), N64(1.0), N64(0.0), 3), Ok(()));
    assert_eq!(run(Shape::square(32), N64(-1.0), N64(2.0), 4), Ok(()));
}

#[test]
fn double_precision_non_power_of_two() {
    assert_eq!(run(Shape::new(97, 97, 125), N64(1.0), N64(0.0), 5), Ok(()));
    assert_eq!(run(Shape::new(97, 97, 125), N64(3.0), N64(1.0), 6), Ok(()));
}

#[test]
fn double_precision_extreme_skew() {
    assert_eq!(run(Shape::new(128, 10000, 128), N64(1.0), N64(0.0), 7), Ok(()));
}

#[test]
fn small_medium_and_thin_shapes() {
    for side in [5, 6, 7, 8, 9, 12, 16, 64, 127] {
        assert_eq!(run(Shape::square(side), N32(1.0), N32(1.0), side as u64), Ok(()));
        assert_eq!(run(Shape::square(side), N64(1.0), N64(1.0), side as u64), Ok(()));
    }
    for shape in [Shape::new(32, 4, 32), Shape::new(32, 2, 32)] {
        assert_eq!(run(shape, N32(2.0), N32(0.0), 8), Ok(()));
        assert_eq!(run(shape, N64(2.0), N64(0.0), 8), Ok(()));
    }
}

#[test]
fn large_square() {
    assert_eq!(run(Shape::square(256), N32(1.0), N32(0.0), 9), Ok(()));
}

#[test]
fn empty_shapes() {
    for shape in [Shape::new(0, 4, 4), Shape::new(4, 0, 4), Shape::new(4, 4, 0)] {
        assert_eq!(run(shape, N32(1.0), N32(0.0), 1), Ok(()));
        assert_eq!(run(shape, N32(1.0), N32(2.0), 1), Ok(()));
        assert_eq!(run(shape, N64(3.0), N64(2.0), 1), Ok(()));
    }
}

#[test]
fn fractions_agree_within_tolerance() {
    let shape = Shape::new(19, 20, 16);
    let part = |seed: u64, len: usize| -> Vec<N64> {
        (0..len).map(|i| N64(((i as u64 * 37 + seed) % 1000) as f64 / 999.0 - 0.5)).collect()
    };
    let (a, b, c) = (part(1, 19 * 20), part(2, 20 * 16), part(3, 19 * 16));
    assert_eq!(check_case(shape, N64(1.25), &a, &b, N64(-0.75), &c), Ok(()));
}

#[test]
fn complex_single_precision() {
    let alpha: Complex<N32> = Complex::from2(3, 2);
    for shape in [Shape::square(4), Shape::new(16, 32, 8), Shape::new(63, 65, 67)] {
        assert_eq!(run(shape, alpha, Complex::zero(), 10), Ok(()));
        assert_eq!(run(shape, alpha, Complex::from2(2, 1), 11), Ok(()));
    }
}

#[test]
fn complex_double_precision() {
    let alpha: Complex<N64> = Complex::from2(3, 2);
    for shape in [Shape::square(4), Shape::new(16, 32, 8), Shape::new(63, 65, 67)] {
        assert_eq!(run(shape, alpha, Complex::zero(), 12), Ok(()));
        assert_eq!(run(shape, alpha, Complex::from2(2, 1), 13), Ok(()));
    }
}

#[test]
fn complex_product_uses_the_imaginary_unit() {
    // [i] x [i] = [-1]
    let i: Complex<N64> = Complex::from2(0, 1);
    let mut c: Vec<Complex<N64>> = zeros(1);
    call_kernel(Shape::square(1), Complex::one(), &[i], &[i], Complex::zero(), &mut c);
    assert_eq!(c, vec![Complex::from2(-1, 0)]);
}

#[test]
fn identity_law() {
    for &(m, n) in &[(4usize, 4usize), (8, 8), (32, 32), (17, 128), (24, 512)] {
        let shape = Shape::new(m, n, n);
        let a: Vec<N32> = ramp(m * n);
        let b: Vec<N32> = identity(n).unwrap();
        let mut c: Vec<N32> = nans(m * n);
        assert_eq!(check_case(shape, N32::one(), &a, &b, N32::zero(), &c), Ok(()));
        call_kernel(shape, N32::one(), &a, &b, N32::zero(), &mut c);
        assert_eq!(c, a);
    }
}

#[test]
fn identity_law_from_the_left() {
    let (k, n) = (12usize, 7usize);
    let shape = Shape::new(k, k, n);
    let a: Vec<N64> = identity(k).unwrap();
    let b: Vec<N64> = ramp(k * n);
    let mut c: Vec<N64> = nans(k * n);
    call_kernel(shape, N64::one(), &a, &b, N64::zero(), &mut c);
    assert_eq!(c, b);
}

#[test]
fn scale_law_discards_nan_in_c() {
    for shape in [Shape::square(4), Shape::new(19, 20, 16), Shape::new(4, 0, 4)] {
        let a: Vec<N32> = scatter(shape.m * shape.k, 20);
        let b: Vec<N32> = scatter(shape.k * shape.n, 21);
        let c: Vec<N32> = nans(shape.m * shape.n);
        assert_eq!(check_case(shape, N32(3.0), &a, &b, N32::zero(), &c), Ok(()));
        let mut out = c.clone();
        call_kernel(shape, N32(3.0), &a, &b, N32::zero(), &mut out);
        assert!(out.iter().all(|x| !x.is_nan()));
    }
}

#[test]
fn zero_alpha_without_nan_gives_beta_c() {
    let shape = Shape::new(2, 3, 2);
    let a: Vec<N32> = scatter(6, 80);
    let b: Vec<N32> = scatter(6, 81);
    let c: Vec<N32> = ramp(4);
    assert_eq!(check_case(shape, N32::zero(), &a, &b, N32(2.0), &c), Ok(()));
    let mut out = c.clone();
    call_kernel(shape, N32::zero(), &a, &b, N32(2.0), &mut out);
    assert_eq!(out, vec![N32(0.0), N32(2.0), N32(4.0), N32(6.0)]);
}

#[test]
fn zero_alpha_with_nan_in_a_is_reported() {
    // These kernels multiply the product by alpha even when alpha is zero,
    // so a NaN in the second row of A reaches the second row of C, where
    // beta * C alone was due.
    let shape = Shape::new(2, 3, 2);
    let mut a: Vec<N32> = ramp(6);
    a[4] = N32::nan();
    let b: Vec<N32> = ramp(6);
    let c: Vec<N32> = ramp(4);
    assert_eq!(
        check_case(shape, N32::zero(), &a, &b, N32(2.0), &c),
        Err(Failure::Mismatch { element: ElementType::Real32, shape, index: 2 })
    );
}

#[test]
fn scenarios_on_the_boundary_shapes() {
    let shapes =
        [Shape::square(4), Shape::square(32), Shape::new(97, 97, 125), Shape::new(32, 4, 32)];
    for shape in shapes {
        for scenario in [Scenario::Product, Scenario::Update, Scenario::Scale] {
            assert_eq!(run_scenario::<N32>(scenario, shape), Ok(()));
            assert_eq!(run_scenario::<N64>(scenario, shape), Ok(()));
            assert_eq!(run_scenario::<Complex<N32>>(scenario, shape), Ok(()));
            assert_eq!(run_scenario::<Complex<N64>>(scenario, shape), Ok(()));
        }
    }
}

#[test]
fn annihilation_scenario_is_not_met_by_these_kernels() {
    // With A and B full of NaN and alpha zero, these kernels fill C with
    // NaN, where beta * C alone was due.
    let shape = Shape::square(4);
    assert_eq!(
        run_scenario::<N32>(Scenario::Annihilation, shape),
        Err(Failure::Mismatch { element: ElementType::Real32, shape, index: 0 })
    );
    assert_eq!(
        run_scenario::<Complex<N64>>(Scenario::Annihilation, shape),
        Err(Failure::Mismatch { element: ElementType::Complex64, shape, index: 0 })
    );
}

#[test]
fn two_steps_equal_one() {
    // C <- A B, then C <- A B + 2 C, is 3 A B
    let shape = Shape::new(19, 20, 16);
    let a: Vec<N64> = scatter(19 * 20, 30);
    let b: Vec<N64> = scatter(20 * 16, 31);
    let mut once: Vec<N64> = zeros(19 * 16);
    call_kernel(shape, N64(3.0), &a, &b, N64::zero(), &mut once);
    let mut twice: Vec<N64> = nans(19 * 16);
    call_kernel(shape, N64::one(), &a, &b, N64::zero(), &mut twice);
    call_kernel(shape, N64::one(), &a, &b, N64(2.0), &mut twice);
    assert_eq!(once, twice);
}

#[test]
fn bench_mode_leaves_zeros() {
    assert_eq!(bench_kernel::<N32>(Shape::square(16), 3), Ok(zeros(256)));
    assert_eq!(bench_kernel::<Complex<N64>>(Shape::new(3, 4, 5), 2), Ok(zeros(15)));
}

#[test]
fn column_major_views() {
    let (m, k, n) = (5usize, 3usize, 4usize);
    let a: Vec<N64> = scatter(m * k, 40);
    let b: Vec<N64> = scatter(k * n, 41);
    let c: Vec<N64> = scatter(m * n, 42);
    let av = MatrixView { rows: m, cols: k, origin: 0, rs: 1, cs: m as isize };
    let bv = MatrixView { rows: k, cols: n, origin: 0, rs: 1, cs: k as isize };
    let cv = MatrixView { rows: m, cols: n, origin: 0, rs: 1, cs: m as isize };
    assert_eq!(run_strided(N64(2.0), &a, av, &b, bv, N64(3.0), &c, cv).0, None);
}

#[test]
fn transposed_operand() {
    // A is stored as its transpose, packed row-major
    let (m, k, n) = (6usize, 9usize, 5usize);
    let a: Vec<N32> = scatter(m * k, 50);
    let b: Vec<N32> = scatter(k * n, 51);
    let c: Vec<N32> = scatter(m * n, 52);
    let av = MatrixView::packed(k, m).unwrap().transposed();
    let bv = MatrixView::packed(k, n).unwrap();
    let cv = MatrixView::packed(m, n).unwrap();
    assert_eq!(run_strided(N32(1.0), &a, av, &b, bv, N32(1.0), &c, cv).0, None);
}

#[test]
fn negative_strides() {
    let (m, k, n) = (4usize, 3usize, 5usize);
    let a: Vec<N64> = scatter(m * k, 60);
    let b: Vec<N64> = scatter(k * n, 61);
    let c: Vec<N64> = scatter(m * n, 62);
    // rows of A reversed, columns of B reversed, C reversed both ways
    let av = MatrixView { rows: m, cols: k, origin: (m - 1) * k, rs: -(k as isize), cs: 1 };
    let bv = MatrixView { rows: k, cols: n, origin: n - 1, rs: n as isize, cs: -1 };
    let cv = MatrixView { rows: m, cols: n, origin: m * n - 1, rs: -(n as isize), cs: -1 };
    assert_eq!(run_strided(N64(1.0), &a, av, &b, bv, N64(-2.0), &c, cv).0, None);
}

#[test]
fn kernel_leaves_positions_outside_the_view_alone() {
    // C is every other column of every other row of a 6 x 8 buffer of NaN
    let (m, k, n) = (3usize, 4usize, 4usize);
    let a: Vec<N32> = scatter(m * k, 70);
    let b: Vec<N32> = scatter(k * n, 71);
    let c: Vec<N32> = nans(48);
    let av = MatrixView::packed(m, k).unwrap();
    let bv = MatrixView::packed(k, n).unwrap();
    let cv = MatrixView { rows: m, cols: n, origin: 0, rs: 16, cs: 2 };
    let (difference, out) = run_strided(N32(1.0), &a, av, &b, bv, N32::zero(), &c, cv);
    assert_eq!(difference, None);
    for (at, value) in out.iter().enumerate() {
        let inside = at % 16 < 8 && at % 2 == 0;
        assert_eq!(value.is_nan(), !inside, "position {}", at);
    }
}

#[test]
fn checked_gemm_refuses_what_the_kernel_cannot_take() {
    let a: Vec<N32> = ramp(6);
    let b: Vec<N32> = ramp(6);
    let start: Vec<N32> = ramp(4);
    let mut c = start.clone();
    let one = N32::one();
    let av = MatrixView::packed(2, 3).unwrap();
    let bv = MatrixView::packed(3, 2).unwrap();
    let cv = MatrixView::packed(2, 2).unwrap();
    let refused = Err(Failure::InvalidDimension);
    // views of different products
    assert_eq!(checked_gemm(one, &a, bv, &b, bv, one, &mut c, cv), refused);
    assert_eq!(checked_gemm(one, &a, av, &b, av, one, &mut c, cv), refused);
    assert_eq!(checked_gemm(one, &a, av, &b, bv, one, &mut c, MatrixView::packed(2, 1).unwrap()), refused);
    assert_eq!(checked_gemm(one, &a, av, &b, bv, one, &mut c, MatrixView::packed(1, 2).unwrap()), refused);
    // a buffer one element short
    assert_eq!(checked_gemm(one, &a[..5], av, &b, bv, one, &mut c, cv), refused);
    assert_eq!(checked_gemm(one, &a, av, &b[..5], bv, one, &mut c, cv), refused);
    assert_eq!(checked_gemm(one, &a, av, &b, bv, one, &mut c[..3], cv), refused);
    // a view that starts before its buffer
    let back = MatrixView { rows: 2, cols: 3, origin: 2, rs: -3, cs: 1 };
    assert_eq!(checked_gemm(one, &a, back, &b, bv, one, &mut c, cv), refused);
    // two elements of C in one place
    let folded = MatrixView { rows: 2, cols: 2, origin: 0, rs: 0, cs: 1 };
    assert_eq!(checked_gemm(one, &a, av, &b, bv, one, &mut c, folded), refused);
    assert_eq!(c, start);
    // and the same call with sound views goes through
    assert_eq!(checked_gemm(one, &a, av, &b, bv, one, &mut c, cv), Ok(()));
    assert_eq!(c, vec![N32(10.0), N32(14.0), N32(30.0), N32(43.0)]);
}

#[test]
fn checked_gemm_accepts_a_repeated_operand() {
    // every row of A is the same row of the buffer: stride zero
    let a: Vec<N64> = ramp(3);
    let b: Vec<N64> = identity(3).unwrap();
    let mut c: Vec<N64> = nans(6);
    let av = MatrixView { rows: 2, cols: 3, origin: 0, rs: 0, cs: 1 };
    let bv = MatrixView::packed(3, 3).unwrap();
    let cv = MatrixView::packed(2, 3).unwrap();
    assert_eq!(checked_gemm(N64::one(), &a, av, &b, bv, N64::zero(), &mut c, cv), Ok(()));
    assert_eq!(c, vec![N64(0.0), N64(1.0), N64(2.0), N64(0.0), N64(1.0), N64(2.0)]);
}

#[test]
fn embedded_block_with_an_origin() {
    // a 2 x 2 block in the middle of a packed 4 x 4 buffer, for all three
    let buf: Vec<N64> = ramp(16);
    let v = MatrixView { rows: 2, cols: 2, origin: 5, rs: 4, cs: 1 };
    let (difference, out) = run_strided(N64(1.0), &buf, v, &buf, v, N64(1.0), &buf, v);
    assert_eq!(difference, None);
    // [5 6; 9 10] squared is [79 90; 135 154], added to the block
    let mut want = buf.clone();
    want[5] = N64(84.0);
    want[6] = N64(96.0);
    want[9] = N64(144.0);
    want[10] = N64(164.0);
    assert_eq!(out, want);
}
