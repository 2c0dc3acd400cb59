//! Strided matrix views: where element `(i, j)` of a matrix lives in a flat
//! buffer, and whether every such position lies inside the buffer.

use vstd::prelude::*;

verus! {

/// A window onto a flat buffer of elements, in element units.
///
/// Element `(i, j)` of the matrix is the buffer element at
/// `origin + i * rs + j * cs`. Strides may be negative or zero, so that a
/// view can describe a transposed, reversed or embedded matrix without any
/// copying. The view does not own or hold the buffer.
#[derive(Clone, Copy, Debug, PartialEq, Eq, Structural)]
pub struct MatrixView {
    /// Number of rows.
    pub rows: usize,
    /// Number of columns.
    pub cols: usize,
    /// Buffer position of element `(0, 0)`.
    pub origin: usize,
    /// Distance in the buffer between vertically adjacent elements.
    pub rs: isize,
    /// Distance in the buffer between horizontally adjacent elements.
    pub cs: isize,
}

/// The least value of `i * stride` over `0 <= i <= last`.
pub open spec fn reach_low(last: int, stride: int) -> int {
    if stride < 0 {
        last * stride
    } else {
        0
    }
}

/// The greatest value of `i * stride` over `0 <= i <= last`.
pub open spec fn reach_high(last: int, stride: int) -> int {
    if stride > 0 {
        last * stride
    } else {
        0
    }
}

/// `i * stride` stays between its values at the two ends of `0..=last`.
pub proof fn lemma_reach(last: int, stride: int, i: int)
    requires
        0 <= i <= last,
    ensures
        reach_low(last, stride) <= i * stride <= reach_high(last, stride),
{
    assert(stride >= 0 ==> 0 <= i * stride <= last * stride) by (nonlinear_arith)
        requires
            0 <= i <= last,
    ;
    assert(stride <= 0 ==> last * stride <= i * stride <= 0) by (nonlinear_arith)
        requires
            0 <= i <= last,
    ;
}

/// The size of `x` without its sign.
pub open spec fn magnitude(x: int) -> int {
    if x < 0 {
        -x
    } else {
        x
    }
}

/// Whether two elements `rows_apart` rows apart can share a position: the
/// distance that the rows put between them is made up by a whole number of
/// columns, fewer than `cols`.
pub open spec fn meets(rows_apart: int, rs: int, cs: int, cols: int) -> bool {
    &&& rows_apart * magnitude(rs) <= (cols - 1) * magnitude(cs)
    &&& (rows_apart * magnitude(rs)) % magnitude(cs) == 0
}

/// Two elements of a view that share a position lie as many rows apart as
/// [`meets`] allows.
proof fn lemma_shared_position(v: MatrixView, i1: int, j1: int, i2: int, j2: int)
    requires
        v.holds(i1, j1),
        v.holds(i2, j2),
        v.offset(i1, j1) == v.offset(i2, j2),
        v.cs != 0,
        i1 != i2,
    ensures
        1 <= magnitude(i1 - i2) < v.rows,
        meets(magnitude(i1 - i2), v.rs as int, v.cs as int, v.cols as int),
{
    let e = magnitude(i1 - i2);
    let f = magnitude(j1 - j2);
    let step = magnitude(v.rs as int);
    let unit = magnitude(v.cs as int);
    assert((i1 - i2) * v.rs + (j1 - j2) * v.cs == 0) by (nonlinear_arith)
        requires
            i1 * v.rs + j1 * v.cs == i2 * v.rs + j2 * v.cs,
    ;
    assert(e * step == f * unit) by (nonlinear_arith)
        requires
            (i1 - i2) * v.rs + (j1 - j2) * v.cs == 0,
            e == magnitude(i1 - i2),
            f == magnitude(j1 - j2),
            step == magnitude(v.rs as int),
            unit == magnitude(v.cs as int),
    ;
    assert(f * unit <= (v.cols - 1) * unit) by (nonlinear_arith)
        requires
            0 <= f <= v.cols - 1,
            0 <= unit,
    ;
    vstd::arithmetic::div_mod::lemma_mod_multiples_basic(f, unit);
}

impl MatrixView {
    /// Whether `(i, j)` names an element of the matrix.
    pub open spec fn holds(self, i: int, j: int) -> bool {
        0 <= i < self.rows && 0 <= j < self.cols
    }

    /// Buffer position of element `(i, j)`.
    pub open spec fn offset(self, i: int, j: int) -> int {
        self.origin + i * self.rs + j * self.cs
    }

    /// Every element of the matrix lies inside a buffer of `len` elements.
    pub open spec fn in_bounds(self, len: int) -> bool {
        forall|i: int, j: int| self.holds(i, j) ==> 0 <= #[trigger] self.offset(i, j) < len
    }

    /// No two elements of the matrix share a buffer position.
    pub open spec fn distinct(self) -> bool {
        forall|i1: int, j1: int, i2: int, j2: int|
            self.holds(i1, j1) && self.holds(i2, j2) && #[trigger] self.offset(i1, j1)
                == #[trigger] self.offset(i2, j2) ==> i1 == i2 && j1 == j2
    }

    /// Buffer position `idx` belongs to some element of the matrix.
    pub open spec fn addresses(self, idx: int) -> bool {
        exists|i: int, j: int| self.holds(i, j) && #[trigger] self.offset(i, j) == idx
    }

    /// The view with rows and columns exchanged, over the same buffer.
    pub open spec fn transposed_spec(self) -> MatrixView {
        MatrixView {
            rows: self.cols,
            cols: self.rows,
            origin: self.origin,
            rs: self.cs,
            cs: self.rs,
        }
    }

    /// The packed row-major view of a `rows x cols` matrix.
    pub open spec fn packed_spec(rows: usize, cols: usize) -> MatrixView {
        MatrixView { rows, cols, origin: 0, rs: cols as isize, cs: 1 }
    }

    /// The packed row-major view of a `rows x cols` matrix: element `(i, j)`
    /// at `i * cols + j`. `None` when `cols` does not fit a stride.
    pub fn packed(rows: usize, cols: usize) -> (r: Option<MatrixView>)
        ensures
            cols <= isize::MAX ==> r == Some(Self::packed_spec(rows, cols)),
            cols > isize::MAX ==> r.is_none(),
            r matches Some(v) ==> forall|i: int, j: int| #[trigger]
                v.offset(i, j) == i * cols + j,
    {
        if cols > isize::MAX as usize {
            None
        } else {
            Some(MatrixView { rows, cols, origin: 0, rs: cols as isize, cs: 1 })
        }
    }

    /// Exchanges the roles of rows and columns; element `(i, j)` of the
    /// result is element `(j, i)` of `self`.
    pub fn transposed(self) -> (r: MatrixView)
        ensures
            r == self.transposed_spec(),
            forall|i: int, j: int| #[trigger] r.offset(i, j) == self.offset(j, i),
            forall|len: int| self.in_bounds(len) <==> #[trigger] r.in_bounds(len),
    {
        let r = MatrixView {
            rows: self.cols,
            cols: self.rows,
            origin: self.origin,
            rs: self.cs,
            cs: self.rs,
        };
        proof {
            assert forall|len: int| self.in_bounds(len) <==> #[trigger] r.in_bounds(len) by {
                if self.in_bounds(len) {
                    assert forall|i: int, j: int| r.holds(i, j) implies 0 <= #[trigger] r.offset(
                        i,
                        j,
                    ) < len by {
                        assert(self.holds(j, i));
                        assert(r.offset(i, j) == self.offset(j, i));
                    }
                }
                if r.in_bounds(len) {
                    assert forall|i: int, j: int| self.holds(i, j) implies 0
                        <= #[trigger] self.offset(i, j) < len by {
                        assert(r.holds(j, i));
                        assert(self.offset(i, j) == r.offset(j, i));
                    }
                }
            }
        }
        r
    }

    /// Decides whether every element of the matrix lies inside a buffer of
    /// `len` elements. A matrix without elements fits any buffer.
    pub fn fits(&self, len: usize) -> (r: bool)
        ensures
            r == self.in_bounds(len as int),
    {
        if self.rows == 0 || self.cols == 0 {
            return true;
        }
        let last_row: i128 = (self.rows - 1) as i128;
        let last_col: i128 = (self.cols - 1) as i128;
        let rs: i128 = self.rs as i128;
        let cs: i128 = self.cs as i128;
        assert(-0x7fff_ffff_ffff_ffff_8000_0000_0000_0000 <= last_row * rs
            <= 0x7fff_ffff_ffff_ffff_8000_0000_0000_0000) by (nonlinear_arith)
            requires
                0 <= last_row <= 0xffff_ffff_ffff_ffff,
                -0x8000_0000_0000_0000 <= rs <= 0x8000_0000_0000_0000,
        ;
        assert(-0x7fff_ffff_ffff_ffff_8000_0000_0000_0000 <= last_col * cs
            <= 0x7fff_ffff_ffff_ffff_8000_0000_0000_0000) by (nonlinear_arith)
            requires
                0 <= last_col <= 0xffff_ffff_ffff_ffff,
                -0x8000_0000_0000_0000 <= cs <= 0x8000_0000_0000_0000,
        ;
        let down: i128 = last_row * rs;
        let across: i128 = last_col * cs;
        let low_r: i128 = if down < 0 { down } else { 0 };
        let high_r: i128 = if down > 0 { down } else { 0 };
        let low_c: i128 = if across < 0 { across } else { 0 };
        let high_c: i128 = if across > 0 { across } else { 0 };
        let origin: i128 = self.origin as i128;
        let ghost at_low_r: int = if self.rs < 0 { last_row as int } else { 0 };
        let ghost at_high_r: int = if self.rs > 0 { last_row as int } else { 0 };
        let ghost at_low_c: int = if self.cs < 0 { last_col as int } else { 0 };
        let ghost at_high_c: int = if self.cs > 0 { last_col as int } else { 0 };
        proof {
            lemma_reach(last_row as int, rs as int, 0);
            lemma_reach(last_col as int, cs as int, 0);
            assert(low_r == reach_low(last_row as int, rs as int)) by (nonlinear_arith)
                requires
                    low_r == (if last_row * rs < 0 { last_row * rs } else { 0 }),
                    last_row >= 0,
            ;
            assert(high_r == reach_high(last_row as int, rs as int)) by (nonlinear_arith)
                requires
                    high_r == (if last_row * rs > 0 { last_row * rs } else { 0 }),
                    last_row >= 0,
            ;
            assert(low_c == reach_low(last_col as int, cs as int)) by (nonlinear_arith)
                requires
                    low_c == (if last_col * cs < 0 { last_col * cs } else { 0 }),
                    last_col >= 0,
            ;
            assert(high_c == reach_high(last_col as int, cs as int)) by (nonlinear_arith)
                requires
                    high_c == (if last_col * cs > 0 { last_col * cs } else { 0 }),
                    last_col >= 0,
            ;
            assert(at_low_r * rs == low_r) by (nonlinear_arith)
                requires
                    low_r == reach_low(last_row as int, rs as int),
                    at_low_r == (if rs < 0 { last_row as int } else { 0 }),
            ;
            assert(at_high_r * rs == high_r) by (nonlinear_arith)
                requires
                    high_r == reach_high(last_row as int, rs as int),
                    at_high_r == (if rs > 0 { last_row as int } else { 0 }),
            ;
            assert(at_low_c * cs == low_c) by (nonlinear_arith)
                requires
                    low_c == reach_low(last_col as int, cs as int),
                    at_low_c == (if cs < 0 { last_col as int } else { 0 }),
            ;
            assert(at_high_c * cs == high_c) by (nonlinear_arith)
                requires
                    high_c == reach_high(last_col as int, cs as int),
                    at_high_c == (if cs > 0 { last_col as int } else { 0 }),
            ;
            assert(self.holds(at_low_r, at_low_c));
            assert(self.holds(at_high_r, at_high_c));
            assert(self.offset(at_low_r, at_low_c) == origin + low_r + low_c);
            assert(self.offset(at_high_r, at_high_c) == origin + high_r + high_c);
        }
        let fits_below: bool = origin + low_r >= 0 && origin + low_r + low_c >= 0;
        if !fits_below {
            return false;
        }
        if self.origin >= len {
            assert(self.holds(0, 0));
            assert(self.offset(0, 0) == self.origin) by (nonlinear_arith)
                requires
                    self.offset(0, 0) == self.origin + 0 * self.rs + 0 * self.cs,
            ;
            return false;
        }
        let room: i128 = len as i128 - 1 - origin;
        let fits_above: bool = high_r <= room && high_c <= room - high_r;
        if !fits_above {
            return false;
        }
        proof {
            assert forall|i: int, j: int| self.holds(i, j) implies 0 <= #[trigger] self.offset(
                i,
                j,
            ) < len by {
                lemma_reach(last_row as int, rs as int, i);
                lemma_reach(last_col as int, cs as int, j);
            }
        }
        true
    }

    /// Decides whether no two elements of the matrix share a buffer
    /// position, as a kernel asks of the matrix that it writes.
    pub fn is_distinct(&self) -> (r: bool)
        ensures
            r == self.distinct(),
    {
        if self.rows == 0 || self.cols == 0 {
            return true;
        }
        if self.cols >= 2 && self.cs == 0 {
            proof {
                assert(self.holds(0, 0) && self.holds(0, 1));
                assert(self.offset(0, 0) == self.offset(0, 1));
            }
            return false;
        }
        if self.rows >= 2 && self.rs == 0 {
            proof {
                assert(self.holds(0, 0) && self.holds(1, 0));
                assert(self.offset(0, 0) == self.offset(1, 0));
            }
            return false;
        }
        if self.cols == 1 {
            proof {
                assert forall|i1: int, j1: int, i2: int, j2: int|
                    self.holds(i1, j1) && self.holds(i2, j2) && #[trigger] self.offset(i1, j1)
                        == #[trigger] self.offset(i2, j2) implies i1 == i2 && j1 == j2 by {
                    assert(i1 == i2) by (nonlinear_arith)
                        requires
                            i1 * self.rs == i2 * self.rs,
                            self.rs != 0 || (0 <= i1 < 1 && 0 <= i2 < 1),
                    ;
                }
            }
            return true;
        }
        let rs: i128 = self.rs as i128;
        let cs: i128 = self.cs as i128;
        let step: i128 = if rs < 0 { -rs } else { rs };
        let unit: i128 = if cs < 0 { -cs } else { cs };
        let last_col: i128 = (self.cols - 1) as i128;
        assert(0 <= last_col * unit <= 0x7fff_ffff_ffff_ffff_8000_0000_0000_0000)
            by (nonlinear_arith)
            requires
                0 <= last_col <= 0xffff_ffff_ffff_ffff,
                0 <= unit <= 0x8000_0000_0000_0000,
        ;
        let reach: i128 = last_col * unit;
        let mut d: usize = 1;
        let mut span: i128 = step;
        while d < self.rows
            invariant
                1 <= d <= self.rows,
                self.cols >= 2,
                self.cs != 0,
                step == magnitude(self.rs as int),
                unit == magnitude(self.cs as int),
                last_col == self.cols - 1,
                reach == last_col * unit,
                0 <= step <= 0x8000_0000_0000_0000,
                d < self.rows ==> span == d * step,
                forall|e: int|
                    1 <= e < d ==> !#[trigger] meets(e, self.rs as int, self.cs as int, self.cols as int),
            decreases self.rows - d,
        {
            if span > reach {
                proof {
                    assert forall|e: int| d <= e implies !#[trigger] meets(
                        e,
                        self.rs as int,
                        self.cs as int,
                        self.cols as int,
                    ) by {
                        assert(e * step >= d * step) by (nonlinear_arith)
                            requires
                                d <= e,
                                0 <= step,
                        ;
                    }
                    self.lemma_no_meeting();
                }
                return true;
            }
            if span % unit == 0 {
                proof {
                    self.lemma_meeting(d as int);
                }
                return false;
            }
            assert(0 <= (d + 1) * step <= 0x7fff_ffff_ffff_ffff_8000_0000_0000_0000 && (d + 1)
                * step == d * step + step) by (nonlinear_arith)
                requires
                    0 <= d + 1 <= 0xffff_ffff_ffff_ffff,
                    0 <= step <= 0x8000_0000_0000_0000,
            ;
            d += 1;
            span = span + step;
        }
        proof {
            self.lemma_no_meeting();
        }
        true
    }

    /// Where no two rows can meet and the column stride is not zero, no two
    /// elements share a position.
    proof fn lemma_no_meeting(self)
        requires
            self.cs != 0,
            forall|e: int|
                1 <= e < self.rows ==> !#[trigger] meets(
                    e,
                    self.rs as int,
                    self.cs as int,
                    self.cols as int,
                ),
        ensures
            self.distinct(),
    {
        assert forall|i1: int, j1: int, i2: int, j2: int|
            self.holds(i1, j1) && self.holds(i2, j2) && #[trigger] self.offset(i1, j1)
                == #[trigger] self.offset(i2, j2) implies i1 == i2 && j1 == j2 by {
            if i1 != i2 {
                lemma_shared_position(self, i1, j1, i2, j2);
            } else {
                assert(j1 == j2) by (nonlinear_arith)
                    requires
                        j1 * self.cs == j2 * self.cs,
                        self.cs != 0,
                ;
            }
        }
    }

    /// Where two rows `d` apart can meet, two elements share a position.
    proof fn lemma_meeting(self, d: int)
        requires
            1 <= d < self.rows,
            self.cols >= 1,
            self.cs != 0,
            meets(d, self.rs as int, self.cs as int, self.cols as int),
        ensures
            !self.distinct(),
    {
        let step = magnitude(self.rs as int);
        let unit = magnitude(self.cs as int);
        let span = d * step;
        let q = span / unit;
        vstd::arithmetic::div_mod::lemma_fundamental_div_mod(span, unit);
        assert(0 <= q <= self.cols - 1 && q * unit == span) by (nonlinear_arith)
            requires
                span == unit * q + 0,
                0 <= span <= (self.cols - 1) * unit,
                unit > 0,
        ;
        let along = (self.rs < 0) == (self.cs < 0);
        let j1 = if along { 0 } else { q };
        let j2 = if along { q } else { 0 };
        assert(d * self.rs + j1 * self.cs == j2 * self.cs) by (nonlinear_arith)
            requires
                q * unit == d * step,
                step == magnitude(self.rs as int),
                unit == magnitude(self.cs as int),
                along == ((self.rs < 0) == (self.cs < 0)),
                j1 == (if along { 0 } else { q }),
                j2 == (if along { q } else { 0 }),
        ;
        assert(self.holds(d, j1) && self.holds(0, j2));
        assert(self.offset(d, j1) == self.offset(0, j2));
    }

    /// Buffer position of element `(i, j)`.
    pub fn index(&self, i: usize, j: usize) -> (r: usize)
        requires
            self.holds(i as int, j as int),
            0 <= self.offset(i as int, j as int) <= usize::MAX,
        ensures
            r == self.offset(i as int, j as int),
    {
        let row: i128 = i as i128;
        let col: i128 = j as i128;
        let rs: i128 = self.rs as i128;
        let cs: i128 = self.cs as i128;
        assert(-0x7fff_ffff_ffff_ffff_8000_0000_0000_0000 <= row * rs
            <= 0x7fff_ffff_ffff_ffff_8000_0000_0000_0000) by (nonlinear_arith)
            requires
                0 <= row <= 0xffff_ffff_ffff_ffff,
                -0x8000_0000_0000_0000 <= rs <= 0x8000_0000_0000_0000,
        ;
        assert(-0x7fff_ffff_ffff_ffff_8000_0000_0000_0000 <= col * cs
            <= 0x7fff_ffff_ffff_ffff_8000_0000_0000_0000) by (nonlinear_arith)
            requires
                0 <= col <= 0xffff_ffff_ffff_ffff,
                -0x8000_0000_0000_0000 <= cs <= 0x8000_0000_0000_0000,
        ;
        let down: i128 = row * rs;
        let across: i128 = col * cs;
        let shift: i128 = down + across;
        let at: i128 = self.origin as i128 + shift;
        at as usize
    }
}

/// A packed row-major matrix lies inside any buffer that has room for its
/// `rows * cols` elements, and no two of its elements share a position.
pub proof fn lemma_packed(rows: usize, cols: usize, len: int)
    requires
        cols <= isize::MAX,
        rows * cols <= len,
    ensures
        MatrixView::packed_spec(rows, cols).in_bounds(len),
        MatrixView::packed_spec(rows, cols).distinct(),
{
    let v = MatrixView::packed_spec(rows, cols);
    assert forall|i: int, j: int| v.holds(i, j) implies 0 <= #[trigger] v.offset(i, j) < len by {
        assert(0 <= i * cols && (i + 1) * cols <= rows * cols && (i + 1) * cols == i * cols + cols)
            by (nonlinear_arith)
            requires
                0 <= i < rows,
                0 <= cols,
        ;
    }
    assert forall|i1: int, j1: int, i2: int, j2: int|
        v.holds(i1, j1) && v.holds(i2, j2) && #[trigger] v.offset(i1, j1) == #[trigger] v.offset(
            i2,
            j2,
        ) implies i1 == i2 && j1 == j2 by {
        assert(i1 == i2) by (nonlinear_arith)
            requires
                i1 * cols + j1 == i2 * cols + j2,
                0 <= j1 < cols,
                0 <= j2 < cols,
        ;
    }
}

} // verus!
