use vstd::prelude::*;

verus! {

/// Multiplication of one value by another, with a result type of its own for
/// each pairing — a matrix by a vector, a transposed view by a vector.
pub trait Multiply<S, T> {
    fn multiply(&self, arg: &S) -> T;
}

/// How a two-dimensional matrix lies over a flat buffer: `dims` holds the
/// extent of each axis, and `step` how far one unit along each axis moves
/// through the buffer. A freshly built layout is row-major; transposing swaps
/// the entries of `dims` and `step` instead of copying the buffer, so a
/// transposed layout walks the same buffer column-first.
#[derive(Clone, Debug)]
pub struct Layout {
    pub dims: Vec<usize>,
    pub step: Vec<usize>,
    pub size: usize,
}

impl Layout {
    /// Both axes are present, `size` counts the buffer cells, and the steps
    /// are those of a row-major walk or of its transpose.
    pub open spec fn wf(self) -> bool {
        &&& self.dims.len() == 2
        &&& self.step.len() == 2
        &&& self.size == self.dims[0] * self.dims[1]
        &&& (self.is_row_major() || self.is_transposed())
    }

    /// Rows are contiguous: one column over is the next buffer cell.
    pub open spec fn is_row_major(self) -> bool {
        &&& self.dims.len() == 2
        &&& self.step.len() == 2
        &&& self.step[0] == self.dims[1]
        &&& self.step[1] == 1
    }

    /// The column-first walk of a row-major buffer: one row down is the next
    /// buffer cell, one column over is a whole buffer row.
    pub open spec fn is_transposed(self) -> bool {
        &&& self.dims.len() == 2
        &&& self.step.len() == 2
        &&& self.step[0] == 1
        &&& self.step[1] == self.dims[0]
    }

    /// The buffer cell that holds entry `(i, j)`.
    pub open spec fn index_spec(self, i: int, j: int) -> int {
        i * self.step[0] + j * self.step[1]
    }

    /// `other` with its axes and steps swapped, over the same buffer.
    pub open spec fn is_transpose_of(self, other: Layout) -> bool {
        &&& self.dims@ == seq![other.dims[1], other.dims[0]]
        &&& self.step@ == seq![other.step[1], other.step[0]]
        &&& self.size == other.size
    }

    /// A fresh row-major layout for a `rows` by `cols` matrix.
    pub fn new(rows: usize, cols: usize) -> (r: Layout)
        requires
            rows * cols <= usize::MAX,
        ensures
            r.wf(),
            r.is_row_major(),
            r.dims@ == seq![rows, cols],
            r.step@ == seq![cols, 1usize],
            r.size == rows * cols,
    {
        let size = rows * cols;
        let r = Layout { dims: vec![rows, cols], step: vec![cols, 1], size };
        proof {
            assert(r.dims@ =~= seq![rows, cols]);
            assert(r.step@ =~= seq![cols, 1usize]);
        }
        r
    }

    /// The buffer cell that holds entry `(i, j)`, reached through the steps;
    /// it always lies inside the buffer.
    pub fn index(&self, i: usize, j: usize) -> (r: usize)
        requires
            self.wf(),
            i < self.dims[0],
            j < self.dims[1],
        ensures
            r == self.index_spec(i as int, j as int),
            r < self.size,
    {
        proof {
            self.lemma_index_in_bounds(i as int, j as int);
        }
        i * self.step[0] + j * self.step[1]
    }

    /// Every in-bounds entry maps to a cell inside the buffer.
    pub proof fn lemma_index_in_bounds(self, i: int, j: int)
        requires
            self.wf(),
            0 <= i < self.dims[0],
            0 <= j < self.dims[1],
        ensures
            0 <= self.index_spec(i, j) < self.size,
    {
        let d0 = self.dims[0] as int;
        let d1 = self.dims[1] as int;
        if self.is_row_major() {
            assert(0 <= i * d1 + j * 1 < d0 * d1) by (nonlinear_arith)
                requires
                    0 <= i < d0,
                    0 <= j < d1,
            ;
        } else {
            assert(0 <= i * 1 + j * d0 < d0 * d1) by (nonlinear_arith)
                requires
                    0 <= i < d0,
                    0 <= j < d1,
            ;
        }
    }

    /// Two distinct in-bounds entries never share a buffer cell.
    pub proof fn lemma_index_injective(self, i1: int, j1: int, i2: int, j2: int)
        requires
            self.wf(),
            0 <= i1 < self.dims[0],
            0 <= j1 < self.dims[1],
            0 <= i2 < self.dims[0],
            0 <= j2 < self.dims[1],
            self.index_spec(i1, j1) == self.index_spec(i2, j2),
        ensures
            i1 == i2,
            j1 == j2,
    {
        let d0 = self.dims[0] as int;
        let d1 = self.dims[1] as int;
        if self.is_row_major() {
            assert(i1 == i2 && j1 == j2) by (nonlinear_arith)
                requires
                    0 <= i1 < d0,
                    0 <= j1 < d1,
                    0 <= i2 < d0,
                    0 <= j2 < d1,
                    i1 * d1 + j1 * 1 == i2 * d1 + j2 * 1,
            ;
        } else {
            assert(i1 == i2 && j1 == j2) by (nonlinear_arith)
                requires
                    0 <= i1 < d0,
                    0 <= j1 < d1,
                    0 <= i2 < d0,
                    0 <= j2 < d1,
                    i1 * 1 + j1 * d0 == i2 * 1 + j2 * d0,
            ;
        }
    }

    /// Every buffer cell shows through the layout: each position below
    /// `size` is the cell of some in-bounds entry — together with
    /// injectivity, of exactly one.
    pub proof fn lemma_index_surjective(self, c: int)
        requires
            self.wf(),
            0 <= c < self.size,
        ensures
            exists|i: int, j: int|
                0 <= i < self.dims[0] && 0 <= j < self.dims[1] && #[trigger] self.index_spec(
                    i,
                    j,
                ) == c,
    {
        let d0 = self.dims[0] as int;
        let d1 = self.dims[1] as int;
        if self.is_row_major() {
            let i = c / d1;
            let j = c % d1;
            assert(d1 >= 1) by (nonlinear_arith)
                requires
                    0 <= c < d0 * d1,
                    d0 >= 0,
                    d1 >= 0,
            ;
            vstd::arithmetic::div_mod::lemma_fundamental_div_mod(c, d1);
            vstd::arithmetic::div_mod::lemma_mod_bound(c, d1);
            assert(0 <= i < d0) by (nonlinear_arith)
                requires
                    c == d1 * i + j,
                    0 <= j < d1,
                    0 <= c < d0 * d1,
            ;
            assert(self.index_spec(i, j) == c);
        } else {
            let j = c / d0;
            let i = c % d0;
            assert(d0 >= 1) by (nonlinear_arith)
                requires
                    0 <= c < d0 * d1,
                    d0 >= 0,
                    d1 >= 0,
            ;
            vstd::arithmetic::div_mod::lemma_fundamental_div_mod(c, d0);
            vstd::arithmetic::div_mod::lemma_mod_bound(c, d0);
            assert(0 <= j < d1) by (nonlinear_arith)
                requires
                    c == d0 * j + i,
                    0 <= i < d0,
                    0 <= c < d0 * d1,
            ;
            assert(self.index_spec(i, j) == c);
        }
    }

    /// The transposed layout: axes swapped, steps swapped, the same buffer.
    pub fn transpose(&self) -> (r: Layout)
        requires
            self.wf(),
        ensures
            r.wf(),
            r.is_transpose_of(*self),
    {
        let r = Layout {
            dims: vec![self.dims[1], self.dims[0]],
            step: vec![self.step[1], self.step[0]],
            size: self.size,
        };
        proof {
            assert(r.dims@ =~= seq![self.dims[1], self.dims[0]]);
            assert(r.step@ =~= seq![self.step[1], self.step[0]]);
        }
        r
    }

    /// Transposing twice restores the layout: the same axis extents and the
    /// same steps, so every entry `(i, j)` is read from the same buffer cell
    /// as before the two transposes.
    pub proof fn lemma_transpose_involution(a: Layout, b: Layout, c: Layout)
        requires
            a.wf(),
            b.is_transpose_of(a),
            c.is_transpose_of(b),
        ensures
            c.dims@ == a.dims@,
            c.step@ == a.step@,
            c.size == a.size,
            forall|i: int, j: int| c.index_spec(i, j) == a.index_spec(i, j),
    {
        assert(c.dims@ =~= a.dims@);
        assert(c.step@ =~= a.step@);
    }
}

} // verus!
