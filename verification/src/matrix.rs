//! Dense matrices of real numbers, each entry held as a binary64 pattern.
//!
//! The storage is a dynamically sized `nalgebra` matrix of `u64`. What it
//! holds is known to the verifier only through the contracts of the few
//! private functions below that touch it; everything else in this library is
//! proved from those.
use vstd::prelude::*;
use vstd::arithmetic::div_mod::lemma_fundamental_div_mod_converse;
use crate::error::RmtError;

verus! {

/// What a matrix is, mathematically: its shape and the entry at each place.
pub struct Grid {
    pub rows: nat,
    pub cols: nat,
    pub cells: Seq<Seq<u64>>,
}

impl Grid {
    /// There are `rows` rows and each has `cols` entries.
    pub open spec fn wf(self) -> bool {
        &&& self.cells.len() == self.rows
        &&& forall|i: int| 0 <= i < self.rows ==> (#[trigger] self.cells[i]).len() == self.cols
    }

    /// The grid whose rows are the consecutive runs of `cols` items of `data`.
    pub open spec fn from_row_major(rows: nat, cols: nat, data: Seq<u64>) -> Grid {
        Grid {
            rows,
            cols,
            cells: Seq::new(rows, |i: int| Seq::new(cols, |j: int| data[i * cols + j])),
        }
    }

    /// The rows laid end to end.
    pub open spec fn row_major(self) -> Seq<u64> {
        Seq::new(
            self.rows * self.cols,
            |k: int| self.cells[k / (self.cols as int)][k % (self.cols as int)],
        )
    }

    /// The grid with every entry equal to `value`.
    pub open spec fn constant(rows: nat, cols: nat, value: u64) -> Grid {
        Grid { rows, cols, cells: Seq::new(rows, |i: int| Seq::new(cols, |j: int| value)) }
    }

    /// The same grid but for the entry at (`i`, `j`), which is `value`.
    pub open spec fn with_cell(self, i: int, j: int, value: u64) -> Grid {
        Grid { cells: self.cells.update(i, self.cells[i].update(j, value)), ..self }
    }

    /// The grid with rows and columns exchanged.
    pub open spec fn transposed(self) -> Grid {
        Grid {
            rows: self.cols,
            cols: self.rows,
            cells: Seq::new(self.cols, |j: int| Seq::new(self.rows, |i: int| self.cells[i][j])),
        }
    }

    /// Square, and equal to its transpose entry by entry.
    pub open spec fn is_symmetric(self) -> bool {
        &&& self.rows == self.cols
        &&& forall|i: int, j: int|
            0 <= i < self.rows && 0 <= j < self.cols ==> self.cells[i][j] == self.cells[j][i]
    }
}

/// A place inside a `rows` by `cols` grid has its row-major index inside the
/// `rows * cols` items, and the index determines the place.
pub proof fn lemma_row_major_index(rows: nat, cols: nat, i: int, j: int)
    requires
        0 <= i < rows,
        0 <= j < cols,
    ensures
        0 <= i * cols + j < rows * cols,
        (i * cols + j) / (cols as int) == i,
        (i * cols + j) % (cols as int) == j,
{
    assert(0 <= i * cols + j < rows * cols) by (nonlinear_arith)
        requires
            0 <= i < rows,
            0 <= j < cols,
    ;
    assert(i * cols == (cols as int) * i) by (nonlinear_arith);
    lemma_fundamental_div_mod_converse(i * cols + j, cols as int, i, j);
}

/// Laying the rows of a well-formed grid end to end and cutting them apart
/// again gives the grid back.
pub proof fn lemma_row_major_round_trip(g: Grid)
    requires
        g.wf(),
    ensures
        Grid::from_row_major(g.rows, g.cols, g.row_major()) == g,
{
    let h = Grid::from_row_major(g.rows, g.cols, g.row_major());
    assert forall|i: int| 0 <= i < g.rows implies #[trigger] h.cells[i] =~= g.cells[i] by {
        assert forall|j: int| 0 <= j < g.cols implies h.cells[i][j] == g.cells[i][j] by {
            lemma_row_major_index(g.rows, g.cols, i, j);
        }
    }
    assert(h.cells =~= g.cells);
}

/// Exchanging rows and columns twice gives the grid back.
pub proof fn lemma_transposed_twice(g: Grid)
    requires
        g.wf(),
    ensures
        g.transposed().transposed() == g,
{
    let h = g.transposed().transposed();
    assert forall|i: int| 0 <= i < g.rows implies #[trigger] h.cells[i] =~= g.cells[i] by {}
    assert(h.cells =~= g.cells);
}

/// A grid is symmetric exactly when it is its own transpose.
pub proof fn lemma_symmetric_is_own_transpose(g: Grid)
    requires
        g.wf(),
    ensures
        g.is_symmetric() <==> g.transposed() == g,
{
    let t = g.transposed();
    if g.is_symmetric() {
        assert forall|i: int| 0 <= i < g.rows implies #[trigger] t.cells[i] =~= g.cells[i] by {}
        assert(t.cells =~= g.cells);
    }
    if t == g {
        assert forall|i: int, j: int| 0 <= i < g.rows && 0 <= j < g.cols implies g.cells[i][j]
            == g.cells[j][i] by {
            assert(t.cells[i][j] == g.cells[j][i]);
        }
    }
}

/// A dense matrix.
///
/// The entries are kept in a `nalgebra::DMatrix<u64>`. The verifier cannot
/// look into it (the storage type of `nalgebra` is bounded by a trait of its
/// own), so the type is opaque here and is known by `stored_cells` and
/// `stored_cols` alone.
#[verifier::external_body]
#[derive(Debug)]
pub struct Matrix {
    inner: nalgebra::DMatrix<u64>,
}

/// The rows of the stored matrix, first to last: as many as it has rows, each
/// holding the entries of that row, first column to last.
pub uninterp spec fn stored_cells(m: Matrix) -> Seq<Seq<u64>>;

/// The number of columns that the stored matrix was made with.
pub uninterp spec fn stored_cols(m: Matrix) -> nat;

/// The most entries that a matrix can have: their bytes, eight each, must be
/// addressable.
pub open spec fn max_entries() -> int {
    isize::MAX / 8
}

/// Counts the entries of a `rows` by `cols` matrix. There is no count
/// exactly when there would be more than `max_entries()` of them.
pub fn entry_count(rows: usize, cols: usize) -> (r: Option<usize>)
    ensures
        rows * cols > max_entries() ==> r is None,
        rows * cols <= max_entries() ==> r == Some((rows * cols) as usize),
{
    let limit: usize = (isize::MAX as usize) / 8;
    match rows.checked_mul(cols) {
        None => None,
        Some(len) => if len > limit {
            None
        } else {
            Some(len)
        },
    }
}

impl View for Matrix {
    type V = Grid;

    open spec fn view(&self) -> Grid {
        Grid {
            rows: stored_cells(*self).len(),
            cols: stored_cols(*self),
            cells: Seq::new(
                stored_cells(*self).len(),
                |i: int| Seq::new(stored_cols(*self), |j: int| stored_cells(*self)[i][j]),
            ),
        }
    }
}

/// `nalgebra::DMatrix::<u64>::zeros`: a matrix of `rows` rows and `cols`
/// columns whose entries are all zero. The product of the two must not
/// overflow, and the entries must be addressable.
#[verifier::external_body]
fn stored_zeros(rows: usize, cols: usize) -> (m: Matrix)
    requires
        rows * cols <= max_entries(),
    ensures
        stored_cols(m) == cols,
        stored_cells(m) == Seq::new(rows as nat, |i: int| Seq::new(cols as nat, |j: int| 0u64)),
{
    Matrix { inner: nalgebra::DMatrix::<u64>::zeros(rows, cols) }
}

/// `nalgebra::Matrix::nrows`: the number of rows.
#[verifier::external_body]
fn stored_nrows(m: &Matrix) -> (r: usize)
    ensures
        r == stored_cells(*m).len(),
{
    m.inner.nrows()
}

/// `nalgebra::Matrix::ncols`: the number of columns.
#[verifier::external_body]
fn stored_ncols(m: &Matrix) -> (c: usize)
    ensures
        c == stored_cols(*m),
{
    m.inner.ncols()
}

/// `nalgebra::Matrix::index` with a (row, column) pair: the entry at a place
/// inside the matrix. Outside the matrix the call panics.
#[verifier::external_body]
fn stored_get(m: &Matrix, i: usize, j: usize) -> (value: u64)
    requires
        i < stored_cells(*m).len(),
        j < stored_cols(*m),
    ensures
        value == stored_cells(*m)[i as int][j as int],
{
    m.inner[(i, j)]
}

/// `nalgebra::Matrix::index_mut` with a (row, column) pair, assigned to: the
/// entry at a place inside the matrix becomes `value`, and nothing else
/// changes. Outside the matrix the call panics.
#[verifier::external_body]
fn stored_set(m: &mut Matrix, i: usize, j: usize, value: u64)
    requires
        i < stored_cells(*old(m)).len(),
        j < stored_cols(*old(m)),
    ensures
        stored_cols(*final(m)) == stored_cols(*old(m)),
        stored_cells(*final(m)).len() == stored_cells(*old(m)).len(),
        forall|a: int, b: int|
            0 <= a < stored_cells(*old(m)).len() && 0 <= b < stored_cols(*old(m)) ==> (
            #[trigger] stored_cells(*final(m))[a][b]) == if a == i && b == j {
                value
            } else {
                stored_cells(*old(m))[a][b]
            },
{
    m.inner[(i, j)] = value;
}

/// `nalgebra::Matrix::transpose`: a new matrix with as many rows as `m` has
/// columns and as many columns as `m` has rows, whose entry at (`j`, `i`) is
/// the entry of `m` at (`i`, `j`).
#[verifier::external_body]
fn stored_transpose(m: &Matrix) -> (t: Matrix)
    ensures
        stored_cells(t).len() == stored_cols(*m),
        stored_cols(t) == stored_cells(*m).len(),
        forall|j: int, i: int|
            0 <= j < stored_cols(*m) && 0 <= i < stored_cells(*m).len() ==> (
            #[trigger] stored_cells(t)[j][i]) == stored_cells(*m)[i][j],
{
    Matrix { inner: m.inner.transpose() }
}

impl Matrix {
    /// The view of any matrix is a well-formed grid.
    pub proof fn lemma_view_wf(&self)
        ensures
            self@.wf(),
    {
    }

    /// Builds the `rows` by `cols` matrix whose entries are all zero.
    /// Fails exactly when the matrix would have more than `max_entries()`
    /// entries.
    pub fn zeros(rows: usize, cols: usize) -> (r: Result<Matrix, RmtError>)
        ensures
            rows * cols > max_entries() ==> r == Err::<Matrix, RmtError>(
                RmtError::InvalidDimension,
            ),
            rows * cols <= max_entries() ==> r is Ok && r->Ok_0@ == Grid::constant(
                rows as nat,
                cols as nat,
                0,
            ),
    {
        match entry_count(rows, cols) {
            None => Err(RmtError::InvalidDimension),
            Some(_) => {
                let m = stored_zeros(rows, cols);
                proof {
                    let g = Grid::constant(rows as nat, cols as nat, 0);
                    assert forall|i: int| 0 <= i < rows implies #[trigger] m@.cells[i]
                        =~= g.cells[i] by {}
                    assert(m@.cells =~= g.cells);
                }
                Ok(m)
            },
        }
    }

    /// Builds the `rows` by `cols` matrix whose rows are the consecutive runs
    /// of `cols` items of `data`. Fails exactly when `data` does not hold
    /// `rows * cols` items or that is more than `max_entries()`.
    pub fn from_row_major(rows: usize, cols: usize, data: &[u64]) -> (r: Result<
        Matrix,
        RmtError,
    >)
        ensures
            data@.len() == rows * cols && rows * cols <= max_entries() ==> r is Ok && r->Ok_0@
                == Grid::from_row_major(rows as nat, cols as nat, data@),
            !(data@.len() == rows * cols && rows * cols <= max_entries()) ==> r == Err::<
                Matrix,
                RmtError,
            >(RmtError::InvalidDimension),
    {
        let mut m: Matrix = match Matrix::zeros(rows, cols) {
            Err(e) => { return Err(e); },
            Ok(m) => m,
        };
        if data.len() != rows * cols {
            return Err(RmtError::InvalidDimension);
        }
        let mut i: usize = 0;
        while i < rows
            invariant
                i <= rows,
                data@.len() == rows * cols,
                rows * cols <= usize::MAX,
                m@.rows == rows,
                m@.cols == cols,
                forall|a: int, b: int|
                    0 <= a < i && 0 <= b < cols ==> #[trigger] m@.cells[a][b] == data@[a * cols
                        + b],
            decreases rows - i,
        {
            let mut j: usize = 0;
            while j < cols
                invariant
                    i < rows,
                    j <= cols,
                    data@.len() == rows * cols,
                    rows * cols <= usize::MAX,
                    m@.rows == rows,
                    m@.cols == cols,
                    forall|a: int, b: int|
                        0 <= a < rows && 0 <= b < cols && (a < i || (a == i && b < j))
                            ==> #[trigger] m@.cells[a][b] == data@[a * cols + b],
                decreases cols - j,
            {
                proof {
                    lemma_row_major_index(rows as nat, cols as nat, i as int, j as int);
                }
                let ghost before = m@;
                m.put(i, j, data[i * cols + j]);
                proof {
                    assert forall|a: int, b: int|
                        0 <= a < rows && 0 <= b < cols && (a < i || (a == i && b < j + 1))
                        implies #[trigger] m@.cells[a][b] == data@[a * cols + b] by {
                        if a == i && b == j {
                        } else {
                            assert(m@.cells[a][b] == before.cells[a][b]);
                        }
                    }
                }
                j += 1;
            }
            i += 1;
        }
        proof {
            let want = Grid::from_row_major(rows as nat, cols as nat, data@);
            assert forall|a: int| 0 <= a < rows implies #[trigger] m@.cells[a]
                =~= want.cells[a] by {}
            assert(m@.cells =~= want.cells);
        }
        Ok(m)
    }

    /// The number of rows.
    pub fn rows(&self) -> (r: usize)
        ensures
            r == self@.rows,
    {
        stored_nrows(self)
    }

    /// The number of columns.
    pub fn cols(&self) -> (c: usize)
        ensures
            c == self@.cols,
    {
        stored_ncols(self)
    }

    /// The number of rows and the number of columns.
    pub fn shape(&self) -> (s: (usize, usize))
        ensures
            s.0 == self@.rows,
            s.1 == self@.cols,
    {
        (stored_nrows(self), stored_ncols(self))
    }

    /// The entry at row `i`, column `j`, if there is such a place.
    pub fn get(&self, i: usize, j: usize) -> (r: Option<u64>)
        ensures
            r == if i < self@.rows && j < self@.cols {
                Some(self@.cells[i as int][j as int])
            } else {
                None
            },
    {
        if i < self.rows() && j < self.cols() {
            Some(self.entry(i, j))
        } else {
            None
        }
    }

    /// The entry at a place that is known to exist.
    pub fn entry(&self, i: usize, j: usize) -> (r: u64)
        requires
            i < self@.rows,
            j < self@.cols,
        ensures
            r == self@.cells[i as int][j as int],
    {
        stored_get(self, i, j)
    }

    /// Writes `value` at a place that is known to exist.
    pub fn put(&mut self, i: usize, j: usize, value: u64)
        requires
            i < old(self)@.rows,
            j < old(self)@.cols,
        ensures
            final(self)@ == old(self)@.with_cell(i as int, j as int, value),
    {
        stored_set(self, i, j, value);
        proof {
            let after = self@;
            let want = old(self)@.with_cell(i as int, j as int, value);
            assert forall|a: int| 0 <= a < after.rows implies #[trigger] after.cells[a]
                =~= want.cells[a] by {}
            assert(after.cells =~= want.cells);
        }
    }

    /// The matrix with rows and columns exchanged.
    pub fn transpose(&self) -> (t: Matrix)
        ensures
            t@ == self@.transposed(),
    {
        let t = stored_transpose(self);
        proof {
            let want = self@.transposed();
            assert forall|j: int| 0 <= j < want.rows implies #[trigger] t@.cells[j]
                =~= want.cells[j] by {}
            assert(t@.cells =~= want.cells);
        }
        t
    }

    /// Tells whether the matrix is square and equals its transpose, entry by
    /// entry and bit for bit.
    pub fn is_symmetric(&self) -> (r: bool)
        ensures
            r == self@.is_symmetric(),
    {
        let n: usize = self.rows();
        if n != self.cols() {
            return false;
        }
        let mut i: usize = 0;
        while i < n
            invariant
                i <= n,
                n == self@.rows,
                n == self@.cols,
                forall|a: int, b: int|
                    0 <= a < i && 0 <= b < n ==> self@.cells[a][b] == self@.cells[b][a],
            decreases n - i,
        {
            let mut j: usize = 0;
            while j < n
                invariant
                    i < n,
                    j <= n,
                    n == self@.rows,
                    n == self@.cols,
                    forall|a: int, b: int|
                        0 <= a < i && 0 <= b < n ==> self@.cells[a][b] == self@.cells[b][a],
                    forall|b: int|
                        0 <= b < j ==> self@.cells[i as int][b] == self@.cells[b][i as int],
                decreases n - j,
            {
                if self.entry(i, j) != self.entry(j, i) {
                    return false;
                }
                j += 1;
            }
            i += 1;
        }
        true
    }

    /// The entries, row after row.
    pub fn to_row_major(&self) -> (v: Vec<u64>)
        ensures
            v@ == self@.row_major(),
    {
        let rows: usize = self.rows();
        let cols: usize = self.cols();
        let ghost want = self@.row_major();
        let mut v: Vec<u64> = Vec::new();
        let mut i: usize = 0;
        while i < rows
            invariant
                i <= rows,
                rows == self@.rows,
                cols == self@.cols,
                want == self@.row_major(),
                v@.len() == i * cols,
                v@.len() <= want.len(),
                v@ == want.take(v@.len() as int),
            decreases rows - i,
        {
            let mut j: usize = 0;
            while j < cols
                invariant
                    i < rows,
                    j <= cols,
                    rows == self@.rows,
                    cols == self@.cols,
                    want == self@.row_major(),
                    v@.len() == i * cols + j,
                    v@.len() <= want.len(),
                    v@ == want.take(v@.len() as int),
                decreases cols - j,
            {
                proof {
                    lemma_row_major_index(rows as nat, cols as nat, i as int, j as int);
                }
                let ghost k = v@.len() as int;
                v.push(self.entry(i, j));
                proof {
                    assert(v@ =~= want.take(k + 1));
                }
                j += 1;
            }
            proof {
                assert((i + 1) * cols == i * cols + cols) by (nonlinear_arith);
            }
            i += 1;
        }
        proof {
            assert(v@ =~= want);
        }
        v
    }
}

} // verus!
