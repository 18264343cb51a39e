//! Random matrix ensembles, built from standard-normal draws that the caller
//! supplies in the order in which they were drawn.
use vstd::prelude::*;
use crate::error::RmtError;
use crate::matrix::{entry_count, lemma_row_major_index, max_entries, Grid, Matrix};

verus! {

/// The number of places on or above the diagonal in the rows before row `i`
/// of an `n` by `n` grid: `n + (n - 1) + ... + (n - i + 1)`.
pub open spec fn upper_offset(n: int, i: int) -> int {
    i * (2 * n - i + 1) / 2
}

/// The position of place (`i`, `j`), `i <= j`, when the places on or above
/// the diagonal are walked row by row, each row from the diagonal rightwards.
pub open spec fn upper_index(n: int, i: int, j: int) -> int {
    upper_offset(n, i) + (j - i)
}

/// The position of the draw that a Wigner matrix holds at (`i`, `j`): the two
/// places of a mirrored pair share the draw of the one above the diagonal.
pub open spec fn pair_index(n: int, i: int, j: int) -> int {
    if i <= j {
        upper_index(n, i, j)
    } else {
        upper_index(n, j, i)
    }
}

/// The number of draws that an `n` by `n` Wigner matrix takes.
pub open spec fn spec_wigner_draw_count(n: int) -> int {
    n * (n + 1) / 2
}

/// The Wigner matrix of dimension `n` that the draws determine.
pub open spec fn wigner_grid(n: nat, draws: Seq<u64>) -> Grid {
    Grid {
        rows: n,
        cols: n,
        cells: Seq::new(
            n,
            |i: int| Seq::new(n, |j: int| draws[pair_index(n as int, i, j)]),
        ),
    }
}

/// Row `i + 1` starts `n - i` places after row `i`.
pub proof fn lemma_upper_offset_step(n: int, i: int)
    ensures
        upper_offset(n, i + 1) == upper_offset(n, i) + (n - i),
        upper_offset(n, 0) == 0,
{
    assert((i + 1) * (2 * n - (i + 1) + 1) == i * (2 * n - i + 1) + 2 * (n - i))
        by (nonlinear_arith);
    assert(0 * (2 * n - 0 + 1) == 0) by (nonlinear_arith);
}

/// Later rows start later.
pub proof fn lemma_upper_offset_monotonic(n: int, a: int, b: int)
    requires
        0 <= a <= b <= n,
    ensures
        upper_offset(n, a) <= upper_offset(n, b),
    decreases b - a,
{
    if a < b {
        lemma_upper_offset_step(n, b - 1);
        lemma_upper_offset_monotonic(n, a, b - 1);
    }
}

/// The walk of the upper triangle ends at the draw count.
pub proof fn lemma_upper_offset_total(n: int)
    ensures
        upper_offset(n, n) == spec_wigner_draw_count(n),
{
    assert(n * (2 * n - n + 1) == n * (n + 1)) by (nonlinear_arith);
}

/// Every place on or above the diagonal has its position among the draws.
pub proof fn lemma_upper_index_in_range(n: int, i: int, j: int)
    requires
        0 <= i <= j < n,
    ensures
        0 <= upper_offset(n, i) <= upper_index(n, i, j) < upper_offset(n, i + 1)
            <= spec_wigner_draw_count(n),
{
    lemma_upper_offset_step(n, i);
    lemma_upper_offset_step(n, 0);
    lemma_upper_offset_monotonic(n, 0, i);
    lemma_upper_offset_monotonic(n, i + 1, n);
    lemma_upper_offset_total(n);
}

/// The product of two consecutive numbers is even.
proof fn lemma_consecutive_product_even(n: nat)
    ensures
        (n * (n + 1)) % 2 == 0,
    decreases n,
{
    if n == 0 {
        assert(0 * (0 + 1) == 0) by (nonlinear_arith);
    } else {
        lemma_consecutive_product_even((n - 1) as nat);
        assert(n * (n + 1) == (n - 1) * ((n - 1) + 1) + 2 * n) by (nonlinear_arith);
    }
}

/// Counts the draws that an `n` by `n` Wigner matrix takes: one for each place
/// on or above the diagonal. There is no count exactly when the matrix would
/// have more than `max_entries()` entries.
pub fn wigner_draw_count(n: usize) -> (r: Option<usize>)
    ensures
        n * n > max_entries() ==> r is None,
        n * n <= max_entries() ==> r is Some && r->Some_0 == spec_wigner_draw_count(n as int),
{
    match entry_count(n, n) {
        None => None,
        Some(square) => {
            proof {
                assert(n <= n * n) by (nonlinear_arith);
                assert(n * (n + 1) == n * n + n) by (nonlinear_arith);
                lemma_consecutive_product_even(n as nat);
            }
            Some(square - (square - n) / 2)
        },
    }
}

/// Whether `len` draws are what an `n` by `n` Wigner matrix takes, and the
/// matrix is not too large.
pub open spec fn wigner_input_ok(n: usize, len: nat) -> bool {
    n * n <= max_entries() && len == spec_wigner_draw_count(n as int)
}

/// Whether place (`a`, `b`) is written before the walk of the upper triangle
/// reaches (`i`, `j`): the pair that it belongs to comes earlier in the walk.
spec fn written(a: int, b: int, i: int, j: int) -> bool {
    let lo = if a <= b { a } else { b };
    let hi = if a <= b { b } else { a };
    lo < i || (lo == i && hi < j)
}

/// Builds the `n` by `n` Wigner matrix from its draws.
///
/// The places on or above the diagonal are walked row by row, each row from
/// the diagonal rightwards, and each takes the next draw; the place mirrored
/// below the diagonal takes the same draw, so the matrix is symmetric by
/// construction. A diagonal place takes its draw as it is. With `n == 0` and
/// no draws the result is the empty matrix.
///
/// Fails with `InvalidDimension` exactly when the matrix would have more than
/// `max_entries()` entries or `draws` does not hold one draw for each walked
/// place.
pub fn random_wigner_matrix(n: usize, draws: &[u64]) -> (r: Result<Matrix, RmtError>)
    ensures
        wigner_input_ok(n, draws@.len()) ==> r is Ok && r->Ok_0@ == wigner_grid(
            n as nat,
            draws@,
        ),
        !wigner_input_ok(n, draws@.len()) ==> r == Err::<Matrix, RmtError>(
            RmtError::InvalidDimension,
        ),
        r is Ok ==> r->Ok_0@.rows == n && r->Ok_0@.cols == n && r->Ok_0@.is_symmetric(),
{
    let count: usize = match wigner_draw_count(n) {
        None => { return Err(RmtError::InvalidDimension); },
        Some(c) => c,
    };
    if draws.len() != count {
        return Err(RmtError::InvalidDimension);
    }
    let mut m: Matrix = match Matrix::zeros(n, n) {
        Err(e) => { return Err(e); },
        Ok(m) => m,
    };
    proof {
        lemma_upper_offset_step(n as int, 0);
    }
    let mut k: usize = 0;
    let mut i: usize = 0;
    while i < n
        invariant
            i <= n,
            k == upper_offset(n as int, i as int),
            draws@.len() == spec_wigner_draw_count(n as int),
            m@.rows == n,
            m@.cols == n,
            m@.wf(),
            forall|a: int, b: int|
                #![trigger m@.cells[a][b]]
                0 <= a < n && 0 <= b < n && written(a, b, i as int, i as int) ==> m@.cells[a][b]
                    == draws@[pair_index(n as int, a, b)],
        decreases n - i,
    {
        let mut j: usize = i;
        while j < n
            invariant
                i < n,
                i <= j <= n,
                k == upper_index(n as int, i as int, j as int),
                draws@.len() == spec_wigner_draw_count(n as int),
                m@.rows == n,
                m@.cols == n,
                m@.wf(),
                forall|a: int, b: int|
                    #![trigger m@.cells[a][b]]
                    0 <= a < n && 0 <= b < n && written(a, b, i as int, j as int)
                        ==> m@.cells[a][b] == draws@[pair_index(n as int, a, b)],
            decreases n - j,
        {
            proof {
                lemma_upper_index_in_range(n as int, i as int, j as int);
            }
            let value: u64 = draws[k];
            let ghost before = m@;
            m.put(i, j, value);
            m.put(j, i, value);
            proof {
                m.lemma_view_wf();
                assert forall|a: int, b: int|
                    0 <= a < n && 0 <= b < n && written(
                        a,
                        b,
                        i as int,
                        j + 1,
                    ) implies #[trigger] m@.cells[a][b] == draws@[pair_index(n as int, a, b)] by {
                    if (a == i && b == j) || (a == j && b == i) {
                    } else {
                        assert(written(a, b, i as int, j as int));
                        assert(m@.cells[a][b] == before.cells[a][b]);
                    }
                }
            }
            k += 1;
            j += 1;
        }
        proof {
            lemma_upper_offset_step(n as int, i as int);
        }
        i += 1;
    }
    proof {
        let want = wigner_grid(n as nat, draws@);
        assert forall|a: int| 0 <= a < n implies #[trigger] m@.cells[a] =~= want.cells[a] by {
            assert forall|b: int| 0 <= b < n implies m@.cells[a][b] == want.cells[a][b] by {
                assert(written(a, b, n as int, n as int));
            }
        }
        assert(m@.cells =~= want.cells);
        lemma_wigner_symmetric(n as nat, draws@);
    }
    Ok(m)
}

/// A Wigner matrix is an `n` by `n` grid that equals its transpose, whatever
/// the draws.
pub proof fn lemma_wigner_symmetric(n: nat, draws: Seq<u64>)
    ensures
        wigner_grid(n, draws).wf(),
        wigner_grid(n, draws).rows == n,
        wigner_grid(n, draws).cols == n,
        wigner_grid(n, draws).is_symmetric(),
{
}

/// Two places of a Wigner matrix hold the same draw exactly when they are the
/// same place or mirror each other across the diagonal: no draw serves two
/// pairs.
pub proof fn lemma_pair_index_injective(n: int, i: int, j: int, a: int, b: int)
    requires
        0 <= i < n,
        0 <= j < n,
        0 <= a < n,
        0 <= b < n,
    ensures
        pair_index(n, i, j) == pair_index(n, a, b) <==> (i == a && j == b) || (i == b && j == a),
{
    let (lo1, hi1) = if i <= j { (i, j) } else { (j, i) };
    let (lo2, hi2) = if a <= b { (a, b) } else { (b, a) };
    lemma_upper_index_in_range(n, lo1, hi1);
    lemma_upper_index_in_range(n, lo2, hi2);
    if lo1 < lo2 {
        lemma_upper_offset_monotonic(n, lo1 + 1, lo2);
    } else if lo2 < lo1 {
        lemma_upper_offset_monotonic(n, lo2 + 1, lo1);
    }
}

/// Every draw is placed: each position below the draw count belongs to a
/// place on or above the diagonal.
pub proof fn lemma_every_draw_is_placed(n: int, k: int)
    requires
        0 <= k < spec_wigner_draw_count(n),
        0 <= n,
    ensures
        exists|i: int, j: int| 0 <= i <= j < n && #[trigger] upper_index(n, i, j) == k,
{
    lemma_upper_offset_total(n);
    lemma_upper_offset_step(n, 0);
    if n == 0 {
        assert(upper_offset(n, n) == 0);
    } else {
        let (i, j) = place_of_draw(n, k, 0);
        assert(upper_index(n, i, j) == k);
    }
}

/// Finds the place of draw `k` in row `i` or a later one.
proof fn place_of_draw(n: int, k: int, i: int) -> (r: (int, int))
    requires
        0 <= i < n,
        upper_offset(n, i) <= k < upper_offset(n, n),
    ensures
        i <= r.0 <= r.1 < n,
        upper_index(n, r.0, r.1) == k,
    decreases n - i,
{
    lemma_upper_offset_step(n, i);
    if k < upper_offset(n, i + 1) {
        (i, i + (k - upper_offset(n, i)))
    } else {
        place_of_draw(n, k, i + 1)
    }
}

/// The number of draws that `n` samples of `p` features take: `n * p`. There
/// is no count exactly when that is more than `max_entries()`.
pub fn wishart_draw_count(p: usize, n: usize) -> (r: Option<usize>)
    ensures
        n * p > max_entries() ==> r is None,
        n * p <= max_entries() ==> r == Some((n * p) as usize),
{
    entry_count(n, p)
}

/// Whether `len` draws are what `n` samples of `p` features take, and the
/// sample matrix is not too large.
pub open spec fn wishart_input_ok(p: usize, n: usize, len: nat) -> bool {
    n * p <= max_entries() && len == n * p
}

/// The `n` by `p` sample matrix that the draws determine: sample after
/// sample, each with its `p` features in the order drawn.
pub open spec fn wishart_sample_grid(p: nat, n: nat, draws: Seq<u64>) -> Grid {
    Grid::from_row_major(n, p, draws)
}

/// Builds the sample matrix behind a Wishart matrix: `n` rows, one for each
/// sample, of `p` standard-normal draws each, filled row by row in the order
/// drawn. The Wishart matrix itself is the `p` by `p` product of the
/// transpose of this matrix with this matrix, not divided by `n`.
///
/// Fails with `InvalidDimension` exactly when `draws` does not hold `n * p`
/// draws or that is more than `max_entries()`.
pub fn wishart_sample_matrix(p: usize, n: usize, draws: &[u64]) -> (r: Result<Matrix, RmtError>)
    ensures
        wishart_input_ok(p, n, draws@.len()) ==> r is Ok && r->Ok_0@ == wishart_sample_grid(
            p as nat,
            n as nat,
            draws@,
        ),
        !wishart_input_ok(p, n, draws@.len()) ==> r == Err::<Matrix, RmtError>(
            RmtError::InvalidDimension,
        ),
        r is Ok ==> r->Ok_0@.rows == n && r->Ok_0@.cols == p,
{
    Matrix::from_row_major(n, p, draws)
}

/// In a sample matrix, feature `j` of sample `i` is draw `i * p + j`, and no
/// draw serves two places.
pub proof fn lemma_wishart_sample_places(p: nat, n: nat, draws: Seq<u64>, i: int, j: int)
    requires
        0 <= i < n,
        0 <= j < p,
    ensures
        wishart_sample_grid(p, n, draws).cells[i][j] == draws[i * p + j],
        0 <= i * p + j < n * p,
        (i * p + j) / (p as int) == i,
        (i * p + j) % (p as int) == j,
{
    lemma_row_major_index(n, p, i, j);
}

/// A Wigner matrix is a function of its draws alone: two runs of draws that
/// agree on every position that the matrix takes give the same matrix.
pub proof fn lemma_wigner_determined_by_draws(n: nat, first: Seq<u64>, second: Seq<u64>)
    requires
        forall|k: int| 0 <= k < spec_wigner_draw_count(n as int) ==> first[k] == second[k],
    ensures
        wigner_grid(n, first) == wigner_grid(n, second),
{
    let g = wigner_grid(n, first);
    let h = wigner_grid(n, second);
    assert forall|i: int| 0 <= i < n implies #[trigger] g.cells[i] =~= h.cells[i] by {
        assert forall|j: int| 0 <= j < n implies g.cells[i][j] == h.cells[i][j] by {
            if i <= j {
                lemma_upper_index_in_range(n as int, i, j);
            } else {
                lemma_upper_index_in_range(n as int, j, i);
            }
        }
    }
    assert(g.cells =~= h.cells);
}

/// A sample matrix is a function of its draws alone: two runs of draws that
/// agree on every position that the matrix takes give the same matrix.
pub proof fn lemma_wishart_determined_by_draws(
    p: nat,
    n: nat,
    first: Seq<u64>,
    second: Seq<u64>,
)
    requires
        forall|k: int| 0 <= k < n * p ==> first[k] == second[k],
    ensures
        wishart_sample_grid(p, n, first) == wishart_sample_grid(p, n, second),
{
    let g = wishart_sample_grid(p, n, first);
    let h = wishart_sample_grid(p, n, second);
    assert forall|i: int| 0 <= i < n implies #[trigger] g.cells[i] =~= h.cells[i] by {
        assert forall|j: int| 0 <= j < p implies g.cells[i][j] == h.cells[i][j] by {
            lemma_row_major_index(n, p, i, j);
        }
    }
    assert(g.cells =~= h.cells);
}

} // verus!
