//! Random-matrix ensembles and their spectral statistics.
//!
//! Real numbers enter and leave this library as binary64 patterns (see
//! [`binary64`]). The library arranges draws into ensembles, orders
//! eigenvalues and decides where a limiting density vanishes; it does no
//! arithmetic on reals.
use vstd::prelude::*;

pub mod binary64;
pub mod density;
pub mod ensemble;
pub mod error;
pub mod matrix;
pub mod spectrum;

use crate::binary64::{spec_is_nan, spec_order_key};
use crate::density::{marchenko_pastur_case, wigner_semicircle_case, Support};
use crate::ensemble::{wigner_grid, wigner_input_ok, wishart_input_ok, wishart_sample_grid};
use crate::error::RmtError;
use crate::matrix::Matrix;
use crate::spectrum::{gap_count, has_nan, neighbour_gaps, sort_ascending, Gap};

verus! {

/// The operations of the library under one name. It holds no state.
pub struct Shannon;

impl Shannon {
    /// Makes the handle.
    pub fn new() -> (s: Shannon)
        ensures
            s == Shannon,
    {
        Shannon
    }

    /// The `n` by `n` Wigner matrix of the draws; see
    /// [`ensemble::random_wigner_matrix`].
    pub fn random_wigner(&self, n: usize, draws: &[u64]) -> (r: Result<Matrix, RmtError>)
        ensures
            wigner_input_ok(n, draws@.len()) ==> r is Ok && r->Ok_0@ == wigner_grid(
                n as nat,
                draws@,
            ),
            !wigner_input_ok(n, draws@.len()) ==> r == Err::<Matrix, RmtError>(
                RmtError::InvalidDimension,
            ),
            r is Ok ==> r->Ok_0@.rows == n && r->Ok_0@.cols == n && r->Ok_0@.is_symmetric(),
    {
        ensemble::random_wigner_matrix(n, draws)
    }

    /// The `n` by `p` sample matrix of the draws; see
    /// [`ensemble::wishart_sample_matrix`].
    pub fn wishart_samples(&self, p: usize, n: usize, draws: &[u64]) -> (r: Result<
        Matrix,
        RmtError,
    >)
        ensures
            wishart_input_ok(p, n, draws@.len()) ==> r is Ok && r->Ok_0@ == wishart_sample_grid(
                p as nat,
                n as nat,
                draws@,
            ),
            !wishart_input_ok(p, n, draws@.len()) ==> r == Err::<Matrix, RmtError>(
                RmtError::InvalidDimension,
            ),
            r is Ok ==> r->Ok_0@.rows == n && r->Ok_0@.cols == p,
    {
        ensemble::wishart_sample_matrix(p, n, draws)
    }

    /// The gaps between neighbouring eigenvalues; see
    /// [`spectrum::eigenvalue_gaps`].
    pub fn eigen_gaps(&self, eigenvalues: Option<Vec<u64>>) -> (r: Result<Vec<Gap>, RmtError>)
        ensures
            match eigenvalues {
                Some(e) => if has_nan(e@) {
                    r == Err::<Vec<Gap>, RmtError>(RmtError::EigendecompositionFailure)
                } else {
                    r is Ok && r->Ok_0@ == neighbour_gaps(sort_ascending(e@))
                },
                None => r == Err::<Vec<Gap>, RmtError>(RmtError::EigendecompositionFailure),
            },
            r is Ok ==> eigenvalues is Some && r->Ok_0@.len() == gap_count(
                eigenvalues->Some_0@.len(),
            ),
            r is Ok ==> forall|k: int|
                0 <= k < r->Ok_0@.len() ==> {
                    let gap = #[trigger] r->Ok_0@[k];
                    &&& !spec_is_nan(gap.lower)
                    &&& !spec_is_nan(gap.upper)
                    &&& spec_order_key(gap.lower) <= spec_order_key(gap.upper)
                },
    {
        spectrum::eigenvalue_gaps(eigenvalues)
    }

    /// Where `x` lies for a Marchenko-Pastur density with the given edges;
    /// see [`density::marchenko_pastur_support`].
    pub fn marchenko_pastur_support(&self, x: u64, lambda_minus: u64, lambda_plus: u64) -> (r:
        Result<Support, RmtError>)
        ensures
            r == marchenko_pastur_case(x, lambda_minus, lambda_plus),
    {
        density::marchenko_pastur_support(x, lambda_minus, lambda_plus)
    }

    /// Where `x` lies for a Wigner semicircle density of radius `r`; see
    /// [`density::wigner_semicircle_support`].
    pub fn wigner_semicircle_support(&self, x: u64, r: u64) -> (res: Result<Support, RmtError>)
        ensures
            res == wigner_semicircle_case(x, r),
    {
        density::wigner_semicircle_support(x, r)
    }
}

} // verus!
