//! Where the limiting spectral densities vanish and where their formulas
//! apply.
//!
//! The Marchenko-Pastur density with aspect ratio `q` and scale `sigma` lives
//! on the closed interval between the edges `sigma^2 (1 - sqrt q)^2` and
//! `sigma^2 (1 + sqrt q)^2`; inside it the density is
//! `sqrt((upper - x)(x - lower)) / (2 pi sigma^2 q x)`. The Wigner semicircle
//! density with radius `r` lives on `[-r, r]`, where it is
//! `2 sqrt(r^2 - x^2) / (pi r^2)`. Outside its interval a density is zero.
//! The arithmetic of the edges and of the formulas is the caller's; what is
//! decided here is which of the cases a query point falls under.
use vstd::prelude::*;
use crate::binary64::{
    is_positive,
    less_than,
    magnitude,
    spec_is_positive,
    spec_less_than,
    spec_magnitude,
};
use crate::error::RmtError;

verus! {

/// Where a query point lies relative to the support of a density.
#[derive(Clone, Copy, Debug, PartialEq, Eq, Structural)]
pub enum Support {
    /// Strictly outside the support: the density is zero there.
    Outside,
    /// On the support, its two ends included: the density is what the
    /// formula gives.
    Inside,
}

/// Whether the parameters of a Marchenko-Pastur density are in its domain:
/// the aspect ratio and the scale are both above zero.
pub open spec fn marchenko_pastur_domain(q: u64, sigma: u64) -> bool {
    is_positive(q) && is_positive(sigma)
}

/// The case that `x` falls under for a Marchenko-Pastur density with the
/// given edges. Strictly below the lower edge or strictly above the upper
/// one the density is zero. Anywhere else the formula applies, and it divides
/// by `x`: a point there that is not above zero is outside its domain.
pub open spec fn marchenko_pastur_case(x: u64, lower: u64, upper: u64) -> Result<
    Support,
    RmtError,
> {
    if less_than(x, lower) || less_than(upper, x) {
        Ok(Support::Outside)
    } else if is_positive(x) {
        Ok(Support::Inside)
    } else {
        Err(RmtError::DomainViolation)
    }
}

/// The case that `x` falls under for a Wigner semicircle density of radius
/// `r`. A radius that is not above zero is outside the domain. Otherwise the
/// density is zero exactly where `|x| > r`.
pub open spec fn wigner_semicircle_case(x: u64, r: u64) -> Result<Support, RmtError> {
    if !is_positive(r) {
        Err(RmtError::DomainViolation)
    } else if less_than(r, magnitude(x)) {
        Ok(Support::Outside)
    } else {
        Ok(Support::Inside)
    }
}

/// Checks the parameters of a Marchenko-Pastur density before anything is
/// computed from them. Fails with `DomainViolation` exactly when the aspect
/// ratio `q` or the scale `sigma` is not above zero.
pub fn check_marchenko_pastur_parameters(q: u64, sigma: u64) -> (r: Result<(), RmtError>)
    ensures
        marchenko_pastur_domain(q, sigma) ==> r == Ok::<(), RmtError>(()),
        !marchenko_pastur_domain(q, sigma) ==> r == Err::<(), RmtError>(
            RmtError::DomainViolation,
        ),
{
    if is_positive(q) && is_positive(sigma) {
        Ok(())
    } else {
        Err(RmtError::DomainViolation)
    }
}

/// Decides how the Marchenko-Pastur density is to be had at `x`, given the
/// two edges of its support: zero (`Outside`), or by the formula (`Inside`).
/// The edges themselves are inside.
///
/// Fails with `DomainViolation` exactly when `x` is not strictly outside the
/// edges and is not above zero either.
pub fn marchenko_pastur_support(x: u64, lambda_minus: u64, lambda_plus: u64) -> (r: Result<
    Support,
    RmtError,
>)
    ensures
        r == marchenko_pastur_case(x, lambda_minus, lambda_plus),
{
    if less_than(x, lambda_minus) || less_than(lambda_plus, x) {
        Ok(Support::Outside)
    } else if is_positive(x) {
        Ok(Support::Inside)
    } else {
        Err(RmtError::DomainViolation)
    }
}

/// Decides how the Wigner semicircle density of radius `r` is to be had at
/// `x`: zero (`Outside`) where `|x| > r`, by the formula (`Inside`) anywhere
/// else.
///
/// Fails with `DomainViolation` exactly when `r` is not above zero.
pub fn wigner_semicircle_support(x: u64, r: u64) -> (res: Result<Support, RmtError>)
    ensures
        res == wigner_semicircle_case(x, r),
{
    if !is_positive(r) {
        Err(RmtError::DomainViolation)
    } else if less_than(r, magnitude(x)) {
        Ok(Support::Outside)
    } else {
        Ok(Support::Inside)
    }
}

} // verus!
