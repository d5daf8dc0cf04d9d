//! Symmetric Lanczos for `f(A) b` with `f(z) = exp(-z)`: the error type,
//! the reorthogonalization choice, the checks that the drivers make on
//! their arguments, and the sizing constants of the Krylov probes.

pub mod algorithms;
pub mod error;
pub mod projected;
pub mod solvers;

use vstd::prelude::*;

verus! {

/// Lanczos steps used by the spectral-radius probe.
pub const SPECTRAL_PROBE_STEPS: usize = 20;

/// Extra steps added on top of `ceil(rho)` when sizing `max_k` for the
/// adaptive Krylov-dimension driver.
pub const KRYLOV_MARGIN: usize = 50;

/// Absolute upper bound on the Krylov subspace dimension.
pub const KRYLOV_HARD_LIMIT: usize = 500;

/// The largest Krylov dimension the adaptive driver may try for a matrix
/// whose spectral radius rounds up to `ceil_rho`: `ceil_rho` plus the
/// margin, capped by the hard limit.
pub fn krylov_cap(ceil_rho: usize) -> (res: usize)
    requires
        ceil_rho + KRYLOV_MARGIN <= usize::MAX,
    ensures
        res == if ceil_rho + KRYLOV_MARGIN <= KRYLOV_HARD_LIMIT {
            ceil_rho + KRYLOV_MARGIN
        } else {
            KRYLOV_HARD_LIMIT as int
        },
{
    let wanted = ceil_rho + KRYLOV_MARGIN;
    if wanted <= KRYLOV_HARD_LIMIT {
        wanted
    } else {
        KRYLOV_HARD_LIMIT
    }
}

} // verus!
