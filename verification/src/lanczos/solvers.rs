//! The argument checks of the one-pass and two-pass Lanczos drivers.
//!
//! Both drivers take a workspace sized for `n` rows and at most `k_cap`
//! steps, a starting vector `b`, and a step count `k`; after the recurrence
//! they hand the tridiagonal to a user solver for `f(T_k) e_1` and check
//! the vector that comes back.

use crate::lanczos::error::{LanczosError, LanczosErrorKind};
use crate::lanczos::projected::off_diagonal_len;
use vstd::prelude::*;

verus! {

/// `e` reports that parameter `name` should have size `expected` but has
/// size `actual`.
pub open spec fn is_mismatch(e: LanczosError, name: Seq<char>, expected: usize, actual: usize) -> bool {
    match e.0 {
        LanczosErrorKind::ParameterMismatch { param_name, expected: x, actual: y } => param_name@ == name
            && x == expected && y == actual,
        _ => false,
    }
}

/// `e` reports that parameter `name` asks for `requested` where the
/// workspace holds at most `cap`.
pub open spec fn is_over_capacity(e: LanczosError, name: Seq<char>, cap: usize, requested: usize) -> bool {
    match e.0 {
        LanczosErrorKind::CapacityExceeded { param_name, cap: c, requested: r } => param_name@ == name
            && c == cap && r == requested,
        _ => false,
    }
}

fn mismatch(name: &str, expected: usize, actual: usize) -> (e: LanczosError)
    ensures
        is_mismatch(e, name@, expected, actual),
{
    LanczosError(LanczosErrorKind::ParameterMismatch { param_name: String::from_str(name), expected, actual })
}

/// The checks a driver makes before running: `b` must have the `n` rows
/// the workspace is sized for, and `k` must not exceed its capacity.
pub fn check_request(b_rows: usize, n: usize, k: usize, k_cap: usize) -> (res: Result<(), LanczosError>)
    ensures
        b_rows != n ==> (res matches Err(e) && is_mismatch(e, "b.nrows"@, n, b_rows)),
        b_rows == n && k > k_cap ==> (res matches Err(e) && is_over_capacity(e, "k"@, k_cap, k)),
        b_rows == n && k <= k_cap ==> res is Ok,
{
    if b_rows != n {
        return Err(mismatch("b.nrows", n, b_rows));
    }
    if k > k_cap {
        return Err(
            LanczosError(
                LanczosErrorKind::CapacityExceeded { param_name: String::from_str("k"), cap: k_cap, requested: k },
            ),
        );
    }
    Ok(())
}

/// The lengths of the diagonal and off-diagonal handed to the solver after
/// `steps_taken` steps, when `betas_len` off-diagonal entries were recorded.
pub fn projected_lengths(steps_taken: usize, betas_len: usize) -> (res: (usize, usize))
    ensures
        res.0 == steps_taken,
        res.1 == if betas_len <= off_diagonal_len(steps_taken as nat) {
            betas_len as nat
        } else {
            off_diagonal_len(steps_taken as nat)
        },
{
    let off = steps_taken.saturating_sub(1);
    let n_beta = if betas_len <= off {
        betas_len
    } else {
        off
    };
    (steps_taken, n_beta)
}

/// The check of the solver's result `g`: one column of `steps_taken` rows.
pub fn check_projection(g_rows: usize, g_cols: usize, steps_taken: usize) -> (res: Result<(), LanczosError>)
    ensures
        (g_rows != steps_taken || g_cols != 1) ==> (res matches Err(e) && is_mismatch(e, "g"@, steps_taken, g_rows)),
        (g_rows == steps_taken && g_cols == 1) ==> res is Ok,
{
    if g_rows != steps_taken || g_cols != 1 {
        return Err(mismatch("g", steps_taken, g_rows));
    }
    Ok(())
}

/// The check of the second pass of the two-pass driver: the coefficient
/// vector `y_k` must have one entry per step taken.
pub fn check_coefficients(steps_taken: usize, y_rows: usize) -> (res: Result<(), LanczosError>)
    ensures
        steps_taken != y_rows ==> (res matches Err(e) && is_mismatch(e, "y_k"@, steps_taken, y_rows)),
        steps_taken == y_rows ==> res is Ok,
{
    if steps_taken != y_rows {
        return Err(mismatch("y_k", steps_taken, y_rows));
    }
    Ok(())
}

} // verus!
