//! Shape checks of the projected tridiagonal problems arising in Lanczos.
//!
//! The projected solve `exp(-T_k) e_1` and the spectral radius of `T_k`
//! take the diagonal `alphas` and off-diagonal `betas` of `T_k`; a
//! workspace built for size `k_cap` accepts any `k <= k_cap`.

use crate::text::{decimal, usize_to_decimal};
use vstd::prelude::*;

verus! {

/// `k - 1`, or `0` for `k == 0`.
pub open spec fn off_diagonal_len(k: nat) -> nat {
    if k == 0 {
        0
    } else {
        (k - 1) as nat
    }
}

/// The outcome of checking a tridiagonal of `alphas_len` diagonal and
/// `betas_len` off-diagonal entries against a capacity `k_cap`: its size,
/// or the message of the first failed check.
pub open spec fn tridiagonal_check(k_cap: nat, alphas_len: nat, betas_len: nat) -> Result<nat, Seq<char>> {
    if alphas_len > k_cap {
        Err("tridiagonal size "@ + decimal(alphas_len) + " exceeds workspace capacity "@ + decimal(k_cap))
    } else if betas_len != off_diagonal_len(alphas_len) {
        Err("off-diagonal has length "@ + decimal(betas_len) + ", expected "@ + decimal(
            off_diagonal_len(alphas_len),
        ))
    } else {
        Ok(alphas_len)
    }
}

/// The outcome of the projected-solve checks: the tridiagonal, then an
/// output of `k` rows and one column.
pub open spec fn projected_solve_check(
    k_cap: nat,
    alphas_len: nat,
    betas_len: nat,
    out_rows: nat,
    out_cols: nat,
) -> Result<nat, Seq<char>> {
    match tridiagonal_check(k_cap, alphas_len, betas_len) {
        Err(m) => Err(m),
        Ok(k) => if out_rows != k {
            Err("projected solve output has "@ + decimal(out_rows) + " rows, expected "@ + decimal(k))
        } else if out_cols != 1 {
            Err("projected solve output has "@ + decimal(out_cols) + " columns, expected 1"@)
        } else {
            Ok(k)
        },
    }
}

/// An executable check result agrees with its specification.
pub open spec fn agrees(res: Result<usize, String>, expected: Result<nat, Seq<char>>) -> bool {
    match expected {
        Ok(k) => res matches Ok(r) && r == k,
        Err(m) => res matches Err(e) && e@ == m,
    }
}

/// Checks that `alphas` (of length `alphas_len`) and `betas` (of length
/// `betas_len`) describe a tridiagonal that a workspace of capacity `k_cap`
/// can hold, and returns its size `k = alphas_len`.
pub fn validate_tridiagonal(k_cap: usize, alphas_len: usize, betas_len: usize) -> (res: Result<usize, String>)
    ensures
        agrees(res, tridiagonal_check(k_cap as nat, alphas_len as nat, betas_len as nat)),
        res is Ok <==> fits_tridiagonal(k_cap as nat, alphas_len as nat, betas_len as nat),
        res matches Ok(k) ==> k == alphas_len,
{
    let k = alphas_len;
    if k > k_cap {
        let mut m = String::from_str("tridiagonal size ");
        let ks = usize_to_decimal(k);
        m.append(ks.as_str());
        m.append(" exceeds workspace capacity ");
        let cs = usize_to_decimal(k_cap);
        m.append(cs.as_str());
        return Err(m);
    }
    let expected = k.saturating_sub(1);
    if betas_len != expected {
        let mut m = String::from_str("off-diagonal has length ");
        let bs = usize_to_decimal(betas_len);
        m.append(bs.as_str());
        m.append(", expected ");
        let es = usize_to_decimal(expected);
        m.append(es.as_str());
        return Err(m);
    }
    Ok(k)
}

/// The checks of the projected solve `exp(-T_k) e_1`: the tridiagonal as
/// in [`validate_tridiagonal`], then an output of `k` rows and one column.
/// Returns `k`.
pub fn validate_projected_solve(
    k_cap: usize,
    alphas_len: usize,
    betas_len: usize,
    out_rows: usize,
    out_cols: usize,
) -> (res: Result<usize, String>)
    ensures
        agrees(
            res,
            projected_solve_check(
                k_cap as nat,
                alphas_len as nat,
                betas_len as nat,
                out_rows as nat,
                out_cols as nat,
            ),
        ),
        res is Ok <==> fits_tridiagonal(k_cap as nat, alphas_len as nat, betas_len as nat) && out_rows
            == alphas_len && out_cols == 1,
        res matches Ok(k) ==> k == alphas_len,
{
    let k = match validate_tridiagonal(k_cap, alphas_len, betas_len) {
        Ok(k) => k,
        Err(m) => {
            return Err(m);
        },
    };
    if out_rows != k {
        let mut m = String::from_str("projected solve output has ");
        let rs = usize_to_decimal(out_rows);
        m.append(rs.as_str());
        m.append(" rows, expected ");
        let ks = usize_to_decimal(k);
        m.append(ks.as_str());
        return Err(m);
    }
    if out_cols != 1 {
        let mut m = String::from_str("projected solve output has ");
        let cs = usize_to_decimal(out_cols);
        m.append(cs.as_str());
        m.append(" columns, expected 1");
        return Err(m);
    }
    Ok(k)
}

/// A tridiagonal of `alphas_len` diagonal and `betas_len` off-diagonal
/// entries fits a workspace of capacity `k_cap`: its size is at most the
/// capacity, and it has one off-diagonal entry fewer than diagonal ones,
/// or none at all when it is empty. Any size up to the capacity will do.
pub open spec fn fits_tridiagonal(k_cap: nat, alphas_len: nat, betas_len: nat) -> bool {
    &&& alphas_len <= k_cap
    &&& (betas_len + 1 == alphas_len || (alphas_len == 0 && betas_len == 0))
}

/// The tridiagonal check accepts exactly the tridiagonals that fit, and
/// returns their size: a `k x k` tridiagonal with `k - 1` off-diagonal
/// entries (a single diagonal entry and none off it, for `k = 1`) is
/// accepted by every workspace of capacity at least `k`.
pub proof fn law_tridiagonal_check(k_cap: nat, alphas_len: nat, betas_len: nat)
    ensures
        tridiagonal_check(k_cap, alphas_len, betas_len) is Ok <==> fits_tridiagonal(
            k_cap,
            alphas_len,
            betas_len,
        ),
        tridiagonal_check(k_cap, alphas_len, betas_len) matches Ok(k) ==> k == alphas_len,
{
}

/// The projected-solve check accepts exactly a fitting tridiagonal with an
/// output of one column and as many rows as the tridiagonal has diagonal
/// entries (not as many as the capacity), and returns that size.
pub proof fn law_projected_solve_check(k_cap: nat, alphas_len: nat, betas_len: nat, out_rows: nat, out_cols: nat)
    ensures
        projected_solve_check(k_cap, alphas_len, betas_len, out_rows, out_cols) is Ok <==> (
        fits_tridiagonal(k_cap, alphas_len, betas_len) && out_rows == alphas_len && out_cols == 1),
        projected_solve_check(k_cap, alphas_len, betas_len, out_rows, out_cols) matches Ok(k) ==> k
            == alphas_len,
{
}

} // verus!
