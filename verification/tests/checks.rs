use hpla_rs::ffi::{checked_i32, ffi_dims, FfiDims};
use hpla_rs::lanczos::algorithms::Reorthogonalization;
use hpla_rs::lanczos::error::{LanczosError, LanczosErrorKind};
use hpla_rs::lanczos::projected::{validate_projected_solve, validate_tridiagonal};
use hpla_rs::lanczos::solvers::{check_coefficients, check_projection, check_request, projected_lengths};
use hpla_rs::lanczos::{krylov_cap, KRYLOV_HARD_LIMIT, KRYLOV_MARGIN, SPECTRAL_PROBE_STEPS};

fn mismatch(name: &str, expected: usize, actual: usize) -> LanczosError {
    LanczosError(LanczosErrorKind::ParameterMismatch {
        param_name: name.to_string(),
        expected,
        actual,
    })
}

#[test]
fn request_with_wrong_row_count_is_a_mismatch() {
    let err = check_request(9, 10, 5, 20).unwrap_err();
    assert!(err == mismatch("b.nrows", 10, 9));
    assert_eq!(err.to_string(), "parameter mismatch: `b.nrows` expects size 10, but got 9");
}

#[test]
fn request_over_capacity_is_refused() {
    let err = check_request(10, 10, 21, 20).unwrap_err();
    assert!(
        err == LanczosError(LanczosErrorKind::CapacityExceeded {
            param_name: "k".to_string(),
            cap: 20,
            requested: 21,
        })
    );
    // The row check comes first.
    let err = check_request(3, 10, 21, 20).unwrap_err();
    assert!(err == mismatch("b.nrows", 10, 3));
}

#[test]
fn request_within_capacity_passes() {
    assert!(check_request(10, 10, 20, 20).is_ok());
    assert!(check_request(0, 0, 0, 0).is_ok());
}

#[test]
fn projection_shape_is_checked() {
    assert!(check_projection(4, 1, 4).is_ok());
    assert!(check_projection(3, 1, 4).unwrap_err() == mismatch("g", 4, 3));
    assert!(check_projection(4, 2, 4).unwrap_err() == mismatch("g", 4, 4));
}

#[test]
fn coefficient_count_is_checked() {
    assert!(check_coefficients(5, 5).is_ok());
    let err = check_coefficients(5, 4).unwrap_err();
    assert!(err == mismatch("y_k", 5, 4));
    assert_eq!(err.to_string(), "parameter mismatch: `y_k` expects size 5, but got 4");
}

#[test]
fn projected_lengths_trim_the_off_diagonal() {
    assert_eq!(projected_lengths(5, 4), (5, 4));
    assert_eq!(projected_lengths(5, 6), (5, 4));
    assert_eq!(projected_lengths(5, 2), (5, 2));
    assert_eq!(projected_lengths(1, 0), (1, 0));
    assert_eq!(projected_lengths(0, 3), (0, 0));
}

#[test]
fn tridiagonal_validation() {
    assert_eq!(validate_tridiagonal(4, 4, 3), Ok(4));
    assert_eq!(validate_tridiagonal(4, 0, 0), Ok(0));
    assert_eq!(
        validate_tridiagonal(4, 5, 4),
        Err("tridiagonal size 5 exceeds workspace capacity 4".to_string())
    );
    assert_eq!(
        validate_tridiagonal(4, 3, 3),
        Err("off-diagonal has length 3, expected 2".to_string())
    );
    assert_eq!(
        validate_tridiagonal(4, 0, 1),
        Err("off-diagonal has length 1, expected 0".to_string())
    );
}

#[test]
fn projected_solve_validation() {
    assert_eq!(validate_projected_solve(4, 4, 3, 4, 1), Ok(4));
    assert_eq!(
        validate_projected_solve(4, 4, 3, 3, 1),
        Err("projected solve output has 3 rows, expected 4".to_string())
    );
    assert_eq!(
        validate_projected_solve(4, 4, 3, 4, 2),
        Err("projected solve output has 2 columns, expected 1".to_string())
    );
    assert_eq!(
        validate_projected_solve(2, 4, 3, 4, 1),
        Err("tridiagonal size 4 exceeds workspace capacity 2".to_string())
    );
}

#[test]
fn krylov_cap_adds_margin_and_caps() {
    assert_eq!(SPECTRAL_PROBE_STEPS, 20);
    assert_eq!(krylov_cap(0), KRYLOV_MARGIN);
    assert_eq!(krylov_cap(1), 51);
    assert_eq!(krylov_cap(450), 500);
    assert_eq!(krylov_cap(451), KRYLOV_HARD_LIMIT);
    assert_eq!(krylov_cap(10_000), 500);
}

#[test]
fn default_reorthogonalization_is_bare() {
    assert_eq!(Reorthogonalization::default(), Reorthogonalization::Bare);
    assert_ne!(Reorthogonalization::default(), Reorthogonalization::Full);
}

#[test]
fn ffi_dimensions_fit_or_are_named() {
    assert_eq!(
        ffi_dims(3, 4, 5).unwrap(),
        FfiDims { nrows: 3, ncols: 4, nnz: 5, len: 3 }
    );
    let big = i32::MAX as usize + 1;
    assert_eq!(ffi_dims(big, 4, 5).unwrap_err().message, "row count does not fit in i32");
    assert_eq!(ffi_dims(3, big, 5).unwrap_err().message, "column count does not fit in i32");
    assert_eq!(ffi_dims(3, 4, big).unwrap_err().message, "nonzero count does not fit in i32");
    assert_eq!(checked_i32(i32::MAX as usize, "krylov dimension").unwrap(), i32::MAX);
    let err = checked_i32(big, "krylov dimension").unwrap_err();
    assert_eq!(err.message, "krylov dimension does not fit in i32");
    // The conversion's own error travels along as the cause.
    assert_eq!(err.cause.to_string(), "out of range integral type conversion attempted");
}
