use hpla_rs::lanczos::error::{LanczosError, LanczosErrorKind};
use hpla_rs::text::usize_to_decimal;

#[test]
fn test_zero_input_vector_error_message() {
    let error = LanczosError(LanczosErrorKind::ZeroInputVector);
    assert_eq!(
        error.to_string(),
        "input vector `b` must not be a zero vector"
    );
}

#[test]
fn test_parameter_mismatch_error_message() {
    let error = LanczosError(LanczosErrorKind::ParameterMismatch {
        param_name: "y_k".to_string(),
        expected: 10,
        actual: 9,
    });
    assert_eq!(
        error.to_string(),
        "parameter mismatch: `y_k` expects size 10, but got 9"
    );
}

#[test]
fn test_solver_error_message() {
    let error = LanczosError(LanczosErrorKind::SolverError("custom solver failed".to_string()));
    assert_eq!(
        error.to_string(),
        "f(T_k) solver failed: custom solver failed"
    );
}

#[test]
fn capacity_exceeded_error_message() {
    let error = LanczosError(LanczosErrorKind::CapacityExceeded {
        param_name: "k".to_string(),
        cap: 20,
        requested: 105,
    });
    assert_eq!(
        error.to_string(),
        "capacity exceeded: `k` requested 105, but workspace was built with cap 20"
    );
}

#[test]
fn kind_message_matches_error_message() {
    let kind = LanczosErrorKind::ParameterMismatch {
        param_name: "g".to_string(),
        expected: 0,
        actual: 18446744073709551615,
    };
    assert_eq!(
        kind.to_string(),
        "parameter mismatch: `g` expects size 0, but got 18446744073709551615"
    );
}

#[test]
fn errors_compare_by_kind_and_fields() {
    let a = LanczosError(LanczosErrorKind::ParameterMismatch {
        param_name: "b.nrows".to_string(),
        expected: 3,
        actual: 4,
    });
    let b = LanczosError(LanczosErrorKind::ParameterMismatch {
        param_name: "b.nrows".to_string(),
        expected: 3,
        actual: 4,
    });
    let c = LanczosError(LanczosErrorKind::ParameterMismatch {
        param_name: "b.nrows".to_string(),
        expected: 3,
        actual: 5,
    });
    let d = LanczosError(LanczosErrorKind::SolverError("b.nrows".to_string()));
    assert!(a == b);
    assert!(a != c);
    assert!(a != d);
    assert!(LanczosError(LanczosErrorKind::ZeroInputVector) == LanczosError::from(LanczosErrorKind::ZeroInputVector));
}

#[test]
fn decimal_rendering() {
    assert_eq!(usize_to_decimal(0), "0");
    assert_eq!(usize_to_decimal(7), "7");
    assert_eq!(usize_to_decimal(10), "10");
    assert_eq!(usize_to_decimal(12345), "12345");
    assert_eq!(usize_to_decimal(usize::MAX), usize::MAX.to_string());
}
