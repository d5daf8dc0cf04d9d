//! Error types for Lanczos algorithm failures.

use crate::text::{decimal, usize_to_decimal};
use vstd::prelude::*;
use vstd::std_specs::cmp::PartialEqSpec;

verus! {

/// What went wrong in a Lanczos run.
#[derive(Debug)]
pub enum LanczosErrorKind {
    /// The input vector `b` is numerically zero and cannot be normalized.
    ZeroInputVector,
    /// Dimensions of a parameter do not match the expected size.
    ParameterMismatch { param_name: String, expected: usize, actual: usize },
    /// A requested dimension exceeds the capacity pre-allocated in a
    /// workspace. Distinct from `ParameterMismatch` because the workspace
    /// value is an upper bound, not an equality constraint.
    CapacityExceeded { param_name: String, cap: usize, requested: usize },
    /// The user-provided f(T_k) solver returned an error.
    SolverError(String),
}

/// Represents all possible errors that can occur during a Lanczos process.
#[derive(Debug)]
pub struct LanczosError(pub LanczosErrorKind);

/// The message of each kind of error.
pub open spec fn kind_message(k: LanczosErrorKind) -> Seq<char> {
    match k {
        LanczosErrorKind::ZeroInputVector => "input vector `b` must not be a zero vector"@,
        LanczosErrorKind::ParameterMismatch { param_name, expected, actual } => "parameter mismatch: `"@
            + param_name@ + "` expects size "@ + decimal(expected as nat) + ", but got "@ + decimal(
            actual as nat,
        ),
        LanczosErrorKind::CapacityExceeded { param_name, cap, requested } => "capacity exceeded: `"@
            + param_name@ + "` requested "@ + decimal(requested as nat)
            + ", but workspace was built with cap "@ + decimal(cap as nat),
        LanczosErrorKind::SolverError(msg) => "f(T_k) solver failed: "@ + msg@,
    }
}

/// Two kinds are the same kind with the same fields.
pub open spec fn kind_eq(a: LanczosErrorKind, b: LanczosErrorKind) -> bool {
    match (a, b) {
        (LanczosErrorKind::ZeroInputVector, LanczosErrorKind::ZeroInputVector) => true,
        (
            LanczosErrorKind::ParameterMismatch { param_name: n1, expected: e1, actual: a1 },
            LanczosErrorKind::ParameterMismatch { param_name: n2, expected: e2, actual: a2 },
        ) => n1@ == n2@ && e1 == e2 && a1 == a2,
        (
            LanczosErrorKind::CapacityExceeded { param_name: n1, cap: c1, requested: r1 },
            LanczosErrorKind::CapacityExceeded { param_name: n2, cap: c2, requested: r2 },
        ) => n1@ == n2@ && c1 == c2 && r1 == r2,
        (LanczosErrorKind::SolverError(m1), LanczosErrorKind::SolverError(m2)) => m1@ == m2@,
        _ => false,
    }
}

impl LanczosErrorKind {
    /// The error message.
    pub fn to_string(&self) -> (res: String)
        ensures
            res@ == kind_message(*self),
    {
        match self {
            LanczosErrorKind::ZeroInputVector => String::from_str(
                "input vector `b` must not be a zero vector",
            ),
            LanczosErrorKind::ParameterMismatch { param_name, expected, actual } => {
                let mut s = String::from_str("parameter mismatch: `");
                s.append(param_name.as_str());
                s.append("` expects size ");
                let e = usize_to_decimal(*expected);
                s.append(e.as_str());
                s.append(", but got ");
                let a = usize_to_decimal(*actual);
                s.append(a.as_str());
                s
            },
            LanczosErrorKind::CapacityExceeded { param_name, cap, requested } => {
                let mut s = String::from_str("capacity exceeded: `");
                s.append(param_name.as_str());
                s.append("` requested ");
                let r = usize_to_decimal(*requested);
                s.append(r.as_str());
                s.append(", but workspace was built with cap ");
                let c = usize_to_decimal(*cap);
                s.append(c.as_str());
                s
            },
            LanczosErrorKind::SolverError(msg) => {
                let mut s = String::from_str("f(T_k) solver failed: ");
                s.append(msg.as_str());
                s
            },
        }
    }
}

impl LanczosError {
    /// The error message, which is that of its kind.
    pub fn to_string(&self) -> (res: String)
        ensures
            res@ == kind_message(self.0),
    {
        self.0.to_string()
    }
}

impl PartialEq for LanczosErrorKind {
    fn eq(&self, other: &Self) -> (res: bool) {
        match (self, other) {
            (LanczosErrorKind::ZeroInputVector, LanczosErrorKind::ZeroInputVector) => true,
            (
                LanczosErrorKind::ParameterMismatch { param_name: n1, expected: e1, actual: a1 },
                LanczosErrorKind::ParameterMismatch { param_name: n2, expected: e2, actual: a2 },
            ) => *n1 == *n2 && *e1 == *e2 && *a1 == *a2,
            (
                LanczosErrorKind::CapacityExceeded { param_name: n1, cap: c1, requested: r1 },
                LanczosErrorKind::CapacityExceeded { param_name: n2, cap: c2, requested: r2 },
            ) => *n1 == *n2 && *c1 == *c2 && *r1 == *r2,
            (LanczosErrorKind::SolverError(m1), LanczosErrorKind::SolverError(m2)) => *m1 == *m2,
            _ => false,
        }
    }
}

impl vstd::std_specs::cmp::PartialEqSpecImpl for LanczosErrorKind {
    open spec fn obeys_eq_spec() -> bool {
        true
    }

    open spec fn eq_spec(&self, other: &LanczosErrorKind) -> bool {
        kind_eq(*self, *other)
    }
}

impl PartialEq for LanczosError {
    fn eq(&self, other: &Self) -> (res: bool) {
        self.0 == other.0
    }
}

impl vstd::std_specs::cmp::PartialEqSpecImpl for LanczosError {
    open spec fn obeys_eq_spec() -> bool {
        true
    }

    open spec fn eq_spec(&self, other: &LanczosError) -> bool {
        kind_eq(self.0, other.0)
    }
}

impl From<LanczosErrorKind> for LanczosError {
    fn from(kind: LanczosErrorKind) -> (res: Self) {
        LanczosError(kind)
    }
}

impl vstd::std_specs::convert::FromSpecImpl<LanczosErrorKind> for LanczosError {
    open spec fn obeys_from_spec() -> bool {
        true
    }

    open spec fn from_spec(kind: LanczosErrorKind) -> LanczosError {
        LanczosError(kind)
    }
}

/// `==` on error kinds obeys its specification, and that specification is
/// field by field: two kinds are equal exactly when they are the same
/// variant with every field equal (the parameter name, the expected and
/// actual sizes, the capacity and the requested size, the solver message).
pub proof fn law_kind_equality(a: LanczosErrorKind, b: LanczosErrorKind)
    ensures
        <LanczosErrorKind as PartialEqSpec>::obeys_eq_spec(),
        match (a, b) {
            (LanczosErrorKind::ZeroInputVector, LanczosErrorKind::ZeroInputVector) => a.eq_spec(&b),
            (
                LanczosErrorKind::ParameterMismatch { param_name: n1, expected: e1, actual: a1 },
                LanczosErrorKind::ParameterMismatch { param_name: n2, expected: e2, actual: a2 },
            ) => a.eq_spec(&b) <==> (n1@ == n2@ && e1 == e2 && a1 == a2),
            (
                LanczosErrorKind::CapacityExceeded { param_name: n1, cap: c1, requested: r1 },
                LanczosErrorKind::CapacityExceeded { param_name: n2, cap: c2, requested: r2 },
            ) => a.eq_spec(&b) <==> (n1@ == n2@ && c1 == c2 && r1 == r2),
            (LanczosErrorKind::SolverError(m1), LanczosErrorKind::SolverError(m2)) => a.eq_spec(&b)
                <==> m1@ == m2@,
            _ => !a.eq_spec(&b),
        },
{
}

/// `==` on errors obeys its specification, which compares the wrapped
/// kinds: errors are equal exactly when their kinds are, so two solver
/// errors are equal exactly when their messages are.
pub proof fn law_error_equality(a: LanczosErrorKind, b: LanczosErrorKind)
    ensures
        <LanczosError as PartialEqSpec>::obeys_eq_spec(),
        LanczosError(a).eq_spec(&LanczosError(b)) <==> a.eq_spec(&b),
        match (a, b) {
            (LanczosErrorKind::SolverError(m1), LanczosErrorKind::SolverError(m2)) => LanczosError(
                a,
            ).eq_spec(&LanczosError(b)) <==> m1@ == m2@,
            _ => true,
        },
{
}

} // verus!
