//! Handles of the contexts that the C++/Fortran PSBLAS wrappers keep: CSR/CSC
//! SpMV, one-pass symmetric Lanczos and two-pass Lanczos for `f(A)b`.

use vstd::prelude::*;

verus! {

/// Opaque struct representing the C++ side PSBLAS benchmark context.
pub struct PsblasSpmv {
    _private: [u8; 0],
}

/// Opaque context for the PSBLAS one-pass Lanczos kernel (`f(A)b`).
pub struct PsblasLanczos {
    _private: [u8; 0],
}

/// Opaque context for the PSBLAS two-pass Lanczos kernel (`f(A)b`).
pub struct PsblasLanczosTwoPass {
    _private: [u8; 0],
}

} // verus!
