//! Handles of the contexts that the C++ Eigen wrapper keeps: CSC and CSR
//! SpMV via `Eigen::Map`, and CSR/CSC one-pass and two-pass Lanczos for
//! `exp(-A)b`. Each is only ever held behind a pointer that the wrapper
//! hands out.

use vstd::prelude::*;

verus! {

/// Opaque struct representing the C++ side internal context.
pub struct EigenCscSpmv {
    _private: [u8; 0],
}

/// Opaque struct representing the C++ side CSR internal context.
pub struct EigenCsrSpmv {
    _private: [u8; 0],
}

/// Opaque struct representing the C++ side two-pass Lanczos context.
pub struct EigenLanczosTwoPass {
    _private: [u8; 0],
}

/// Opaque struct for the Eigen CSC two-pass Lanczos context (cross-format control).
pub struct EigenCscLanczosTwoPass {
    _private: [u8; 0],
}

/// Opaque struct for the Eigen CSR one-pass Lanczos context.
pub struct EigenLanczos {
    _private: [u8; 0],
}

/// Opaque struct for the Eigen CSC one-pass Lanczos context (cross-format control).
pub struct EigenCscLanczos {
    _private: [u8; 0],
}

} // verus!
