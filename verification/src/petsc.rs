//! Handles of the contexts that the C PETSc wrapper keeps: CSR SpMV and
//! the one-pass and two-pass Lanczos kernels for `exp(-A)b`.

use vstd::prelude::*;

verus! {

/// Opaque struct representing the C-side internal context (Mat, Vecs).
pub struct PetscSpmv {
    _private: [u8; 0],
}

/// Opaque context for the PETSc one-pass Lanczos kernel (`exp(-A)b`).
pub struct PetscLanczos {
    _private: [u8; 0],
}

/// Opaque context for the PETSc two-pass Lanczos kernel (`exp(-A)b`).
pub struct PetscLanczosTwoPass {
    _private: [u8; 0],
}

} // verus!
