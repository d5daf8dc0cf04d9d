//! Handles of the contexts that the C Intel MKL wrapper keeps for CSR and
//! CSC inspection-execution SpMV.

use vstd::prelude::*;

verus! {

/// Opaque struct representing the C-side CSR benchmark context.
pub struct MklBenchContext {
    _private: [u8; 0],
}

/// Opaque struct representing the C-side CSC benchmark context.
pub struct MklCscBenchContext {
    _private: [u8; 0],
}

} // verus!
