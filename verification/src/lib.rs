//! Verified core of the sparse-kernel benchmarking suite: the symmetry
//! classification of Matrix Market headers, the assembly of the CSR and
//! CSC index arrays that every backend receives, the argument checks and
//! error messages of the Lanczos drivers, and the handle types and integer
//! arguments of the native wrappers.

pub mod eigen;
pub mod ffi;
pub mod lanczos;
pub mod layout;
pub mod mkl;
pub mod petsc;
pub mod psblas;
pub mod symmetry;
pub mod text;

pub use symmetry::Symmetry;
