# hpla_rs

Benchmark companion for sparse matrix kernels (SpMV and Lanczos evaluation
of `exp(-A)b`) across faer, Eigen, Intel MKL, PETSc and PSBLAS, with its
integer core verified by Verus.

## Layout

- `src/` — the verified library.
  - `symmetry.rs`: the symmetry a Matrix Market banner declares.
  - `layout.rs`: assembly of the CSR and CSC index arrays from a
    coordinate list (mirroring the stored triangle of symmetric and
    skew-symmetric files) by stable counting sorts, with the proved
    properties of the result: sorted order, offsets that delimit each row
    and column, both layouts holding the same entries, and a symmetric
    file assembled into a matrix equal to its (negated, for skew)
    transpose.
  - `lanczos/`: the Lanczos error type and its messages, the
    reorthogonalization choice, the step bookkeeping of the recurrence,
    the argument checks of the drivers and of the projected tridiagonal
    solves, and the Krylov sizing constants.
  - `ffi.rs`, `eigen.rs`, `mkl.rs`, `petsc.rs`, `psblas.rs`: the context
    handle types of the native wrappers and the `i32` conversion of the
    dimensions they take.
  - `text.rs`: decimal rendering of integers for messages.
- `app/` — everything floating point or I/O: the Matrix Market reader, the
  faer Lanczos kernels and SpMV, the native wrapper declarations, the
  accuracy export and the standalone faer SpMV benchmark.
- `tests/` — tests of the library.
