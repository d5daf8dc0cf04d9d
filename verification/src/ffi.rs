//! The integer arguments that the native wrappers take: their C interface
//! counts rows, columns and nonzeros in `i32`.

use vstd::prelude::*;

verus! {

/// Dimensions of a matrix as the native wrappers take them.
#[derive(Debug, Clone, Copy, PartialEq, Eq, Structural)]
pub struct FfiDims {
    pub nrows: i32,
    pub ncols: i32,
    pub nnz: i32,
    /// Length of the output vector (one entry per row).
    pub len: i32,
}

/// The outcome of converting `value` to `i32`: the value, or the message
/// that the quantity `name` does not fit.
pub open spec fn i32_check(value: usize, name: Seq<char>) -> Result<int, Seq<char>> {
    if value <= i32::MAX {
        Ok(value as int)
    } else {
        Err(name + " does not fit in i32"@)
    }
}

/// A quantity that does not fit in `i32`: the message naming it, and the
/// error of the conversion that refused it.
#[derive(Debug)]
pub struct DoesNotFit {
    pub message: String,
    pub cause: core::num::TryFromIntError,
}

/// Converts `value` to `i32` with `i32::try_from`; where it does not fit,
/// reports that `name` does not, with the conversion error as the cause.
pub fn checked_i32(value: usize, name: &str) -> (res: Result<i32, DoesNotFit>)
    ensures
        match i32_check(value, name@) {
            Ok(v) => res matches Ok(r) && r == v,
            Err(m) => res matches Err(e) && e.message@ == m,
        },
{
    match i32::try_from(value) {
        Ok(v) => Ok(v),
        Err(cause) => {
            let mut message = String::from_str(name);
            message.append(" does not fit in i32");
            Err(DoesNotFit { message, cause })
        },
    }
}

/// The dimensions of an `nrows x ncols` matrix with `nnz` stored entries,
/// checked in this order: row count, column count, nonzero count, output
/// length; the first that does not fit in `i32` is reported.
pub fn ffi_dims(nrows: usize, ncols: usize, nnz: usize) -> (res: Result<FfiDims, DoesNotFit>)
    ensures
        nrows > i32::MAX ==> (res matches Err(e) && e.message@ == "row count does not fit in i32"@),
        nrows <= i32::MAX && ncols > i32::MAX ==> (res matches Err(e) && e.message@
            == "column count does not fit in i32"@),
        nrows <= i32::MAX && ncols <= i32::MAX && nnz > i32::MAX ==> (res matches Err(e) && e.message@
            == "nonzero count does not fit in i32"@),
        nrows <= i32::MAX && ncols <= i32::MAX && nnz <= i32::MAX ==> (res matches Ok(d) && d.nrows
            == nrows && d.ncols == ncols && d.nnz == nnz && d.len == nrows),
{
    proof {
        reveal_strlit("row count");
        reveal_strlit("column count");
        reveal_strlit("nonzero count");
        reveal_strlit(" does not fit in i32");
        reveal_strlit("row count does not fit in i32");
        reveal_strlit("column count does not fit in i32");
        reveal_strlit("nonzero count does not fit in i32");
    }
    let r = match checked_i32(nrows, "row count") {
        Ok(v) => v,
        Err(e) => {
            return Err(e);
        },
    };
    let c = match checked_i32(ncols, "column count") {
        Ok(v) => v,
        Err(e) => {
            return Err(e);
        },
    };
    let z = match checked_i32(nnz, "nonzero count") {
        Ok(v) => v,
        Err(e) => {
            return Err(e);
        },
    };
    let len = match checked_i32(nrows, "output length") {
        Ok(v) => v,
        Err(e) => {
            return Err(e);
        },
    };
    Ok(FfiDims { nrows: r, ncols: c, nnz: z, len })
}

} // verus!
