use hpla_rs::symmetry::{classify_header, symmetry_from_header};
use hpla_rs::Symmetry;

#[test]
fn banner_symmetry_is_read() {
    assert_eq!(
        symmetry_from_header("%%MatrixMarket matrix coordinate real symmetric\n"),
        Symmetry::Symmetric
    );
    assert_eq!(
        symmetry_from_header("%%MatrixMarket matrix coordinate real general\n"),
        Symmetry::General
    );
    assert_eq!(
        symmetry_from_header("%%MatrixMarket matrix coordinate real skew-symmetric\n"),
        Symmetry::Skew
    );
    assert_eq!(
        symmetry_from_header("%%MatrixMarket matrix coordinate complex hermitian\n"),
        Symmetry::Symmetric
    );
    assert_eq!(
        symmetry_from_header("%%MatrixMarket matrix coordinate pattern symmetric"),
        Symmetry::Symmetric
    );
}

#[test]
fn banner_is_matched_without_case() {
    // Only a real lowercase mapping makes these banners match.
    assert_eq!(
        symmetry_from_header("%%MATRIXMARKET MATRIX COORDINATE REAL SYMMETRIC"),
        Symmetry::Symmetric
    );
    assert_eq!(
        symmetry_from_header("%%matrixMarket matrix coordinate real Skew-Symmetric"),
        Symmetry::Skew
    );
}

#[test]
fn a_line_that_is_no_banner_is_general() {
    assert_eq!(symmetry_from_header(""), Symmetry::General);
    assert_eq!(symmetry_from_header("% symmetric"), Symmetry::General);
    assert_eq!(symmetry_from_header(" %%MatrixMarket symmetric"), Symmetry::General);
    assert_eq!(symmetry_from_header("%%MatrixMarke symmetric"), Symmetry::General);
}

#[test]
fn classification_of_lowercased_lines() {
    assert_eq!(classify_header("%%matrixmarket"), Symmetry::General);
    assert_eq!(classify_header("%%matrixmarketsymmetric"), Symmetry::Symmetric);
    assert_eq!(classify_header("%%matrixmarket skew-symmetric symmetric"), Symmetry::Skew);
    // Case matters once the line is lowercased.
    assert_eq!(classify_header("%%MatrixMarket matrix symmetric"), Symmetry::General);
    assert_eq!(classify_header("%%matrixmarket SYMMETRIC"), Symmetry::General);
}
