use hpla_rs::layout::{assemble_layout, Entry, MtxContent, SparseLayout};
use hpla_rs::Symmetry;

fn e(row: u32, col: u32, src: usize, negate: bool) -> Entry {
    Entry { row, col, src, negate }
}

fn assemble(nrows: usize, ncols: usize, coords: Vec<(usize, usize)>, sym: Symmetry) -> SparseLayout {
    assemble_layout(&MtxContent::Sparse { nrows, ncols, coords }, sym).expect("assembly failed")
}

#[test]
fn general_matrix_csr_and_csc() {
    let l = assemble(3, 3, vec![(2, 0), (0, 1), (1, 1), (0, 0)], Symmetry::General);
    assert_eq!((l.nrows, l.ncols, l.nnz), (3, 3, 4));
    assert_eq!(
        l.triplets,
        vec![e(0, 0, 3, false), e(0, 1, 1, false), e(1, 1, 2, false), e(2, 0, 0, false)]
    );
    assert_eq!(l.row_ptr, vec![0, 2, 3, 4]);
    assert_eq!(l.col_idx, vec![0, 1, 1, 0]);
    assert_eq!(
        l.csc_entries,
        vec![e(0, 0, 3, false), e(2, 0, 0, false), e(0, 1, 1, false), e(1, 1, 2, false)]
    );
    assert_eq!(l.col_ptr, vec![0, 2, 4, 4]);
    assert_eq!(l.row_idx, vec![0, 2, 0, 1]);
}

#[test]
fn symmetric_matrix_is_mirrored() {
    let l = assemble(3, 3, vec![(0, 0), (1, 0), (2, 1)], Symmetry::Symmetric);
    assert_eq!(l.nnz, 5);
    assert_eq!(
        l.triplets,
        vec![
            e(0, 0, 0, false),
            e(0, 1, 1, false),
            e(1, 0, 1, false),
            e(1, 2, 2, false),
            e(2, 1, 2, false)
        ]
    );
    assert_eq!(l.row_ptr, vec![0, 2, 4, 5]);
    assert_eq!(l.col_idx, vec![0, 1, 0, 2, 1]);
    assert_eq!(l.col_ptr, vec![0, 2, 4, 5]);
    assert_eq!(l.row_idx, vec![0, 1, 0, 2, 1]);
}

#[test]
fn skew_matrix_mirror_is_negated() {
    let l = assemble(3, 3, vec![(1, 0), (2, 1)], Symmetry::Skew);
    assert_eq!(
        l.triplets,
        vec![e(0, 1, 0, true), e(1, 0, 0, false), e(1, 2, 1, true), e(2, 1, 1, false)]
    );
    assert_eq!(
        l.csc_entries,
        vec![e(1, 0, 0, false), e(0, 1, 0, true), e(2, 1, 1, false), e(1, 2, 1, true)]
    );
}

#[test]
fn diagonal_lines_are_not_mirrored() {
    let l = assemble(2, 2, vec![(1, 1), (0, 0)], Symmetry::Skew);
    assert_eq!(l.triplets, vec![e(0, 0, 1, false), e(1, 1, 0, false)]);
    assert_eq!(l.nnz, 2);
}

#[test]
fn duplicates_keep_reading_order() {
    let l = assemble(2, 3, vec![(1, 2), (0, 1), (1, 2), (0, 1)], Symmetry::General);
    assert_eq!(
        l.triplets,
        vec![e(0, 1, 1, false), e(0, 1, 3, false), e(1, 2, 0, false), e(1, 2, 2, false)]
    );
    assert_eq!(l.row_ptr, vec![0, 2, 4]);
    assert_eq!(l.col_ptr, vec![0, 0, 2, 4]);
}

#[test]
fn rectangular_and_empty_rows() {
    let l = assemble(4, 2, vec![(3, 1), (0, 0)], Symmetry::General);
    assert_eq!(l.row_ptr, vec![0, 1, 1, 1, 2]);
    assert_eq!(l.col_idx, vec![0, 1]);
    assert_eq!(l.col_ptr, vec![0, 1, 2]);
    assert_eq!(l.row_idx, vec![0, 3]);
    let empty = assemble(3, 3, vec![], Symmetry::Symmetric);
    assert_eq!(empty.nnz, 0);
    assert_eq!(empty.row_ptr, vec![0, 0, 0, 0]);
    assert!(empty.triplets.is_empty());
}

#[test]
fn array_files_are_refused() {
    let r = assemble_layout(&MtxContent::Dense, Symmetry::General);
    assert_eq!(r.err(), Some("Only sparse matrices supported".to_string()));
}

#[test]
fn dimensions_beyond_u32_are_refused() {
    let big = u32::MAX as usize + 1;
    let r = assemble_layout(
        &MtxContent::Sparse { nrows: big, ncols: 2, coords: vec![(0, 0)] },
        Symmetry::General,
    );
    assert_eq!(r.err(), Some("Matrix dimensions exceed u32 index limits".to_string()));
    let r = assemble_layout(
        &MtxContent::Sparse { nrows: 2, ncols: big, coords: vec![] },
        Symmetry::General,
    );
    assert_eq!(r.err(), Some("Matrix dimensions exceed u32 index limits".to_string()));
}

/// The stored entries of both layouts agree, and every entry of a
/// symmetric matrix occurs as often as its transpose.
#[test]
fn layouts_hold_the_same_entries() {
    let coords = vec![(3, 0), (1, 1), (2, 0), (3, 2), (1, 0), (3, 0)];
    let l = assemble(4, 4, coords, Symmetry::Symmetric);
    let mut csr = l.triplets.clone();
    let mut csc = l.csc_entries.clone();
    let key = |x: &Entry| (x.row, x.col, x.src, x.negate);
    csr.sort_by_key(key);
    csc.sort_by_key(key);
    assert_eq!(csr, csc);
    for x in &l.triplets {
        let mirror = e(x.col, x.row, x.src, x.negate);
        let n1 = l.triplets.iter().filter(|y| **y == *x).count();
        let n2 = l.triplets.iter().filter(|y| **y == mirror).count();
        assert_eq!(n1, n2);
    }
    // Sorted order and offsets.
    for w in l.triplets.windows(2) {
        assert!((w[0].row, w[0].col) <= (w[1].row, w[1].col));
    }
    for w in l.csc_entries.windows(2) {
        assert!((w[0].col, w[0].row) <= (w[1].col, w[1].row));
    }
    for r in 0..4usize {
        for i in l.row_ptr[r] as usize..l.row_ptr[r + 1] as usize {
            assert_eq!(l.triplets[i].row as usize, r);
        }
    }
    assert_eq!(l.row_ptr[4] as usize, l.nnz);
    assert_eq!(l.col_ptr[4] as usize, l.nnz);
}
