//! Extrema: present-cell minima and maxima, and the dense zero baseline.

use ndarray::{Array, Array2};
use ndarray_to_img::plot::{Matrix, OptMatrix, Plottable};
use ndarray_to_img::{max_and_min, DenseArray, OptArray};

#[test]
fn extrema_empty_matrix_is_zero() {
    let matrix: Array2<Option<i32>> = Array::from_elem((6, 6), None);
    let (min, max) = max_and_min(&OptArray { inner: matrix });
    assert_eq!((min, max), (0, 0));
}

#[test]
fn extrema_all_positive_ignores_zero() {
    let mut matrix: Array2<Option<i32>> = Array::from_elem((10, 10), None);
    matrix[[1, 2]] = Some(1);
    matrix[[4, 5]] = Some(10);
    matrix[[2, 5]] = Some(7);
    matrix[[5, 5]] = Some(5);

    let (min, max) = max_and_min(&OptArray { inner: matrix });

    assert_eq!((min, max), (1, 10));
}

#[test]
fn extrema_mixed_signs() {
    let mut matrix: Array2<Option<i32>> = Array::from_elem((10, 10), None);
    matrix[[1, 2]] = Some(1);
    matrix[[2, 5]] = Some(7);
    matrix[[4, 5]] = Some(10);
    matrix[[5, 5]] = Some(5);
    matrix[[5, 4]] = Some(-15);
    matrix[[8, 9]] = Some(-190);

    let (min, max) = max_and_min(&OptArray { inner: matrix });

    assert_eq!((min, max), (-190, 10));
}

#[test]
fn extrema_trait_matches_free_function() {
    let mut matrix: Array2<Option<i32>> = Array::from_elem((4, 4), None);
    matrix[[0, 3]] = Some(-2);
    matrix[[3, 0]] = Some(8);

    let m = OptMatrix { matrix: OptArray { inner: matrix } };
    assert_eq!(m.max_and_min(), (-2, 8));
}

#[test]
fn dense_extrema_include_zero_baseline() {
    // the dense rule starts both extrema at zero, so an all-positive matrix
    // still has minimum 0 -- unlike the optional rule
    let mut dense: Array2<i32> = Array::from_elem((3, 3), 0);
    dense[[0, 0]] = 4;
    dense[[2, 2]] = 9;

    let m = Matrix { matrix: DenseArray { inner: dense } };
    assert_eq!(m.max_and_min(), (0, 9));

    let mut dense: Array2<i32> = Array::from_elem((3, 3), 0);
    dense[[1, 1]] = -3;
    let m = Matrix { matrix: DenseArray { inner: dense } };
    assert_eq!(m.max_and_min(), (-3, 0));
}
