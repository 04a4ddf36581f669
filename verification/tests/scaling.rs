//! Scaling: identity at factor 1, block replication at larger factors.

use ndarray::{Array, Array2};
use ndarray_to_img::plot::{Matrix, Plottable};
use ndarray_to_img::{scale_matrix, Config, DenseArray, OptArray};

fn config_with_factor(k: u8) -> Config {
    Config {
        verbosity: 0,
        with_color: true,
        annotate_image: false,
        draw_diagonal: false,
        draw_boundaries: false,
        scaling_factor: k,
    }
}

#[test]
fn scale_factor_one_is_identity() {
    let mut matrix: Array2<Option<i32>> = Array::from_elem((3, 4), None);
    matrix[[0, 0]] = Some(-7);
    matrix[[1, 3]] = Some(9);
    matrix[[2, 2]] = Some(0);
    let source = matrix.clone();

    let scaled = scale_matrix(&OptArray { inner: matrix }, &config_with_factor(1)).unwrap();

    assert_eq!(scaled.inner.shape(), &[3, 4]);
    for i in 0..3 {
        for j in 0..4 {
            assert_eq!(scaled.inner[[i, j]], source[[i, j]]);
        }
    }
}

#[test]
fn scale_replicates_blocks() {
    let mut matrix: Array2<Option<i32>> = Array::from_elem((2, 2), None);
    matrix[[0, 0]] = Some(1);
    matrix[[0, 1]] = Some(2);
    matrix[[1, 0]] = Some(3);
    let source = matrix.clone();

    let k: usize = 3;
    let scaled = scale_matrix(&OptArray { inner: matrix }, &config_with_factor(3)).unwrap();

    assert_eq!(scaled.inner.shape(), &[6, 6]);
    for i in 0..6 {
        for j in 0..6 {
            assert_eq!(scaled.inner[[i, j]], source[[i / k, j / k]]);
        }
    }
}

#[test]
fn scale_exact_corner_values() {
    let mut matrix: Array2<Option<i32>> = Array::from_elem((2, 2), None);
    matrix[[0, 0]] = Some(1);
    matrix[[1, 1]] = Some(4);

    let scaled = scale_matrix(&OptArray { inner: matrix }, &config_with_factor(2)).unwrap();

    assert_eq!(scaled.inner[[0, 0]], Some(1));
    assert_eq!(scaled.inner[[1, 1]], Some(1));
    assert_eq!(scaled.inner[[0, 2]], None);
    assert_eq!(scaled.inner[[2, 2]], Some(4));
    assert_eq!(scaled.inner[[3, 3]], Some(4));
    assert_eq!(scaled.inner[[3, 0]], None);
}

#[test]
fn dense_scale_factor_one_is_identity() {
    let mut dense: Array2<i32> = Array::from_elem((2, 3), 0);
    dense[[0, 1]] = 4;
    dense[[1, 2]] = -6;
    let source = dense.clone();

    let m = Matrix { matrix: DenseArray { inner: dense } };
    let scaled = m.scale_matrix(&config_with_factor(1)).unwrap();

    assert_eq!(scaled.matrix.inner.shape(), &[2, 3]);
    for i in 0..2 {
        for j in 0..3 {
            assert_eq!(scaled.matrix.inner[[i, j]], source[[i, j]]);
        }
    }
}

#[test]
fn dense_scale_replicates_blocks() {
    let mut dense: Array2<i32> = Array::from_elem((2, 2), 0);
    dense[[0, 0]] = 1;
    dense[[1, 1]] = 4;
    let source = dense.clone();

    let k: usize = 2;
    let m = Matrix { matrix: DenseArray { inner: dense } };
    let scaled = m.scale_matrix(&config_with_factor(2)).unwrap();

    assert_eq!(scaled.matrix.inner.shape(), &[4, 4]);
    for i in 0..4 {
        for j in 0..4 {
            assert_eq!(scaled.matrix.inner[[i, j]], source[[i / k, j / k]]);
        }
    }
}
