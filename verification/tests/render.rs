//! Rendering: the palette, alpha shading, annotations, and the border policy.

use image::Rgba;
use ndarray::{Array, Array2};
use ndarray_to_img::plot::{Matrix, OptMatrix, Plottable};
use ndarray_to_img::{
    generate_image, render, scale_matrix, Config, DenseArray, OptArray, RenderError,
};

const WHITE: Rgba<u8> = Rgba([255, 255, 255, 255]);
const RED: Rgba<u8> = Rgba([255, 0, 0, 125]);
const BLUE: Rgba<u8> = Rgba([0, 0, 255, 255]);
const TRANSPARENT: Rgba<u8> = Rgba([0, 0, 0, 0]);

fn plain_config() -> Config {
    Config {
        verbosity: 0,
        with_color: true,
        annotate_image: false,
        draw_diagonal: false,
        draw_boundaries: false,
        scaling_factor: 1,
    }
}

#[test]
fn positive_values_shade_red_by_magnitude() {
    let mut matrix: Array2<Option<i32>> = Array::from_elem((1, 2), None);
    matrix[[0, 0]] = Some(5);
    matrix[[0, 1]] = Some(10);

    let img = generate_image(&OptArray { inner: matrix }, &plain_config()).unwrap();

    // alpha = ceil((5 / 10) * 255) = 128, and 255 for the maximum itself
    assert_eq!(*img.inner.get_pixel(0, 0), Rgba([255, 0, 0, 128]));
    assert_eq!(*img.inner.get_pixel(1, 0), Rgba([255, 0, 0, 255]));
}

#[test]
fn negative_values_shade_black_by_magnitude() {
    let mut matrix: Array2<Option<i32>> = Array::from_elem((1, 2), None);
    matrix[[0, 0]] = Some(-15);
    matrix[[0, 1]] = Some(-190);

    let img = generate_image(&OptArray { inner: matrix }, &plain_config()).unwrap();

    // alpha = ceil((15 / 190) * 255) = 21, and 255 for the minimum itself
    assert_eq!(*img.inner.get_pixel(0, 0), Rgba([0, 0, 0, 21]));
    assert_eq!(*img.inner.get_pixel(1, 0), Rgba([0, 0, 0, 255]));
}

#[test]
fn absent_and_zero_cells_are_white() {
    let mut matrix: Array2<Option<i32>> = Array::from_elem((1, 3), None);
    matrix[[0, 1]] = Some(0);
    matrix[[0, 2]] = Some(3);

    let img = generate_image(&OptArray { inner: matrix }, &plain_config()).unwrap();

    assert_eq!(*img.inner.get_pixel(0, 0), WHITE);
    assert_eq!(*img.inner.get_pixel(1, 0), WHITE);
    assert_eq!(*img.inner.get_pixel(2, 0), Rgba([255, 0, 0, 255]));
}

#[test]
fn flat_mode_paints_present_cells_black() {
    let mut config = plain_config();
    config.with_color = false;
    let mut matrix: Array2<Option<i32>> = Array::from_elem((1, 3), None);
    matrix[[0, 1]] = Some(7);
    matrix[[0, 2]] = Some(-4);

    let img = generate_image(&OptArray { inner: matrix }, &config).unwrap();

    assert_eq!(*img.inner.get_pixel(0, 0), WHITE);
    assert_eq!(*img.inner.get_pixel(1, 0), Rgba([0, 0, 0, 255]));
    assert_eq!(*img.inner.get_pixel(2, 0), Rgba([0, 0, 0, 255]));
}

#[test]
fn border_stays_transparent_without_annotations() {
    let mut matrix: Array2<Option<i32>> = Array::from_elem((2, 2), None);
    matrix[[0, 0]] = Some(1);

    let img = generate_image(&OptArray { inner: matrix }, &plain_config()).unwrap();

    assert_eq!(img.inner.width(), 3);
    assert_eq!(img.inner.height(), 3);
    for x in 0..3 {
        assert_eq!(*img.inner.get_pixel(x, 2), TRANSPARENT);
    }
    for y in 0..3 {
        assert_eq!(*img.inner.get_pixel(2, y), TRANSPARENT);
    }
}

#[test]
fn diagonal_annotation_is_red_and_takes_precedence() {
    let mut config = plain_config();
    config.annotate_image = true;
    config.draw_diagonal = true;
    config.draw_boundaries = true;

    let mut matrix: Array2<Option<i32>> = Array::from_elem((4, 4), None);
    matrix[[2, 2]] = Some(9);

    let img = generate_image(&OptArray { inner: matrix }, &config).unwrap();

    // with factor 1 the boundary rule claims every pixel, but the diagonal
    // still wins on (x, x)
    for x in 0..5 {
        assert_eq!(*img.inner.get_pixel(x, x), RED);
    }
    assert_eq!(*img.inner.get_pixel(1, 0), BLUE);
    assert_eq!(*img.inner.get_pixel(0, 3), BLUE);
}

#[test]
fn boundary_rows_fire_even_without_the_flag() {
    // the row test stands outside the draw_boundaries conjunction: with the
    // flag off, rows on a multiple of the factor are still blue
    let mut config = plain_config();
    config.annotate_image = true;
    config.scaling_factor = 2;

    let mut matrix: Array2<Option<i32>> = Array::from_elem((4, 4), None);
    matrix[[1, 1]] = Some(6);

    let img = generate_image(&OptArray { inner: matrix }, &config).unwrap();

    assert_eq!(*img.inner.get_pixel(1, 2), BLUE); // y % 2 == 0
    assert_eq!(*img.inner.get_pixel(3, 0), BLUE); // y % 2 == 0
    assert_eq!(*img.inner.get_pixel(1, 1), Rgba([255, 0, 0, 255])); // the cell shows
    assert_eq!(*img.inner.get_pixel(2, 1), WHITE); // x % 2 == 0 ignored: absent cell
    // an unannotated border pixel stays untouched
    assert_eq!(*img.inner.get_pixel(4, 1), TRANSPARENT);
}

#[test]
fn boundary_columns_need_the_flag() {
    let mut config = plain_config();
    config.annotate_image = true;
    config.draw_boundaries = true;
    config.scaling_factor = 2;

    let matrix: Array2<Option<i32>> = Array::from_elem((4, 4), None);
    let img = generate_image(&OptArray { inner: matrix }, &config).unwrap();

    assert_eq!(*img.inner.get_pixel(2, 1), BLUE); // x % 2 == 0, flag on
    assert_eq!(*img.inner.get_pixel(1, 1), WHITE);
    assert_eq!(*img.inner.get_pixel(3, 3), WHITE);
}

#[test]
fn blank_dense_matrix_renders_white_interior() {
    let config = plain_config();
    let dense: Array2<i32> = Array::from_elem((10, 10), 0);
    let m = Matrix { matrix: DenseArray { inner: dense } };

    let img = m.plot(&config).unwrap();

    assert_eq!(img.inner.width(), 11);
    assert_eq!(img.inner.height(), 11);
    for x in 0..10 {
        for y in 0..10 {
            assert_eq!(*img.inner.get_pixel(x, y), WHITE);
        }
    }
}

#[test]
fn output_dimensions_follow_the_scaled_matrix() {
    let mut config = plain_config();
    config.scaling_factor = 2;

    let mut matrix: Array2<Option<i32>> = Array::from_elem((3, 5), None);
    matrix[[0, 0]] = Some(-1);

    let scaled = scale_matrix(&OptArray { inner: matrix }, &config).unwrap();
    let img = generate_image(&scaled, &config).unwrap();

    assert_eq!(img.inner.width(), 11); // cols * k + 1
    assert_eq!(img.inner.height(), 7); // rows * k + 1
}

#[test]
fn scale_then_render_all_absent_is_all_white() {
    let mut config = plain_config();
    config.scaling_factor = 2;

    let matrix: Array2<Option<i32>> = Array::from_elem((5, 5), None);
    let m = OptMatrix { matrix: OptArray { inner: matrix } };

    let scaled = m.scale_matrix(&config).unwrap();
    let img = scaled.plot(&config).unwrap();

    assert_eq!(img.inner.width(), 11);
    assert_eq!(img.inner.height(), 11);
    for x in 0..11 {
        for y in 0..11 {
            if x == 10 || y == 10 {
                assert_eq!(*img.inner.get_pixel(x, y), TRANSPARENT);
            } else {
                assert_eq!(*img.inner.get_pixel(x, y), WHITE);
            }
        }
    }
}

#[test]
fn inconsistent_extrema_report_normalization_error() {
    let mut matrix: Array2<Option<i32>> = Array::from_elem((2, 2), None);
    matrix[[0, 0]] = Some(5);

    // a positive value with a zero maximum cannot be normalized
    let r = render(&OptArray { inner: matrix }, &plain_config(), 0, 0);
    assert_eq!(r.unwrap_err(), RenderError::Normalization);

    let mut matrix: Array2<Option<i32>> = Array::from_elem((2, 2), None);
    matrix[[1, 1]] = Some(-5);
    let r = render(&OptArray { inner: matrix }, &plain_config(), 0, -1);
    assert_eq!(r.unwrap_err(), RenderError::Normalization);
}

#[test]
fn consistent_extrema_render_through() {
    let mut matrix: Array2<Option<i32>> = Array::from_elem((1, 1), None);
    matrix[[0, 0]] = Some(4);

    let img = render(&OptArray { inner: matrix }, &plain_config(), 4, 8).unwrap();

    // alpha = ceil((4 / 8) * 255) = 128
    assert_eq!(*img.inner.get_pixel(0, 0), Rgba([255, 0, 0, 128]));
}

#[test]
fn dense_plot_shades_against_dense_extrema() {
    let mut dense: Array2<i32> = Array::from_elem((1, 3), 0);
    dense[[0, 1]] = 5;
    dense[[0, 2]] = 10;

    let m = Matrix { matrix: DenseArray { inner: dense } };
    let img = m.plot(&plain_config()).unwrap();

    assert_eq!(*img.inner.get_pixel(0, 0), WHITE); // dense zero is white
    assert_eq!(*img.inner.get_pixel(1, 0), Rgba([255, 0, 0, 128]));
    assert_eq!(*img.inner.get_pixel(2, 0), Rgba([255, 0, 0, 255]));
}
