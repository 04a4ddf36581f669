//! Ingestion: building an optional-cell matrix from position/value records.

use ndarray_to_img::{cells_to_matrix, Cell, Color, Position, RenderError};

fn record(x: u32, y: u32, value: i32) -> Cell {
    Cell {
        position: Position { x, y },
        value,
        color: Color { red: 0, green: 0, blue: 0, alpha: 255 },
    }
}

#[test]
fn ingest_places_records() {
    let cells = vec![record(1, 2, 5), record(0, 0, -3)];

    let m = cells_to_matrix(&cells, 3, 4).unwrap();

    assert_eq!(m.inner.shape(), &[3, 4]);
    assert_eq!(m.inner[[1, 2]], Some(5));
    assert_eq!(m.inner[[0, 0]], Some(-3));
    assert_eq!(m.inner[[2, 3]], None);
    assert_eq!(m.inner[[2, 1]], None);
}

#[test]
fn ingest_later_records_overwrite() {
    let cells = vec![record(1, 1, 5), record(1, 1, 9)];

    let m = cells_to_matrix(&cells, 2, 2).unwrap();

    assert_eq!(m.inner[[1, 1]], Some(9));
}

#[test]
fn ingest_rejects_zero_dimensions() {
    let cells = vec![record(0, 0, 1)];

    assert_eq!(cells_to_matrix(&cells, 0, 4).unwrap_err(), RenderError::InvalidDimensions);
    assert_eq!(cells_to_matrix(&cells, 4, 0).unwrap_err(), RenderError::InvalidDimensions);
}

#[test]
fn ingest_rejects_out_of_bounds_records() {
    let cells = vec![record(0, 0, 1), record(3, 0, 2)];
    assert_eq!(cells_to_matrix(&cells, 3, 3).unwrap_err(), RenderError::InvalidDimensions);

    let cells = vec![record(0, 3, 2)];
    assert_eq!(cells_to_matrix(&cells, 3, 3).unwrap_err(), RenderError::InvalidDimensions);
}
