//! Configuration, error taxonomy and ingestion records.

use vstd::prelude::*;

verus! {

/// Configuration for the output image and library.
///
/// `verbosity` only affects diagnostic output of callers, never the rendered
/// pixels. `with_color` gates magnitude-based alpha shading against flat
/// black/white colors. `annotate_image` is the master switch for the diagonal
/// and boundary overlays selected by `draw_diagonal` and `draw_boundaries`.
/// `scaling_factor` is the nearest-neighbor upscaling factor; `0` is invalid
/// and is rejected by every function that consumes it.
#[derive(Clone, Copy, Debug, PartialEq, Eq, Structural)]
pub struct Config {
    pub verbosity: u8,
    pub with_color: bool,
    pub annotate_image: bool,
    pub draw_diagonal: bool,
    pub draw_boundaries: bool,
    pub scaling_factor: u8,
}

/// The error taxonomy of the rendering pipeline.
///
/// Writing the finished buffer to a file is outside this crate, so its
/// failure is not represented here.
#[derive(Clone, Copy, Debug, PartialEq, Eq, Structural)]
pub enum RenderError {
    /// A declared or implied matrix shape is unusable: a zero dimension, or a
    /// record placed outside the declared bounds.
    InvalidDimensions,
    /// `scaling_factor` is zero.
    InvalidScalingFactor,
    /// An extremum is zero while a present value of the corresponding sign
    /// requires normalization against it.
    Normalization,
}

/// A cell position, row `x` and column `y`.
#[derive(Clone, Copy, Debug)]
pub struct Position {
    pub x: u32,
    pub y: u32,
}

/// An RGBA color carried by an ingested record; the renderer derives its own
/// colors, so this is payload only.
#[derive(Clone, Copy, Debug)]
pub struct Color {
    pub red: u8,
    pub green: u8,
    pub blue: u8,
    pub alpha: u8,
}

/// One record of the data-ingestion boundary: a value placed at a position.
#[derive(Clone, Copy, Debug)]
pub struct Cell {
    pub position: Position,
    pub value: i32,
    pub color: Color,
}

} // verus!
