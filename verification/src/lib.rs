//! Render a 2D numeric matrix (dense or sparse) as an RGBA raster image.
//!
//! The pipeline has three verified stages: nearest-neighbor upscaling of the
//! matrix by an integer factor ([`scale_matrix`]), computation of the extrema
//! of the values present ([`max_and_min`]), and a per-pixel renderer that maps
//! each cell to a color from its sign and its magnitude relative to the
//! extrema, with optional grid annotations ([`generate_image`], [`render`]).
//!
//! Matrices are held in [`ndarray`] arrays and the pixel buffer in an
//! [`image`] buffer; both are reached through a small set of trusted
//! wrappers. Writing the buffer to a file is left to the caller.

mod arrays;
mod imgbuf;
pub mod plot;
mod rusty;
mod types;

pub use arrays::{opt_cells, dense_cells, grid_of, OptArray, DenseArray};
pub use imgbuf::{img_pixels, pixel_fill, PixelBuffer};
pub use rusty::{
    alpha_of, black, blue, cell_color, cells_to_matrix, generate_image, grid_cols, has_present,
    is_grid, is_opt_extrema, lemma_blank_interior_white, lemma_diagonal_red, lemma_extrema_unique,
    lemma_output_dims, lemma_own_extrema_normalize, lemma_scale_identity,
    lemma_scale_render_absent, lemma_scaled_grid_cells, max_and_min, norm_fails, pix_dom,
    placed_cells, present_at, record_in_bounds, red, render, rendered_image, rendered_pixel,
    scale_matrix, scaled_grid, transparent, value_at, white,
};
pub use types::Cell;
pub use types::Color;
pub use types::Config;
pub use types::Position;
pub use types::RenderError;
