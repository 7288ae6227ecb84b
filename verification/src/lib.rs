//! Escape-time rasterisation of the Mandelbrot set.
//!
//! - `axis`: the affine map from a normalized coordinate to a point of one
//!   axis of the view window.
//! - `escape`: the evaluator that follows an orbit until it escapes, is
//!   found periodic, or has spent its budget.
//! - `palette`: colors, the linear gradient and the cyclic hue gradient.
//! - `table`: the palette table, whose last entry marks the set.
//! - `grid`: the pixel grid and its division into bands of rows.
//! - `raster`: the sampler and the raster that it fills.
//! - `progress`: what the progress monitor shows of a run.

pub mod axis;
pub mod escape;
pub mod grid;
pub mod palette;
pub mod progress;
pub mod raster;
pub mod table;
