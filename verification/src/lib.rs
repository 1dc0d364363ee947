//! Forward-mapping image transforms over dense pixel grids.
//!
//! A source image is scattered pixel by pixel onto an output canvas: every
//! source pixel has a target position, and the canvas cell at that position
//! receives the pixel's colour.  The grids are `ndarray` arrays; everything
//! that decides where a pixel goes, what the canvas holds afterwards and what
//! is reported about the run is verified.

pub mod geometry;
pub mod grid;
pub mod laws;
pub mod matrix;
pub mod params;
pub mod raster;
