//! Sampling a procedural scalar field on a grid, deriving a four-neighbour
//! finite-difference gradient at every cell, and rendering both fields as
//! colour-mapped RGB rasters.
//!
//! All field values and colormap positions are fixed-point numbers with
//! `fixed::ONE` standing for `1.0`. Colormap stops are 8-bit channel
//! levels, so an interpolated colour is already quantised: each channel is
//! the blend of two levels in `[0, 255]`, rounded down.

pub mod fixed;
pub mod colormap;
pub mod field;
pub mod png;
pub mod map;
