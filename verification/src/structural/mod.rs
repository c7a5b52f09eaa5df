//! Geometry-only operations: samples are moved, never combined.
pub mod extract_area;
pub mod flip_horizontal;
pub mod rotate180;
pub mod rotate90;
pub mod subsample;
pub mod embed;
pub mod insert;
