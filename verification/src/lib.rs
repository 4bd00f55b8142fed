//! Procedural generation of 2D pixel patterns.
//!
//! A fixed catalog of closed-form integer formulas, indexed by a small
//! pattern id, maps canvas coordinates to packed RGB pixel values. A
//! renderer fills a flat pixel buffer for a range of pattern ids, and a
//! raster codec serializes each image to the binary portable-pixmap
//! format (and parses such headers back).

pub mod pattern;
pub mod ppm;
pub mod render;
