//! Approximates a raster image by a bounded sequence of simple shapes.
//!
//! The crate holds the exact, integer part of the engine: colours, scanline
//! spans, the canvas with its compositor and its squared-error metric, the
//! rasterizers of the four shape families, and the bookkeeping of the greedy
//! search. Every public function carries a contract over the mathematical
//! model of its data.

pub mod color;
pub mod numeric;
pub mod text;
pub mod scanline;
pub mod canvas;
pub mod metric;
pub mod plain;
pub mod raster;
pub mod triangle;
pub mod ellipse;
pub mod rotated;
pub mod shape;
pub mod sampler;
pub mod state;
pub mod worker;
pub mod model;
pub mod config;
