//! A verified escape-time fractal rendering engine.
//!
//! The engine classifies every pixel of a raster image through an
//! escape-time iteration, maps each outcome to an RGB triple, and fills a
//! single output buffer chunk by chunk. The iteration recurrence itself is
//! an interchangeable strategy supplied by the caller; everything around it
//! (iteration control, color mapping, work partitioning, buffer filling) is
//! verified here.

pub mod color;
pub mod engine;
pub mod kernel;
pub mod options;
pub mod parse;
pub mod partition;
pub mod vec2;
