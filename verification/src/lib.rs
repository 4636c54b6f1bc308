//! A verified Mandelbrot renderer core.
//!
//! The library maps pixels of an output grid to points of the complex
//! plane, runs the escape-time iteration on each point, and assembles the
//! grayscale image from row bands that can be rendered concurrently.
//! Plane coordinates are fixed-point numbers: an `i64` holding the real
//! value times [`fixed::SCALE`].

pub mod dispatch;
pub mod escape;
pub mod fixed;
pub mod geometry;
pub mod parse;
pub mod render;
