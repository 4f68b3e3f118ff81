//! Composes one to four raster images into a single preview thumbnail: the
//! images are scaled to a common size, laid out on a canvas whose size depends
//! on their count, and drawn sharp over a blurred, fully covering copy of the
//! same layout.
//!
//! - [`bitmap`] holds the images and their model.
//! - [`geometry`] says which image sets the scale, how large the canvas is and
//!   how an image fits into a rectangle.
//! - [`raster`] is the boundary to the `image` crate, which resamples, blurs,
//!   blends and encodes.
//! - [`processing`] scales, lays out and composes, and hands out the encoded
//!   thumbnail.
//! - [`limits`] tests at run time what the functions of `processing` require
//!   of the sizes of their images.
//! - [`laws`] states what holds of every thumbnail.

pub mod bitmap;
pub mod geometry;
pub mod raster;
pub mod processing;
pub mod limits;
pub mod laws;
