//! Rendering of the Mandelbrot set: the colour of each pixel, the row bands
//! that the image is rendered in, the flat byte layout handed to an encoder,
//! and the parsing of numeric pairs such as image dimensions.
//!
//! The escape test itself works on floating-point numbers and is supplied by
//! the caller as a function from a pixel's column and row to its outcome.
use vstd::prelude::*;

pub mod color;
pub mod pair;
pub mod render;

verus! {

} // verus!
