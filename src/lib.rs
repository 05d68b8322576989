//! Rendering of the Mandelbrot set into an 8-bit grayscale raster.
//!
//! The library holds the parts of the pipeline that work on integers and
//! bytes: the row-major layout of the pixel buffer, the mapping from escape
//! results to intensities, the pixel loop that fills a buffer, the decision
//! logic of the escape-time test, and the framing of a buffer as a PNG file.

pub mod raster;
pub mod escape;
pub mod encode;
