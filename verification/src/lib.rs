//! A pixel-art rendering library.
//!
//! Turns a full-color raster image into a stylized low-color rendition in
//! three stages: block resampling (pixelation), palette assembly with
//! bit-depth reduction, and nearest-color quantization. Every stage carries
//! a proved contract; the k-means centroid search that feeds the palette
//! assembly runs in floating-point color space and therefore outside this
//! crate, which consumes its centroids as plain values.

pub mod color;
pub mod config;
pub mod palette;
pub mod quantize;
pub mod raster;
pub mod resample;
pub mod sample;
