//! The recognized configuration for one pixel-art run. Parsing command-line
//! text into this shape is the caller's business; the library only consumes
//! the plain values.

use vstd::prelude::*;

verus! {

/// Options for one run of the pipeline.
#[derive(Clone, Debug)]
pub struct Args {
    /// Path to the image to be processed.
    pub input: String,
    /// Path to the output image.
    pub output: String,
    /// Pixelation factor. Larger values result in more pixelation.
    pub pixelation_factor: u32,
    /// Number of colors to use.
    pub num_colors: usize,
    /// Whether to include transparent pixels in the color palette.
    pub transparent: bool,
    /// Explicit output width; when only one of width and height is given,
    /// the other is derived so the aspect ratio is kept.
    pub width: Option<u32>,
    /// Explicit output height.
    pub height: Option<u32>,
}

} // verus!
