//! Drawing color samples from an image for palette clustering: an opacity
//! filter followed by dropping the alpha channel.

use vstd::prelude::*;
use crate::color::Rgb;
use crate::raster::{Image, Pixel};

verus! {

/// Whether a pixel takes part in palette sampling: every pixel does when
/// `include_transparent` is set, otherwise only the fully opaque ones
/// (alpha 255 of 255).
pub open spec fn sampled(p: Pixel, include_transparent: bool) -> bool {
    include_transparent || p.a == 255
}

/// The color samples a pixel sequence yields: the RGB parts of the pixels
/// that pass the opacity filter, in pixel order.
pub open spec fn samples_of(pixels: Seq<Pixel>, include_transparent: bool) -> Seq<Rgb>
    decreases pixels.len(),
{
    if pixels.len() == 0 {
        Seq::empty()
    } else {
        let rest = samples_of(pixels.drop_last(), include_transparent);
        if sampled(pixels.last(), include_transparent) {
            rest.push(pixels.last().spec_rgb())
        } else {
            rest
        }
    }
}

/// Collects the color samples of an image, row-major: pixels that fail the
/// opacity filter are skipped, the rest contribute their RGB part.
pub fn extract_samples(image: &Image, include_transparent: bool) -> (s: Vec<Rgb>)
    requires
        image.wf(),
    ensures
        s@ == samples_of(image.pixels@, include_transparent),
{
    let mut samples: Vec<Rgb> = Vec::new();
    let n = image.pixels.len();
    let mut i: usize = 0;
    while i < n
        invariant
            n == image.pixels@.len(),
            i <= n,
            samples@ == samples_of(image.pixels@.take(i as int), include_transparent),
        decreases n - i,
    {
        let p = image.pixels[i];
        if include_transparent || p.a == 255 {
            samples.push(p.rgb());
        }
        proof {
            let taken = image.pixels@.take(i as int + 1);
            assert(taken.drop_last() =~= image.pixels@.take(i as int));
            assert(taken.last() == image.pixels@[i as int]);
        }
        i = i + 1;
    }
    proof {
        assert(image.pixels@.take(n as int) =~= image.pixels@);
    }
    samples
}

} // verus!
