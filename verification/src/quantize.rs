//! Nearest-color quantization: every pixel's RGB is replaced with the closest
//! palette color by squared Euclidean distance, with a deterministic
//! tie-break (the first minimal entry in palette order); the alpha channel is
//! never touched. An empty palette recolors every pixel to black.

use vstd::prelude::*;
use crate::color::{
    compute_squared_distance,
    dist2,
    lemma_distance_nonneg,
    lemma_distance_zero,
    Rgb,
};
use crate::raster::{Image, Pixel};

verus! {

/// The first palette index whose color is nearest (by squared distance)
/// to `c`. Zero for palettes of at most one entry.
pub open spec fn best_index(palette: Seq<Rgb>, c: Rgb) -> int
    decreases palette.len(),
{
    if palette.len() <= 1 {
        0
    } else {
        let b = best_index(palette.drop_last(), c);
        if dist2(palette.last(), c) < dist2(palette[b], c) {
            palette.len() - 1
        } else {
            b
        }
    }
}

/// `i` names a stable minimum of the distance scan: it is in range, no entry
/// is nearer to `c`, and every earlier entry is strictly farther.
pub open spec fn is_first_min(palette: Seq<Rgb>, c: Rgb, i: int) -> bool {
    &&& 0 <= i < palette.len()
    &&& forall|j: int|
        0 <= j < palette.len() ==> dist2(palette[i], c) <= dist2(#[trigger] palette[j], c)
    &&& forall|j: int| 0 <= j < i ==> dist2(#[trigger] palette[j], c) > dist2(palette[i], c)
}

/// `best_index` picks the first minimal entry of a nonempty palette: the
/// selection is a stable minimum, not an arbitrary one.
pub proof fn lemma_best_index_first_min(palette: Seq<Rgb>, c: Rgb)
    requires
        palette.len() >= 1,
    ensures
        is_first_min(palette, c, best_index(palette, c)),
    decreases palette.len(),
{
    if palette.len() > 1 {
        lemma_best_index_first_min(palette.drop_last(), c);
        assert(forall|j: int|
            0 <= j < palette.len() - 1 ==> palette.drop_last()[j] == #[trigger] palette[j]);
    }
}

/// The palette color nearest to `c`; black when the palette is empty.
pub open spec fn nearest_color_spec(palette: Seq<Rgb>, c: Rgb) -> Rgb {
    if palette.len() == 0 {
        Rgb { r: 0, g: 0, b: 0 }
    } else {
        palette[best_index(palette, c)]
    }
}

/// A color that occurs in the palette is its own nearest palette color: its
/// distance to itself is zero, so the stable minimum has distance zero, and
/// distance zero means equality.
pub proof fn lemma_nearest_member_fixed(palette: Seq<Rgb>, c: Rgb)
    requires
        exists|j: int| 0 <= j < palette.len() && palette[j] == c,
    ensures
        nearest_color_spec(palette, c) == c,
{
    let j = choose|j: int| 0 <= j < palette.len() && palette[j] == c;
    lemma_best_index_first_min(palette, c);
    let b = best_index(palette, c);
    lemma_distance_zero(c, c);
    assert(dist2(palette[b], c) <= dist2(palette[j], c));
    lemma_distance_nonneg(palette[b], c);
    lemma_distance_zero(palette[b], c);
}

/// Scans the palette in stored order and returns the entry with minimal
/// squared distance to `c`, keeping the first one on ties; black when the
/// palette is empty.
pub fn nearest_color(palette: &Vec<Rgb>, c: &Rgb) -> (r: Rgb)
    ensures
        r == nearest_color_spec(palette@, *c),
{
    let n = palette.len();
    if n == 0 {
        return Rgb { r: 0, g: 0, b: 0 };
    }
    let mut best: usize = 0;
    let mut best_d: u32 = compute_squared_distance(&palette[0], c);
    let mut i: usize = 1;
    while i < n
        invariant
            n == palette@.len(),
            1 <= i <= n,
            best < i,
            best_d as int == dist2(palette@[best as int], *c),
            best as int == best_index(palette@.take(i as int), *c),
        decreases n - i,
    {
        let d = compute_squared_distance(&palette[i], c);
        proof {
            let taken = palette@.take(i as int + 1);
            assert(taken.drop_last() =~= palette@.take(i as int));
            assert(taken.last() == palette@[i as int]);
            assert(forall|j: int| 0 <= j < i ==> taken[j] == #[trigger] palette@[j]);
        }
        if d < best_d {
            best = i;
            best_d = d;
        }
        i = i + 1;
    }
    proof {
        assert(palette@.take(n as int) =~= palette@);
    }
    palette[best]
}

/// The pixel as the quantizer leaves it: RGB replaced by the nearest palette
/// color, alpha kept.
pub open spec fn quantize_pixel(palette: Seq<Rgb>, p: Pixel) -> Pixel {
    let n = nearest_color_spec(palette, p.spec_rgb());
    Pixel { r: n.r, g: n.g, b: n.b, a: p.a }
}

/// A whole pixel sequence after quantization against `palette`.
pub open spec fn quantized(pixels: Seq<Pixel>, palette: Seq<Rgb>) -> Seq<Pixel> {
    pixels.map_values(|p: Pixel| quantize_pixel(palette, p))
}

/// Recolors every pixel of the image in place to the closest color of the
/// palette; each pixel's alpha channel is left as it was. With an empty
/// palette every pixel's RGB becomes black (0, 0, 0). No pixel's result
/// depends on any other pixel.
pub fn reduce_colors(image: &mut Image, palette: &Vec<Rgb>)
    requires
        old(image).wf(),
    ensures
        final(image).wf(),
        final(image).width == old(image).width,
        final(image).height == old(image).height,
        final(image).pixels@ == quantized(old(image).pixels@, palette@),
{
    let n = image.pixels.len();
    let mut i: usize = 0;
    while i < n
        invariant
            image.width == old(image).width,
            image.height == old(image).height,
            n == image.pixels@.len(),
            image.pixels@.len() == old(image).pixels@.len(),
            i <= n,
            forall|j: int|
                0 <= j < i ==> image.pixels@[j] == quantize_pixel(
                    palette@,
                    old(image).pixels@[j],
                ),
            forall|j: int| i <= j < n ==> image.pixels@[j] == old(image).pixels@[j],
        decreases n - i,
    {
        let p = image.pixels[i];
        let c = nearest_color(palette, &p.rgb());
        image.pixels[i] = Pixel { r: c.r, g: c.g, b: c.b, a: p.a };
        i = i + 1;
    }
    proof {
        assert(image.pixels@ =~= quantized(old(image).pixels@, palette@));
    }
}

/// Quantizing against the empty palette blacks out every pixel's RGB and
/// keeps every pixel's alpha.
pub proof fn lemma_empty_palette_black(pixels: Seq<Pixel>)
    ensures
        quantized(pixels, Seq::<Rgb>::empty()).len() == pixels.len(),
        forall|i: int|
            0 <= i < pixels.len() ==> quantized(pixels, Seq::<Rgb>::empty())[i] == (Pixel {
                r: 0,
                g: 0,
                b: 0,
                a: pixels[i].a,
            }),
{
}

/// Quantization is idempotent against its own output palette: every pixel of
/// a quantized image already holds a palette color (or black, for the empty
/// palette), so a second pass with the same palette changes nothing.
pub proof fn lemma_quantize_idempotent(pixels: Seq<Pixel>, palette: Seq<Rgb>)
    ensures
        quantized(quantized(pixels, palette), palette) == quantized(pixels, palette),
{
    let q1 = quantized(pixels, palette);
    assert forall|i: int| 0 <= i < q1.len() implies quantize_pixel(palette, q1[i]) == q1[i] by {
        let p = pixels[i];
        let qp = quantize_pixel(palette, p);
        assert(q1[i] == qp);
        if palette.len() == 0 {
            assert(quantize_pixel(palette, qp) == qp);
        } else {
            lemma_best_index_first_min(palette, p.spec_rgb());
            let b = best_index(palette, p.spec_rgb());
            assert(qp.spec_rgb() == palette[b]);
            lemma_nearest_member_fixed(palette, qp.spec_rgb());
        }
    }
    assert(quantized(q1, palette) =~= q1);
}

} // verus!
