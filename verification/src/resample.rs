//! Block resampling: nearest-neighbor downscale followed by nearest-neighbor
//! upscale, producing the hard-edged "pixel block" look. No averaging or
//! interpolation takes place, on purpose: blending source pixels would defeat
//! the aesthetic.

use vstd::prelude::*;
use crate::raster::{Image, Pixel};
use vstd::arithmetic::div_mod::{
    lemma_div_by_multiple,
    lemma_div_nonincreasing,
    lemma_fundamental_div_mod_converse,
    lemma_mod_bound,
    lemma_multiply_divide_lt,
};
use crate::raster::lemma_row_major_index_in_range;

verus! {

/// An invalid resampling request.
#[derive(Clone, Copy, Debug, PartialEq, Eq, Structural)]
pub enum SizeError {
    /// The pixelation factor was zero.
    ZeroFactor,
    /// A resample target was empty: the factor truncated an intermediate
    /// dimension to zero, or a final output dimension resolved to zero.
    EmptyTarget,
}

/// The source column (or row) that nearest-neighbor sampling reads for
/// destination coordinate `dst`, when a dimension of `src_dim` pixels is
/// resampled to `dst_dim` pixels: the point-sampled mapping truncates
/// `dst * src_dim / dst_dim`.
pub open spec fn src_coord(dst: int, src_dim: int, dst_dim: int) -> int {
    dst * src_dim / dst_dim
}

/// Integer division of `n` by `d`, rounded to the nearest integer
/// (halves round up).
pub open spec fn round_div(n: int, d: int) -> int
    recommends
        n >= 0,
        d >= 1,
{
    n / d + if 2 * (n % d) >= d {
        1int
    } else {
        0int
    }
}

/// The output width that a pixelation request resolves to: an explicit target
/// width wins; with only a target height the width is derived so the aspect
/// ratio is kept, rounding to nearest; with no target at all the original
/// width stands.
pub open spec fn spec_final_width(img: Image, tw: Option<usize>, th: Option<usize>) -> int {
    match (tw, th) {
        (Some(w), _) => w as int,
        (None, Some(h)) => round_div(img.width * h, img.height as int),
        (None, None) => img.width as int,
    }
}

/// The output height that a pixelation request resolves to, the mirror image
/// of `spec_final_width`.
pub open spec fn spec_final_height(img: Image, tw: Option<usize>, th: Option<usize>) -> int {
    match (th, tw) {
        (Some(h), _) => h as int,
        (None, Some(w)) => round_div(img.height * w, img.width as int),
        (None, None) => img.height as int,
    }
}

/// Computes `round_div(orig_other * given, orig_given)`: the dimension derived
/// from the one explicit target dimension so the aspect ratio is kept.
fn derived_dim(orig_other: usize, given: usize, orig_given: usize) -> (r: usize)
    requires
        orig_given >= 1,
        round_div(orig_other as int * given as int, orig_given as int) <= usize::MAX,
    ensures
        r == round_div(orig_other as int * given as int, orig_given as int),
{
    proof {
        assert(orig_other as int * given as int <= (u64::MAX as int) * (u64::MAX as int))
            by (nonlinear_arith)
            requires
                0 <= orig_other as int <= u64::MAX as int,
                0 <= given as int <= u64::MAX as int,
        ;
    }
    let p: u128 = (orig_other as u128) * (given as u128);
    let d: u128 = orig_given as u128;
    let q: u128 = p / d;
    let rem: u128 = p % d;
    proof {
        lemma_mod_bound(p as int, d as int);
        lemma_div_nonincreasing(p as int, d as int);
    }
    if 2 * rem >= d {
        (q + 1) as usize
    } else {
        q as usize
    }
}

/// Computes the nearest-neighbor source coordinate for one axis.
fn scale_coord(dst: usize, src_dim: usize, dst_dim: usize) -> (r: usize)
    requires
        dst < dst_dim,
        src_dim >= 1,
    ensures
        r == src_coord(dst as int, src_dim as int, dst_dim as int),
        r < src_dim,
{
    proof {
        assert(dst as int * src_dim as int <= (u64::MAX as int) * (u64::MAX as int))
            by (nonlinear_arith)
            requires
                0 <= dst as int <= u64::MAX as int,
                0 <= src_dim as int <= u64::MAX as int,
        ;
    }
    let p: u128 = (dst as u128) * (src_dim as u128);
    let q: u128 = p / (dst_dim as u128);
    proof {
        assert(p < dst_dim as int * src_dim as int) by (nonlinear_arith)
            requires
                p == dst as int * src_dim as int,
                0 <= dst < dst_dim,
                src_dim >= 1,
        ;
        lemma_multiply_divide_lt(p as int, dst_dim as int, src_dim as int);
    }
    q as usize
}

/// Resamples an image to the given dimensions with nearest-neighbor sampling:
/// every output pixel is a copy of the source pixel under the point-sampled
/// mapping `src_coord`.
pub fn resample(image: &Image, dst_w: usize, dst_h: usize) -> (out: Image)
    requires
        image.wf(),
        image.width >= 1,
        image.height >= 1,
        dst_w >= 1,
        dst_h >= 1,
        dst_w * dst_h <= usize::MAX,
    ensures
        out.wf(),
        out.width == dst_w,
        out.height == dst_h,
        forall|x: int, y: int|
            0 <= x < dst_w && 0 <= y < dst_h ==> out.spec_pixel(x, y) == image.spec_pixel(
                src_coord(x, image.width as int, dst_w as int),
                src_coord(y, image.height as int, dst_h as int),
            ),
{
    let count: usize = dst_w * dst_h;
    let mut pixels: Vec<Pixel> = Vec::new();
    let mut i: usize = 0;
    while i < count
        invariant
            image.wf(),
            image.width >= 1,
            image.height >= 1,
            dst_w >= 1,
            dst_h >= 1,
            count == dst_w * dst_h,
            i <= count,
            pixels@.len() == i,
            forall|j: int|
                0 <= j < i ==> pixels@[j] == image.spec_pixel(
                    src_coord(j % dst_w as int, image.width as int, dst_w as int),
                    src_coord(j / dst_w as int, image.height as int, dst_h as int),
                ),
        decreases count - i,
    {
        let x = i % dst_w;
        let y = i / dst_w;
        proof {
            lemma_mod_bound(i as int, dst_w as int);
            lemma_multiply_divide_lt(i as int, dst_w as int, dst_h as int);
        }
        let sx = scale_coord(x, image.width, dst_w);
        let sy = scale_coord(y, image.height, dst_h);
        let p = image.get_pixel(sx, sy);
        pixels.push(p);
        i = i + 1;
    }
    let out = Image { width: dst_w, height: dst_h, pixels };
    proof {
        assert forall|x: int, y: int| 0 <= x < dst_w && 0 <= y < dst_h implies out.spec_pixel(
            x,
            y,
        ) == image.spec_pixel(
            src_coord(x, image.width as int, dst_w as int),
            src_coord(y, image.height as int, dst_h as int),
        ) by {
            lemma_row_major_index_in_range(dst_w as int, dst_h as int, x, y);
            lemma_fundamental_div_mod_converse(y * dst_w as int + x, dst_w as int, y, x);
        }
    }
    out
}

/// Pixelates an image: nearest-neighbor downscale by `factor`, then
/// nearest-neighbor upscale to the resolved output dimensions, giving the
/// visible color blocks. The input image is not changed; a fresh image is
/// returned.
///
/// Fails with a `SizeError` exactly when the factor is zero, when the factor
/// truncates an intermediate dimension to zero, or when an output dimension
/// resolves to zero. With factor 1 and no explicit target dimensions the
/// output is pixel-identical to the input.
pub fn pixelate(
    image: &Image,
    factor: usize,
    target_width: Option<usize>,
    target_height: Option<usize>,
) -> (r: Result<Image, SizeError>)
    requires
        image.wf(),
        spec_final_width(*image, target_width, target_height) * spec_final_height(
            *image,
            target_width,
            target_height,
        ) <= usize::MAX,
    ensures
        match r {
            Ok(out) => {
                let iw = image.width as int / factor as int;
                let ih = image.height as int / factor as int;
                let fw = spec_final_width(*image, target_width, target_height);
                let fh = spec_final_height(*image, target_width, target_height);
                &&& factor >= 1
                &&& iw >= 1
                &&& ih >= 1
                &&& fw >= 1
                &&& fh >= 1
                &&& out.wf()
                &&& out.width == fw
                &&& out.height == fh
                &&& forall|x: int, y: int|
                    0 <= x < fw && 0 <= y < fh ==> out.spec_pixel(x, y) == image.spec_pixel(
                        src_coord(src_coord(x, iw, fw), image.width as int, iw),
                        src_coord(src_coord(y, ih, fh), image.height as int, ih),
                    )
            },
            Err(SizeError::ZeroFactor) => factor == 0,
            Err(SizeError::EmptyTarget) => {
                &&& factor >= 1
                &&& {
                    ||| image.width as int / factor as int == 0
                    ||| image.height as int / factor as int == 0
                    ||| spec_final_width(*image, target_width, target_height) == 0
                    ||| spec_final_height(*image, target_width, target_height) == 0
                }
            },
        },
        factor == 1 && target_width is None && target_height is None && image.width >= 1
            && image.height >= 1 ==> {
            &&& r is Ok
            &&& r->Ok_0.width == image.width
            &&& r->Ok_0.height == image.height
            &&& forall|x: int, y: int|
                0 <= x < image.width && 0 <= y < image.height ==> r->Ok_0.spec_pixel(x, y)
                    == image.spec_pixel(x, y)
        },
{
    if factor == 0 {
        return Err(SizeError::ZeroFactor);
    }
    proof {
        vstd::arithmetic::div_mod::lemma_div_basics(image.width as int);
        vstd::arithmetic::div_mod::lemma_div_basics(image.height as int);
    }
    let inter_w = image.width / factor;
    let inter_h = image.height / factor;
    if inter_w == 0 || inter_h == 0 {
        return Err(SizeError::EmptyTarget);
    }
    proof {
        // An intermediate dimension of at least one pixel means the image
        // itself is at least one pixel on that axis.
        lemma_div_nonincreasing(image.width as int, factor as int);
        lemma_div_nonincreasing(image.height as int, factor as int);
    }
    let final_w: usize;
    let final_h: usize;
    match (target_width, target_height) {
        (Some(tw), Some(th)) => {
            final_w = tw;
            final_h = th;
        },
        (Some(tw), None) => {
            proof {
                lemma_derived_bounded(
                    image.height as int,
                    tw as int,
                    image.width as int,
                    usize::MAX as int,
                );
            }
            final_w = tw;
            final_h = derived_dim(image.height, tw, image.width);
        },
        (None, Some(th)) => {
            proof {
                vstd::arithmetic::mul::lemma_mul_is_commutative(
                    spec_final_width(*image, target_width, target_height),
                    spec_final_height(*image, target_width, target_height),
                );
                lemma_derived_bounded(
                    image.width as int,
                    th as int,
                    image.height as int,
                    usize::MAX as int,
                );
            }
            final_w = derived_dim(image.width, th, image.height);
            final_h = th;
        },
        (None, None) => {
            final_w = image.width;
            final_h = image.height;
        },
    }
    assert(final_w as int == spec_final_width(*image, target_width, target_height));
    assert(final_h as int == spec_final_height(*image, target_width, target_height));
    if final_w == 0 || final_h == 0 {
        return Err(SizeError::EmptyTarget);
    }
    let len = image.pixels.len();
    proof {
        assert(inter_w as int * inter_h as int <= image.width as int * image.height as int)
            by (nonlinear_arith)
            requires
                0 <= inter_w <= image.width,
                0 <= inter_h <= image.height,
        ;
    }
    let small = resample(image, inter_w, inter_h);
    let out = resample(&small, final_w, final_h);
    proof {
        let iw = inter_w as int;
        let ih = inter_h as int;
        let fw = final_w as int;
        let fh = final_h as int;
        assert forall|x: int, y: int| 0 <= x < fw && 0 <= y < fh implies out.spec_pixel(x, y)
            == image.spec_pixel(
            src_coord(src_coord(x, iw, fw), image.width as int, iw),
            src_coord(src_coord(y, ih, fh), image.height as int, ih),
        ) by {
            lemma_src_coord_in_range(x, iw, fw);
            lemma_src_coord_in_range(y, ih, fh);
        }
        if factor == 1 && target_width is None && target_height is None {
            assert(iw == image.width && ih == image.height);
            assert forall|x: int, y: int| 0 <= x < fw && 0 <= y < fh implies out.spec_pixel(x, y)
                == image.spec_pixel(x, y) by {
                lemma_src_coord_identity(x, image.width as int);
                let sx = src_coord(x, iw, fw);
                lemma_src_coord_identity(y, image.height as int);
                let sy = src_coord(y, ih, fh);
                lemma_src_coord_identity(sx, image.width as int);
                lemma_src_coord_identity(sy, image.height as int);
            }
        }
    }
    Ok(out)
}

/// The nearest-neighbor source coordinate stays inside the source dimension.
pub proof fn lemma_src_coord_in_range(dst: int, src_dim: int, dst_dim: int)
    requires
        0 <= dst < dst_dim,
        src_dim >= 1,
    ensures
        0 <= src_coord(dst, src_dim, dst_dim) < src_dim,
{
    assert(dst * src_dim < dst_dim * src_dim) by (nonlinear_arith)
        requires
            0 <= dst < dst_dim,
            src_dim >= 1,
    ;
    assert(dst * src_dim >= 0) by (nonlinear_arith)
        requires
            dst >= 0,
            src_dim >= 0,
    ;
    lemma_multiply_divide_lt(dst * src_dim, dst_dim, src_dim);
    vstd::arithmetic::div_mod::lemma_div_pos_is_pos(dst * src_dim, dst_dim);
}

/// Resampling a dimension onto itself reads the same coordinate it writes:
/// the unit mapping is the identity.
pub proof fn lemma_src_coord_identity(dst: int, dim: int)
    requires
        0 <= dst,
        dim >= 1,
    ensures
        src_coord(dst, dim, dim) == dst,
{
    lemma_div_by_multiple(dst, dim);
}

/// A derived dimension fits under `cap` whenever the product of the two
/// resolved output dimensions does: either the given dimension is at least
/// one, and the derived one is no larger than the product, or the given
/// dimension is zero, and the derived one is zero too.
proof fn lemma_derived_bounded(other: int, given: int, orig: int, cap: int)
    requires
        orig >= 1,
        other >= 0,
        given >= 0,
        cap >= 0,
        given * round_div(other * given, orig) <= cap,
    ensures
        0 <= round_div(other * given, orig) <= cap,
{
    assert(other * given >= 0) by (nonlinear_arith)
        requires
            other >= 0,
            given >= 0,
    ;
    let n = other * given;
    vstd::arithmetic::div_mod::lemma_div_pos_is_pos(n, orig);
    lemma_mod_bound(n, orig);
    let rd = round_div(n, orig);
    if given == 0 {
        assert(n == 0);
        vstd::arithmetic::div_mod::lemma_div_of0(orig);
        vstd::arithmetic::div_mod::lemma_small_mod(0nat, orig as nat);
        assert(rd == 0);
    } else {
        assert(rd <= given * rd) by (nonlinear_arith)
            requires
                given >= 1,
                rd >= 0,
        ;
    }
}

} // verus!
