//! The image model: a width x height grid of RGBA pixels, stored row-major,
//! with conversions from and to a flat 8-bit channel buffer.

use vstd::prelude::*;
use crate::color::Rgb;

verus! {

/// One RGBA pixel, 8 bits per channel.
#[derive(Clone, Copy, Debug, PartialEq, Eq, Structural)]
pub struct Pixel {
    pub r: u8,
    pub g: u8,
    pub b: u8,
    pub a: u8,
}

impl Pixel {
    /// The RGB part of the pixel; the alpha channel is dropped.
    pub open spec fn spec_rgb(self) -> Rgb {
        Rgb { r: self.r, g: self.g, b: self.b }
    }

    /// Returns the RGB part of the pixel.
    pub fn rgb(&self) -> (c: Rgb)
        ensures
            c == self.spec_rgb(),
    {
        Rgb { r: self.r, g: self.g, b: self.b }
    }
}

/// An RGBA image: a row-major grid of pixels. A value is well formed when the
/// pixel buffer holds exactly `width * height` entries.
#[derive(Clone, Debug)]
pub struct Image {
    pub width: usize,
    pub height: usize,
    pub pixels: Vec<Pixel>,
}

impl Image {
    /// The buffer length matches the declared dimensions.
    pub open spec fn wf(self) -> bool {
        self.pixels@.len() == self.width * self.height
    }

    /// The pixel at column `x` of row `y`.
    pub open spec fn spec_pixel(self, x: int, y: int) -> Pixel {
        self.pixels@[y * self.width + x]
    }

    /// Returns the pixel at column `x` of row `y`.
    pub fn get_pixel(&self, x: usize, y: usize) -> (p: Pixel)
        requires
            self.wf(),
            x < self.width,
            y < self.height,
        ensures
            p == self.spec_pixel(x as int, y as int),
    {
        let len = self.pixels.len();
        proof {
            lemma_row_major_index_in_range(self.width as int, self.height as int, x as int, y as int);
        }
        assert(y * self.width + x < len);
        self.pixels[y * self.width + x]
    }

    /// Builds an image from a flat buffer of 8-bit channels in RGBA order.
    /// Returns `None` exactly when the buffer length is not
    /// `width * height * 4`.
    pub fn from_channels(width: usize, height: usize, data: &Vec<u8>) -> (r: Option<Image>)
        ensures
            match r {
                Some(img) => {
                    &&& img.wf()
                    &&& img.width == width
                    &&& img.height == height
                    &&& data@.len() == width * height * 4
                    &&& forall|i: int|
                        0 <= i < width * height ==> img.pixels@[i] == (Pixel {
                            r: data@[4 * i],
                            g: data@[4 * i + 1],
                            b: data@[4 * i + 2],
                            a: data@[4 * i + 3],
                        })
                },
                None => data@.len() != width * height * 4,
            },
    {
        let n = data.len();
        if height != 0 && width > usize::MAX / height {
            proof {
                lemma_div_bound_product(width as int, height as int, usize::MAX as int);
            }
            assert(width * height > usize::MAX);
            assert(data@.len() != width * height * 4);
            return None;
        }
        proof {
            if height != 0 {
                lemma_div_bound_product_le(width as int, height as int, usize::MAX as int);
            }
        }
        let count: usize = width * height;
        if count > usize::MAX / 4 {
            proof {
                lemma_div_bound_product(count as int, 4, usize::MAX as int);
            }
            assert(data@.len() != width * height * 4);
            return None;
        }
        proof {
            lemma_div_bound_product_le(count as int, 4, usize::MAX as int);
        }
        if n != count * 4 {
            return None;
        }
        let mut pixels: Vec<Pixel> = Vec::new();
        let mut i: usize = 0;
        while i < count
            invariant
                0 <= i <= count,
                count == width * height,
                count * 4 <= usize::MAX,
                data@.len() == count * 4,
                pixels@.len() == i,
                forall|j: int|
                    0 <= j < i ==> pixels@[j] == (Pixel {
                        r: data@[4 * j],
                        g: data@[4 * j + 1],
                        b: data@[4 * j + 2],
                        a: data@[4 * j + 3],
                    }),
            decreases count - i,
        {
            let p = Pixel {
                r: data[4 * i],
                g: data[4 * i + 1],
                b: data[4 * i + 2],
                a: data[4 * i + 3],
            };
            pixels.push(p);
            i = i + 1;
        }
        Some(Image { width, height, pixels })
    }

    /// Flattens the image back to a buffer of 8-bit channels in RGBA order.
    /// The buffer length `width * height * 4` must fit the machine's word.
    pub fn to_channels(&self) -> (data: Vec<u8>)
        requires
            self.wf(),
            self.width * self.height * 4 <= usize::MAX,
        ensures
            data@.len() == self.width * self.height * 4,
            forall|i: int|
                0 <= i < self.width * self.height ==> {
                    &&& data@[4 * i] == self.pixels@[i].r
                    &&& data@[4 * i + 1] == self.pixels@[i].g
                    &&& data@[4 * i + 2] == self.pixels@[i].b
                    &&& data@[4 * i + 3] == self.pixels@[i].a
                },
    {
        let count: usize = self.pixels.len();
        let mut data: Vec<u8> = Vec::new();
        let mut i: usize = 0;
        while i < count
            invariant
                0 <= i <= count,
                count == self.pixels@.len(),
                count * 4 <= usize::MAX,
                data@.len() == 4 * i,
                forall|j: int|
                    0 <= j < i ==> {
                        &&& data@[4 * j] == self.pixels@[j].r
                        &&& data@[4 * j + 1] == self.pixels@[j].g
                        &&& data@[4 * j + 2] == self.pixels@[j].b
                        &&& data@[4 * j + 3] == self.pixels@[j].a
                    },
            decreases count - i,
        {
            let p = self.pixels[i];
            data.push(p.r);
            data.push(p.g);
            data.push(p.b);
            data.push(p.a);
            i = i + 1;
        }
        data
    }
}

/// A row-major index stays inside the buffer: with `x < w` and `y < h`,
/// `y * w + x < w * h`.
pub proof fn lemma_row_major_index_in_range(w: int, h: int, x: int, y: int)
    requires
        0 <= x < w,
        0 <= y < h,
    ensures
        0 <= y * w + x < w * h,
{
    assert(y * w + x < w * h) by (nonlinear_arith)
        requires
            0 <= x < w,
            0 <= y < h,
    ;
    assert(y * w >= 0) by (nonlinear_arith)
        requires
            y >= 0,
            w > 0,
    ;
}

/// If `a > m / b` (integer division) with `b > 0`, then `a * b > m`.
proof fn lemma_div_bound_product(a: int, b: int, m: int)
    requires
        b > 0,
        0 <= m,
        a > m / b,
    ensures
        a * b > m,
{
    vstd::arithmetic::div_mod::lemma_fundamental_div_mod(m, b);
    vstd::arithmetic::div_mod::lemma_mod_bound(m, b);
    assert(a >= m / b + 1);
    assert(a * b >= (m / b + 1) * b) by (nonlinear_arith)
        requires
            a >= m / b + 1,
            b > 0,
    ;
    assert((m / b + 1) * b == (m / b) * b + b) by (nonlinear_arith);
}

/// If `a <= m / b` (integer division) with `b > 0`, then `a * b <= m`.
proof fn lemma_div_bound_product_le(a: int, b: int, m: int)
    requires
        b > 0,
        0 <= m,
        a <= m / b,
    ensures
        a * b <= m,
{
    vstd::arithmetic::div_mod::lemma_fundamental_div_mod(m, b);
    vstd::arithmetic::div_mod::lemma_mod_bound(m, b);
    assert(a * b <= (m / b) * b) by (nonlinear_arith)
        requires
            a <= m / b,
            b > 0,
    ;
    assert((m / b) * b <= m);
}

} // verus!
