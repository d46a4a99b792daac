//! RGB colors, the squared-Euclidean distance metric, and the bit-depth
//! reduction that collapses a color to five significant bits per channel.

use vstd::prelude::*;

verus! {

/// An 8-bit-per-channel RGB color. Palette entries and color samples are
/// values of this type; the alpha channel never takes part in color math.
#[derive(Clone, Copy, Debug, PartialEq, Eq, Structural)]
pub struct Rgb {
    pub r: u8,
    pub g: u8,
    pub b: u8,
}

/// Squared Euclidean distance between two colors in RGB integer space.
pub open spec fn dist2(a: Rgb, b: Rgb) -> int {
    (a.r - b.r) * (a.r - b.r) + (a.g - b.g) * (a.g - b.g) + (a.b - b.b) * (a.b - b.b)
}

/// The distance metric is symmetric: the order of the two colors does not
/// matter.
pub proof fn lemma_distance_symmetric(a: Rgb, b: Rgb)
    ensures
        dist2(a, b) == dist2(b, a),
{
    let ar = a.r as int;
    let br = b.r as int;
    let ag = a.g as int;
    let bg = b.g as int;
    let ab = a.b as int;
    let bb = b.b as int;
    assert((ar - br) * (ar - br) == (br - ar) * (br - ar)) by (nonlinear_arith);
    assert((ag - bg) * (ag - bg) == (bg - ag) * (bg - ag)) by (nonlinear_arith);
    assert((ab - bb) * (ab - bb) == (bb - ab) * (bb - ab)) by (nonlinear_arith);
}

/// The distance from a color to itself is zero, and a distance of zero means
/// the two colors are equal channel for channel.
pub proof fn lemma_distance_zero(a: Rgb, b: Rgb)
    ensures
        dist2(a, b) == 0 <==> a == b,
{
    if dist2(a, b) == 0 {
        let dr = a.r as int - b.r as int;
        let dg = a.g as int - b.g as int;
        let db = a.b as int - b.b as int;
        assert(dr * dr >= 0 && dg * dg >= 0 && db * db >= 0) by (nonlinear_arith);
        assert(dr * dr == 0 ==> dr == 0) by (nonlinear_arith);
        assert(dg * dg == 0 ==> dg == 0) by (nonlinear_arith);
        assert(db * db == 0 ==> db == 0) by (nonlinear_arith);
    } else {
        assert(dist2(a, a) == 0);
        assert(a != b);
    }
}

/// Distances are never negative (each term is a square).
pub proof fn lemma_distance_nonneg(a: Rgb, b: Rgb)
    ensures
        dist2(a, b) >= 0,
{
    let dr = a.r as int - b.r as int;
    let dg = a.g as int - b.g as int;
    let db = a.b as int - b.b as int;
    assert(dr * dr >= 0 && dg * dg >= 0 && db * db >= 0) by (nonlinear_arith);
}

/// Computes the squared Euclidean distance between two colors, exactly as
/// `dist2` defines it. Channel differences are taken in a widened signed type
/// so the unsigned subtraction cannot wrap; the sum is at most 3 * 255^2.
pub fn compute_squared_distance(first_color: &Rgb, second_color: &Rgb) -> (d: u32)
    ensures
        d as int == dist2(*first_color, *second_color),
{
    let red_diff = first_color.r as i32 - second_color.r as i32;
    let green_diff = first_color.g as i32 - second_color.g as i32;
    let blue_diff = first_color.b as i32 - second_color.b as i32;

    proof {
        assert(0 <= red_diff * red_diff <= 255 * 255) by (nonlinear_arith)
            requires
                -255 <= red_diff <= 255,
        ;
        assert(0 <= green_diff * green_diff <= 255 * 255) by (nonlinear_arith)
            requires
                -255 <= green_diff <= 255,
        ;
        assert(0 <= blue_diff * blue_diff <= 255 * 255) by (nonlinear_arith)
            requires
                -255 <= blue_diff <= 255,
        ;
    }
    (red_diff * red_diff + green_diff * green_diff + blue_diff * blue_diff) as u32
}

/// A channel with its low three bits cleared: the 5-bit-per-channel grid.
pub open spec fn reduce_channel_spec(c: u8) -> u8 {
    (c >> 3) << 3
}

/// A color with every channel reduced to five significant bits.
pub open spec fn reduce_color_spec(c: Rgb) -> Rgb {
    Rgb { r: reduce_channel_spec(c.r), g: reduce_channel_spec(c.g), b: reduce_channel_spec(c.b) }
}

/// Clears the low three bits of a channel.
pub fn reduce_channel(c: u8) -> (r: u8)
    ensures
        r == reduce_channel_spec(c),
{
    (c >> 3) << 3
}

/// Reduces a color to the 15-bit (5 bits per channel) color space.
pub fn reduce_color(c: &Rgb) -> (r: Rgb)
    ensures
        r == reduce_color_spec(*c),
{
    Rgb { r: reduce_channel(c.r), g: reduce_channel(c.g), b: reduce_channel(c.b) }
}

/// Bit-depth reduction is idempotent on a channel: reducing an
/// already-reduced channel changes nothing.
pub proof fn lemma_reduce_channel_idempotent(c: u8)
    ensures
        reduce_channel_spec(reduce_channel_spec(c)) == reduce_channel_spec(c),
{
    assert((((c >> 3) << 3) >> 3) << 3 == (c >> 3) << 3) by (bit_vector);
}

/// Bit-depth reduction is idempotent on a whole color.
pub proof fn lemma_reduce_color_idempotent(c: Rgb)
    ensures
        reduce_color_spec(reduce_color_spec(c)) == reduce_color_spec(c),
{
    lemma_reduce_channel_idempotent(c.r);
    lemma_reduce_channel_idempotent(c.g);
    lemma_reduce_channel_idempotent(c.b);
}

} // verus!
