//! Palette assembly: turning clustering centroids into the final palette by
//! capping the count and reducing every color to five bits per channel.
//! Duplicates that the reduction creates are kept, not deduplicated.

use vstd::prelude::*;
use crate::color::{reduce_color, reduce_color_spec, Rgb};

verus! {

/// The palette that a centroid sequence yields: the first `num_colors`
/// centroids at most, each reduced to five bits per channel, in centroid
/// order.
pub open spec fn palette_spec(centroids: Seq<Rgb>, num_colors: int) -> Seq<Rgb> {
    let count = if centroids.len() <= num_colors {
        centroids.len() as int
    } else {
        num_colors
    };
    Seq::new(count as nat, |i: int| reduce_color_spec(centroids[i]))
}

/// Builds the palette from clustering centroids, in centroid order: at most
/// `num_colors` entries are kept (clustering yields no more than it was asked
/// for; the cap here is the documented graceful bound), and each is reduced
/// to the 15-bit color space. The palette is never longer than `num_colors`,
/// and an empty centroid list gives the valid, degenerate empty palette.
pub fn build_palette(centroids: &Vec<Rgb>, num_colors: usize) -> (p: Vec<Rgb>)
    ensures
        p@ == palette_spec(centroids@, num_colors as int),
        p@.len() <= num_colors,
        forall|i: int| 0 <= i < p@.len() ==> p@[i] == reduce_color_spec(centroids@[i]),
{
    let count = if centroids.len() <= num_colors {
        centroids.len()
    } else {
        num_colors
    };
    let mut p: Vec<Rgb> = Vec::new();
    let mut i: usize = 0;
    while i < count
        invariant
            count <= centroids@.len(),
            i <= count,
            p@.len() == i,
            forall|j: int| 0 <= j < i ==> p@[j] == reduce_color_spec(centroids@[j]),
        decreases count - i,
    {
        p.push(reduce_color(&centroids[i]));
        i = i + 1;
    }
    proof {
        assert(p@ =~= palette_spec(centroids@, num_colors as int));
    }
    p
}

} // verus!
