//! End-to-end scenarios through the whole pipeline, with the real k-means
//! clustering linked in, glued exactly as the application glues it: sample
//! extraction and palette assembly from the library, centroid search from the
//! clustering crate.

use pixel_art::color::Rgb;
use pixel_art::palette::build_palette;
use pixel_art::quantize::reduce_colors;
use pixel_art::raster::{Image, Pixel};
use pixel_art::resample::pixelate;
use pixel_art::sample::extract_samples;

fn px(r: u8, g: u8, b: u8, a: u8) -> Pixel {
    Pixel { r, g, b, a }
}

/// Deterministic centroid search: k-means over the samples in normalized RGB
/// float space, single run, fixed seed, as the application performs it.
fn kmeans_centroids(samples: &[Rgb], k: usize) -> Vec<Rgb> {
    if k == 0 || samples.is_empty() {
        return Vec::new();
    }
    let buf: Vec<palette::Srgb<f32>> = samples
        .iter()
        .map(|c| palette::Srgb::new(c.r, c.g, c.b).into_format::<f32>())
        .collect();
    let result = kmeans_colors::get_kmeans(k, 1, 5.0, false, &buf, 0);
    result
        .centroids
        .iter()
        .map(|&c| {
            let s: palette::Srgb<u8> = c.into_format();
            Rgb { r: s.red, g: s.green, b: s.blue }
        })
        .collect()
}

fn find_palette(image: &Image, num_colors: usize, transparent: bool) -> Vec<Rgb> {
    let samples = extract_samples(image, transparent);
    let centroids = kmeans_centroids(&samples, num_colors);
    build_palette(&centroids, num_colors)
}

#[test]
fn all_red_image_reduces_to_near_red_palette() {
    // A 4x4 image of pure red, factor 2, one color, opaque sampling only:
    // the single centroid lands on pure red, which reduces to (248, 0, 0).
    let img = Image {
        width: 4,
        height: 4,
        pixels: vec![px(255, 0, 0, 255); 16],
    };
    let mut out = pixelate(&img, 2, None, None).unwrap();
    let palette = find_palette(&out, 1, false);
    assert_eq!(palette.len(), 1);
    assert_eq!(palette[0].r % 8, 0);
    assert_eq!(palette[0].g % 8, 0);
    assert_eq!(palette[0].b % 8, 0);
    assert_eq!(palette[0], Rgb { r: 248, g: 0, b: 0 });
    reduce_colors(&mut out, &palette);
    assert_eq!(out.width, 4);
    assert_eq!(out.height, 4);
    for p in &out.pixels {
        assert_eq!(*p, px(248, 0, 0, 255));
    }
}

#[test]
fn palette_comes_from_opaque_pixels_only() {
    // Two fully transparent and two fully opaque distinct-colored pixels;
    // sampling excludes the transparent ones, so the one palette color is
    // the reduced mean of the two opaque colors, and quantization recolors
    // all four pixels to it while every alpha stays as it was.
    let img = Image {
        width: 2,
        height: 2,
        pixels: vec![
            px(100, 50, 200, 255),
            px(9, 255, 17, 0),
            px(255, 1, 80, 0),
            px(200, 150, 100, 255),
        ],
    };
    let samples = extract_samples(&img, false);
    assert_eq!(
        samples,
        vec![Rgb { r: 100, g: 50, b: 200 }, Rgb { r: 200, g: 150, b: 100 }]
    );
    let palette = find_palette(&img, 1, false);
    assert_eq!(palette.len(), 1);
    // Mean of the two opaque colors is (150, 100, 150); reduced: (144, 96, 144).
    assert_eq!(palette[0], Rgb { r: 144, g: 96, b: 144 });
    let mut out = img;
    reduce_colors(&mut out, &palette);
    let c = palette[0];
    assert_eq!(
        out.pixels,
        vec![
            px(c.r, c.g, c.b, 255),
            px(c.r, c.g, c.b, 0),
            px(c.r, c.g, c.b, 0),
            px(c.r, c.g, c.b, 255),
        ]
    );
}

#[test]
fn palette_is_reproducible() {
    let img = Image {
        width: 2,
        height: 2,
        pixels: vec![
            px(10, 200, 30, 255),
            px(240, 17, 99, 255),
            px(13, 13, 200, 255),
            px(77, 255, 0, 255),
        ],
    };
    let first = find_palette(&img, 2, false);
    let second = find_palette(&img, 2, false);
    assert_eq!(first, second);
    assert!(first.len() <= 2);
}

#[test]
fn no_samples_gives_empty_palette_and_black_image() {
    // Every pixel transparent and transparent pixels excluded: no samples,
    // an empty palette, and an all-black (alpha-preserving) image.
    let img = Image {
        width: 2,
        height: 1,
        pixels: vec![px(5, 6, 7, 0), px(8, 9, 10, 3)],
    };
    let palette = find_palette(&img, 4, false);
    assert!(palette.is_empty());
    let mut out = img;
    reduce_colors(&mut out, &palette);
    assert_eq!(out.pixels, vec![px(0, 0, 0, 0), px(0, 0, 0, 3)]);
}

#[test]
fn palette_never_exceeds_requested_count() {
    let img = Image {
        width: 2,
        height: 2,
        pixels: vec![
            px(1, 2, 3, 255),
            px(200, 100, 0, 255),
            px(40, 90, 160, 255),
            px(255, 255, 255, 255),
        ],
    };
    for k in 0..6usize {
        let palette = find_palette(&img, k, false);
        assert!(palette.len() <= k);
    }
}
