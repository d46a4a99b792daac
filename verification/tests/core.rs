use pixel_art::color::{compute_squared_distance, reduce_channel, reduce_color, Rgb};
use pixel_art::palette::build_palette;
use pixel_art::quantize::reduce_colors;
use pixel_art::raster::{Image, Pixel};
use pixel_art::resample::{pixelate, SizeError};
use pixel_art::sample::extract_samples;

fn px(r: u8, g: u8, b: u8, a: u8) -> Pixel {
    Pixel { r, g, b, a }
}

fn rgb(r: u8, g: u8, b: u8) -> Rgb {
    Rgb { r, g, b }
}

fn image_of(width: usize, height: usize, pixels: Vec<Pixel>) -> Image {
    assert_eq!(pixels.len(), width * height);
    Image { width, height, pixels }
}

/// A 4x4 test image with 16 distinct colors.
fn distinct_4x4() -> Image {
    let mut pixels = Vec::new();
    for i in 0..16u8 {
        pixels.push(px(i * 10, 255 - i * 10, i, 255));
    }
    image_of(4, 4, pixels)
}

#[test]
fn pixelate_identity_at_factor_one() {
    let img = distinct_4x4();
    let out = pixelate(&img, 1, None, None).unwrap();
    assert_eq!(out.width, 4);
    assert_eq!(out.height, 4);
    assert_eq!(out.pixels, img.pixels);
}

#[test]
fn pixelate_blocks_at_factor_two() {
    let img = distinct_4x4();
    let out = pixelate(&img, 2, None, None).unwrap();
    assert_eq!(out.width, 4);
    assert_eq!(out.height, 4);
    // Intermediate 2x2 samples source pixels (0,0), (2,0), (0,2), (2,2);
    // the upscale maps output (x,y) back to intermediate (x/2, y/2).
    for y in 0..4usize {
        for x in 0..4usize {
            let sx = (x / 2) * 2;
            let sy = (y / 2) * 2;
            let expected = img.pixels[sy * 4 + sx];
            assert_eq!(out.pixels[y * 4 + x], expected);
        }
    }
}

#[test]
fn pixelate_collapses_to_one_block_at_factor_three() {
    // 4 / 3 truncates to 1: the intermediate image is a single pixel, the
    // source pixel (0, 0), and the upscale paints it everywhere.
    let img = distinct_4x4();
    let out = pixelate(&img, 3, None, None).unwrap();
    assert_eq!(out.width, 4);
    assert_eq!(out.height, 4);
    for p in &out.pixels {
        assert_eq!(*p, img.pixels[0]);
    }
}

#[test]
fn pixelate_zero_factor_is_error() {
    let img = distinct_4x4();
    assert_eq!(pixelate(&img, 0, None, None).unwrap_err(), SizeError::ZeroFactor);
}

#[test]
fn pixelate_factor_beyond_dimension_is_error() {
    let img = distinct_4x4();
    assert_eq!(pixelate(&img, 5, None, None).unwrap_err(), SizeError::EmptyTarget);
}

#[test]
fn pixelate_explicit_target_dimensions() {
    let img = distinct_4x4();
    let out = pixelate(&img, 2, Some(2), Some(2)).unwrap();
    assert_eq!(out.width, 2);
    assert_eq!(out.height, 2);
    // Intermediate 2x2 is the final size, so the upscale is the identity.
    for y in 0..2usize {
        for x in 0..2usize {
            assert_eq!(out.pixels[y * 2 + x], img.pixels[(y * 2) * 4 + x * 2]);
        }
    }
}

#[test]
fn pixelate_derives_height_from_width() {
    let mut pixels = Vec::new();
    for i in 0..8 {
        pixels.push(px(i as u8, 0, 0, 255));
    }
    let img = image_of(4, 2, pixels);
    // Only the width is given: height = round(2 * 2 / 4) = 1.
    let out = pixelate(&img, 1, Some(2), None).unwrap();
    assert_eq!(out.width, 2);
    assert_eq!(out.height, 1);
}

#[test]
fn pixelate_derives_width_from_height() {
    let mut pixels = Vec::new();
    for i in 0..8 {
        pixels.push(px(i as u8, 0, 0, 255));
    }
    let img = image_of(2, 4, pixels);
    // Only the height is given: width = round(2 * 3 / 4) = round(1.5) = 2.
    let out = pixelate(&img, 1, None, Some(3)).unwrap();
    assert_eq!(out.width, 2);
    assert_eq!(out.height, 3);
}

#[test]
fn pixelate_zero_target_is_error() {
    let img = distinct_4x4();
    assert_eq!(pixelate(&img, 1, Some(0), Some(2)).unwrap_err(), SizeError::EmptyTarget);
}

#[test]
fn extract_samples_filters_transparency() {
    let img = image_of(
        2,
        2,
        vec![px(1, 2, 3, 255), px(4, 5, 6, 0), px(7, 8, 9, 254), px(10, 11, 12, 255)],
    );
    let opaque_only = extract_samples(&img, false);
    assert_eq!(opaque_only, vec![rgb(1, 2, 3), rgb(10, 11, 12)]);
    let all = extract_samples(&img, true);
    assert_eq!(all, vec![rgb(1, 2, 3), rgb(4, 5, 6), rgb(7, 8, 9), rgb(10, 11, 12)]);
}

#[test]
fn squared_distance_exact_value() {
    // (3-1)^2 + (5-9)^2 + (2-2)^2 = 4 + 16 + 0
    assert_eq!(compute_squared_distance(&rgb(3, 5, 2), &rgb(1, 9, 2)), 20);
    // The extremes do not overflow: 3 * 255^2.
    assert_eq!(compute_squared_distance(&rgb(255, 255, 255), &rgb(0, 0, 0)), 195075);
}

#[test]
fn squared_distance_symmetric() {
    let a = rgb(12, 200, 7);
    let b = rgb(250, 3, 99);
    assert_eq!(compute_squared_distance(&a, &b), compute_squared_distance(&b, &a));
}

#[test]
fn reduce_channel_values() {
    assert_eq!(reduce_channel(255), 248);
    assert_eq!(reduce_channel(7), 0);
    assert_eq!(reduce_channel(8), 8);
    assert_eq!(reduce_channel(150), 144);
    assert_eq!(reduce_channel(100), 96);
    assert_eq!(reduce_channel(0), 0);
}

#[test]
fn reduce_is_idempotent() {
    for c in 0..=255u8 {
        let once = reduce_channel(c);
        assert_eq!(reduce_channel(once), once);
        assert_eq!(once % 8, 0);
    }
    let color = rgb(201, 77, 13);
    let once = reduce_color(&color);
    assert_eq!(reduce_color(&once), once);
}

#[test]
fn build_palette_reduces_and_caps() {
    let centroids = vec![rgb(255, 0, 0), rgb(150, 100, 150), rgb(10, 20, 30)];
    let palette = build_palette(&centroids, 2);
    assert_eq!(palette, vec![rgb(248, 0, 0), rgb(144, 96, 144)]);
    let full = build_palette(&centroids, 56);
    assert_eq!(full.len(), 3);
    assert_eq!(full[2], rgb(8, 16, 24));
}

#[test]
fn empty_palette_blacks_rgb_and_keeps_alpha() {
    let mut img = image_of(2, 1, vec![px(10, 20, 30, 77), px(200, 100, 50, 255)]);
    reduce_colors(&mut img, &Vec::new());
    assert_eq!(img.pixels, vec![px(0, 0, 0, 77), px(0, 0, 0, 255)]);
}

#[test]
fn reduce_colors_picks_nearest_and_keeps_alpha() {
    let palette = vec![rgb(0, 0, 0), rgb(255, 255, 255)];
    let mut img = image_of(2, 1, vec![px(10, 10, 10, 9), px(250, 240, 230, 200)]);
    reduce_colors(&mut img, &palette);
    assert_eq!(img.pixels, vec![px(0, 0, 0, 9), px(255, 255, 255, 200)]);
}

#[test]
fn reduce_colors_tie_break_takes_first_entry() {
    // Both palette entries are at squared distance 25 from the pixel color;
    // the first one in stored order must win.
    let palette = vec![rgb(10, 0, 0), rgb(20, 0, 0)];
    let mut img = image_of(1, 1, vec![px(15, 0, 0, 255)]);
    reduce_colors(&mut img, &palette);
    assert_eq!(img.pixels, vec![px(10, 0, 0, 255)]);
}

#[test]
fn reduce_colors_idempotent_against_own_palette() {
    let palette = vec![rgb(248, 0, 0), rgb(0, 96, 144), rgb(32, 32, 32)];
    let mut img = image_of(
        2,
        2,
        vec![px(255, 3, 9, 255), px(1, 90, 150, 128), px(30, 30, 40, 0), px(200, 0, 0, 7)],
    );
    reduce_colors(&mut img, &palette);
    let first_pass = img.pixels.clone();
    reduce_colors(&mut img, &palette);
    assert_eq!(img.pixels, first_pass);
}

#[test]
fn channel_buffer_round_trip() {
    let data = vec![1, 2, 3, 4, 5, 6, 7, 8];
    let img = Image::from_channels(2, 1, &data).unwrap();
    assert_eq!(img.pixels, vec![px(1, 2, 3, 4), px(5, 6, 7, 8)]);
    assert_eq!(img.to_channels(), data);
}

#[test]
fn channel_buffer_wrong_length_is_rejected() {
    let data = vec![1, 2, 3, 4, 5];
    assert!(Image::from_channels(2, 1, &data).is_none());
    assert!(Image::from_channels(0, 0, &vec![1]).is_none());
    assert!(Image::from_channels(0, 0, &Vec::new()).is_some());
}
