use fastpack::dither::{dither, quantize4, quantize5, quantize6};
use fastpack::image::{Image, Rgba};
use fastpack::pixel_art::{blend3, eagle2x, hq2x, scale2x, scale3x};
use fastpack::pixel_format::PixelFormat;
use fastpack::premultiply::premultiply;

fn one(p: Rgba) -> Image {
    Image { width: 1, height: 1, pixels: vec![p] }
}

fn rgba(r: u8, g: u8, b: u8, a: u8) -> Rgba {
    Rgba { r, g, b, a }
}

// premultiply

#[test]
fn opaque_pixel_unchanged() {
    let out = premultiply(&one(rgba(200, 100, 50, 255)));
    assert_eq!(out.pixels[0], rgba(200, 100, 50, 255));
}

#[test]
fn transparent_pixel_zeroed() {
    let out = premultiply(&one(rgba(255, 255, 255, 0)));
    assert_eq!(out.pixels[0], rgba(0, 0, 0, 0));
}

#[test]
fn half_alpha_halves_rgb() {
    let out = premultiply(&one(rgba(200, 100, 0, 128)));
    let p = out.pixels[0];
    // 200 * 128 / 255 ≈ 100, within 1
    assert!((p.r as i32 - 100).abs() <= 1, "R ≈ 100, got {}", p.r);
    // 100 * 128 / 255 ≈ 50, within 1
    assert!((p.g as i32 - 50).abs() <= 1, "G ≈ 50, got {}", p.g);
    assert_eq!(p.b, 0);
    assert_eq!(p.a, 128);
}

#[test]
fn alpha_channel_preserved() {
    let out = premultiply(&one(rgba(100, 100, 100, 77)));
    assert_eq!(out.pixels[0].a, 77);
}

#[test]
fn premultiply_exact_values() {
    let out = premultiply(&one(rgba(200, 100, 0, 128)));
    assert_eq!(out.pixels[0], rgba(100, 50, 0, 128));
}

// dither

#[test]
fn rgba8888_is_noop() {
    let img = Image::new(4, 4);
    let out = dither(&img, PixelFormat::Rgba8888);
    assert_eq!(out.width, 4);
    assert_eq!(out.height, 4);
}

#[test]
fn rgb565_alpha_forced_to_255() {
    let out = dither(&one(rgba(255, 128, 64, 200)), PixelFormat::Rgb565);
    assert_eq!(out.pixels[0].a, 255, "rgb565 forces alpha to 255");
}

#[test]
fn rgba5551_threshold_opaque() {
    let out = dither(&one(rgba(255, 255, 255, 200)), PixelFormat::Rgba5551);
    assert_eq!(out.pixels[0].a, 255, "alpha >= 128 rounds to 255");
}

#[test]
fn rgba5551_threshold_transparent() {
    let out = dither(&one(rgba(255, 255, 255, 50)), PixelFormat::Rgba5551);
    assert_eq!(out.pixels[0].a, 0, "alpha < 128 rounds to 0");
}

#[test]
fn quantize5_round_trips() {
    // Pure white should survive round-trip.
    assert_eq!(quantize5(255), 255);
    // Pure black should survive.
    assert_eq!(quantize5(0), 0);
}

#[test]
fn quantize4_round_trips() {
    assert_eq!(quantize4(255), 255);
    assert_eq!(quantize4(0), 0);
}

#[test]
fn quantizer_exact_values() {
    assert_eq!(quantize5(100), 99); // 12 << 3 | 12 >> 2
    assert_eq!(quantize6(100), 101); // 25 << 2 | 25 >> 4
    assert_eq!(quantize4(100), 102); // 6 * 17
    for v in 0..=255u8 {
        assert_eq!(quantize5(quantize5(v)), quantize5(v));
        assert_eq!(quantize6(quantize6(v)), quantize6(v));
        assert_eq!(quantize4(quantize4(v)), quantize4(v));
    }
}

#[test]
fn rgba4444_preserves_dimensions() {
    let img = Image::new(8, 8);
    let out = dither(&img, PixelFormat::Rgba4444);
    assert_eq!((out.width, out.height), (8, 8));
}

#[test]
fn floyd_steinberg_carries_error_right() {
    // Two pixels of value 100: the first quantizes to 99 (error 1, 7/16 of
    // which rounds to 0), the second also to 99.
    let img = Image { width: 2, height: 1, pixels: vec![rgba(100, 100, 100, 255); 2] };
    let out = dither(&img, PixelFormat::Rgb565);
    assert_eq!(out.pixels[0], rgba(99, 101, 99, 255));
    // A large error does carry: 15 quantizes to 0 (error 15 → 15*7/16 = 6).
    let img = Image { width: 2, height: 1, pixels: vec![rgba(15, 15, 15, 255); 2] };
    let out = dither(&img, PixelFormat::Rgba4444);
    assert_eq!(out.pixels[0], rgba(0, 0, 0, 255));
    // second pixel: 15 + 15*7/16 (= 6) = 21 → 17
    assert_eq!(out.pixels[1].r, 17);
}

#[test]
fn rgb888_and_alpha8_map_pixels() {
    let p = rgba(10, 20, 30, 40);
    assert_eq!(dither(&one(p), PixelFormat::Rgb888).pixels[0], rgba(10, 20, 30, 255));
    assert_eq!(dither(&one(p), PixelFormat::Alpha8).pixels[0], rgba(0, 0, 0, 40));
    assert_eq!(dither(&one(p), PixelFormat::Rgba8888).pixels[0], p);
}

// pixel art

fn from_rows(w: u32, h: u32, colours: &[Rgba]) -> Image {
    Image { width: w, height: h, pixels: colours.to_vec() }
}

#[test]
fn scale2x_uniform_image_stays_uniform() {
    let c = rgba(1, 2, 3, 255);
    let out = scale2x(&from_rows(2, 2, &[c; 4]));
    assert_eq!((out.width, out.height), (4, 4));
    assert!(out.pixels.iter().all(|p| *p == c));
}

#[test]
fn scale2x_diagonal_edge_is_smoothed() {
    // A . / . .   with A in the top-left: pixel (1,1) has n = (1,0) = B and
    // w = (0,1) = B, so its top-left output copies B.
    let a = rgba(255, 0, 0, 255);
    let b = rgba(0, 0, 255, 255);
    let img = from_rows(2, 2, &[a, b, b, a]);
    let out = scale2x(&img);
    // source (1,1) = a, n = b, w = b, e = a (edge), s = a (edge):
    // top-left rule w == n && w != s && n != e → b
    assert_eq!(out.pixels[(2 * 4 + 2) as usize], b);
}

#[test]
fn scale3x_centre_is_source_pixel() {
    let a = rgba(255, 0, 0, 255);
    let b = rgba(0, 255, 0, 255);
    let img = from_rows(2, 1, &[a, b]);
    let out = scale3x(&img);
    assert_eq!((out.width, out.height), (6, 3));
    assert_eq!(out.pixels[(1 * 6 + 1) as usize], a);
    assert_eq!(out.pixels[(1 * 6 + 4) as usize], b);
}

#[test]
fn eagle2x_keeps_isolated_pixel() {
    let a = rgba(9, 9, 9, 255);
    let b = rgba(200, 200, 200, 255);
    let img = from_rows(3, 3, &[b, b, b, b, a, b, b, b, b]);
    let out = eagle2x(&img);
    assert_eq!((out.width, out.height), (6, 6));
    // every corner of the centre pixel's block sees matching b neighbours
    assert_eq!(out.pixels[(2 * 6 + 2) as usize], b);
    assert_eq!(out.pixels[(3 * 6 + 3) as usize], b);
}

#[test]
fn hq2x_blends_corner() {
    let a = rgba(0, 0, 0, 255);
    let b = rgba(200, 100, 40, 255);
    let img = from_rows(2, 2, &[a, b, b, b]);
    let out = hq2x(&img);
    // source (1,1) = b, its top-left corner: n = b, w = b equal to centre → no blend
    assert_eq!(out.pixels[(2 * 4 + 2) as usize], b);
    // source (0,0) = a: bottom-right corner: s = b, e = b, differ from a → blend
    assert_eq!(out.pixels[(1 * 4 + 1) as usize], blend3(a, b, b));
    assert_eq!(blend3(a, b, b), rgba(100, 50, 20, 255));
}
