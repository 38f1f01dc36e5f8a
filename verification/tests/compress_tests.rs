use fastpack::compress::{
    CompressInput, Dxt1Compressor, Dxt5Compressor, IndexedImage, JpegCompressor, LossyPngCompressor,
    PngCompressor, WebpCompressor,
};
use fastpack::config::PackMode;
use fastpack::dxt::{build_dds, encode_bc1_block, encode_bc3_alpha_block, rgb_from_565, rgb_to_565};
use fastpack::image::{Image, Rgba};

#[test]
fn bc1_block_solid_colour() {
    let pixels: [[u8; 3]; 16] = [[255, 0, 0]; 16];
    let block = encode_bc1_block(&pixels);
    // c0 must be > c1 (4-colour mode).
    let c0 = u16::from_le_bytes([block[0], block[1]]);
    let c1 = u16::from_le_bytes([block[2], block[3]]);
    assert!(c0 > c1, "4-colour mode: c0({c0}) must be > c1({c1})");
}

#[test]
fn bc3_alpha_block_full_range() {
    let mut pixels = [[0u8; 4]; 16];
    for (i, p) in pixels.iter_mut().enumerate() {
        p[3] = (i * 17) as u8;
    }
    let block = encode_bc3_alpha_block(&pixels);
    assert_eq!(block[0], 255); // a0 = max
    assert_eq!(block[1], 0); // a1 = min
}

#[test]
fn dds_header_magic_and_size() {
    let blocks = vec![0u8; 8];
    let dds = build_dds(4, 4, b"DXT1", &blocks);
    assert_eq!(&dds[0..4], b"DDS ");
    assert_eq!(u32::from_le_bytes(dds[4..8].try_into().unwrap()), 124);
}

#[test]
fn dxt1_output_byte_count() {
    let img = Image::new(8, 8);
    let out = Dxt1Compressor
        .compress(&CompressInput { image: &img, pack_mode: PackMode::Fast, quality: 0 })
        .unwrap();
    // 8×8 → 2×2 blocks × 8 bytes = 32 bytes data + 128 bytes DDS header.
    assert_eq!(out.data.len(), 4 + 124 + 4 * 8);
}

#[test]
fn dxt5_output_byte_count() {
    let img = Image::new(4, 4);
    let out = Dxt5Compressor
        .compress(&CompressInput { image: &img, pack_mode: PackMode::Fast, quality: 0 })
        .unwrap();
    // 4×4 → 1 block × 16 bytes + 128 bytes DDS header.
    assert_eq!(out.data.len(), 4 + 124 + 16);
}

#[test]
fn dxt_partial_blocks_round_up() {
    let img = Image::new(5, 3);
    let out = Dxt1Compressor
        .compress(&CompressInput { image: &img, pack_mode: PackMode::Fast, quality: 0 })
        .unwrap();
    // 5×3 → 2×1 blocks.
    assert_eq!(out.data.len(), 128 + 2 * 8);
    assert_eq!(&out.data[84..88], b"DXT1");
}

#[test]
fn rgb565_round_trip_extremes() {
    assert_eq!(rgb_to_565(255, 255, 255), 0xffff);
    assert_eq!(rgb_to_565(0, 0, 0), 0);
    assert_eq!(rgb_from_565(0xffff), [255, 255, 255]);
    assert_eq!(rgb_from_565(0xf800), [255, 0, 0]);
}

fn checker(w: u32, h: u32) -> Image {
    let mut img = Image::new(w, h);
    for y in 0..h {
        for x in 0..w {
            let v = if (x + y) % 2 == 0 { 255 } else { 0 };
            img.put_pixel(x, y, Rgba { r: v, g: 128, b: 255 - v, a: 255 });
        }
    }
    img
}

#[test]
fn png_output_is_a_png_file() {
    let img = checker(6, 4);
    let out = PngCompressor
        .compress(&CompressInput { image: &img, pack_mode: PackMode::Fast, quality: 0 })
        .unwrap();
    assert_eq!(&out.data[0..8], &[0x89, b'P', b'N', b'G', 0x0d, 0x0a, 0x1a, 0x0a]);
    let decoded = image::load_from_memory(&out.data).unwrap().to_rgba8();
    assert_eq!(decoded.dimensions(), (6, 4));
    assert_eq!(decoded.get_pixel(1, 0).0, [0, 128, 255, 255]);
}

#[test]
fn png_optimized_output_decodes_to_same_pixels() {
    let img = checker(5, 5);
    let out = PngCompressor
        .compress(&CompressInput { image: &img, pack_mode: PackMode::Good, quality: 0 })
        .unwrap();
    let decoded = image::load_from_memory(&out.data).unwrap().to_rgba8();
    assert_eq!(decoded.dimensions(), (5, 5));
    assert_eq!(decoded.get_pixel(2, 2).0, [255, 128, 0, 255]);
}

#[test]
fn jpeg_output_is_a_jpeg_file() {
    let img = checker(8, 8);
    let out = JpegCompressor
        .compress(&CompressInput { image: &img, pack_mode: PackMode::Fast, quality: 90 })
        .unwrap();
    assert_eq!(&out.data[0..2], &[0xff, 0xd8]);
    let decoded = image::load_from_memory(&out.data).unwrap();
    assert_eq!((decoded.width(), decoded.height()), (8, 8));
}

#[test]
fn lossy_png_indexed_output_decodes() {
    let palette = vec![
        Rgba { r: 255, g: 0, b: 0, a: 255 },
        Rgba { r: 0, g: 0, b: 255, a: 128 },
    ];
    let indexed = IndexedImage { width: 2, height: 2, palette, indices: vec![0, 1, 1, 0] };
    let out = LossyPngCompressor.compress_indexed(&indexed, PackMode::Fast).unwrap();
    let decoded = image::load_from_memory(&out.data).unwrap().to_rgba8();
    assert_eq!(decoded.dimensions(), (2, 2));
    assert_eq!(decoded.get_pixel(0, 0).0, [255, 0, 0, 255]);
    assert_eq!(decoded.get_pixel(1, 0).0, [0, 0, 255, 128]);
}

#[test]
fn lossy_png_bad_index_data_is_an_error() {
    let indexed = IndexedImage {
        width: 2,
        height: 2,
        palette: vec![Rgba { r: 1, g: 2, b: 3, a: 4 }],
        indices: vec![0, 0, 0],
    };
    assert!(LossyPngCompressor.compress_indexed(&indexed, PackMode::Fast).is_err());
}

#[test]
fn webp_is_reported_unavailable() {
    let img = Image::new(1, 1);
    let err = WebpCompressor
        .compress(&CompressInput { image: &img, pack_mode: PackMode::Fast, quality: 80 })
        .err()
        .unwrap();
    match err {
        fastpack::compress::CompressError::Other(m) => assert!(m.contains("webp")),
        _ => panic!("unexpected error kind"),
    }
}

#[test]
fn compressor_ids() {
    assert_eq!(PngCompressor.format_id(), "png");
    assert_eq!(LossyPngCompressor.file_extension(), "png");
    assert_eq!(JpegCompressor.file_extension(), "jpg");
    assert_eq!(Dxt1Compressor.file_extension(), "dds");
    assert_eq!(Dxt5Compressor.format_id(), "dxt5");
}

#[test]
fn png_optimization_rewrites_the_file() {
    let img = Image { width: 64, height: 64, pixels: vec![Rgba { r: 10, g: 20, b: 30, a: 255 }; 64 * 64] };
    let fast = PngCompressor
        .compress(&CompressInput { image: &img, pack_mode: PackMode::Fast, quality: 0 })
        .unwrap();
    let best = PngCompressor
        .compress(&CompressInput { image: &img, pack_mode: PackMode::Best, quality: 0 })
        .unwrap();
    assert_ne!(fast.data, best.data);
    assert!(best.data.len() < fast.data.len());
    let decoded = image::load_from_memory(&best.data).unwrap().to_rgba8();
    assert_eq!(decoded.get_pixel(63, 63).0, [10, 20, 30, 255]);
}
