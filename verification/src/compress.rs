use vstd::prelude::*;

use crate::config::PackMode;
use crate::dxt::{
    bc1_stream, bc3_stream, blocks_for, build_dds, dds_header, encode_bc1, encode_bc3,
};
use crate::image::{raw_rgb, raw_rgba, Image, Rgba};

verus! {

/// Encoding errors reported by the `image` crate.
#[verifier::external_type_specification]
#[verifier::external_body]
pub struct ExImageError(image::ImageError);

/// Optimisation errors reported by `oxipng`.
#[verifier::external_type_specification]
#[verifier::external_body]
pub struct ExPngError(oxipng::PngError);

/// The bytes of the PNG file the `image` crate's PNG encoder writes for a `w × h`
/// RGBA8 buffer.
pub uninterp spec fn png_encoding(rgba: Seq<u8>, w: u32, h: u32) -> Seq<u8>;

/// The bytes of the JPEG file the `image` crate's JPEG encoder writes for a `w × h`
/// RGB8 buffer at the given quality.
pub uninterp spec fn jpeg_encoding(rgb: Seq<u8>, w: u32, h: u32, quality: u8) -> Seq<u8>;

/// The bytes `oxipng` produces when optimising a PNG file with a preset level,
/// or `None` when it refuses the file.
pub uninterp spec fn oxipng_output(png: Seq<u8>, preset: u8) -> Option<Seq<u8>>;

/// The bytes of the PNG file the `png` crate's encoder writes for a `w × h` 8-bit
/// indexed image with the given palette (RGB triples), transparency table and
/// index data.
pub uninterp spec fn png_indexed_encoding(
    w: u32,
    h: u32,
    palette: Seq<u8>,
    trns: Seq<u8>,
    data: Seq<u8>,
) -> Seq<u8>;

/// Encode an 8-bit indexed image as PNG with `png::Encoder` (colour type
/// `Indexed`, depth 8, palette and `tRNS` set, then `write_header` and
/// `write_image_data`; the writer finishes the file when dropped). Claimed: on
/// success the bytes are `png_indexed_encoding` of the arguments. Writing into
/// memory, the encoder fails only on a zero width or height, index data whose
/// length is not `w * h`, or a palette or transparency chunk longer than
/// `i32::MAX` bytes; its failures come back as their messages.
#[verifier::external_body]
fn encode_png_indexed(w: u32, h: u32, palette: &[u8], trns: &[u8], data: &[u8]) -> (r: Result<
    Vec<u8>,
    String,
>)
    ensures
        r matches Ok(bytes) ==> bytes@ == png_indexed_encoding(w, h, palette@, trns@, data@),
        w > 0 && h > 0 && data@.len() == w * h && palette@.len() <= i32::MAX && trns@.len()
            <= i32::MAX ==> r is Ok,
        r is Ok ==> w > 0 && h > 0 && data@.len() == w * h,
{
    let mut out: Vec<u8> = Vec::new();
    {
        let mut enc = png::Encoder::new(&mut out, w, h);
        enc.set_color(png::ColorType::Indexed);
        enc.set_depth(png::BitDepth::Eight);
        enc.set_palette(palette);
        enc.set_trns(trns);
        let mut writer = enc.write_header().map_err(|e| e.to_string())?;
        writer.write_image_data(data).map_err(|e| e.to_string())?;
    }
    Ok(out)
}

/// Encode an RGBA8 buffer as PNG with `image::codecs::png::PngEncoder::write_image`.
/// Claimed: on success the bytes are `png_encoding` of the buffer and size; writing
/// into memory it fails exactly on a zero width or height (the `png` crate's
/// header check), and its failures are passed on. The buffer length must match
/// the size (the encoder asserts it).
#[verifier::external_body]
fn encode_png_rgba(rgba: &[u8], w: u32, h: u32) -> (r: Result<Vec<u8>, image::ImageError>)
    requires
        rgba@.len() == 4 * w * h,
    ensures
        r matches Ok(bytes) ==> bytes@ == png_encoding(rgba@, w, h),
        w > 0 && h > 0 ==> r is Ok,
        r is Ok ==> w > 0 && h > 0,
{
    let mut buf: Vec<u8> = Vec::new();
    image::ImageEncoder::write_image(
        image::codecs::png::PngEncoder::new(&mut buf),
        rgba,
        w,
        h,
        image::ExtendedColorType::Rgba8,
    )?;
    Ok(buf)
}

/// Encode an RGB8 buffer as JPEG with `image::codecs::jpeg::JpegEncoder::encode`
/// (built by `new_with_quality`). Claimed: on success the bytes are `jpeg_encoding`
/// of the buffer, size and quality; writing into memory it fails exactly when a
/// side is zero or above 65535 (`encode_image`'s size check), and its failures
/// are passed on. The buffer
/// length must match the size (the encoder asserts it).
#[verifier::external_body]
fn encode_jpeg_rgb(rgb: &[u8], w: u32, h: u32, quality: u8) -> (r: Result<Vec<u8>, image::ImageError>)
    requires
        rgb@.len() == 3 * w * h,
    ensures
        r matches Ok(bytes) ==> bytes@ == jpeg_encoding(rgb@, w, h, quality),
        0 < w <= 65535 && 0 < h <= 65535 ==> r is Ok,
        r is Ok ==> 0 < w <= 65535 && 0 < h <= 65535,
{
    let mut buf: Vec<u8> = Vec::new();
    image::codecs::jpeg::JpegEncoder::new_with_quality(&mut buf, quality).encode(
        rgb,
        w,
        h,
        image::ExtendedColorType::Rgb8,
    )?;
    Ok(buf)
}

/// Optimise a PNG file with `oxipng::optimize_from_memory` under
/// `oxipng::Options::from_preset(preset)`. Claimed: whether it succeeds, and the
/// bytes it gives, depend on the input and preset alone (the preset sets no
/// time limit and the build runs its trials in turn), which `oxipng_output`
/// names; its failures are passed on.
#[verifier::external_body]
fn oxipng_optimize(png: &[u8], preset: u8) -> (r: Result<Vec<u8>, oxipng::PngError>)
    ensures
        match oxipng_output(png@, preset) {
            Some(b) => r matches Ok(bytes) && bytes@ == b,
            None => r is Err,
        },
{
    oxipng::optimize_from_memory(png, &oxipng::Options::from_preset(preset))
}

/// Input to a compression backend.
pub struct CompressInput<'a> {
    /// The composited atlas image to encode.
    pub image: &'a Image,
    /// Controls the compression effort level.
    pub pack_mode: PackMode,
    /// Quality for lossy codecs (0–100).
    pub quality: u8,
}

/// Raw encoded bytes returned by a compression backend.
pub struct CompressOutput {
    pub data: Vec<u8>,
}

/// Errors produced by image encoding and compression operations.
#[derive(Debug)]
pub enum CompressError {
    /// The image encoder failed.
    ImageEncode(image::ImageError),
    /// PNG optimization via oxipng failed.
    PngOptimize(oxipng::PngError),
    /// An error not covered by the other variants.
    Other(String),
}

/// The image can be handed to the encoders: well formed, and its byte buffer
/// fits in memory.
pub open spec fn encodable(img: Image) -> bool {
    &&& img.wf()
    &&& 4 * img.pixels@.len() <= usize::MAX
}

/// The oxipng preset used for a pack mode (`None`: no optimisation pass).
pub open spec fn oxipng_preset(mode: PackMode) -> Option<u8> {
    match mode {
        PackMode::Fast => None,
        PackMode::Good => Some(3u8),
        PackMode::Best => Some(6u8),
    }
}

/// After PNG encoding: keep the bytes for `Fast`, otherwise run oxipng at preset 3
/// (`Good`) or 6 (`Best`), passing its failure on.
pub fn optimize_for_mode(png_bytes: Vec<u8>, mode: PackMode) -> (r: Result<CompressOutput, CompressError>)
    ensures
        oxipng_preset(mode) is None ==> (r matches Ok(out) && out.data@ == png_bytes@),
        oxipng_preset(mode) matches Some(p) ==> match oxipng_output(png_bytes@, p) {
            Some(b) => r matches Ok(out) && out.data@ == b,
            None => r matches Err(e) && e is PngOptimize,
        },
{
    match mode {
        PackMode::Fast => Ok(CompressOutput { data: png_bytes }),
        PackMode::Good => match oxipng_optimize(&png_bytes, 3) {
            Ok(optimized) => Ok(CompressOutput { data: optimized }),
            Err(e) => Err(CompressError::PngOptimize(e)),
        },
        PackMode::Best => match oxipng_optimize(&png_bytes, 6) {
            Ok(optimized) => Ok(CompressOutput { data: optimized }),
            Err(e) => Err(CompressError::PngOptimize(e)),
        },
    }
}

/// Lossless PNG encoder backed by the `image` crate with optional oxipng optimization.
///
/// `PackMode::Fast` encodes only (no post-processing).
/// `PackMode::Good` runs oxipng at preset level 3.
/// `PackMode::Best` runs oxipng at preset level 6 (maximum libdeflater compression).
pub struct PngCompressor;

impl PngCompressor {
    /// Encode the atlas image and return the file bytes.
    pub fn compress(&self, input: &CompressInput) -> (r: Result<CompressOutput, CompressError>)
        requires
            encodable(*input.image),
        ensures
            r matches Ok(out) ==> match oxipng_preset(input.pack_mode) {
                None => out.data@ == png_encoding(
                    raw_rgba(input.image.pixels@),
                    input.image.width,
                    input.image.height,
                ),
                Some(p) => oxipng_output(
                    png_encoding(raw_rgba(input.image.pixels@), input.image.width, input.image.height),
                    p,
                ) == Some(out.data@),
            },
            r matches Err(e) ==> (e is ImageEncode || (oxipng_preset(input.pack_mode) is Some
                && e is PngOptimize)),
            input.image.width > 0 && input.image.height > 0 && (oxipng_preset(input.pack_mode) matches Some(
                p,
            ) ==> oxipng_output(
                png_encoding(raw_rgba(input.image.pixels@), input.image.width, input.image.height),
                p,
            ) is Some) ==> r is Ok,
            r matches Err(e) && e is ImageEncode ==> input.image.width == 0 || input.image.height
                == 0,
    {
        let raw = input.image.as_raw();
        proof {
            assert(4 * input.image.width * input.image.height == 4 * (input.image.width * input.image.height)) by (nonlinear_arith);
        }
        let png_bytes = match encode_png_rgba(&raw, input.image.width, input.image.height) {
            Ok(b) => b,
            Err(e) => return Err(CompressError::ImageEncode(e)),
        };
        optimize_for_mode(png_bytes, input.pack_mode)
    }

    /// Short identifier matching `OutputConfig::texture_format`.
    pub fn format_id(&self) -> (s: &'static str)
        ensures
            s@ == "png"@,
    {
        "png"
    }

    /// File extension for the texture output, without leading dot.
    pub fn file_extension(&self) -> (s: &'static str)
        ensures
            s@ == "png"@,
    {
        "png"
    }
}

/// A palette image: `width × height` indices into a list of RGBA colours.
pub struct IndexedImage {
    /// Width in pixels.
    pub width: u32,
    /// Height in pixels.
    pub height: u32,
    /// The colours the indices refer to.
    pub palette: Vec<Rgba>,
    /// One palette index per pixel, row by row.
    pub indices: Vec<u8>,
}

/// The alpha of each colour, in order.
pub open spec fn alphas(px: Seq<Rgba>) -> Seq<u8> {
    Seq::new(px.len(), |i: int| px[i].a)
}

/// The palette as RGB triples and as its table of alphas.
fn palette_tables(palette: &Vec<Rgba>) -> (r: (Vec<u8>, Vec<u8>))
    requires
        3 * palette@.len() <= usize::MAX,
    ensures
        r.0@ == raw_rgb(palette@),
        r.1@ == alphas(palette@),
{
    let n = palette.len();
    let mut rgb: Vec<u8> = Vec::new();
    let mut trns: Vec<u8> = Vec::new();
    let mut i: usize = 0;
    while i < n
        invariant
            n == palette@.len(),
            3 * n <= usize::MAX,
            i <= n,
            rgb@ =~= raw_rgb(palette@.take(i as int)),
            trns@ =~= alphas(palette@.take(i as int)),
        decreases n - i,
    {
        let p = palette[i];
        rgb.push(p.r);
        rgb.push(p.g);
        rgb.push(p.b);
        trns.push(p.a);
        i = i + 1;
        assert(rgb@ =~= raw_rgb(palette@.take(i as int))) by {
            assert forall|j: int| 0 <= j < rgb@.len() implies rgb@[j] == raw_rgb(
                palette@.take(i as int),
            )[j] by {
                if j < 3 * (i - 1) {
                    assert(raw_rgb(palette@.take(i - 1))[j] == raw_rgb(palette@.take(i as int))[j]);
                }
            }
        }
    }
    assert(palette@.take(n as int) =~= palette@);
    (rgb, trns)
}

/// The indexed PNG encoder takes the image: it has pixels, one index per pixel,
/// and a palette whose colour and alpha tables fit in a PNG chunk.
pub open spec fn indexed_encodable(img: IndexedImage) -> bool {
    &&& img.width > 0
    &&& img.height > 0
    &&& img.indices@.len() == img.width * img.height
    &&& 3 * img.palette@.len() <= i32::MAX
}

/// Lossy PNG encoder: palette reduction followed by the same oxipng pass as
/// `PngCompressor` (see `optimize_for_mode`).
pub struct LossyPngCompressor;

impl LossyPngCompressor {
    /// Encode an already palette-reduced image as an indexed PNG (palette as RGB
    /// triples plus a `tRNS` table of the alphas), then run the pack mode's oxipng
    /// pass.
    pub fn compress_indexed(&self, img: &IndexedImage, pack_mode: PackMode) -> (r: Result<
        CompressOutput,
        CompressError,
    >)
        requires
            3 * img.palette@.len() <= usize::MAX,
        ensures
            r matches Ok(out) ==> {
                let png = png_indexed_encoding(
                    img.width,
                    img.height,
                    raw_rgb(img.palette@),
                    alphas(img.palette@),
                    img.indices@,
                );
                match oxipng_preset(pack_mode) {
                    None => out.data@ == png,
                    Some(p) => oxipng_output(png, p) == Some(out.data@),
                }
            },
            r matches Err(e) ==> e is Other || e is PngOptimize,
            indexed_encodable(*img) && (oxipng_preset(pack_mode) matches Some(p) ==> oxipng_output(
                png_indexed_encoding(
                    img.width,
                    img.height,
                    raw_rgb(img.palette@),
                    alphas(img.palette@),
                    img.indices@,
                ),
                p,
            ) is Some) ==> r is Ok,
            r matches Err(e) && e is Other ==> !indexed_encodable(*img),
    {
        let (pal, trns) = palette_tables(&img.palette);
        let png_bytes = match encode_png_indexed(
            img.width,
            img.height,
            pal.as_slice(),
            trns.as_slice(),
            img.indices.as_slice(),
        ) {
            Ok(b) => b,
            Err(msg) => return Err(CompressError::Other(msg)),
        };
        optimize_for_mode(png_bytes, pack_mode)
    }

    /// Short identifier matching `OutputConfig::texture_format`.
    pub fn format_id(&self) -> (s: &'static str)
        ensures
            s@ == "png"@,
    {
        "png"
    }

    /// File extension for the texture output, without leading dot.
    pub fn file_extension(&self) -> (s: &'static str)
        ensures
            s@ == "png"@,
    {
        "png"
    }
}

/// JPEG encoder. Quality is taken from `CompressInput::quality` (0–100); the image's
/// alpha channel is dropped.
pub struct JpegCompressor;

impl JpegCompressor {
    /// Encode the atlas image and return the file bytes.
    pub fn compress(&self, input: &CompressInput) -> (r: Result<CompressOutput, CompressError>)
        requires
            encodable(*input.image),
        ensures
            r matches Ok(out) ==> out.data@ == jpeg_encoding(
                raw_rgb(input.image.pixels@),
                input.image.width,
                input.image.height,
                input.quality,
            ),
            r matches Err(e) ==> e is ImageEncode,
            r is Ok <==> 0 < input.image.width <= 65535 && 0 < input.image.height <= 65535,
    {
        let rgb = input.image.to_rgb_bytes();
        proof {
            assert(3 * input.image.width * input.image.height == 3 * (input.image.width * input.image.height)) by (nonlinear_arith);
        }
        match encode_jpeg_rgb(&rgb, input.image.width, input.image.height, input.quality) {
            Ok(data) => Ok(CompressOutput { data }),
            Err(e) => Err(CompressError::ImageEncode(e)),
        }
    }

    /// Short identifier matching `OutputConfig::texture_format`.
    pub fn format_id(&self) -> (s: &'static str)
        ensures
            s@ == "jpeg"@,
    {
        "jpeg"
    }

    /// File extension for the texture output, without leading dot.
    pub fn file_extension(&self) -> (s: &'static str)
        ensures
            s@ == "jpg"@,
    {
        "jpg"
    }
}

/// WebP encoder. This build carries no WebP encoder, so every call reports that.
pub struct WebpCompressor;

impl WebpCompressor {
    /// Always fails: WebP encoding is not built in.
    pub fn compress(&self, input: &CompressInput) -> (r: Result<CompressOutput, CompressError>)
        ensures
            r matches Err(e) && e matches CompressError::Other(m) && m@
                == "webp-encode feature is not enabled; rebuild with --features webp-encode"@,
    {
        Err(
            CompressError::Other(
                String::from_str(
                    "webp-encode feature is not enabled; rebuild with --features webp-encode",
                ),
            ),
        )
    }

    /// Short identifier matching `OutputConfig::texture_format`.
    pub fn format_id(&self) -> (s: &'static str)
        ensures
            s@ == "webp"@,
    {
        "webp"
    }

    /// File extension for the texture output, without leading dot.
    pub fn file_extension(&self) -> (s: &'static str)
        ensures
            s@ == "webp"@,
    {
        "webp"
    }
}

/// The four ASCII bytes of a FourCC code.
pub open spec fn fourcc(a: u8, b: u8, c: u8, d: u8) -> Seq<u8> {
    seq![a, b, c, d]
}

/// DXT1 / BC1 compressor. No per-pixel alpha. Output is a DDS file.
///
/// Uses a fast min/max bounding-box endpoint selector. Quality is suitable
/// for game atlases; it is not the highest-quality iterative cluster-fit
/// approach, but produces valid BC1 blocks with no external dependencies.
pub struct Dxt1Compressor;

impl Dxt1Compressor {
    /// Encode the atlas image as a DDS file of BC1 blocks.
    pub fn compress(&self, input: &CompressInput) -> (r: Result<CompressOutput, CompressError>)
        requires
            encodable(*input.image),
            input.image.width + 3 <= u32::MAX,
            input.image.height + 3 <= u32::MAX,
        ensures
            r matches Ok(out) && ({
                let img = *input.image;
                let blocks = bc1_stream(
                    raw_rgb(img.pixels@),
                    img.width as int,
                    img.height as int,
                    blocks_for(img.width as int) * blocks_for(img.height as int),
                );
                out.data@ == dds_header(img.width, img.height, fourcc(68, 88, 84, 49), blocks.len() as u32)
                    + blocks
            }),
    {
        let w = input.image.width;
        let h = input.image.height;
        let rgb = input.image.to_rgb_bytes();
        proof {
            assert(3 * w * h == 3 * (w * h)) by (nonlinear_arith);
        }
        let blocks = encode_bc1(&rgb, w, h);
        let tag: [u8; 4] = [68, 88, 84, 49];
        assert(tag@ =~= fourcc(68, 88, 84, 49));
        Ok(CompressOutput { data: build_dds(w, h, &tag, &blocks) })
    }

    /// Short identifier matching `OutputConfig::texture_format`.
    pub fn format_id(&self) -> (s: &'static str)
        ensures
            s@ == "dxt1"@,
    {
        "dxt1"
    }

    /// File extension for the texture output, without leading dot.
    pub fn file_extension(&self) -> (s: &'static str)
        ensures
            s@ == "dds"@,
    {
        "dds"
    }
}

/// DXT5 / BC3 compressor. Full alpha channel. Output is a DDS file.
///
/// Alpha is encoded with the BC3 6-interpolation alpha block; colour is
/// encoded with BC1 in 4-colour mode.
pub struct Dxt5Compressor;

impl Dxt5Compressor {
    /// Encode the atlas image as a DDS file of BC3 blocks.
    pub fn compress(&self, input: &CompressInput) -> (r: Result<CompressOutput, CompressError>)
        requires
            encodable(*input.image),
            input.image.width + 3 <= u32::MAX,
            input.image.height + 3 <= u32::MAX,
        ensures
            r matches Ok(out) && ({
                let img = *input.image;
                let blocks = bc3_stream(
                    raw_rgba(img.pixels@),
                    img.width as int,
                    img.height as int,
                    blocks_for(img.width as int) * blocks_for(img.height as int),
                );
                out.data@ == dds_header(img.width, img.height, fourcc(68, 88, 84, 53), blocks.len() as u32)
                    + blocks
            }),
    {
        let w = input.image.width;
        let h = input.image.height;
        let rgba = input.image.as_raw();
        proof {
            assert(4 * w * h == 4 * (w * h)) by (nonlinear_arith);
        }
        let blocks = encode_bc3(&rgba, w, h);
        let tag: [u8; 4] = [68, 88, 84, 53];
        assert(tag@ =~= fourcc(68, 88, 84, 53));
        Ok(CompressOutput { data: build_dds(w, h, &tag, &blocks) })
    }

    /// Short identifier matching `OutputConfig::texture_format`.
    pub fn format_id(&self) -> (s: &'static str)
        ensures
            s@ == "dxt5"@,
    {
        "dxt5"
    }

    /// File extension for the texture output, without leading dot.
    pub fn file_extension(&self) -> (s: &'static str)
        ensures
            s@ == "dds"@,
    {
        "dds"
    }
}

} // verus!
