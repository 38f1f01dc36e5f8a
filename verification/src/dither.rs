use vstd::prelude::*;

use crate::extrude::clamp;
use crate::image::{channel, Image, Rgba};
use crate::pixel_format::PixelFormat;

verus! {

/// `v` reduced to 5 bits and expanded back by bit replication.
pub open spec fn q5(v: int) -> int {
    (v / 8) * 8 + v / 32
}

/// `v` reduced to 6 bits and expanded back by bit replication.
pub open spec fn q6(v: int) -> int {
    (v / 4) * 4 + v / 64
}

/// `v` reduced to 4 bits and expanded back: `(v >> 4) * 17`.
pub open spec fn q4(v: int) -> int {
    (v / 16) * 17
}

/// Quantize an 8-bit value to 5-bit precision, then expand back to 8 bits.
/// Expansion uses the standard replication formula: (v5 << 3) | (v5 >> 2).
pub fn quantize5(v: u8) -> (r: u8)
    ensures
        r == q5(v as int),
{
    let v5 = v >> 3;
    assert(((v >> 3u8) << 3u8) | ((v >> 3u8) >> 2u8) == (v / 8) * 8 + v / 32) by (bit_vector);
    (v5 << 3) | (v5 >> 2)
}

/// Quantize an 8-bit value to 6-bit precision, then expand back to 8 bits.
pub fn quantize6(v: u8) -> (r: u8)
    ensures
        r == q6(v as int),
{
    let v6 = v >> 2;
    assert(((v >> 2u8) << 2u8) | ((v >> 2u8) >> 4u8) == (v / 4) * 4 + v / 64) by (bit_vector);
    (v6 << 2) | (v6 >> 4)
}

/// Quantize an 8-bit value to 4-bit precision, then expand back to 8 bits.
/// 4-bit value expands as (v4 << 4) | v4 = v4 * 17.
pub fn quantize4(v: u8) -> (r: u8)
    ensures
        r == q4(v as int),
{
    let v4 = v >> 4;
    assert(((v >> 4u8) << 4u8) | (v >> 4u8) == (v / 16) * 17) by (bit_vector);
    (v4 << 4) | v4
}

/// The formats reduced by Floyd–Steinberg error diffusion.
pub open spec fn diffusing(fmt: PixelFormat) -> bool {
    fmt == PixelFormat::Rgb565 || fmt == PixelFormat::Rgba4444 || fmt == PixelFormat::Rgba5551
}

/// Channel `c` (0 = red .. 3 = alpha) is quantized, and its error diffused, in `fmt`.
pub open spec fn diffused(fmt: PixelFormat, c: int) -> bool {
    match fmt {
        PixelFormat::Rgb565 => 0 <= c < 3,
        PixelFormat::Rgba4444 | PixelFormat::Rgba5551 => 0 <= c < 4,
        _ => false,
    }
}

/// The representable level nearest below `v` in channel `c` of `fmt`:
/// 5-6-5 bits for RGB565, 4 bits for RGBA4444, 5 bits and a 1-bit alpha
/// (cut at 128) for RGBA5551.
pub open spec fn quant(fmt: PixelFormat, c: int, v: int) -> int {
    match fmt {
        PixelFormat::Rgb565 => if c == 1 {
            q6(v)
        } else {
            q5(v)
        },
        PixelFormat::Rgba4444 => q4(v),
        PixelFormat::Rgba5551 => if c == 3 {
            if v >= 128 {
                255
            } else {
                0
            }
        } else {
            q5(v)
        },
        _ => v,
    }
}

/// Integer division rounding toward zero, as Rust's `/` does on signed values.
pub open spec fn div_trunc(a: int, b: int) -> int {
    if a >= 0 {
        a / b
    } else {
        -((-a) / b)
    }
}

/// The error carried into pixel `i` (row-major, `w` wide) in channel `c`: the
/// shares its already-processed neighbours pass on, 7/16 from the left, 3/16
/// from the upper right, 5/16 from above and 1/16 from the upper left, each
/// share rounded toward zero.
pub open spec fn fs_carry(src: Seq<Rgba>, w: int, fmt: PixelFormat, c: int, i: int) -> int
    decreases i, 0int,
{
    let x = i % w;
    (if w >= 1 && i >= 1 && x > 0 {
        div_trunc(7 * fs_err(src, w, fmt, c, i - 1), 16)
    } else {
        0
    }) + (if w > 1 && i >= w && x + 1 < w {
        div_trunc(3 * fs_err(src, w, fmt, c, i - w + 1), 16)
    } else {
        0
    }) + (if w >= 1 && i >= w {
        div_trunc(5 * fs_err(src, w, fmt, c, i - w), 16)
    } else {
        0
    }) + (if w >= 1 && i >= w + 1 && x > 0 {
        div_trunc(fs_err(src, w, fmt, c, i - w - 1), 16)
    } else {
        0
    })
}

/// The level of pixel `i` in channel `c` once the carried error is added,
/// clamped to `0..=255`.
pub open spec fn fs_level(src: Seq<Rgba>, w: int, fmt: PixelFormat, c: int, i: int) -> int
    decreases i, 1int,
{
    clamp(channel(src[i], c) + fs_carry(src, w, fmt, c, i), 0, 255)
}

/// The quantization error of pixel `i` in channel `c`, which it diffuses onward.
pub open spec fn fs_err(src: Seq<Rgba>, w: int, fmt: PixelFormat, c: int, i: int) -> int
    decreases i, 2int,
{
    fs_level(src, w, fmt, c, i) - quant(fmt, c, fs_level(src, w, fmt, c, i))
}

/// Output channel `c` of pixel `i`.
pub open spec fn fs_channel(src: Seq<Rgba>, w: int, fmt: PixelFormat, c: int, i: int) -> u8 {
    if diffused(fmt, c) {
        quant(fmt, c, fs_level(src, w, fmt, c, i)) as u8
    } else {
        255
    }
}

/// Output pixel `i` of Floyd–Steinberg dithering `src` (`w` wide) to `fmt`.
pub open spec fn fs_pixel(src: Seq<Rgba>, w: int, fmt: PixelFormat, i: int) -> Rgba {
    Rgba {
        r: fs_channel(src, w, fmt, 0, i),
        g: fs_channel(src, w, fmt, 1, i),
        b: fs_channel(src, w, fmt, 2, i),
        a: fs_channel(src, w, fmt, 3, i),
    }
}

/// The error recorded for a processed pixel: its quantization error in a
/// diffused channel, 0 in the others.
pub open spec fn err_value(src: Seq<Rgba>, w: int, fmt: PixelFormat, c: int, i: int) -> int {
    if diffused(fmt, c) {
        fs_err(src, w, fmt, c, i)
    } else {
        0
    }
}

/// The carry of pixel `i`, read from a list of recorded errors.
pub open spec fn carry_seq(e: Seq<i32>, w: int, i: int) -> int {
    let x = i % w;
    (if w >= 1 && i >= 1 && x > 0 {
        div_trunc(7 * e[i - 1], 16)
    } else {
        0
    }) + (if w > 1 && i >= w && x + 1 < w {
        div_trunc(3 * e[i - w + 1], 16)
    } else {
        0
    }) + (if w >= 1 && i >= w {
        div_trunc(5 * e[i - w], 16)
    } else {
        0
    }) + (if w >= 1 && i >= w + 1 && x > 0 {
        div_trunc(e[i - w - 1] as int, 16)
    } else {
        0
    })
}

/// Levels stay in `0..=255`, quantized levels too, so errors lie in `-255..=255`.
proof fn lemma_fs_bounds(src: Seq<Rgba>, w: int, fmt: PixelFormat, c: int, i: int)
    ensures
        0 <= fs_level(src, w, fmt, c, i) <= 255,
        0 <= quant(fmt, c, fs_level(src, w, fmt, c, i)) <= 255,
        -255 <= fs_err(src, w, fmt, c, i) <= 255,
{
    let v = fs_level(src, w, fmt, c, i);
    assert(0 <= v <= 255);
    assert(0 <= quant(fmt, c, v) <= 255);
}

/// Reading the recorded errors gives the carry of the dithering process.
proof fn lemma_carry_matches(
    src: Seq<Rgba>,
    w: int,
    fmt: PixelFormat,
    c: int,
    e: Seq<i32>,
    i: int,
)
    requires
        w >= 1,
        0 <= i,
        e.len() >= i,
        diffused(fmt, c),
        forall|j: int| 0 <= j < i ==> #[trigger] e[j] == fs_err(src, w, fmt, c, j),
    ensures
        carry_seq(e, w, i) == fs_carry(src, w, fmt, c, i),
{
}

/// `m * e / 16` rounded toward zero, for an error `e` in `-255..=255`.
fn share(e: i32, m: i32) -> (r: i32)
    requires
        -255 <= e <= 255,
        1 <= m <= 7,
    ensures
        r == div_trunc(m * e, 16),
        -112 <= r <= 112,
{
    if e >= 0 {
        assert(0 <= m * e <= 1785) by (nonlinear_arith)
            requires
                0 <= e <= 255,
                1 <= m <= 7,
        ;
        (m * e) / 16
    } else {
        assert(0 < m * (-e) <= 1785 && m * (-e) == -(m * e)) by (nonlinear_arith)
            requires
                -255 <= e < 0,
                1 <= m <= 7,
        ;
        -((m * (-e)) / 16)
    }
}

/// The carry of pixel `k` in one channel, from that channel's recorded errors.
fn carry(e: &Vec<i32>, k: usize, w: usize) -> (r: i32)
    requires
        w >= 1,
        e@.len() == k,
        forall|j: int| 0 <= j < k ==> -255 <= #[trigger] e@[j] <= 255,
    ensures
        r == carry_seq(e@, w as int, k as int),
        -1020 <= r <= 1020,
{
    let x = k % w;
    let mut acc: i32 = 0;
    if k >= 1 && x > 0 {
        acc = acc + share(e[k - 1], 7);
    }
    if w > 1 && k >= w && x + 1 < w {
        acc = acc + share(e[k - w + 1], 3);
    }
    if k >= w {
        acc = acc + share(e[k - w], 5);
    }
    if k > w && x > 0 {
        acc = acc + share(e[k - w - 1], 1);
    }
    acc
}

/// `fmt`'s quantizer for channel `c`.
fn quant_exec(fmt: PixelFormat, c: usize, v: u8) -> (r: u8)
    requires
        diffusing(fmt),
    ensures
        r == quant(fmt, c as int, v as int),
{
    match fmt {
        PixelFormat::Rgb565 => if c == 1 {
            quantize6(v)
        } else {
            quantize5(v)
        },
        PixelFormat::Rgba4444 => quantize4(v),
        _ => if c == 3 {
            if v >= 128 {
                255
            } else {
                0
            }
        } else {
            quantize5(v)
        },
    }
}

/// Channel `c` of pixel `k`: level, quantized output and error to record.
fn dither_channel(fmt: PixelFormat, c: usize, value: u8, e: &Vec<i32>, k: usize, w: usize) -> (r: (
    u8,
    i32,
))
    requires
        diffusing(fmt),
        w >= 1,
        e@.len() == k,
        forall|j: int| 0 <= j < k ==> -255 <= #[trigger] e@[j] <= 255,
    ensures
        ({
            let lvl = clamp(value + carry_seq(e@, w as int, k as int), 0, 255);
            &&& r.0 == quant(fmt, c as int, lvl)
            &&& r.1 == lvl - quant(fmt, c as int, lvl)
        }),
{
    let cin = carry(e, k, w);
    let raw = value as i32 + cin;
    let lvl: u8 = if raw < 0 {
        0
    } else if raw > 255 {
        255
    } else {
        raw as u8
    };
    let q = quant_exec(fmt, c, lvl);
    (q, lvl as i32 - q as i32)
}

/// Floyd–Steinberg dithering of `src` to one of the error-diffusing formats.
fn floyd_steinberg(src: &Image, fmt: PixelFormat) -> (out: Image)
    requires
        src.wf(),
        diffusing(fmt),
    ensures
        out.wf(),
        out.width == src.width,
        out.height == src.height,
        forall|k: int|
            0 <= k < out.pixels@.len() ==> #[trigger] out.pixels@[k] == fs_pixel(
                src.pixels@,
                src.width as int,
                fmt,
                k,
            ),
{
    let n = src.pixels.len();
    let w = src.width as usize;
    let mut pixels: Vec<Rgba> = Vec::new();
    if n == 0 {
        return Image { width: src.width, height: src.height, pixels };
    }
    assert(w >= 1) by (nonlinear_arith)
        requires
            n == src.width * src.height,
            n > 0,
            w == src.width,
    ;
    let ghost s = src.pixels@;
    let ghost wi = w as int;
    let mut er: Vec<i32> = Vec::new();
    let mut eg: Vec<i32> = Vec::new();
    let mut eb: Vec<i32> = Vec::new();
    let mut ea: Vec<i32> = Vec::new();
    let mut k: usize = 0;
    while k < n
        invariant
            s == src.pixels@,
            n == s.len(),
            wi == w,
            w >= 1,
            diffusing(fmt),
            k <= n,
            pixels@.len() == k,
            er@.len() == k,
            eg@.len() == k,
            eb@.len() == k,
            ea@.len() == k,
            forall|j: int| 0 <= j < k ==> #[trigger] pixels@[j] == fs_pixel(s, wi, fmt, j),
            forall|j: int| 0 <= j < k ==> #[trigger] er@[j] == err_value(s, wi, fmt, 0, j),
            forall|j: int| 0 <= j < k ==> #[trigger] eg@[j] == err_value(s, wi, fmt, 1, j),
            forall|j: int| 0 <= j < k ==> #[trigger] eb@[j] == err_value(s, wi, fmt, 2, j),
            forall|j: int| 0 <= j < k ==> #[trigger] ea@[j] == err_value(s, wi, fmt, 3, j),
        decreases n - k,
    {
        proof {
            assert forall|j: int| 0 <= j < k implies -255 <= #[trigger] er@[j] <= 255 by {
                lemma_fs_bounds(s, wi, fmt, 0, j);
            }
            assert forall|j: int| 0 <= j < k implies -255 <= #[trigger] eg@[j] <= 255 by {
                lemma_fs_bounds(s, wi, fmt, 1, j);
            }
            assert forall|j: int| 0 <= j < k implies -255 <= #[trigger] eb@[j] <= 255 by {
                lemma_fs_bounds(s, wi, fmt, 2, j);
            }
            assert forall|j: int| 0 <= j < k implies -255 <= #[trigger] ea@[j] <= 255 by {
                lemma_fs_bounds(s, wi, fmt, 3, j);
            }
            lemma_carry_matches(s, wi, fmt, 0, er@, k as int);
            lemma_carry_matches(s, wi, fmt, 1, eg@, k as int);
            lemma_carry_matches(s, wi, fmt, 2, eb@, k as int);
            if diffused(fmt, 3) {
                lemma_carry_matches(s, wi, fmt, 3, ea@, k as int);
            }
        }
        let p = src.pixels[k];
        let (qr, e_r) = dither_channel(fmt, 0, p.r, &er, k, w);
        let (qg, e_g) = dither_channel(fmt, 1, p.g, &eg, k, w);
        let (qb, e_b) = dither_channel(fmt, 2, p.b, &eb, k, w);
        let (qa, e_a) = if matches!(fmt, PixelFormat::Rgb565) {
            (255u8, 0i32)
        } else {
            dither_channel(fmt, 3, p.a, &ea, k, w)
        };
        proof {
            lemma_fs_bounds(s, wi, fmt, 0, k as int);
            lemma_fs_bounds(s, wi, fmt, 1, k as int);
            lemma_fs_bounds(s, wi, fmt, 2, k as int);
            lemma_fs_bounds(s, wi, fmt, 3, k as int);
        }
        pixels.push(Rgba { r: qr, g: qg, b: qb, a: qa });
        er.push(e_r);
        eg.push(e_g);
        eb.push(e_b);
        ea.push(e_a);
        k = k + 1;
    }
    Image { width: src.width, height: src.height, pixels }
}

/// Output pixel `k` of dithering `src` (`w` wide) to `fmt`: unchanged for
/// RGBA8888, alpha forced opaque for RGB888, colour cleared for Alpha8, and
/// Floyd–Steinberg error diffusion for the reduced-depth formats.
pub open spec fn dithered_pixel(src: Seq<Rgba>, w: int, fmt: PixelFormat, k: int) -> Rgba {
    match fmt {
        PixelFormat::Rgba8888 => src[k],
        PixelFormat::Rgb888 => Rgba { r: src[k].r, g: src[k].g, b: src[k].b, a: 255 },
        PixelFormat::Alpha8 => Rgba { r: 0, g: 0, b: 0, a: src[k].a },
        _ => fs_pixel(src, w, fmt, k),
    }
}

/// Each pixel mapped on its own: kept, made opaque, or reduced to its alpha.
fn map_pixels(src: &Image, fmt: PixelFormat) -> (out: Image)
    requires
        src.wf(),
        !diffusing(fmt),
    ensures
        out.wf(),
        out.width == src.width,
        out.height == src.height,
        forall|k: int|
            0 <= k < out.pixels@.len() ==> #[trigger] out.pixels@[k] == dithered_pixel(
                src.pixels@,
                src.width as int,
                fmt,
                k,
            ),
{
    let n = src.pixels.len();
    let mut pixels: Vec<Rgba> = Vec::new();
    let mut k: usize = 0;
    while k < n
        invariant
            n == src.pixels@.len(),
            !diffusing(fmt),
            k <= n,
            pixels@.len() == k,
            forall|j: int|
                0 <= j < k ==> #[trigger] pixels@[j] == dithered_pixel(
                    src.pixels@,
                    src.width as int,
                    fmt,
                    j,
                ),
        decreases n - k,
    {
        let p = src.pixels[k];
        let q = match fmt {
            PixelFormat::Rgb888 => Rgba { r: p.r, g: p.g, b: p.b, a: 255 },
            PixelFormat::Alpha8 => Rgba { r: 0, g: 0, b: 0, a: p.a },
            _ => p,
        };
        pixels.push(q);
        k = k + 1;
    }
    Image { width: src.width, height: src.height, pixels }
}

/// Apply Floyd-Steinberg dithering to quantize an RGBA8888 image to the
/// target pixel format. The output is always RGBA8888; the quantization
/// reduces the number of unique colour values to match the target bit depth.
///
/// `PixelFormat::Rgba8888` is a no-op; the input is returned unchanged.
pub fn dither(image: &Image, format: PixelFormat) -> (out: Image)
    requires
        image.wf(),
    ensures
        out.wf(),
        out.width == image.width,
        out.height == image.height,
        forall|k: int|
            0 <= k < out.pixels@.len() ==> #[trigger] out.pixels@[k] == dithered_pixel(
                image.pixels@,
                image.width as int,
                format,
                k,
            ),
{
    match format {
        PixelFormat::Rgb565 | PixelFormat::Rgba4444 | PixelFormat::Rgba5551 => floyd_steinberg(
            image,
            format,
        ),
        _ => map_pixels(image, format),
    }
}

/// Each quantizer maps `0..=255` into itself and leaves its own outputs unchanged.
pub proof fn lemma_quantizers_idempotent(v: u8)
    ensures
        0 <= q5(v as int) <= 255 && q5(q5(v as int)) == q5(v as int),
        0 <= q6(v as int) <= 255 && q6(q6(v as int)) == q6(v as int),
        0 <= q4(v as int) <= 255 && q4(q4(v as int)) == q4(v as int),
{
    assert(((v / 8) * 8 + v / 32) <= 255) by (bit_vector);
    assert((((v / 8) * 8 + v / 32) / 8) * 8 + ((v / 8) * 8 + v / 32) / 32 == (v / 8) * 8 + v / 32)
        by (bit_vector);
    assert(((v / 4) * 4 + v / 64) <= 255) by (bit_vector);
    assert((((v / 4) * 4 + v / 64) / 4) * 4 + ((v / 4) * 4 + v / 64) / 64 == (v / 4) * 4 + v / 64)
        by (bit_vector);
    assert((v / 16) * 17 <= 255) by (bit_vector);
    assert((((v / 16) * 17) / 16) * 17 == (v / 16) * 17) by (bit_vector);
}

/// Dithering to a reduced format yields only levels that format can store:
/// every output channel is left unchanged by the format's quantizer, RGB565
/// output is opaque, and RGBA5551 alpha is 0 or 255.
pub proof fn lemma_dither_levels(src: Seq<Rgba>, w: int, fmt: PixelFormat, k: int, c: int)
    requires
        diffusing(fmt),
        0 <= c < 4,
    ensures
        diffused(fmt, c) ==> quant(fmt, c, fs_channel(src, w, fmt, c, k) as int) == fs_channel(
            src,
            w,
            fmt,
            c,
            k,
        ),
        fmt == PixelFormat::Rgb565 ==> fs_pixel(src, w, fmt, k).a == 255,
        fmt == PixelFormat::Rgba5551 ==> fs_pixel(src, w, fmt, k).a == 0 || fs_pixel(
            src,
            w,
            fmt,
            k,
        ).a == 255,
{
    lemma_fs_bounds(src, w, fmt, c, k);
    let lvl = fs_level(src, w, fmt, c, k);
    lemma_quantizers_idempotent(lvl as u8);
    lemma_fs_bounds(src, w, fmt, 3, k);
}

} // verus!
