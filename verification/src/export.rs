use vstd::prelude::*;

use crate::dither::{dither, dithered_pixel};
use crate::image::Image;
use crate::pixel_format::{PixelFormat, TextureFormat};
use crate::premultiply::{premultiplied, premultiply};
use crate::text::{decimal, push_decimal};

verus! {

/// The base file name of sheet `i` of an export named `name`: the name alone
/// for the first sheet, the name followed by the sheet's index for the others.
pub open spec fn sheet_base_text(name: Seq<char>, i: nat) -> Seq<char> {
    if i == 0 {
        name
    } else {
        name + decimal(i)
    }
}

/// The base file name of sheet `i` (see `sheet_base_text`).
pub fn sheet_base(name: &str, i: usize) -> (r: String)
    ensures
        r@ == sheet_base_text(name@, i as nat),
{
    let mut s = String::from_str(name);
    if i > 0 {
        push_decimal(&mut s, i as u64);
    }
    s
}

/// The name of sheet `i`'s file with extension `ext`: its base name, a dot
/// and the extension. With `i` zero this is also the name of a data file
/// that holds all sheets.
pub fn sheet_file_name(name: &str, i: usize, ext: &str) -> (r: String)
    ensures
        r@ == sheet_base_text(name@, i as nat) + seq!['.'] + ext@,
{
    let mut s = sheet_base(name, i);
    s.append(".");
    proof {
        reveal_strlit(".");
    }
    s.append(ext);
    s
}

/// The pixel format as data files name it.
pub open spec fn data_pixel_format_text(pf: PixelFormat) -> &'static str {
    match pf {
        PixelFormat::Rgba8888 => "RGBA8888",
        PixelFormat::Rgb888 => "RGB888",
        PixelFormat::Rgb565 => "RGB565",
        PixelFormat::Rgba4444 => "RGBA4444",
        PixelFormat::Rgba5551 => "RGBA5551",
        PixelFormat::Alpha8 => "ALPHA8",
    }
}

/// The pixel format as data files name it.
pub fn data_pixel_format(pf: PixelFormat) -> (s: &'static str)
    ensures
        s@ == data_pixel_format_text(pf)@,
{
    match pf {
        PixelFormat::Rgba8888 => "RGBA8888",
        PixelFormat::Rgb888 => "RGB888",
        PixelFormat::Rgb565 => "RGB565",
        PixelFormat::Rgba4444 => "RGBA4444",
        PixelFormat::Rgba5551 => "RGBA5551",
        PixelFormat::Alpha8 => "ALPHA8",
    }
}

/// The encoder an export writes textures with.
#[derive(Debug, Clone, Copy, PartialEq, Eq, Structural)]
pub enum TextureEncoder {
    Png,
    Jpeg,
    Webp,
}

/// The encoder for a texture format: JPEG and WebP have their own, every
/// other format is written as PNG.
pub fn texture_encoder(tf: TextureFormat) -> (e: TextureEncoder)
    ensures
        e == (match tf {
            TextureFormat::Jpeg => TextureEncoder::Jpeg,
            TextureFormat::WebP => TextureEncoder::Webp,
            _ => TextureEncoder::Png,
        }),
{
    match tf {
        TextureFormat::Jpeg => TextureEncoder::Jpeg,
        TextureFormat::WebP => TextureEncoder::Webp,
        _ => TextureEncoder::Png,
    }
}

/// The pixels of a sheet after the optional alpha premultiplication.
pub open spec fn premultiplied_if(px: Seq<crate::image::Rgba>, premultiply_alpha: bool) -> Seq<
    crate::image::Rgba,
> {
    if premultiply_alpha {
        Seq::new(px.len(), |k: int| premultiplied(px[k]))
    } else {
        px
    }
}

/// A packed sheet made ready for encoding: its alpha premultiplied when asked, then
/// dithered down to the pixel format unless that format is full RGBA8888.
pub fn prepare_sheet_image(image: Image, premultiply_alpha: bool, format: PixelFormat) -> (out: Image)
    requires
        image.wf(),
    ensures
        out.wf(),
        out.width == image.width,
        out.height == image.height,
        format == PixelFormat::Rgba8888 ==> out.pixels@ == premultiplied_if(image.pixels@, premultiply_alpha),
        format != PixelFormat::Rgba8888 ==> out.pixels@ == Seq::new(
            image.pixels@.len(),
            |k: int|
                dithered_pixel(
                    premultiplied_if(image.pixels@, premultiply_alpha),
                    image.width as int,
                    format,
                    k,
                ),
        ),
{
    let mid = if premultiply_alpha {
        premultiply(&image)
    } else {
        image
    };
    assert(mid.pixels@ =~= premultiplied_if(image.pixels@, premultiply_alpha));
    match format {
        PixelFormat::Rgba8888 => mid,
        _ => {
            let out = dither(&mid, format);
            assert(out.pixels@ =~= Seq::new(
                mid.pixels@.len(),
                |k: int| dithered_pixel(mid.pixels@, mid.width as int, format, k),
            ));
            out
        },
    }
}

} // verus!
