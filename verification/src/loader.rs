use vstd::prelude::*;

use crate::image::{raw_rgba, Image};
use crate::rect::Size;
use crate::sprite::Sprite;
use crate::trim::content_hash;
use vstd::string::StringSliceAdditionalSpecFns;

verus! {

/// What the `image` crate decodes from a file's bytes, the decoder being chosen by
/// the file extension `ext`, once converted to RGBA8: width, height and the
/// interleaved RGBA bytes. `None` when the extension names no known format or the
/// bytes do not decode.
pub uninterp spec fn decoded_rgba8(bytes: Seq<u8>, ext: Seq<char>) -> Option<(u32, u32, Seq<u8>)>;

/// Decode an image file's bytes with the `image` crate the way `image::open` does
/// for a file with extension `ext`: `ImageFormat::from_extension`, then
/// `ImageReader::decode` with that format, then `into_rgba8`. Claimed: the result
/// is the named decoding of these bytes and this extension, and the RGBA8 buffer
/// holds four bytes per pixel. Which inputs decode is left to the name.
#[verifier::external_body]
fn decode_rgba8(bytes: &[u8], ext: &str) -> (r: Option<(u32, u32, Vec<u8>)>)
    ensures
        r is Some <==> decoded_rgba8(bytes@, ext@) is Some,
        r matches Some((w, h, raw)) ==> decoded_rgba8(bytes@, ext@) == Some((w, h, raw@))
            && raw@.len() == 4 * (w as int * h as int),
{
    let format = image::ImageFormat::from_extension(ext)?;
    let mut reader = image::ImageReader::new(std::io::Cursor::new(bytes));
    reader.set_format(format);
    let rgba = reader.decode().ok()?.into_rgba8();
    let (w, h) = rgba.dimensions();
    Some((w, h, rgba.into_raw()))
}

/// Load one image file's bytes as a sprite with RGBA8 pixels.
///
/// `ext` is the file's extension, which picks the decoder (PNG, JPEG, BMP, TGA,
/// WebP, TIFF and GIF are built in). The sprite has the decoded pixels, its
/// original size is the image size, no trim rectangle, nine-patch or alias, no
/// extrusion, and the content hash of its pixels. `None` when the file does not
/// decode.
pub fn load_sprite(bytes: &[u8], ext: &str, id: String, source_path: String) -> (r: Option<Sprite>)
    ensures
        r is Some <==> decoded_rgba8(bytes@, ext@) is Some,
        r matches Some(s) ==> {
            &&& decoded_rgba8(bytes@, ext@) == Some(
                (s.image.width, s.image.height, raw_rgba(s.image.pixels@)),
            )
            &&& s.image.wf()
            &&& s.id == id
            &&& s.source_path == source_path
            &&& s.original_size == (Size { w: s.image.width, h: s.image.height })
            &&& s.trim_rect is None
            &&& s.nine_patch is None
            &&& s.alias_of is None
            &&& s.extrude == 0
        },
{
    let (w, h, raw) = match decode_rgba8(bytes, ext) {
        Some(d) => d,
        None => return None,
    };
    let n = raw.len();
    let image = match Image::from_raw(w, h, raw.as_slice()) {
        Some(img) => img,
        None => return None,
    };
    assert(raw_rgba(image.pixels@).len() == n);
    let hash = content_hash(&image);
    Some(
        Sprite {
            id,
            source_path,
            original_size: Size { w: image.width, h: image.height },
            image,
            trim_rect: None,
            nine_patch: None,
            content_hash: hash,
            extrude: 0,
            alias_of: None,
        },
    )
}

/// `b` with the ASCII capital letters made small.
pub open spec fn ascii_lower(b: Seq<u8>) -> Seq<u8> {
    b.map_values(|c: u8| if 65 <= c <= 90 { (c + 32) as u8 } else { c })
}

/// The file extensions, in small letters, of the files a source directory
/// contributes as sprites: `png`, `jpg`, `jpeg`, `bmp`, `tga`, `webp`, `tiff`,
/// `tif` and `gif`, as ASCII codes.
pub open spec fn image_extensions() -> Seq<Seq<u8>> {
    seq![
        seq![112u8, 110u8, 103u8],
        seq![106u8, 112u8, 103u8],
        seq![106u8, 112u8, 101u8, 103u8],
        seq![98u8, 109u8, 112u8],
        seq![116u8, 103u8, 97u8],
        seq![119u8, 101u8, 98u8, 112u8],
        seq![116u8, 105u8, 102u8, 102u8],
        seq![116u8, 105u8, 102u8],
        seq![103u8, 105u8, 102u8],
    ]
}

/// `b`, ignoring the case of ASCII letters, equals `t`.
fn lower_eq(b: &[u8], t: &[u8]) -> (r: bool)
    ensures
        r == (ascii_lower(b@) == t@),
{
    if b.len() != t.len() {
        assert(ascii_lower(b@).len() != t@.len());
        return false;
    }
    let mut i: usize = 0;
    while i < b.len()
        invariant
            b@.len() == t@.len(),
            i <= b@.len(),
            forall|j: int| 0 <= j < i ==> ascii_lower(b@)[j] == t@[j],
        decreases b@.len() - i,
    {
        let c = b[i];
        let l = if 65 <= c && c <= 90 {
            c + 32
        } else {
            c
        };
        assert(ascii_lower(b@)[i as int] == l);
        if l != t[i] {
            return false;
        }
        i = i + 1;
    }
    assert(ascii_lower(b@) =~= t@);
    true
}

/// Whether a file with extension `ext` (its UTF-8 bytes) is an image file to
/// pack: one of `image_extensions`, in any ASCII letter case.
pub fn is_image_extension(ext: &str) -> (r: bool)
    ensures
        r == image_extensions().contains(ascii_lower(ext.spec_bytes())),
{
    let b = ext.as_bytes();
    let ghost low = ascii_lower(b@);
    let ghost l = image_extensions();
    let r = lower_eq(b, &[112u8, 110u8, 103u8]) || lower_eq(b, &[106u8, 112u8, 103u8])
        || lower_eq(b, &[106u8, 112u8, 101u8, 103u8]) || lower_eq(b, &[98u8, 109u8, 112u8])
        || lower_eq(b, &[116u8, 103u8, 97u8]) || lower_eq(b, &[119u8, 101u8, 98u8, 112u8])
        || lower_eq(b, &[116u8, 105u8, 102u8, 102u8]) || lower_eq(b, &[116u8, 105u8, 102u8])
        || lower_eq(b, &[103u8, 105u8, 102u8]);
    proof {
        if r {
            assert(exists|i: int| 0 <= i < l.len() && l[i] == low);
        } else {
            assert forall|i: int| 0 <= i < l.len() implies l[i] != low by {}
        }
    }
    r
}

} // verus!
