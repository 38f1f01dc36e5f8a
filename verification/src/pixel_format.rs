use vstd::prelude::*;

use crate::text::{fold_bytes, fold_key, is_word, message_with, utf8};

verus! {

/// Pixel-level encoding of atlas data (before container compression).
#[derive(Debug, Clone, Copy, PartialEq, Eq, Structural)]
pub enum PixelFormat {
    Rgba8888,
    Rgb888,
    Rgb565,
    Rgba4444,
    Rgba5551,
    Alpha8,
}

impl Default for PixelFormat {
    fn default() -> (r: Self)
        ensures
            r == PixelFormat::Rgba8888,
    {
        PixelFormat::Rgba8888
    }
}

impl PixelFormat {
    /// The display name of the format, as shown to users.
    pub fn name(&self) -> (s: &'static str)
        ensures
            s@ == pixel_format_name(*self)@,
    {
        match self {
            PixelFormat::Rgba8888 => "RGBA8888",
            PixelFormat::Rgb888 => "RGB888",
            PixelFormat::Rgb565 => "RGB565",
            PixelFormat::Rgba4444 => "RGBA4444",
            PixelFormat::Rgba5551 => "RGBA5551",
            PixelFormat::Alpha8 => "Alpha8",
        }
    }
}

/// The display name of a pixel format.
pub open spec fn pixel_format_name(f: PixelFormat) -> &'static str {
    match f {
        PixelFormat::Rgba8888 => "RGBA8888",
        PixelFormat::Rgb888 => "RGB888",
        PixelFormat::Rgb565 => "RGB565",
        PixelFormat::Rgba4444 => "RGBA4444",
        PixelFormat::Rgba5551 => "RGBA5551",
        PixelFormat::Alpha8 => "Alpha8",
    }
}

/// Output container / hardware texture format.
#[derive(Debug, Clone, Copy, PartialEq, Eq, Structural)]
pub enum TextureFormat {
    Png,
    Jpeg,
    WebP,
    Etc1,
    Etc2,
    Pvrtc1,
    Pvrtc2,
    Dxt1,
    Dxt5,
    Astc,
    Basis,
}

impl Default for TextureFormat {
    fn default() -> (r: Self)
        ensures
            r == TextureFormat::Png,
    {
        TextureFormat::Png
    }
}

/// The display name of a texture format.
pub open spec fn texture_format_name(f: TextureFormat) -> &'static str {
    match f {
        TextureFormat::Png => "png",
        TextureFormat::Jpeg => "jpeg",
        TextureFormat::WebP => "webp",
        TextureFormat::Etc1 => "etc1",
        TextureFormat::Etc2 => "etc2",
        TextureFormat::Pvrtc1 => "pvrtc1",
        TextureFormat::Pvrtc2 => "pvrtc2",
        TextureFormat::Dxt1 => "dxt1",
        TextureFormat::Dxt5 => "dxt5",
        TextureFormat::Astc => "astc",
        TextureFormat::Basis => "basis",
    }
}

/// The file extension (without leading dot) of a texture format.
pub open spec fn texture_extension(f: TextureFormat) -> &'static str {
    match f {
        TextureFormat::Png => "png",
        TextureFormat::Jpeg => "jpg",
        TextureFormat::WebP => "webp",
        TextureFormat::Etc1 | TextureFormat::Etc2 => "ktx",
        TextureFormat::Pvrtc1 | TextureFormat::Pvrtc2 => "pvr",
        TextureFormat::Dxt1 | TextureFormat::Dxt5 => "dds",
        TextureFormat::Astc => "astc",
        TextureFormat::Basis => "basis",
    }
}

impl TextureFormat {
    /// The display name of the format.
    pub fn name(&self) -> (s: &'static str)
        ensures
            s@ == texture_format_name(*self)@,
    {
        match self {
            TextureFormat::Png => "png",
            TextureFormat::Jpeg => "jpeg",
            TextureFormat::WebP => "webp",
            TextureFormat::Etc1 => "etc1",
            TextureFormat::Etc2 => "etc2",
            TextureFormat::Pvrtc1 => "pvrtc1",
            TextureFormat::Pvrtc2 => "pvrtc2",
            TextureFormat::Dxt1 => "dxt1",
            TextureFormat::Dxt5 => "dxt5",
            TextureFormat::Astc => "astc",
            TextureFormat::Basis => "basis",
        }
    }

    /// File extension (without leading dot) for the output texture file.
    pub fn extension(&self) -> (s: &'static str)
        ensures
            s@ == texture_extension(*self)@,
    {
        match self {
            TextureFormat::Png => "png",
            TextureFormat::Jpeg => "jpg",
            TextureFormat::WebP => "webp",
            TextureFormat::Etc1 | TextureFormat::Etc2 => "ktx",
            TextureFormat::Pvrtc1 | TextureFormat::Pvrtc2 => "pvr",
            TextureFormat::Dxt1 | TextureFormat::Dxt5 => "dds",
            TextureFormat::Astc => "astc",
            TextureFormat::Basis => "basis",
        }
    }
}

/// The pixel format a folded name denotes (see `fold_bytes`), if any.
pub open spec fn pixel_format_named(key: Seq<u8>) -> Option<PixelFormat> {
    if key == utf8("rgba8888"@) {
        Some(PixelFormat::Rgba8888)
    } else if key == utf8("rgb888"@) {
        Some(PixelFormat::Rgb888)
    } else if key == utf8("rgb565"@) {
        Some(PixelFormat::Rgb565)
    } else if key == utf8("rgba4444"@) {
        Some(PixelFormat::Rgba4444)
    } else if key == utf8("rgba5551"@) {
        Some(PixelFormat::Rgba5551)
    } else if key == utf8("alpha8"@) {
        Some(PixelFormat::Alpha8)
    } else {
        None
    }
}

impl PixelFormat {
    /// Parse a pixel format name, ignoring case.
    pub fn parse_name(s: &str) -> (r: Result<PixelFormat, String>)
        ensures
            match pixel_format_named(fold_bytes(utf8(s@))) {
                Some(v) => r matches Ok(x) && x == v,
                None => r matches Err(e) && e@ == "unknown pixel format: "@ + s@,
            },
    {
        let key = fold_key(s);
        if is_word(&key, "rgba8888") {
            Ok(PixelFormat::Rgba8888)
        } else if is_word(&key, "rgb888") {
            Ok(PixelFormat::Rgb888)
        } else if is_word(&key, "rgb565") {
            Ok(PixelFormat::Rgb565)
        } else if is_word(&key, "rgba4444") {
            Ok(PixelFormat::Rgba4444)
        } else if is_word(&key, "rgba5551") {
            Ok(PixelFormat::Rgba5551)
        } else if is_word(&key, "alpha8") {
            Ok(PixelFormat::Alpha8)
        } else {
            Err(message_with("unknown pixel format: ", s))
        }
    }
}

impl std::str::FromStr for PixelFormat {
    type Err = String;

    fn from_str(s: &str) -> (r: Result<Self, Self::Err>)
        ensures
            match pixel_format_named(fold_bytes(utf8(s@))) {
                Some(v) => r matches Ok(x) && x == v,
                None => r matches Err(e) && e@ == "unknown pixel format: "@ + s@,
            },
    {
        PixelFormat::parse_name(s)
    }
}

/// The texture format a folded name denotes (see `fold_bytes`), if any.
pub open spec fn texture_format_named(key: Seq<u8>) -> Option<TextureFormat> {
    if key == utf8("png"@) {
        Some(TextureFormat::Png)
    } else if key == utf8("jpeg"@) || key == utf8("jpg"@) {
        Some(TextureFormat::Jpeg)
    } else if key == utf8("webp"@) {
        Some(TextureFormat::WebP)
    } else if key == utf8("etc1"@) {
        Some(TextureFormat::Etc1)
    } else if key == utf8("etc2"@) {
        Some(TextureFormat::Etc2)
    } else if key == utf8("pvrtc1"@) {
        Some(TextureFormat::Pvrtc1)
    } else if key == utf8("pvrtc2"@) {
        Some(TextureFormat::Pvrtc2)
    } else if key == utf8("dxt1"@) || key == utf8("bc1"@) {
        Some(TextureFormat::Dxt1)
    } else if key == utf8("dxt5"@) || key == utf8("bc3"@) {
        Some(TextureFormat::Dxt5)
    } else if key == utf8("astc"@) {
        Some(TextureFormat::Astc)
    } else if key == utf8("basis"@) {
        Some(TextureFormat::Basis)
    } else {
        None
    }
}

impl TextureFormat {
    /// Parse a texture format name, ignoring case.
    pub fn parse_name(s: &str) -> (r: Result<TextureFormat, String>)
        ensures
            match texture_format_named(fold_bytes(utf8(s@))) {
                Some(v) => r matches Ok(x) && x == v,
                None => r matches Err(e) && e@ == "unknown texture format: "@ + s@,
            },
    {
        let key = fold_key(s);
        if is_word(&key, "png") {
            Ok(TextureFormat::Png)
        } else if is_word(&key, "jpeg") || is_word(&key, "jpg") {
            Ok(TextureFormat::Jpeg)
        } else if is_word(&key, "webp") {
            Ok(TextureFormat::WebP)
        } else if is_word(&key, "etc1") {
            Ok(TextureFormat::Etc1)
        } else if is_word(&key, "etc2") {
            Ok(TextureFormat::Etc2)
        } else if is_word(&key, "pvrtc1") {
            Ok(TextureFormat::Pvrtc1)
        } else if is_word(&key, "pvrtc2") {
            Ok(TextureFormat::Pvrtc2)
        } else if is_word(&key, "dxt1") || is_word(&key, "bc1") {
            Ok(TextureFormat::Dxt1)
        } else if is_word(&key, "dxt5") || is_word(&key, "bc3") {
            Ok(TextureFormat::Dxt5)
        } else if is_word(&key, "astc") {
            Ok(TextureFormat::Astc)
        } else if is_word(&key, "basis") {
            Ok(TextureFormat::Basis)
        } else {
            Err(message_with("unknown texture format: ", s))
        }
    }
}

impl std::str::FromStr for TextureFormat {
    type Err = String;

    fn from_str(s: &str) -> (r: Result<Self, Self::Err>)
        ensures
            match texture_format_named(fold_bytes(utf8(s@))) {
                Some(v) => r matches Ok(x) && x == v,
                None => r matches Err(e) && e@ == "unknown texture format: "@ + s@,
            },
    {
        TextureFormat::parse_name(s)
    }
}

} // verus!
