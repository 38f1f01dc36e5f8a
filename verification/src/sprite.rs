use vstd::prelude::*;

use crate::image::Image;
use crate::rect::{NinePatch, Size, SourceRect};

verus! {

/// A loaded, pre-processed sprite ready to be fed into a packing algorithm.
///
/// `image` contains pixel data *after* trimming and extrusion. Use
/// `original_size` and `trim_rect` to reconstruct the sprite's original position.
#[derive(Debug)]
pub struct Sprite {
    /// Unique identifier — typically the relative source path without extension
    /// (e.g. `"ui/button"`).
    pub id: String,
    /// Path of the source image on disk.
    pub source_path: String,
    /// Pixel data ready for atlas composition (after trim + extrude).
    pub image: Image,
    /// Bounding box of the non-transparent region within the original image.
    /// `None` when no trimming took place.
    pub trim_rect: Option<SourceRect>,
    /// Full dimensions of the original source image before any trimming.
    pub original_size: Size,
    /// 9-patch border definition.
    pub nine_patch: Option<NinePatch>,
    /// Hash of the trimmed RGBA pixel bytes, used for alias detection.
    pub content_hash: u64,
    /// Border pixels added around the image by extrusion.
    pub extrude: u32,
    /// If `Some(id)`, this sprite is a duplicate of the named one and will
    /// share its atlas rect rather than being placed independently.
    pub alias_of: Option<String>,
}

impl Sprite {
    /// Width of the sprite's pixel data.
    pub open spec fn w(self) -> int {
        self.image.width as int
    }

    /// Height of the sprite's pixel data.
    pub open spec fn h(self) -> int {
        self.image.height as int
    }
}

} // verus!
