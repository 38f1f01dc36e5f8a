use vstd::prelude::*;

use crate::image::{lemma_coords, transparent, Image, Rgba};
use crate::json::JsonNumber;
use crate::packer::PlacedSprite;
use crate::rect::{NinePatch, Rect, Size, SourceRect};
use crate::sprite::Sprite;

verus! {

/// `(x1, y1)` and `(x2, y2)` name the same row-major index of a `w`-wide raster only
/// when they are the same position.
pub proof fn lemma_index_unique(x1: int, y1: int, x2: int, y2: int, w: int)
    requires
        0 <= x1 < w,
        0 <= x2 < w,
        0 <= y1,
        0 <= y2,
        y1 * w + x1 == y2 * w + x2,
    ensures
        x1 == x2,
        y1 == y2,
{
    if y1 < y2 {
        assert(y1 * w + x1 < y2 * w) by (nonlinear_arith)
            requires
                y1 < y2,
                0 <= x1 < w,
        ;
    } else if y2 < y1 {
        assert(y2 * w + x2 < y1 * w) by (nonlinear_arith)
            requires
                y2 < y1,
                0 <= x2 < w,
        ;
    }
}

/// The sprite pixel shown at atlas position `(x, y)` by a placement covering it:
/// the image read at the offset into the destination, turned 90° clockwise when
/// the placement is rotated.
pub open spec fn source_pixel(p: PlacedSprite, x: int, y: int) -> Rgba {
    let d = p.placement.dest;
    let img = p.sprite.image;
    let lx = x - d.x;
    let ly = y - d.y;
    if p.placement.rotated {
        img.at(ly, img.height - 1 - lx)
    } else {
        img.at(lx, ly)
    }
}

/// The atlas pixel at `(x, y)` after copying the placements in order: that of the
/// last placement covering it, transparent where none does.
pub open spec fn layered(placed: Seq<PlacedSprite>, x: int, y: int) -> Rgba
    decreases placed.len(),
{
    if placed.len() == 0 {
        transparent()
    } else if placed.last().placement.dest.covers(x, y) {
        source_pixel(placed.last(), x, y)
    } else {
        layered(placed.drop_last(), x, y)
    }
}

/// The destination has the image's size, width and height swapped when rotated.
pub open spec fn blit_ok(p: PlacedSprite) -> bool {
    let d = p.placement.dest;
    let img = p.sprite.image;
    &&& img.wf()
    &&& if p.placement.rotated {
        d.w == img.height && d.h == img.width
    } else {
        d.w == img.width && d.h == img.height
    }
}

/// Copy one placed sprite into the atlas; the part outside the atlas is dropped.
fn blit(atlas: &mut Image, p: &PlacedSprite)
    requires
        old(atlas).wf(),
        blit_ok(*p),
    ensures
        final(atlas).wf(),
        final(atlas).width == old(atlas).width,
        final(atlas).height == old(atlas).height,
        forall|x: int, y: int|
            0 <= x < old(atlas).width && 0 <= y < old(atlas).height ==> #[trigger] final(atlas).at(
                x,
                y,
            ) == if p.placement.dest.covers(x, y) {
                source_pixel(*p, x, y)
            } else {
                old(atlas).at(x, y)
            },
{
    let ghost old_atlas = *atlas;
    let aw = atlas.width;
    let ah = atlas.height;
    let d = p.placement.dest;
    let img = &p.sprite.image;
    let cw: u32 = if d.x >= aw {
        0
    } else if d.w <= aw - d.x {
        d.w
    } else {
        aw - d.x
    };
    let ch: u32 = if d.y >= ah {
        0
    } else if d.h <= ah - d.y {
        d.h
    } else {
        ah - d.y
    };
    if cw == 0 || ch == 0 {
        assert forall|x: int, y: int|
            0 <= x < aw && 0 <= y < ah implies !d.covers(x, y) by {}
        return;
    }
    let _len = atlas.pixels.len();
    proof {
        crate::image::lemma_mul_le_u(cw as int, ch as int, aw as int, ah as int);
    }
    let n = (cw as usize) * (ch as usize);
    let mut t: usize = 0;
    while t < n
        invariant
            atlas.wf(),
            atlas.width == aw,
            atlas.height == ah,
            old_atlas.wf(),
            old_atlas.width == aw,
            old_atlas.height == ah,
            blit_ok(*p),
            d == p.placement.dest,
            *img == p.sprite.image,
            1 <= cw,
            1 <= ch,
            cw <= d.w,
            ch <= d.h,
            d.x + cw <= aw,
            d.y + ch <= ah,
            d.x + cw == aw || cw == d.w,
            d.y + ch == ah || ch == d.h,
            n == cw * ch,
            t <= n,
            forall|x: int, y: int|
                0 <= x < aw && 0 <= y < ah ==> #[trigger] atlas.at(x, y) == if d.covers(x, y) && (y
                    - d.y) * cw + (x - d.x) < t {
                    source_pixel(*p, x, y)
                } else {
                    old_atlas.at(x, y)
                },
        decreases n - t,
    {
        proof {
            lemma_coords(t as int, cw as int, ch as int);
        }
        let lx = (t % (cw as usize)) as u32;
        let ly = (t / (cw as usize)) as u32;
        let v = if p.placement.rotated {
            img.get_pixel(ly, img.height - 1 - lx)
        } else {
            img.get_pixel(lx, ly)
        };
        let x = d.x + lx;
        let y = d.y + ly;
        let ghost before = *atlas;
        atlas.put_pixel(x, y, v);
        proof {
            assert forall|x2: int, y2: int| 0 <= x2 < aw && 0 <= y2 < ah implies #[trigger] atlas.at(
                x2,
                y2,
            ) == if d.covers(x2, y2) && (y2 - d.y) * cw + (x2 - d.x) < t + 1 {
                source_pixel(*p, x2, y2)
            } else {
                old_atlas.at(x2, y2)
            } by {
                crate::image::lemma_index_in_bounds(x as int, y as int, aw as int, ah as int);
                crate::image::lemma_index_in_bounds(x2, y2, aw as int, ah as int);
                if x2 == x && y2 == y {
                    assert(atlas.at(x2, y2) == v);
                } else {
                    if y2 * aw + x2 == y * aw + x {
                        lemma_index_unique(x2, y2, x as int, y as int, aw as int);
                    }
                    assert(atlas.at(x2, y2) == before.at(x2, y2));
                    if d.covers(x2, y2) && (y2 - d.y) * cw + (x2 - d.x) == t {
                        lemma_index_unique(
                            x2 - d.x,
                            y2 - d.y,
                            lx as int,
                            ly as int,
                            cw as int,
                        );
                    }
                }
            }
        }
        t = t + 1;
    }
    proof {
        assert forall|x: int, y: int| 0 <= x < aw && 0 <= y < ah implies #[trigger] atlas.at(
            x,
            y,
        ) == if d.covers(x, y) {
            source_pixel(*p, x, y)
        } else {
            old_atlas.at(x, y)
        } by {
            if d.covers(x, y) {
                assert((y - d.y) * cw + (x - d.x) < cw * ch) by (nonlinear_arith)
                    requires
                        0 <= x - d.x < cw,
                        0 <= y - d.y < ch,
                ;
            }
        }
    }
}

/// The layered pixel at a position is that of the last placement covering it.
proof fn lemma_layered_last_cover(placed: Seq<PlacedSprite>, i: int, x: int, y: int)
    requires
        0 <= i < placed.len(),
        placed[i].placement.dest.covers(x, y),
        forall|j: int| i < j < placed.len() ==> !(#[trigger] placed[j]).placement.dest.covers(x, y),
    ensures
        layered(placed, x, y) == source_pixel(placed[i], x, y),
    decreases placed.len(),
{
    if i < placed.len() - 1 {
        assert(!placed[placed.len() - 1].placement.dest.covers(x, y));
        let rest = placed.drop_last();
        assert forall|j: int| i < j < rest.len() implies !(#[trigger] rest[j]).placement.dest.covers(x, y) by {
            assert(rest[j] == placed[j]);
        }
        lemma_layered_last_cover(rest, i, x, y);
        assert(rest[i] == placed[i]);
    }
}

/// In an atlas composed from `placed` (see `compose_sheet`), a rotated sprite is
/// turned 90° clockwise: its source pixel `(sx, sy)` shows at
/// `(dest.x + H - 1 - sy, dest.y + sx)`, `H` being the source height, wherever that
/// spot is inside the atlas and no later placement covers it.
pub proof fn lemma_rotated_turns_clockwise(
    img: Image,
    placed: Seq<PlacedSprite>,
    width: int,
    height: int,
    i: int,
    sx: int,
    sy: int,
)
    requires
        forall|x: int, y: int|
            0 <= x < width && 0 <= y < height ==> #[trigger] img.at(x, y) == layered(placed, x, y),
        0 <= i < placed.len(),
        blit_ok(placed[i]),
        placed[i].placement.rotated,
        0 <= sx < placed[i].sprite.image.width,
        0 <= sy < placed[i].sprite.image.height,
        placed[i].placement.dest.x + placed[i].sprite.image.height - 1 - sy < width,
        placed[i].placement.dest.y + sx < height,
        forall|j: int|
            i < j < placed.len() ==> !(#[trigger] placed[j]).placement.dest.covers(
                placed[i].placement.dest.x + placed[i].sprite.image.height - 1 - sy,
                placed[i].placement.dest.y + sx,
            ),
    ensures
        img.at(
            placed[i].placement.dest.x + placed[i].sprite.image.height - 1 - sy,
            placed[i].placement.dest.y + sx,
        ) == placed[i].sprite.image.at(sx, sy),
{
    let d = placed[i].placement.dest;
    let x = d.x + placed[i].sprite.image.height - 1 - sy;
    let y = d.y + sx;
    lemma_layered_last_cover(placed, i, x, y);
}

/// In an atlas composed from `placed` (see `compose_sheet`), an upright sprite is
/// copied as it is: its source pixel `(sx, sy)` shows at `(dest.x + sx, dest.y + sy)`,
/// wherever that spot is inside the atlas and no later placement covers it.
pub proof fn lemma_upright_copied(
    img: Image,
    placed: Seq<PlacedSprite>,
    width: int,
    height: int,
    i: int,
    sx: int,
    sy: int,
)
    requires
        forall|x: int, y: int|
            0 <= x < width && 0 <= y < height ==> #[trigger] img.at(x, y) == layered(placed, x, y),
        0 <= i < placed.len(),
        blit_ok(placed[i]),
        !placed[i].placement.rotated,
        0 <= sx < placed[i].sprite.image.width,
        0 <= sy < placed[i].sprite.image.height,
        placed[i].placement.dest.x + sx < width,
        placed[i].placement.dest.y + sy < height,
        forall|j: int|
            i < j < placed.len() ==> !(#[trigger] placed[j]).placement.dest.covers(
                placed[i].placement.dest.x + sx,
                placed[i].placement.dest.y + sy,
            ),
    ensures
        img.at(placed[i].placement.dest.x + sx, placed[i].placement.dest.y + sy)
            == placed[i].sprite.image.at(sx, sy),
{
    let d = placed[i].placement.dest;
    lemma_layered_last_cover(placed, i, d.x + sx, d.y + sy);
}

/// Compose the atlas texture: a `width × height` transparent image with every
/// placed sprite copied, in order, to its destination (turned 90° clockwise when
/// rotated). Parts of a placement outside the atlas are dropped.
pub fn compose_sheet(placed: &Vec<PlacedSprite>, width: u32, height: u32) -> (img: Image)
    requires
        width * height <= usize::MAX,
        forall|i: int| 0 <= i < placed@.len() ==> blit_ok(#[trigger] placed@[i]),
    ensures
        img.wf(),
        img.width == width,
        img.height == height,
        forall|x: int, y: int|
            0 <= x < width && 0 <= y < height ==> #[trigger] img.at(x, y) == layered(
                placed@,
                x,
                y,
            ),
{
    let mut img = Image::new(width, height);
    let mut i: usize = 0;
    proof {
        assert forall|x: int, y: int| 0 <= x < width && 0 <= y < height implies #[trigger] img.at(
            x,
            y,
        ) == layered(placed@.take(0), x, y) by {
            crate::image::lemma_index_in_bounds(x, y, width as int, height as int);
        }
    }
    while i < placed.len()
        invariant
            img.wf(),
            img.width == width,
            img.height == height,
            i <= placed@.len(),
            forall|j: int| 0 <= j < placed@.len() ==> blit_ok(#[trigger] placed@[j]),
            forall|x: int, y: int|
                0 <= x < width && 0 <= y < height ==> #[trigger] img.at(x, y) == layered(
                    placed@.take(i as int),
                    x,
                    y,
                ),
        decreases placed@.len() - i,
    {
        blit(&mut img, &placed[i]);
        proof {
            assert(placed@.take(i + 1).drop_last() =~= placed@.take(i as int));
        }
        i = i + 1;
    }
    proof {
        assert(placed@.take(placed@.len() as int) =~= placed@);
    }
    img
}

/// A frame's pivot point: its coordinates as JSON numbers, in fractions of the
/// frame's width and height.
#[derive(Debug)]
pub struct FramePivot {
    pub x: JsonNumber,
    pub y: JsonNumber,
}

/// A single frame within a completed atlas texture.
#[derive(Debug)]
pub struct AtlasFrame {
    /// Sprite identifier (matches `Sprite::id`).
    pub id: String,
    /// Position and size within the atlas texture.
    pub frame: Rect,
    /// `true` if this sprite was rotated 90° clockwise during packing.
    pub rotated: bool,
    /// `true` if transparent borders were stripped from this sprite.
    pub trimmed: bool,
    /// Offset and size of the sprite content within the original image.
    pub sprite_source_size: SourceRect,
    /// Full dimensions of the original source image.
    pub source_size: Size,
    /// 9-patch border widths.
    pub nine_patch: Option<NinePatch>,
    /// Pivot point, as fractions of the frame's size.
    pub pivot: Option<FramePivot>,
    /// If present, this frame shares the pixel data of the named sprite.
    pub alias_of: Option<String>,
}

/// A single packed frame as shown to the user.
#[derive(Debug, Clone)]
pub struct FrameInfo {
    /// Sprite identifier.
    pub id: String,
    /// Packed X position in atlas pixels.
    pub x: u32,
    /// Packed Y position in atlas pixels.
    pub y: u32,
    /// Packed frame width in pixels.
    pub w: u32,
    /// Packed frame height in pixels.
    pub h: u32,
    /// Canonical sprite ID if this frame is a duplicate.
    pub alias_of: Option<String>,
}

/// One packed sheet (atlas texture + frame metadata).
pub struct SheetOutput {
    /// Raw RGBA pixel data for this sheet.
    pub rgba: Vec<u8>,
    /// Atlas width in pixels.
    pub width: u32,
    /// Atlas height in pixels.
    pub height: u32,
    /// Per-frame positioning data.
    pub frames: Vec<FrameInfo>,
    /// Full atlas frame data for exporters.
    pub atlas_frames: Vec<AtlasFrame>,
}

/// The result of a complete pack run.
pub struct WorkerOutput {
    /// All packed sheets produced by this run.
    pub sheets: Vec<SheetOutput>,
    /// Unique sprites packed (aliases excluded).
    pub sprite_count: usize,
    /// Sprites deduplicated as aliases.
    pub alias_count: usize,
    /// Sprites that did not fit (only non-zero when multipack is disabled).
    pub overflow_count: usize,
}

/// Messages from a pack run to the front end.
pub enum WorkerMessage {
    /// The run has begun.
    Started,
    /// Incremental progress.
    Progress { done: usize, total: usize },
    /// The run finished with this result.
    Finished(Box<WorkerOutput>),
    /// The run failed with this message.
    Failed(String),
}

/// The region of the original image a sprite shows: its trim rectangle, or the
/// whole original image when it was not trimmed.
pub open spec fn source_region(s: Sprite) -> SourceRect {
    match s.trim_rect {
        Some(r) => r,
        None => SourceRect { x: 0, y: 0, w: s.original_size.w, h: s.original_size.h },
    }
}

/// The exporter frame describing a placed sprite.
pub open spec fn frame_of(p: PlacedSprite) -> AtlasFrame {
    AtlasFrame {
        id: p.placement.sprite_id,
        frame: p.placement.dest,
        rotated: p.placement.rotated,
        trimmed: p.sprite.trim_rect is Some,
        sprite_source_size: source_region(p.sprite),
        source_size: p.sprite.original_size,
        nine_patch: p.sprite.nine_patch,
        pivot: None,
        alias_of: None,
    }
}

/// The position record of a placed sprite.
pub open spec fn info_of(p: PlacedSprite) -> FrameInfo {
    let d = p.placement.dest;
    FrameInfo { id: p.placement.sprite_id, x: d.x, y: d.y, w: d.w, h: d.h, alias_of: None }
}

/// The exporter frames of the placed sprites, in placement order.
pub fn atlas_frames(placed: &Vec<PlacedSprite>) -> (r: Vec<AtlasFrame>)
    ensures
        r@.len() == placed@.len(),
        forall|i: int| 0 <= i < placed@.len() ==> #[trigger] r@[i] == frame_of(placed@[i]),
{
    let mut out: Vec<AtlasFrame> = Vec::new();
    let mut i: usize = 0;
    while i < placed.len()
        invariant
            i <= placed@.len(),
            out@.len() == i,
            forall|j: int| 0 <= j < i ==> #[trigger] out@[j] == frame_of(placed@[j]),
        decreases placed@.len() - i,
    {
        let ps = &placed[i];
        let sss = match ps.sprite.trim_rect {
            Some(r) => r,
            None => SourceRect {
                x: 0,
                y: 0,
                w: ps.sprite.original_size.w,
                h: ps.sprite.original_size.h,
            },
        };
        let d = ps.placement.dest;
        out.push(
            AtlasFrame {
                id: ps.placement.sprite_id.clone(),
                frame: Rect::new(d.x, d.y, d.w, d.h),
                rotated: ps.placement.rotated,
                trimmed: ps.sprite.trim_rect.is_some(),
                sprite_source_size: sss,
                source_size: ps.sprite.original_size,
                nine_patch: ps.sprite.nine_patch,
                pivot: None,
                alias_of: None,
            },
        );
        i = i + 1;
    }
    out
}

/// The position records of the placed sprites, in placement order.
pub fn frame_infos(placed: &Vec<PlacedSprite>) -> (r: Vec<FrameInfo>)
    ensures
        r@.len() == placed@.len(),
        forall|i: int| 0 <= i < placed@.len() ==> #[trigger] r@[i] == info_of(placed@[i]),
{
    let mut out: Vec<FrameInfo> = Vec::new();
    let mut i: usize = 0;
    while i < placed.len()
        invariant
            i <= placed@.len(),
            out@.len() == i,
            forall|j: int| 0 <= j < i ==> #[trigger] out@[j] == info_of(placed@[j]),
        decreases placed@.len() - i,
    {
        let d = placed[i].placement.dest;
        out.push(
            FrameInfo {
                id: placed[i].placement.sprite_id.clone(),
                x: d.x,
                y: d.y,
                w: d.w,
                h: d.h,
                alias_of: None,
            },
        );
        i = i + 1;
    }
    out
}

/// The rectangle `(x, y, w, h)` of the last frame named `id`; zeros when none is.
pub open spec fn alias_target(frames: Seq<FrameInfo>, id: Seq<char>) -> (u32, u32, u32, u32)
    decreases frames.len(),
{
    if frames.len() == 0 {
        (0, 0, 0, 0)
    } else if frames.last().id@ == id {
        let f = frames.last();
        (f.x, f.y, f.w, f.h)
    } else {
        alias_target(frames.drop_last(), id)
    }
}

/// The name an alias points to, empty when it points nowhere.
pub open spec fn alias_name(s: Sprite) -> Seq<char> {
    match s.alias_of {
        Some(c) => c@,
        None => Seq::empty(),
    }
}

/// The frame an alias adds to the sheet: the rectangle of the frame it duplicates,
/// not rotated, not trimmed, covering the whole original image.
pub open spec fn alias_frame(s: Sprite, r: (u32, u32, u32, u32)) -> AtlasFrame {
    AtlasFrame {
        id: s.id,
        frame: Rect { x: r.0, y: r.1, w: r.2, h: r.3 },
        rotated: false,
        trimmed: false,
        sprite_source_size: SourceRect { x: 0, y: 0, w: s.original_size.w, h: s.original_size.h },
        source_size: s.original_size,
        nine_patch: s.nine_patch,
        pivot: None,
        alias_of: s.alias_of,
    }
}

/// The position record an alias adds to the sheet.
pub open spec fn alias_info(s: Sprite, r: (u32, u32, u32, u32)) -> FrameInfo {
    FrameInfo { id: s.id, x: r.0, y: r.1, w: r.2, h: r.3, alias_of: s.alias_of }
}

/// Find the rectangle of the last frame named `id`.
fn find_target(frames: &Vec<FrameInfo>, id: &String) -> (r: (u32, u32, u32, u32))
    ensures
        r == alias_target(frames@, id@),
{
    let mut i = frames.len();
    assert(frames@.take(i as int) =~= frames@);
    while i > 0
        invariant
            i <= frames@.len(),
            alias_target(frames@, id@) == alias_target(frames@.take(i as int), id@),
        decreases i,
    {
        assert(frames@.take(i as int).drop_last() =~= frames@.take(i - 1));
        if frames[i - 1].id == *id {
            let f = &frames[i - 1];
            return (f.x, f.y, f.w, f.h);
        }
        i = i - 1;
    }
    (0, 0, 0, 0)
}

/// Append a frame for every alias to the sheet, each at the rectangle of the frame
/// it duplicates among the sheet's frames before the call.
pub fn add_alias_frames(sheet: &mut SheetOutput, aliases: &Vec<Sprite>)
    ensures
        final(sheet).rgba@ == old(sheet).rgba@,
        final(sheet).width == old(sheet).width,
        final(sheet).height == old(sheet).height,
        final(sheet).frames@.len() == old(sheet).frames@.len() + aliases@.len(),
        final(sheet).atlas_frames@.len() == old(sheet).atlas_frames@.len() + aliases@.len(),
        forall|i: int|
            0 <= i < old(sheet).frames@.len() ==> #[trigger] final(sheet).frames@[i] == old(
                sheet,
            ).frames@[i],
        forall|i: int|
            0 <= i < old(sheet).atlas_frames@.len() ==> #[trigger] final(sheet).atlas_frames@[i]
                == old(sheet).atlas_frames@[i],
        forall|k: int|
            0 <= k < aliases@.len() ==> #[trigger] final(sheet).frames@[old(sheet).frames@.len()
                + k] == alias_info(
                aliases@[k],
                alias_target(old(sheet).frames@, alias_name(aliases@[k])),
            ),
        forall|k: int|
            0 <= k < aliases@.len() ==> #[trigger] final(sheet).atlas_frames@[old(
                sheet,
            ).atlas_frames@.len() + k] == alias_frame(
                aliases@[k],
                alias_target(old(sheet).frames@, alias_name(aliases@[k])),
            ),
{
    let ghost f0 = sheet.frames@;
    let ghost a0 = sheet.atlas_frames@;
    let mut targets: Vec<(u32, u32, u32, u32)> = Vec::new();
    let mut k: usize = 0;
    while k < aliases.len()
        invariant
            sheet.frames@ == f0,
            k <= aliases@.len(),
            targets@.len() == k,
            forall|j: int|
                0 <= j < k ==> #[trigger] targets@[j] == alias_target(f0, alias_name(aliases@[j])),
        decreases aliases@.len() - k,
    {
        let canon = match &aliases[k].alias_of {
            Some(c) => c.clone(),
            None => String::new(),
        };
        let t = find_target(&sheet.frames, &canon);
        targets.push(t);
        k = k + 1;
    }
    let mut k: usize = 0;
    while k < aliases.len()
        invariant
            k <= aliases@.len(),
            targets@.len() == aliases@.len(),
            forall|j: int|
                0 <= j < aliases@.len() ==> #[trigger] targets@[j] == alias_target(
                    f0,
                    alias_name(aliases@[j]),
                ),
            sheet.frames@.len() == f0.len() + k,
            sheet.atlas_frames@.len() == a0.len() + k,
            forall|i: int| 0 <= i < f0.len() ==> #[trigger] sheet.frames@[i] == f0[i],
            forall|i: int| 0 <= i < a0.len() ==> #[trigger] sheet.atlas_frames@[i] == a0[i],
            forall|j: int|
                0 <= j < k ==> #[trigger] sheet.frames@[f0.len() + j] == alias_info(
                    aliases@[j],
                    targets@[j],
                ),
            forall|j: int|
                0 <= j < k ==> #[trigger] sheet.atlas_frames@[a0.len() + j] == alias_frame(
                    aliases@[j],
                    targets@[j],
                ),
            sheet.rgba@ == old(sheet).rgba@,
            sheet.width == old(sheet).width,
            sheet.height == old(sheet).height,
        decreases aliases@.len() - k,
    {
        let alias = &aliases[k];
        let (x, y, w, h) = targets[k];
        sheet.frames.push(
            FrameInfo { id: alias.id.clone(), x, y, w, h, alias_of: alias.alias_of.clone() },
        );
        sheet.atlas_frames.push(
            AtlasFrame {
                id: alias.id.clone(),
                frame: Rect::new(x, y, w, h),
                rotated: false,
                trimmed: false,
                sprite_source_size: SourceRect {
                    x: 0,
                    y: 0,
                    w: alias.original_size.w,
                    h: alias.original_size.h,
                },
                source_size: alias.original_size,
                nine_patch: alias.nine_patch,
                pivot: None,
                alias_of: alias.alias_of.clone(),
            },
        );
        k = k + 1;
    }
}

} // verus!
