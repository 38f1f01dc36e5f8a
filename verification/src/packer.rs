use vstd::prelude::*;

use crate::config::{LayoutConfig, SizeConstraint, SpriteConfig};
use crate::rect::{Rect, Size};
use crate::sprite::Sprite;

verus! {

broadcast use vstd::seq_lib::group_to_multiset_ensures;

/// Input consumed by a packing algorithm.
pub struct PackInput {
    /// Pre-processed sprites (trimmed, extruded, scaled to target variant).
    pub sprites: Vec<Sprite>,
    /// Atlas layout constraints.
    pub config: LayoutConfig,
    /// Sprite-level settings (e.g. common divisors).
    pub sprite_config: SpriteConfig,
}

/// Position of one sprite within the atlas.
pub struct Placement {
    /// Matches `Sprite::id`.
    pub sprite_id: String,
    /// Destination rectangle within the atlas texture.
    pub dest: Rect,
    /// `true` when the sprite was rotated 90° clockwise.
    pub rotated: bool,
}

/// A sprite that was successfully placed, paired with its destination in the atlas.
pub struct PlacedSprite {
    pub sprite: Sprite,
    pub placement: Placement,
}

/// Output produced by a single atlas packing pass.
pub struct PackOutput {
    /// Successfully placed sprites with their atlas positions.
    pub placed: Vec<PlacedSprite>,
    /// Actual atlas dimensions used.
    pub atlas_size: Size,
    /// Sprites that did not fit; forwarded to the next sheet in multipack mode.
    pub overflow: Vec<Sprite>,
}

/// Errors produced by packing operations.
#[derive(Debug)]
pub enum CoreError {
    /// Sprite dimensions exceed the configured maximum atlas size.
    SpriteTooLarge {
        /// Unique identifier of the oversized sprite.
        id: String,
        /// Sprite width in pixels.
        w: u32,
        /// Sprite height in pixels.
        h: u32,
        /// Maximum atlas width in pixels.
        max_w: u32,
        /// Maximum atlas height in pixels.
        max_h: u32,
    },
    /// All configured source directories contained no sprites.
    NoSprites,
    /// The requested export format string does not match any known exporter.
    UnknownFormat(String),
}

/// The sprites carried by a list of placements, in order.
pub open spec fn placed_sprites(s: Seq<PlacedSprite>) -> Seq<Sprite> {
    s.map_values(|p: PlacedSprite| p.sprite)
}

/// The destination rectangles of a list of placements, in order.
pub open spec fn placed_dests(s: Seq<PlacedSprite>) -> Seq<Rect> {
    s.map_values(|p: PlacedSprite| p.placement.dest)
}

/// Every input sprite ends up exactly once, either placed or in the overflow list.
pub open spec fn is_partition(out: PackOutput, input: Seq<Sprite>) -> bool {
    (placed_sprites(out.placed@) + out.overflow@).to_multiset() == input.to_multiset()
}

/// The area a placed sprite reserves: its rectangle grown right and down by the shape padding.
pub open spec fn footprint(dest: Rect, sp: u32) -> Rect {
    Rect { x: dest.x, y: dest.y, w: (dest.w + sp) as u32, h: (dest.h + sp) as u32 }
}

/// `a - b`, or zero when `b > a`.
pub open spec fn sat_sub(a: int, b: int) -> int {
    if a >= b {
        a - b
    } else {
        0
    }
}

/// The larger of two integers.
pub open spec fn max_int(a: int, b: int) -> int {
    if a >= b {
        a
    } else {
        b
    }
}

/// The usable atlas area inside the border padding.
pub open spec fn canvas(cfg: LayoutConfig) -> Rect {
    let bp = cfg.border_padding;
    Rect {
        x: bp,
        y: bp,
        w: sat_sub(cfg.max_width as int, 2 * bp) as u32,
        h: sat_sub(cfg.max_height as int, 2 * bp) as u32,
    }
}

/// The layout's arithmetic stays within `u32`: the doubled border padding fits.
pub open spec fn layout_in_range(cfg: LayoutConfig) -> bool {
    2 * cfg.border_padding <= u32::MAX
}

/// A sprite's padded size fits in `u32`.
pub open spec fn sprite_in_range(s: Sprite, sp: u32) -> bool {
    &&& s.w() + sp <= u32::MAX
    &&& s.h() + sp <= u32::MAX
}

/// Every sprite of the list is in range.
pub open spec fn sprites_in_range(s: Seq<Sprite>, sp: u32) -> bool {
    forall|i: int| 0 <= i < s.len() ==> sprite_in_range(#[trigger] s[i], sp)
}

/// The rightmost edge among the rectangles (0 for none).
pub open spec fn max_right(s: Seq<Rect>) -> int
    decreases s.len(),
{
    if s.len() == 0 {
        0
    } else {
        max_int(max_right(s.drop_last()), s.last().spec_right())
    }
}

/// The bottom-most edge among the rectangles (0 for none).
pub open spec fn max_bottom(s: Seq<Rect>) -> int
    decreases s.len(),
{
    if s.len() == 0 {
        0
    } else {
        max_int(max_bottom(s.drop_last()), s.last().spec_bottom())
    }
}

/// A dimension after the size constraint, made square when asked, and capped at the maximum.
pub open spec fn finish_size(w: int, h: int, cfg: LayoutConfig) -> Size {
    let side = max_int(w, h);
    let sw = if cfg.force_square {
        side
    } else {
        w
    };
    let sh = if cfg.force_square {
        side
    } else {
        h
    };
    Size {
        w: (if sw <= cfg.max_width {
            sw
        } else {
            cfg.max_width as int
        }) as u32,
        h: (if sh <= cfg.max_height {
            sh
        } else {
            cfg.max_height as int
        }) as u32,
    }
}

/// The atlas size that just covers the placed rectangles plus the border padding on the
/// right and bottom, rounded to the size constraint, squared if asked, capped at the
/// maximum; 0×0 when nothing was placed.
pub open spec fn fitted_size(dests: Seq<Rect>, cfg: LayoutConfig) -> Size {
    if dests.len() == 0 {
        Size { w: 0, h: 0 }
    } else {
        finish_size(
            cfg.size_constraint.spec_apply(max_right(dests) + cfg.border_padding),
            cfg.size_constraint.spec_apply(max_bottom(dests) + cfg.border_padding),
            cfg,
        )
    }
}

/// The placement names its sprite and has the sprite's size, with width and height
/// swapped exactly when it is rotated; rotation only happens when the layout allows it
/// and the sprite is not square.
pub open spec fn placement_ok(p: PlacedSprite, cfg: LayoutConfig) -> bool {
    &&& p.placement.sprite_id@ == p.sprite.id@
    &&& if p.placement.rotated {
        &&& p.placement.dest.w == p.sprite.h()
        &&& p.placement.dest.h == p.sprite.w()
        &&& cfg.allow_rotation
        &&& p.sprite.w() != p.sprite.h()
    } else {
        &&& p.placement.dest.w == p.sprite.w()
        &&& p.placement.dest.h == p.sprite.h()
    }
}

/// The padded footprints of the placed sprites are pairwise disjoint.
pub open spec fn footprints_disjoint(s: Seq<PlacedSprite>, sp: u32) -> bool {
    forall|i: int, j: int|
        0 <= i < j < s.len() ==> !footprint(s[i].placement.dest, sp).spec_intersects(
            footprint(s[j].placement.dest, sp),
        )
}

/// Padded footprints that do not overlap leave the placed rectangles themselves
/// pairwise non-overlapping.
pub proof fn lemma_placed_rects_disjoint(placed: Seq<PlacedSprite>, sp: u32)
    requires
        footprints_disjoint(placed, sp),
        forall|i: int|
            0 <= i < placed.len() ==> (#[trigger] placed[i]).placement.dest.w + sp <= u32::MAX
                && placed[i].placement.dest.h + sp <= u32::MAX,
    ensures
        forall|i: int, j: int|
            0 <= i < placed.len() && 0 <= j < placed.len() && i != j
                ==> !(#[trigger] placed[i]).placement.dest.spec_intersects(
                (#[trigger] placed[j]).placement.dest,
            ),
{
    assert forall|i: int, j: int|
        0 <= i < placed.len() && 0 <= j < placed.len() && i != j implies !(#[trigger] placed[
        i]).placement.dest.spec_intersects((#[trigger] placed[j]).placement.dest) by {
        if i < j {
            assert(!footprint(placed[i].placement.dest, sp).spec_intersects(
                footprint(placed[j].placement.dest, sp),
            ));
        } else {
            assert(!footprint(placed[j].placement.dest, sp).spec_intersects(
                footprint(placed[i].placement.dest, sp),
            ));
        }
    }
}

/// The packing key: the sprite's height, or its area.
pub open spec fn sort_key(s: Sprite, by_area: bool) -> int {
    if by_area {
        s.w() * s.h()
    } else {
        s.h()
    }
}

/// A sprite's area fits in `u64`.
proof fn lemma_area_fits_u64(s: Sprite)
    ensures
        s.w() * s.h() <= u64::MAX,
{
    assert(s.w() * s.h() <= u32::MAX * u32::MAX) by (nonlinear_arith)
        requires
            0 <= s.w() <= u32::MAX,
            0 <= s.h() <= u32::MAX,
    ;
}

/// Sprite `i` is the first of `s` with the largest key.
pub open spec fn first_largest(s: Seq<Sprite>, by_area: bool, i: int) -> bool {
    &&& 0 <= i < s.len()
    &&& forall|j: int| 0 <= j < s.len() ==> sort_key(#[trigger] s[j], by_area) <= sort_key(s[i], by_area)
    &&& forall|j: int| 0 <= j < i ==> sort_key(#[trigger] s[j], by_area) < sort_key(s[i], by_area)
}

/// The sprites in the order packers take them: by descending key (height, or
/// area when `by_area`), ties in their order in `s`.
pub open spec fn key_order(s: Seq<Sprite>, by_area: bool) -> Seq<Sprite>
    decreases s.len(),
{
    if s.len() == 0 {
        Seq::empty()
    } else {
        let i = choose|i: int| first_largest(s, by_area, i);
        if first_largest(s, by_area, i) {
            seq![s[i]] + key_order(s.remove(i), by_area)
        } else {
            Seq::empty()
        }
    }
}

/// Taking the first largest sprite takes the head of the key order.
pub proof fn lemma_key_order_take(s: Seq<Sprite>, by_area: bool, i: int)
    requires
        first_largest(s, by_area, i),
    ensures
        key_order(s, by_area) == seq![s[i]] + key_order(s.remove(i), by_area),
{
    let c = choose|c: int| first_largest(s, by_area, c);
    assert(first_largest(s, by_area, c));
    if c < i {
        assert(sort_key(s[c], by_area) < sort_key(s[i], by_area));
    } else if c > i {
        assert(sort_key(s[i], by_area) < sort_key(s[c], by_area));
    }
}

/// Remove and return the first sprite with the largest key (height, or area when
/// `by_area`). Taking sprites this way visits them in descending key order, ties in
/// their original order.
pub fn take_largest(v: &mut Vec<Sprite>, by_area: bool, Ghost(sp): Ghost<u32>) -> (s: Sprite)
    requires
        old(v).len() > 0,
        sprites_in_range(old(v)@, sp),
    ensures
        key_order(old(v)@, by_area) == seq![s] + key_order(final(v)@, by_area),
        exists|i: int|
            0 <= i < old(v).len() && s == old(v)@[i] && final(v)@ == old(v)@.remove(i) && (forall|
                j: int,
            |
                0 <= j < old(v).len() ==> sort_key(#[trigger] old(v)@[j], by_area) <= sort_key(
                    s,
                    by_area,
                )) && (forall|j: int|
                0 <= j < i ==> sort_key(#[trigger] old(v)@[j], by_area) < sort_key(s, by_area)),
        final(v)@.to_multiset().insert(s) == old(v)@.to_multiset(),
        sprites_in_range(final(v)@, sp),
        sprite_in_range(s, sp),
{
    let n = v.len();
    let mut best: usize = 0;
    proof {
        lemma_area_fits_u64(v@[0]);
    }
    let mut best_key: u64 = if by_area {
        (v[0].image.width as u64) * (v[0].image.height as u64)
    } else {
        v[0].image.height as u64
    };
    let mut i: usize = 1;
    assert(sprite_in_range(v@[0], sp));
    while i < n
        invariant
            n == v.len(),
            1 <= i <= n,
            best < i,
            sprites_in_range(v@, sp),
            best_key == sort_key(v@[best as int], by_area),
            forall|j: int| 0 <= j < i ==> sort_key(#[trigger] v@[j], by_area) <= best_key,
            forall|j: int| 0 <= j < best ==> sort_key(#[trigger] v@[j], by_area) < best_key,
        decreases n - i,
    {
        assert(sprite_in_range(v@[i as int], sp));
        proof {
            lemma_area_fits_u64(v@[i as int]);
        }
        let k: u64 = if by_area {
            (v[i].image.width as u64) * (v[i].image.height as u64)
        } else {
            v[i].image.height as u64
        };
        if k > best_key {
            best = i;
            best_key = k;
        }
        i = i + 1;
    }
    let ghost old_v = v@;
    let s = v.remove(best);
    proof {
        assert(first_largest(old_v, by_area, best as int));
        lemma_key_order_take(old_v, by_area, best as int);
        vstd::seq_lib::to_multiset_remove(old_v, best as int);
        assert(old_v.to_multiset().remove(s).insert(s) =~= old_v.to_multiset());
        assert forall|j: int| 0 <= j < v@.len() implies sprite_in_range(#[trigger] v@[j], sp) by {
            if j < best {
                assert(v@[j] == old_v[j]);
            } else {
                assert(v@[j] == old_v[j + 1]);
            }
        }
    }
    s
}

} // verus!
