use vstd::prelude::*;

use crate::config::LayoutConfig;
use crate::packer::{
    sprite_in_range, footprint, footprints_disjoint, is_partition, layout_in_range, max_bottom, max_int, max_right,
    placed_dests, placed_sprites, placement_ok, sat_sub, sprites_in_range, take_largest, key_order, CoreError,
    PackInput, PackOutput, PlacedSprite, Placement,
};
use crate::rect::{Rect, Size};
use crate::sprite::Sprite;

verus! {

broadcast use vstd::seq_lib::group_to_multiset_ensures;

/// Raw atlas dimensions rounded to the size constraint, capped at the maximum, then
/// squared if asked.
pub open spec fn finish_raw(raw_w: int, raw_h: int, cfg: LayoutConfig) -> Size {
    let aw = cfg.size_constraint.spec_apply(raw_w);
    let ah = cfg.size_constraint.spec_apply(raw_h);
    let w = if aw <= cfg.max_width {
        aw
    } else {
        cfg.max_width as int
    };
    let h = if ah <= cfg.max_height {
        ah
    } else {
        cfg.max_height as int
    };
    let side = max_int(w, h);
    if cfg.force_square {
        Size { w: side as u32, h: side as u32 }
    } else {
        Size { w: w as u32, h: h as u32 }
    }
}

/// The strip packer's atlas size: the placements' extent plus the border padding on
/// both sides (0 when nothing was placed), rounded to the size constraint, capped at
/// the maximum, then squared if asked.
pub open spec fn strip_size(dests: Seq<Rect>, cfg: LayoutConfig) -> Size {
    let raw_w = if dests.len() == 0 {
        0
    } else {
        max_right(dests) + cfg.border_padding
    };
    let raw_h = if dests.len() == 0 {
        0
    } else {
        max_bottom(dests) + cfg.border_padding
    };
    finish_raw(raw_w, raw_h, cfg)
}

/// What a strip-packing pass delivers: every sprite is placed once or overflows once;
/// placements are never rotated and match their sprites; padded footprints do not
/// overlap; each placement starts inside the border, ends above the bottom border,
/// and either ends inside the right border or starts a row; the atlas size follows
/// `strip_size`.
pub open spec fn strip_result(out: PackOutput, input: Seq<Sprite>, cfg: LayoutConfig) -> bool {
    let bp = cfg.border_padding;
    let sp = cfg.shape_padding;
    let mcw = sat_sub(cfg.max_width as int, 2 * bp);
    let mch = sat_sub(cfg.max_height as int, 2 * bp);
    &&& is_partition(out, input)
    &&& forall|i: int|
        0 <= i < out.placed@.len() ==> {
            let p = #[trigger] out.placed@[i];
            let d = p.placement.dest;
            &&& placement_ok(p, cfg)
            &&& !p.placement.rotated
            &&& d.w + sp <= u32::MAX
            &&& d.h + sp <= u32::MAX
            &&& d.x >= bp
            &&& d.y >= bp
            &&& d.spec_bottom() <= bp + mch
            &&& (d.x == bp || d.spec_right() + sp <= bp + mcw)
        }
    &&& footprints_disjoint(out.placed@, sp)
    &&& out.atlas_size == strip_size(placed_dests(out.placed@), cfg)
}

/// Where the strip packer stands: the cursor in the current row (relative to
/// the border), the height of that row, and what it has placed and turned away.
pub struct StripState {
    pub x: int,
    pub y: int,
    pub row_h: int,
    pub placed: Seq<PlacedSprite>,
    pub overflow: Seq<Sprite>,
}

/// One sprite through the strip packer: a new row starts when the row holds
/// something and the sprite's padded width does not fit in what is left of it;
/// the sprite then overflows if it would end below the usable height, and is
/// otherwise placed at the cursor, which moves right by its padded width, the
/// row growing to its padded height.
pub open spec fn strip_step(st: StripState, s: Sprite, cfg: LayoutConfig) -> StripState {
    let bp = cfg.border_padding;
    let sp = cfg.shape_padding;
    let mcw = sat_sub(cfg.max_width as int, 2 * bp);
    let mch = sat_sub(cfg.max_height as int, 2 * bp);
    let wrap = st.x > 0 && st.x + s.w() + sp > mcw;
    let x = if wrap {
        0
    } else {
        st.x
    };
    let y = if wrap {
        st.y + st.row_h
    } else {
        st.y
    };
    let rh = if wrap {
        0
    } else {
        st.row_h
    };
    if y + s.h() > mch {
        StripState { x, y, row_h: rh, placed: st.placed, overflow: st.overflow.push(s) }
    } else {
        StripState {
            x: x + s.w() + sp,
            y,
            row_h: max_int(rh, s.h() + sp),
            placed: st.placed.push(
                PlacedSprite {
                    sprite: s,
                    placement: Placement {
                        sprite_id: s.id,
                        dest: Rect {
                            x: (bp + x) as u32,
                            y: (bp + y) as u32,
                            w: s.image.width,
                            h: s.image.height,
                        },
                        rotated: false,
                    },
                },
            ),
            overflow: st.overflow,
        }
    }
}

/// The strip packer after taking the sprites of `order` in turn from an empty
/// sheet.
pub open spec fn strip_run(order: Seq<Sprite>, cfg: LayoutConfig) -> StripState
    decreases order.len(),
{
    if order.len() == 0 {
        StripState { x: 0, y: 0, row_h: 0, placed: Seq::empty(), overflow: Seq::empty() }
    } else {
        strip_step(strip_run(order.drop_last(), cfg), order.last(), cfg)
    }
}

/// Basic strip packing algorithm.
///
/// Sprites are sorted by descending height and placed into rows left-to-right.
/// A new row starts when the next sprite does not fit in the remaining width of
/// the current row. Each row's height equals the tallest sprite placed in it.
///
/// This algorithm is fast with predictable output but produces larger atlases
/// than MaxRects. It does not attempt rotation.
pub struct Basic;

impl Default for Basic {
    fn default() -> (b: Self) {
        Basic
    }
}

impl Basic {
    /// Pack sprites onto a single sheet. An empty sprite list is an error.
    pub fn pack(&self, input: PackInput) -> (r: Result<PackOutput, CoreError>)
        requires
            layout_in_range(input.config),
            sprites_in_range(input.sprites@, input.config.shape_padding),
        ensures
            input.sprites@.len() == 0 <==> r is Err,
            r matches Err(e) ==> e is NoSprites,
            r matches Ok(out) ==> strip_result(out, input.sprites@, input.config),
            r matches Ok(out) ==> out.placed@ == strip_run(key_order(input.sprites@, false), input.config).placed
                && out.overflow@ == strip_run(key_order(input.sprites@, false), input.config).overflow,
    {
        if input.sprites.len() == 0 {
            return Err(CoreError::NoSprites);
        }
        Ok(pack_basic(input))
    }

    /// Short human-readable name shown in log output.
    pub fn name(&self) -> (s: &'static str)
        ensures
            s@ == "basic"@,
    {
        "basic"
    }
}

/// Place the sprites, tallest first (ties in input order), left to right in rows.
fn pack_basic(input: PackInput) -> (out: PackOutput)
    requires
        layout_in_range(input.config),
        sprites_in_range(input.sprites@, input.config.shape_padding),
    ensures
        strip_result(out, input.sprites@, input.config),
        out.placed@ == strip_run(key_order(input.sprites@, false), input.config).placed,
        out.overflow@ == strip_run(key_order(input.sprites@, false), input.config).overflow,
{
    let cfg = &input.config;
    let bp = cfg.border_padding;
    let sp = cfg.shape_padding;
    let ghost orig = input.sprites@;

    let max_canvas_w = cfg.max_width.saturating_sub(bp * 2);
    let max_canvas_h = cfg.max_height.saturating_sub(bp * 2);

    let mut remaining = input.sprites;
    let mut placed: Vec<PlacedSprite> = Vec::new();
    let mut overflow: Vec<Sprite> = Vec::new();

    let mut cursor_x: u64 = 0;
    let mut cursor_y: u64 = 0;
    let mut row_h: u64 = 0;
    let mut atlas_w: u64 = 0;
    let mut atlas_h: u64 = 0;

    let ghost mut taken: Seq<Sprite> = Seq::empty();
    proof {
        assert(key_order(orig, false) =~= taken + key_order(remaining@, false));
        assert(remaining@.to_multiset().add(placed_sprites(placed@).to_multiset()).add(
            overflow@.to_multiset(),
        ) =~= orig.to_multiset());
    }

    while remaining.len() > 0
        invariant
            sp == cfg.shape_padding,
            bp == cfg.border_padding,
            max_canvas_w == sat_sub(cfg.max_width as int, 2 * bp),
            max_canvas_h == sat_sub(cfg.max_height as int, 2 * bp),
            layout_in_range(*cfg),
            sprites_in_range(remaining@, sp),
            remaining@.to_multiset().add(placed_sprites(placed@).to_multiset()).add(
                overflow@.to_multiset(),
            ) == orig.to_multiset(),
            cursor_y + row_h <= max_canvas_h + sp,
            cursor_x <= u32::MAX,
            row_h <= u32::MAX,
            placed@.len() == 0 ==> atlas_w == 0 && atlas_h == 0,
            placed@.len() > 0 ==> atlas_w + bp == max_right(placed_dests(placed@)) && atlas_h + bp
                == max_bottom(placed_dests(placed@)),
            atlas_h <= max_canvas_h,
            atlas_w <= u32::MAX,
            forall|i: int|
                0 <= i < placed@.len() ==> {
                    let p = #[trigger] placed@[i];
                    let d = p.placement.dest;
                    let f = footprint(d, sp);
                    &&& placement_ok(p, *cfg)
                    &&& !p.placement.rotated
                    &&& d.w + sp <= u32::MAX
                    &&& d.h + sp <= u32::MAX
                    &&& d.x >= bp
                    &&& d.y >= bp
                    &&& d.spec_bottom() <= bp + max_canvas_h
                    &&& (d.x == bp || d.spec_right() + sp <= bp + max_canvas_w)
                    &&& f.spec_bottom() <= bp + cursor_y + row_h
                    &&& (f.spec_bottom() <= bp + cursor_y || f.spec_right() <= bp + cursor_x)
                    &&& d.spec_right() <= bp + atlas_w
                    &&& d.spec_bottom() <= bp + atlas_h
                },
            footprints_disjoint(placed@, sp),
            key_order(orig, false) == taken + key_order(remaining@, false),
            strip_run(taken, *cfg) == (StripState {
                x: cursor_x as int,
                y: cursor_y as int,
                row_h: row_h as int,
                placed: placed@,
                overflow: overflow@,
            }),
        decreases remaining@.len(),
    {
        let ghost before = remaining@;
        let sprite = take_largest(&mut remaining, false, Ghost(sp));
        proof {
            assert(key_order(orig, false) =~= taken.push(sprite) + key_order(remaining@, false));
            assert(taken.push(sprite).drop_last() =~= taken);
            taken = taken.push(sprite);
        }
        let sw = sprite.image.width;
        let sh = sprite.image.height;
        let fw = sw as u64 + sp as u64;
        let fh = sh as u64 + sp as u64;

        if cursor_x > 0 && cursor_x + fw > max_canvas_w as u64 {
            cursor_y = cursor_y + row_h;
            cursor_x = 0;
            row_h = 0;
        }
        if cursor_y + sh as u64 > max_canvas_h as u64 {
            let ghost old_overflow = overflow@;
            overflow.push(sprite);
            proof {
                assert(overflow@ == old_overflow.push(sprite));
            }
        } else {
            proof {
                assert(sprite_in_range(sprite, sp));
            }
            let dest_x = (bp as u64 + cursor_x) as u32;
            let dest_y = (bp as u64 + cursor_y) as u32;
            if cursor_x + sw as u64 > atlas_w {
                atlas_w = cursor_x + sw as u64;
            }
            if cursor_y + sh as u64 > atlas_h {
                atlas_h = cursor_y + sh as u64;
            }
            if fh > row_h {
                row_h = fh;
            }
            let dest = Rect::new(dest_x, dest_y, sw, sh);
            let id = sprite.id.clone();
            let ps = PlacedSprite { placement: Placement { sprite_id: id, dest, rotated: false }, sprite };
            let ghost old_placed = placed@;
            placed.push(ps);
            cursor_x = cursor_x + fw;
            proof {
                assert(placed_sprites(placed@) =~= placed_sprites(old_placed).push(sprite));
                let dests = placed_dests(placed@);
                assert(dests.drop_last() =~= placed_dests(old_placed));
                assert(dests.last() == dest);
                assert(max_right(dests) == max_int(max_right(placed_dests(old_placed)), dest.spec_right()));
                assert(max_bottom(dests) == max_int(max_bottom(placed_dests(old_placed)), dest.spec_bottom()));
                assert forall|i: int, j: int| 0 <= i < j < placed@.len() implies !footprint(
                    placed@[i].placement.dest,
                    sp,
                ).spec_intersects(footprint(placed@[j].placement.dest, sp)) by {
                    if j == placed@.len() - 1 {
                        assert(placed@[i] == old_placed[i]);
                    } else {
                        assert(placed@[i] == old_placed[i]);
                        assert(placed@[j] == old_placed[j]);
                    }
                }
                assert forall|i: int| 0 <= i < old_placed.len() implies #[trigger] placed@[i]
                    == old_placed[i] by {}
            }
        }
    }
    proof {
        vstd::seq_lib::lemma_multiset_commutative(placed_sprites(placed@), overflow@);
        assert(remaining@.to_multiset() =~= vstd::multiset::Multiset::empty());
        assert(placed_sprites(placed@).to_multiset().add(overflow@.to_multiset())
            =~= remaining@.to_multiset().add(placed_sprites(placed@).to_multiset()).add(
            overflow@.to_multiset(),
        ));
    }

    let raw_w: u64 = if placed.len() == 0 {
        0
    } else {
        atlas_w + bp as u64 * 2
    };
    let raw_h: u64 = if placed.len() == 0 {
        0
    } else {
        atlas_h + bp as u64 * 2
    };
    proof {
        cfg.size_constraint.lemma_apply_monotone(raw_w as int, raw_w as int);
        cfg.size_constraint.lemma_apply_monotone(raw_h as int, raw_h as int);
    }
    let mut w = if raw_w > cfg.max_width as u64 {
        cfg.max_width
    } else {
        cfg.size_constraint.apply_capped(raw_w as u32, cfg.max_width)
    };
    let mut h = if raw_h > cfg.max_height as u64 {
        cfg.max_height
    } else {
        cfg.size_constraint.apply_capped(raw_h as u32, cfg.max_height)
    };
    if cfg.force_square {
        let side = if w >= h {
            w
        } else {
            h
        };
        w = side;
        h = side;
    }
    PackOutput { placed, atlas_size: Size { w, h }, overflow }
}

/// A strip-packing pass reports an atlas that contains every placed sprite (of
/// positive size), provided each sprite is no wider than the area inside the
/// border padding.
pub proof fn lemma_basic_atlas_covers(out: PackOutput, input: Seq<Sprite>, cfg: LayoutConfig)
    requires
        strip_result(out, input, cfg),
        layout_in_range(cfg),
        forall|k: int|
            0 <= k < input.len() ==> (#[trigger] input[k]).w() <= sat_sub(
                cfg.max_width as int,
                2 * cfg.border_padding,
            ),
    ensures
        forall|i: int|
            0 <= i < out.placed@.len() && (#[trigger] out.placed@[i]).placement.dest.w > 0
                && out.placed@[i].placement.dest.h > 0 ==> out.placed@[i].placement.dest.spec_right()
                <= out.atlas_size.w && out.placed@[i].placement.dest.spec_bottom()
                <= out.atlas_size.h,
{
    let dests = placed_dests(out.placed@);
    let bp = cfg.border_padding;
    let ps = placed_sprites(out.placed@);
    let all = ps + out.overflow@;
    assert forall|i: int|
        0 <= i < out.placed@.len() && (#[trigger] out.placed@[i]).placement.dest.w > 0
            && out.placed@[i].placement.dest.h > 0 implies out.placed@[i].placement.dest.spec_right()
        <= out.atlas_size.w && out.placed@[i].placement.dest.spec_bottom() <= out.atlas_size.h by {
        let p = out.placed@[i];
        let d = p.placement.dest;
        assert(dests[i] == d);
        crate::maxrects::lemma_max_edges_bound(dests, i);
        assert(ps[i] == p.sprite);
        assert(all[i] == ps[i]);
        assert(all.to_multiset().count(p.sprite) > 0);
        assert(input.to_multiset().count(p.sprite) > 0);
        let k = choose|k: int| 0 <= k < input.len() && input[k] == p.sprite;
        assert(input[k].w() <= sat_sub(cfg.max_width as int, 2 * bp));
        let rw = max_right(dests) + bp;
        let rh = max_bottom(dests) + bp;
        cfg.size_constraint.lemma_apply_monotone(rw, rw);
        cfg.size_constraint.lemma_apply_monotone(rh, rh);
    }
}

/// With `force_square`, the strip packer's atlas is square, and its side reaches at
/// least the placements' extent in either direction (border included), capped at
/// that direction's maximum.
pub proof fn lemma_basic_square(out: PackOutput, input: Seq<Sprite>, cfg: LayoutConfig)
    requires
        strip_result(out, input, cfg),
        cfg.force_square,
    ensures
        out.atlas_size.w == out.atlas_size.h,
        out.placed@.len() > 0 ==> ({
            let ew = max_right(placed_dests(out.placed@)) + cfg.border_padding;
            let eh = max_bottom(placed_dests(out.placed@)) + cfg.border_padding;
            &&& out.atlas_size.w >= (if ew <= cfg.max_width { ew } else { cfg.max_width as int })
            &&& out.atlas_size.w >= (if eh <= cfg.max_height { eh } else { cfg.max_height as int })
        }),
{
    let dests = placed_dests(out.placed@);
    if dests.len() > 0 {
        let ew = max_right(dests) + cfg.border_padding;
        let eh = max_bottom(dests) + cfg.border_padding;
        assert(dests[0] == out.placed@[0].placement.dest);
        crate::maxrects::lemma_max_edges_bound(dests, 0);
        cfg.size_constraint.lemma_apply_monotone(ew, ew);
        cfg.size_constraint.lemma_apply_monotone(eh, eh);
    }
}

} // verus!
