use vstd::prelude::*;

use crate::basic::finish_raw;
use crate::config::LayoutConfig;
use crate::packer::{
    footprint, footprints_disjoint, is_partition, layout_in_range, max_bottom, max_int, max_right,
    placed_dests, placed_sprites, placement_ok, sat_sub, CoreError, PackInput, PackOutput,
    PlacedSprite, Placement,
};
use crate::rect::{Rect, Size};
use crate::sprite::Sprite;

verus! {

broadcast use vstd::seq_lib::group_to_multiset_ensures;

/// The widest sprite (0 for none).
pub open spec fn widest(s: Seq<Sprite>) -> int
    decreases s.len(),
{
    if s.len() == 0 {
        0
    } else {
        max_int(widest(s.drop_last()), s.last().w())
    }
}

/// The tallest sprite (0 for none).
pub open spec fn tallest(s: Seq<Sprite>) -> int
    decreases s.len(),
{
    if s.len() == 0 {
        0
    } else {
        max_int(tallest(s.drop_last()), s.last().h())
    }
}

/// The cell size: the fixed value when given, else the largest sprite dimension
/// (1 for an empty list).
pub open spec fn cell_size(fixed: Option<u32>, largest: int, n: int) -> int {
    match fixed {
        Some(c) => c as int,
        None => if n == 0 {
            1
        } else {
            largest
        },
    }
}

/// The geometry of a grid pass.
pub struct GridGeom {
    pub cell_w: int,
    pub cell_h: int,
    pub step_x: int,
    pub step_y: int,
    pub cols: int,
}

/// Cell size, step and column count for the given sprites and layout.
pub open spec fn grid_geom(
    s: Seq<Sprite>,
    fixed_cw: Option<u32>,
    fixed_ch: Option<u32>,
    cfg: LayoutConfig,
) -> GridGeom {
    let cw = cell_size(fixed_cw, widest(s), s.len() as int);
    let ch = cell_size(fixed_ch, tallest(s), s.len() as int);
    let sx = cw + cfg.shape_padding;
    let sy = ch + cfg.shape_padding;
    let usable = sat_sub(cfg.max_width as int, 2 * cfg.border_padding);
    let c = (usable + cfg.shape_padding) / sx;
    GridGeom { cell_w: cw, cell_h: ch, step_x: sx, step_y: sy, cols: if c >= 1 { c } else { 1 } }
}

/// Top-left corner of the cell for input position `idx`.
pub open spec fn cell_x(g: GridGeom, cfg: LayoutConfig, idx: int) -> int {
    cfg.border_padding + (idx % g.cols) * g.step_x
}

/// Top edge of the cell for input position `idx`.
pub open spec fn cell_y(g: GridGeom, cfg: LayoutConfig, idx: int) -> int {
    cfg.border_padding + (idx / g.cols) * g.step_y
}

/// The sprite at input position `idx` is placed: its cell ends above the bottom border
/// and the sprite is no larger than the cell.
pub open spec fn grid_fits(g: GridGeom, cfg: LayoutConfig, idx: int, s: Sprite) -> bool {
    &&& cell_y(g, cfg, idx) + g.cell_h + cfg.border_padding <= cfg.max_height
    &&& s.w() <= g.cell_w
    &&& s.h() <= g.cell_h
}

/// Where the sprite at input position `idx` goes: centred in its cell.
pub open spec fn grid_dest(g: GridGeom, cfg: LayoutConfig, idx: int, s: Sprite) -> Rect {
    Rect {
        x: (cell_x(g, cfg, idx) + (g.cell_w - s.w()) / 2) as u32,
        y: (cell_y(g, cfg, idx) + (g.cell_h - s.h()) / 2) as u32,
        w: s.w() as u32,
        h: s.h() as u32,
    }
}

/// The grid arithmetic stays within `u32`: the padded cell, every cell row the sprites
/// can reach, and the rounded atlas size all fit, and the cell step is not zero.
pub open spec fn grid_in_range(s: Seq<Sprite>, g: GridGeom, cfg: LayoutConfig) -> bool {
    let bp = cfg.border_padding;
    let sp = cfg.shape_padding;
    let usable = sat_sub(cfg.max_width as int, 2 * bp);
    let last_row = if s.len() == 0 {
        0
    } else {
        (s.len() - 1) / g.cols
    };
    &&& layout_in_range(cfg)
    &&& s.len() <= u32::MAX
    &&& g.step_x >= 1
    &&& g.step_x <= u32::MAX
    &&& g.step_y <= u32::MAX
    &&& usable + sp <= u32::MAX
    &&& 2 * bp + last_row * g.step_y + g.cell_h <= u32::MAX
    &&& 2 * bp + g.cols * g.step_x <= u32::MAX
    &&& 2 * bp + (last_row + 1) * g.step_y <= u32::MAX
}

/// The largest cell row used by the sprites at input positions below `k` that fit
/// (`-1` when none fits).
pub open spec fn last_used_row(s: Seq<Sprite>, g: GridGeom, cfg: LayoutConfig, k: int) -> int
    decreases k,
{
    if k <= 0 {
        -1
    } else {
        let r = last_used_row(s, g, cfg, k - 1);
        if grid_fits(g, cfg, k - 1, s[k - 1]) {
            max_int(r, (k - 1) / g.cols)
        } else {
            r
        }
    }
}

/// The grid atlas size: all columns and the used rows with border padding around and
/// no shape padding after the last cell (0 when no row is used), then rounded, capped
/// and squared as for the strip packer.
pub open spec fn grid_size(s: Seq<Sprite>, g: GridGeom, cfg: LayoutConfig) -> Size {
    let rows = last_used_row(s, g, cfg, s.len() as int) + 1;
    let bp = cfg.border_padding;
    let sp = cfg.shape_padding;
    let raw_w = if rows == 0 {
        0
    } else {
        2 * bp + g.cols * g.step_x - sp
    };
    let raw_h = if rows == 0 {
        0
    } else {
        2 * bp + rows * g.step_y - sp
    };
    finish_raw(raw_w, raw_h, cfg)
}

/// The sprites at input positions below `k` whose cell fits (`fit`) or does not fit
/// (`!fit`), in input order.
pub open spec fn grid_kept(s: Seq<Sprite>, g: GridGeom, cfg: LayoutConfig, k: int, fit: bool) -> Seq<
    Sprite,
>
    decreases k,
{
    if k <= 0 {
        Seq::empty()
    } else {
        let prev = grid_kept(s, g, cfg, k - 1, fit);
        if grid_fits(g, cfg, k - 1, s[k - 1]) == fit {
            prev.push(s[k - 1])
        } else {
            prev
        }
    }
}

/// What a grid pass delivers: every sprite is placed once or overflows once; each
/// placed sprite came from an input position whose cell fits, sits centred in that
/// cell, keeps its id and is not rotated; each overflowing sprite came from a position
/// whose cell does not fit; padded footprints do not overlap; the atlas covers all
/// columns and the used rows.
pub open spec fn grid_result(
    out: PackOutput,
    input: Seq<Sprite>,
    fixed_cw: Option<u32>,
    fixed_ch: Option<u32>,
    cfg: LayoutConfig,
) -> bool {
    let g = grid_geom(input, fixed_cw, fixed_ch, cfg);
    &&& is_partition(out, input)
    &&& placed_sprites(out.placed@) == grid_kept(input, g, cfg, input.len() as int, true)
    &&& out.overflow@ == grid_kept(input, g, cfg, input.len() as int, false)
    &&& forall|i: int|
        0 <= i < out.placed@.len() ==> exists|idx: int|
            0 <= idx < input.len() && input[idx] == (#[trigger] out.placed@[i]).sprite && grid_fits(
                g,
                cfg,
                idx,
                input[idx],
            ) && out.placed@[i].placement.dest == grid_dest(g, cfg, idx, input[idx])
                && !out.placed@[i].placement.rotated && out.placed@[i].placement.sprite_id@
                == input[idx].id@
    &&& forall|i: int|
        0 <= i < out.overflow@.len() ==> exists|idx: int|
            0 <= idx < input.len() && input[idx] == #[trigger] out.overflow@[i] && !grid_fits(
                g,
                cfg,
                idx,
                input[idx],
            )
    &&& footprints_disjoint(out.placed@, cfg.shape_padding)
    &&& out.atlas_size == grid_size(input, g, cfg)
}

/// The padded cell of input position `idx`.
pub open spec fn cell_rect(g: GridGeom, cfg: LayoutConfig, idx: int) -> Rect {
    Rect {
        x: cell_x(g, cfg, idx) as u32,
        y: cell_y(g, cfg, idx) as u32,
        w: g.step_x as u32,
        h: g.step_y as u32,
    }
}

/// Distinct input positions have non-overlapping padded cells.
proof fn lemma_cells_disjoint(g: GridGeom, cfg: LayoutConfig, i: int, j: int, n: int)
    requires
        0 <= i < j < n,
        g.cols >= 1,
        g.step_x >= 0,
        g.step_y >= 0,
        cfg.border_padding + g.cols * g.step_x <= u32::MAX,
        cfg.border_padding + ((n - 1) / g.cols + 1) * g.step_y <= u32::MAX,
    ensures
        !cell_rect(g, cfg, i).spec_intersects(cell_rect(g, cfg, j)),
{
    let c = g.cols;
    let (ci, ri, cj, rj) = (i % c, i / c, j % c, j / c);
    vstd::arithmetic::div_mod::lemma_fundamental_div_mod(i, c);
    vstd::arithmetic::div_mod::lemma_fundamental_div_mod(j, c);
    vstd::arithmetic::div_mod::lemma_div_is_ordered(i, n - 1, c);
    vstd::arithmetic::div_mod::lemma_div_is_ordered(j, n - 1, c);
    assert(0 <= ci < c && 0 <= cj < c);
    assert(0 <= ri && 0 <= rj);
    lemma_cell_bounds(ci, g.step_x, c);
    lemma_cell_bounds(cj, g.step_x, c);
    lemma_cell_bounds(ri, g.step_y, (n - 1) / c + 1);
    lemma_cell_bounds(rj, g.step_y, (n - 1) / c + 1);
    if ci != cj {
        if ci < cj {
            lemma_step_order(ci, cj, g.step_x);
        } else {
            lemma_step_order(cj, ci, g.step_x);
        }
    } else {
        assert(ri != rj) by {
            if ri == rj {
                assert(i == c * ri + ci);
                assert(j == c * rj + cj);
            }
        }
        if ri < rj {
            lemma_step_order(ri, rj, g.step_y);
        } else {
            lemma_step_order(rj, ri, g.step_y);
        }
    }
}

/// `a < b` gives `(a + 1) * s <= b * s`.
proof fn lemma_step_order(a: int, b: int, s: int)
    requires
        0 <= a < b,
        s >= 0,
    ensures
        a * s + s <= b * s,
{
    assert(a * s + s <= b * s) by (nonlinear_arith)
        requires
            0 <= a < b,
            s >= 0,
    ;
}

/// `0 <= k < m` gives `0 <= k * s` and `k * s + s <= m * s`.
proof fn lemma_cell_bounds(k: int, s: int, m: int)
    requires
        0 <= k < m,
        s >= 0,
    ensures
        0 <= k * s,
        k * s + s <= m * s,
{
    assert(0 <= k * s) by (nonlinear_arith)
        requires
            0 <= k,
            s >= 0,
    ;
    lemma_step_order(k, m, s);
}

/// Grid packing algorithm.
///
/// Every sprite occupies an identically sized cell. Sprites are placed
/// left-to-right then top-to-bottom. Cell dimensions default to the maximum
/// sprite width and height across all input sprites; they can be overridden via
/// `cell_width` / `cell_height` for fixed-cell sprite sheets.
///
/// Sprites that are larger than the cell are sent to `overflow` without
/// cropping. The atlas width is determined by the number of columns that fit
/// within `max_width`; the height grows with each row added.
pub struct Grid {
    /// Fixed cell width in pixels. `None` → widest sprite.
    pub cell_width: Option<u32>,
    /// Fixed cell height in pixels. `None` → tallest sprite.
    pub cell_height: Option<u32>,
}

impl Default for Grid {
    fn default() -> (g: Self)
        ensures
            g.cell_width is None,
            g.cell_height is None,
    {
        Grid { cell_width: None, cell_height: None }
    }
}

impl Grid {
    /// Pack sprites onto a single sheet. An empty sprite list is an error.
    pub fn pack(&self, input: PackInput) -> (r: Result<PackOutput, CoreError>)
        requires
            grid_in_range(
                input.sprites@,
                grid_geom(input.sprites@, self.cell_width, self.cell_height, input.config),
                input.config,
            ),
        ensures
            input.sprites@.len() == 0 <==> r is Err,
            r matches Err(e) ==> e is NoSprites,
            r matches Ok(out) ==> grid_result(
                out,
                input.sprites@,
                self.cell_width,
                self.cell_height,
                input.config,
            ),
    {
        if input.sprites.len() == 0 {
            return Err(CoreError::NoSprites);
        }
        Ok(pack_grid(input, self.cell_width, self.cell_height))
    }

    /// Short human-readable name shown in log output.
    pub fn name(&self) -> (s: &'static str)
        ensures
            s@ == "grid"@,
    {
        "grid"
    }
}

/// The widest (`by_height == false`) or tallest sprite of the list; 1 for an empty list.
pub(crate) fn largest_dim(sprites: &Vec<Sprite>, by_height: bool) -> (m: u32)
    ensures
        m == cell_size(
            None,
            if by_height {
                tallest(sprites@)
            } else {
                widest(sprites@)
            },
            sprites@.len() as int,
        ),
{
    if sprites.len() == 0 {
        return 1;
    }
    let mut m: u32 = 0;
    let mut i: usize = 0;
    while i < sprites.len()
        invariant
            i <= sprites@.len(),
            m == (if by_height {
                tallest(sprites@.take(i as int))
            } else {
                widest(sprites@.take(i as int))
            }),
        decreases sprites@.len() - i,
    {
        assert(sprites@.take(i + 1).drop_last() =~= sprites@.take(i as int));
        let d = if by_height {
            sprites[i].image.height
        } else {
            sprites[i].image.width
        };
        if d > m {
            m = d;
        }
        i = i + 1;
    }
    assert(sprites@.take(sprites@.len() as int) =~= sprites@);
    m
}

/// Place the sprites in input order into equal cells, left to right then top to bottom.
fn pack_grid(input: PackInput, fixed_cw: Option<u32>, fixed_ch: Option<u32>) -> (out: PackOutput)
    requires
        grid_in_range(input.sprites@, grid_geom(input.sprites@, fixed_cw, fixed_ch, input.config), input.config),
    ensures
        grid_result(out, input.sprites@, fixed_cw, fixed_ch, input.config),
{
    let cfg = &input.config;
    let bp = cfg.border_padding;
    let sp = cfg.shape_padding;
    let ghost orig = input.sprites@;
    let ghost g = grid_geom(orig, fixed_cw, fixed_ch, *cfg);
    let ghost n = orig.len() as int;

    let cell_w = match fixed_cw {
        Some(c) => c,
        None => largest_dim(&input.sprites, false),
    };
    let cell_h = match fixed_ch {
        Some(c) => c,
        None => largest_dim(&input.sprites, true),
    };
    let step_x = cell_w + sp;
    let step_y = cell_h + sp;
    let usable_w = cfg.max_width.saturating_sub(bp * 2);
    let c = (usable_w + sp) / step_x;
    let cols = if c >= 1 {
        c
    } else {
        1
    };
    assert(cols == g.cols && step_x == g.step_x && step_y == g.step_y);

    let total = input.sprites.len();
    let mut remaining = input.sprites;
    let mut placed: Vec<PlacedSprite> = Vec::new();
    let mut overflow: Vec<Sprite> = Vec::new();
    let mut max_row: u32 = 0;
    let mut idx: usize = 0;
    let ghost mut pidx: Seq<int> = Seq::empty();

    proof {
        assert(remaining@.to_multiset().add(placed_sprites(placed@).to_multiset()).add(
            overflow@.to_multiset(),
        ) =~= orig.to_multiset());
        assert(orig.subrange(0, n) =~= orig);
    }

    while remaining.len() > 0
        invariant
            g == grid_geom(orig, fixed_cw, fixed_ch, *cfg),
            grid_in_range(orig, g, *cfg),
            n == orig.len(),
            total == n,
            sp == cfg.shape_padding,
            bp == cfg.border_padding,
            cols == g.cols,
            cell_w == g.cell_w,
            cell_h == g.cell_h,
            step_x == g.step_x,
            step_y == g.step_y,
            idx <= n,
            remaining@ == orig.subrange(idx as int, n),
            placed_sprites(placed@) == grid_kept(orig, g, *cfg, idx as int, true),
            overflow@ == grid_kept(orig, g, *cfg, idx as int, false),
            remaining@.to_multiset().add(placed_sprites(placed@).to_multiset()).add(
                overflow@.to_multiset(),
            ) == orig.to_multiset(),
            placed@.len() == 0 <==> last_used_row(orig, g, *cfg, idx as int) == -1,
            placed@.len() > 0 ==> max_row == last_used_row(orig, g, *cfg, idx as int),
            pidx.len() == placed@.len(),
            forall|i: int, j: int| 0 <= i < j < pidx.len() ==> pidx[i] < pidx[j],
            forall|i: int| 0 <= i < pidx.len() ==> #[trigger] pidx[i] < idx,
            forall|i: int|
                0 <= i < placed@.len() ==> {
                    let k = pidx[i];
                    &&& 0 <= k < idx
                    &&& orig[k] == (#[trigger] placed@[i]).sprite
                    &&& grid_fits(g, *cfg, k, orig[k])
                    &&& placed@[i].placement.dest == grid_dest(g, *cfg, k, orig[k])
                    &&& !placed@[i].placement.rotated
                    &&& placed@[i].placement.sprite_id@ == orig[k].id@
                },
        decreases n - idx,
    {
        let ghost old_remaining = remaining@;
        let sprite = remaining.remove(0);
        assert(sprite == orig[idx as int]);
        assert(remaining@ =~= orig.subrange(idx + 1, n));
        let ghost k = idx as int;
        let i32x = idx as u32;
        let col = i32x % cols;
        let row = i32x / cols;
        proof {
            let last_row = (n - 1) / g.cols;
            vstd::arithmetic::div_mod::lemma_div_is_ordered(k, n - 1, g.cols);
            assert(0 <= col < cols);
            lemma_cell_bounds(col as int, step_x as int, cols as int);
            assert(0 <= row <= last_row);
            if row < last_row {
                lemma_cell_bounds(row as int, step_y as int, last_row);
            } else {
                assert(row * step_y == last_row * step_y);
            }
            assert(0 <= row * step_y) by (nonlinear_arith)
                requires
                    0 <= row,
                    0 <= step_y,
            ;
        }
        let x = bp + col * step_x;
        let y = bp + row * step_y;
        let sw = sprite.image.width;
        let sh = sprite.image.height;
        assert(x == cell_x(g, *cfg, k) && y == cell_y(g, *cfg, k));

        if y + cell_h + bp > cfg.max_height || sw > cell_w || sh > cell_h {
            let ghost old_overflow = overflow@;
            overflow.push(sprite);
            proof {
                assert(overflow@ == old_overflow.push(sprite));
                assert(!grid_fits(g, *cfg, k, orig[k]));
                assert(grid_kept(orig, g, *cfg, k + 1, false) == grid_kept(orig, g, *cfg, k, false).push(orig[k]));
                assert(grid_kept(orig, g, *cfg, k + 1, true) == grid_kept(orig, g, *cfg, k, true));
            }
        } else {
            let dest_x = x + (cell_w - sw) / 2;
            let dest_y = y + (cell_h - sh) / 2;
            if placed.len() == 0 || row > max_row {
                max_row = row;
            }
            let dest = Rect::new(dest_x, dest_y, sw, sh);
            assert(dest == grid_dest(g, *cfg, k, orig[k]));
            let id = sprite.id.clone();
            let ps = PlacedSprite { placement: Placement { sprite_id: id, dest, rotated: false }, sprite };
            let ghost old_placed = placed@;
            placed.push(ps);
            proof {
                assert(placed_sprites(placed@) =~= placed_sprites(old_placed).push(sprite));
                pidx = pidx.push(k);
                assert(grid_kept(orig, g, *cfg, k + 1, true) == grid_kept(orig, g, *cfg, k, true).push(orig[k]));
                assert(grid_kept(orig, g, *cfg, k + 1, false) == grid_kept(orig, g, *cfg, k, false));
                assert forall|i: int| 0 <= i < old_placed.len() implies #[trigger] placed@[i]
                    == old_placed[i] by {}
            }
        }
        idx = idx + 1;
    }
    proof {
        vstd::seq_lib::lemma_multiset_commutative(placed_sprites(placed@), overflow@);
        assert(remaining@.to_multiset() =~= vstd::multiset::Multiset::empty());
        assert(placed_sprites(placed@).to_multiset().add(overflow@.to_multiset())
            =~= remaining@.to_multiset().add(placed_sprites(placed@).to_multiset()).add(
            overflow@.to_multiset(),
        ));
        lemma_grid_footprints_disjoint(placed@, pidx, orig, g, *cfg);
        assert forall|i: int| 0 <= i < overflow@.len() implies exists|k2: int|
            0 <= k2 < n && orig[k2] == #[trigger] overflow@[i] && !grid_fits(g, *cfg, k2, orig[k2]) by {
            let k2 = lemma_grid_kept_member(orig, g, *cfg, n, false, i);
        }
    }

    proof {
        lemma_last_used_row_bounded(orig, g, *cfg, n);
    }
    let row_count: u32 = if placed.len() == 0 {
        0
    } else {
        max_row + 1
    };
    proof {
        if row_count > 0 {
            let last_row = (n - 1) / g.cols;
            lemma_last_used_row_bounded(orig, g, *cfg, n);
            lemma_cell_bounds(cols as int - 1, step_x as int, cols as int);
            lemma_mul_le_int(row_count as int, step_y as int, last_row + 1);
            lemma_mul_le_int(1, step_y as int, row_count as int);
        }
    }
    let raw_w = if row_count == 0 {
        0
    } else {
        bp + cols * step_x - sp + bp
    };
    let raw_h = if row_count == 0 {
        0
    } else {
        bp + row_count * step_y - sp + bp
    };
    let mut w = cfg.size_constraint.apply_capped(raw_w, cfg.max_width);
    let mut h = cfg.size_constraint.apply_capped(raw_h, cfg.max_height);
    if cfg.force_square {
        let side = if w >= h {
            w
        } else {
            h
        };
        w = side;
        h = side;
    }
    PackOutput { placed, atlas_size: Size { w, h }, overflow }
}

/// The sprite kept at place `i` by `grid_kept` comes from an input position below `k`
/// whose cell fitting agrees with `fit`.
proof fn lemma_grid_kept_member(
    s: Seq<Sprite>,
    g: GridGeom,
    cfg: LayoutConfig,
    k: int,
    fit: bool,
    i: int,
) -> (k2: int)
    requires
        0 <= k <= s.len(),
        0 <= i < grid_kept(s, g, cfg, k, fit).len(),
    ensures
        0 <= k2 < k,
        s[k2] == grid_kept(s, g, cfg, k, fit)[i],
        grid_fits(g, cfg, k2, s[k2]) == fit,
    decreases k,
{
    if k <= 0 {
        assert(grid_kept(s, g, cfg, k, fit) =~= Seq::<Sprite>::empty());
        0
    } else {
        let prev = grid_kept(s, g, cfg, k - 1, fit);
        if i < prev.len() {
            lemma_grid_kept_member(s, g, cfg, k - 1, fit, i)
        } else {
            k - 1
        }
    }
}

/// `a <= b` gives `a * s <= b * s`.
proof fn lemma_mul_le_int(a: int, s: int, b: int)
    requires
        0 <= a <= b,
        s >= 0,
    ensures
        a * s <= b * s,
{
    assert(a * s <= b * s) by (nonlinear_arith)
        requires
            0 <= a <= b,
            s >= 0,
    ;
}

/// Used rows never go past the row of the last input position.
proof fn lemma_last_used_row_bounded(s: Seq<Sprite>, g: GridGeom, cfg: LayoutConfig, k: int)
    requires
        0 <= k <= s.len(),
        g.cols >= 1,
    ensures
        last_used_row(s, g, cfg, k) <= (if k == 0 {
            -1
        } else {
            (k - 1) / g.cols
        }),
        last_used_row(s, g, cfg, k) >= -1,
    decreases k,
{
    if k > 0 {
        lemma_last_used_row_bounded(s, g, cfg, k - 1);
        if k > 1 {
            vstd::arithmetic::div_mod::lemma_div_is_ordered(k - 2, k - 1, g.cols);
        }
        vstd::arithmetic::div_mod::lemma_div_pos_is_pos(k - 1, g.cols);
    }
}

/// Sprites placed in distinct cells have non-overlapping padded footprints.
proof fn lemma_grid_footprints_disjoint(
    placed: Seq<PlacedSprite>,
    pidx: Seq<int>,
    orig: Seq<Sprite>,
    g: GridGeom,
    cfg: LayoutConfig,
)
    requires
        grid_in_range(orig, g, cfg),
        g.cols >= 1,
        g.step_x == g.cell_w + cfg.shape_padding,
        g.step_y == g.cell_h + cfg.shape_padding,
        pidx.len() == placed.len(),
        forall|i: int, j: int| 0 <= i < j < pidx.len() ==> pidx[i] < pidx[j],
        forall|i: int|
            0 <= i < placed.len() ==> {
                let k = pidx[i];
                &&& 0 <= k < orig.len()
                &&& grid_fits(g, cfg, k, orig[k])
                &&& (#[trigger] placed[i]).placement.dest == grid_dest(g, cfg, k, orig[k])
            },
    ensures
        footprints_disjoint(placed, cfg.shape_padding),
{
    let n = orig.len() as int;
    let sp = cfg.shape_padding;
    assert forall|i: int, j: int| 0 <= i < j < placed.len() implies !footprint(
        placed[i].placement.dest,
        sp,
    ).spec_intersects(footprint(placed[j].placement.dest, sp)) by {
        let ki = pidx[i];
        let kj = pidx[j];
        assert(ki < kj);
        lemma_cells_disjoint(g, cfg, ki, kj, n);
        lemma_fp_in_cell(g, cfg, ki, orig[ki], n);
        lemma_fp_in_cell(g, cfg, kj, orig[kj], n);
        let ci = cell_rect(g, cfg, ki);
        let cj = cell_rect(g, cfg, kj);
        let fi = footprint(grid_dest(g, cfg, ki, orig[ki]), sp);
        let fj = footprint(grid_dest(g, cfg, kj, orig[kj]), sp);
        crate::rect::lemma_contained_keeps_disjoint(ci, fi, cj);
        crate::rect::lemma_contained_keeps_disjoint(cj, fj, fi);
    }
}

/// A fitting sprite's padded footprint lies inside its padded cell.
proof fn lemma_fp_in_cell(g: GridGeom, cfg: LayoutConfig, k: int, s: Sprite, n: int)
    requires
                0 <= k < n,
        n <= u32::MAX,
        g.cols >= 1,
        g.step_x == g.cell_w + cfg.shape_padding,
        g.step_y == g.cell_h + cfg.shape_padding,
        cfg.border_padding + g.cols * g.step_x <= u32::MAX,
        cfg.border_padding + ((n - 1) / g.cols + 1) * g.step_y <= u32::MAX,
        grid_fits(g, cfg, k, s),
    ensures
        cell_rect(g, cfg, k).spec_contains(footprint(grid_dest(g, cfg, k, s), cfg.shape_padding)),
{
    let c = g.cols;
    vstd::arithmetic::div_mod::lemma_div_is_ordered(k, n - 1, c);
    vstd::arithmetic::div_mod::lemma_div_pos_is_pos(k, c);
    lemma_cell_bounds(k % c, g.step_x, c);
    lemma_cell_bounds(k / c, g.step_y, (n - 1) / c + 1);
}

/// Every input position whose cell fits lies on a used row.
proof fn lemma_fitting_row_used(s: Seq<Sprite>, g: GridGeom, cfg: LayoutConfig, idx: int, k: int)
    requires
        0 <= idx < k <= s.len(),
        grid_fits(g, cfg, idx, s[idx]),
    ensures
        last_used_row(s, g, cfg, k) >= idx / g.cols,
    decreases k,
{
    if k - 1 > idx {
        lemma_fitting_row_used(s, g, cfg, idx, k - 1);
    }
}

/// A grid pass reports an atlas that contains every placed sprite (of positive
/// size), provided a cell is no wider than the area inside the border padding.
pub proof fn lemma_grid_atlas_covers(
    out: PackOutput,
    input: Seq<Sprite>,
    fixed_cw: Option<u32>,
    fixed_ch: Option<u32>,
    cfg: LayoutConfig,
)
    requires
        grid_result(out, input, fixed_cw, fixed_ch, cfg),
        grid_in_range(input, grid_geom(input, fixed_cw, fixed_ch, cfg), cfg),
        grid_geom(input, fixed_cw, fixed_ch, cfg).cell_w <= sat_sub(
            cfg.max_width as int,
            2 * cfg.border_padding,
        ),
    ensures
        forall|i: int|
            0 <= i < out.placed@.len() && (#[trigger] out.placed@[i]).placement.dest.w > 0
                && out.placed@[i].placement.dest.h > 0 ==> out.placed@[i].placement.dest.spec_right()
                <= out.atlas_size.w && out.placed@[i].placement.dest.spec_bottom()
                <= out.atlas_size.h,
{
    let g = grid_geom(input, fixed_cw, fixed_ch, cfg);
    let bp = cfg.border_padding as int;
    let sp = cfg.shape_padding as int;
    let usable = sat_sub(cfg.max_width as int, 2 * bp);
    let c = (usable + sp) / g.step_x;
    assert(g.step_x <= usable + sp);
    assert(c >= 1) by {
        vstd::arithmetic::div_mod::lemma_div_is_ordered(g.step_x, usable + sp, g.step_x);
        vstd::arithmetic::div_mod::lemma_div_basics(g.step_x);
    }
    assert(g.cols == c);
    assert(g.cols * g.step_x <= usable + sp) by {
        vstd::arithmetic::div_mod::lemma_fundamental_div_mod(usable + sp, g.step_x);
        assert(g.cols * g.step_x == g.step_x * c) by (nonlinear_arith)
            requires
                g.cols == c,
        ;
    }
    assert forall|i: int|
        0 <= i < out.placed@.len() && (#[trigger] out.placed@[i]).placement.dest.w > 0
            && out.placed@[i].placement.dest.h > 0 implies out.placed@[i].placement.dest.spec_right()
        <= out.atlas_size.w && out.placed@[i].placement.dest.spec_bottom() <= out.atlas_size.h by {
        let p = out.placed@[i];
        let d = p.placement.dest;
        let idx = choose|idx: int|
            0 <= idx < input.len() && input[idx] == p.sprite && grid_fits(g, cfg, idx, input[idx])
                && p.placement.dest == grid_dest(g, cfg, idx, input[idx])
                && !p.placement.rotated && p.placement.sprite_id@ == input[idx].id@;
        let sw = input[idx].w();
        let sh = input[idx].h();
        let col = idx % g.cols;
        let row = idx / g.cols;
        vstd::arithmetic::div_mod::lemma_fundamental_div_mod(idx, g.cols);
        assert(0 <= col < g.cols);
        assert(row >= 0);
        lemma_fitting_row_used(input, g, cfg, idx, input.len() as int);
        lemma_last_used_row_bounded(input, g, cfg, input.len() as int);
        let rows = last_used_row(input, g, cfg, input.len() as int) + 1;
        assert(rows >= row + 1);
        assert(col * g.step_x + g.step_x <= g.cols * g.step_x) by (nonlinear_arith)
            requires
                0 <= col < g.cols,
                g.step_x >= 0,
        ;
        assert(row * g.step_y + g.step_y <= rows * g.step_y) by (nonlinear_arith)
            requires
                0 <= row,
                row + 1 <= rows,
                g.step_y >= 0,
        ;
        assert(0 <= row * g.step_y) by (nonlinear_arith)
            requires
                0 <= row,
                g.step_y >= 0,
        ;
        assert(0 <= col * g.step_x) by (nonlinear_arith)
            requires
                0 <= col,
                g.step_x >= 0,
        ;
        assert(0 <= (g.cell_w - sw) / 2 <= g.cell_w - sw);
        assert(0 <= (g.cell_h - sh) / 2 <= g.cell_h - sh);
        lemma_last_used_row_bounded(input, g, cfg, input.len() as int);
        assert(rows * g.step_y <= ((input.len() - 1) / g.cols + 1) * g.step_y) by (nonlinear_arith)
            requires
                rows <= (input.len() - 1) / g.cols + 1,
                g.step_y >= 0,
        ;
        assert(d.x == bp + col * g.step_x + (g.cell_w - sw) / 2);
        assert(d.y == bp + row * g.step_y + (g.cell_h - sh) / 2);
        let raw_w = 2 * bp + g.cols * g.step_x - sp;
        let raw_h = 2 * bp + rows * g.step_y - sp;
        cfg.size_constraint.lemma_apply_monotone(raw_w, raw_w);
        cfg.size_constraint.lemma_apply_monotone(raw_h, raw_h);
        assert(d.spec_right() <= raw_w - bp);
        assert(d.spec_bottom() <= raw_h - bp);
    }
}

/// Every sprite of the list is no wider than the widest and no taller than the tallest.
proof fn lemma_largest_bounds(s: Seq<Sprite>, i: int)
    requires
        0 <= i < s.len(),
    ensures
        s[i].w() <= widest(s),
        s[i].h() <= tallest(s),
    decreases s.len(),
{
    if i < s.len() - 1 {
        lemma_largest_bounds(s.drop_last(), i);
        assert(s.drop_last()[i] == s[i]);
    }
}

/// When every position below `k` fits, nothing below `k` overflows.
proof fn lemma_grid_kept_none_over(s: Seq<Sprite>, g: GridGeom, cfg: LayoutConfig, k: int)
    requires
        0 <= k <= s.len(),
        forall|j: int| 0 <= j < k ==> #[trigger] grid_fits(g, cfg, j, s[j]),
    ensures
        grid_kept(s, g, cfg, k, false) =~= Seq::<Sprite>::empty(),
    decreases k,
{
    if k > 0 {
        lemma_grid_kept_none_over(s, g, cfg, k - 1);
        assert(grid_fits(g, cfg, k - 1, s[k - 1]));
    }
}

/// With cells sized to the widest and tallest sprite, a grid pass keeps the input
/// order: the placed sprites are the leading ones and the overflowing ones follow.
pub proof fn lemma_grid_auto_cells_keep_order(input: Seq<Sprite>, cfg: LayoutConfig)
    ensures
        grid_kept(input, grid_geom(input, None, None, cfg), cfg, input.len() as int, true)
            + grid_kept(input, grid_geom(input, None, None, cfg), cfg, input.len() as int, false)
            == input,
{
    let g = grid_geom(input, None, None, cfg);
    let n = input.len() as int;
    assert forall|a: int, b: int| 0 <= a <= b < n && #[trigger] grid_fits(g, cfg, b, input[b]) implies #[trigger] grid_fits(g, cfg, a, input[a]) by {
        lemma_largest_bounds(input, a);
        vstd::arithmetic::div_mod::lemma_div_is_ordered(a, b, g.cols);
        assert((a / g.cols) * g.step_y <= (b / g.cols) * g.step_y) by (nonlinear_arith)
            requires
                0 <= a / g.cols <= b / g.cols,
                0 <= g.step_y,
        ;
    }
    lemma_grid_keep_order_to(input, g, cfg, n);
    assert(input.take(n) =~= input);
}

/// The induction behind `lemma_grid_auto_cells_keep_order`, up to position `k`.
proof fn lemma_grid_keep_order_to(s: Seq<Sprite>, g: GridGeom, cfg: LayoutConfig, k: int)
    requires
        0 <= k <= s.len(),
        forall|a: int, b: int| 0 <= a <= b < s.len() && #[trigger] grid_fits(g, cfg, b, s[b]) ==> #[trigger] grid_fits(g, cfg, a, s[a]),
    ensures
        grid_kept(s, g, cfg, k, true) + grid_kept(s, g, cfg, k, false) == s.take(k),
    decreases k,
{
    if k == 0 {
        assert(grid_kept(s, g, cfg, 0, true) + grid_kept(s, g, cfg, 0, false) =~= s.take(0));
    } else {
        lemma_grid_keep_order_to(s, g, cfg, k - 1);
        let t = grid_kept(s, g, cfg, k - 1, true);
        let f = grid_kept(s, g, cfg, k - 1, false);
        if grid_fits(g, cfg, k - 1, s[k - 1]) {
            assert forall|j: int| 0 <= j < k - 1 implies #[trigger] grid_fits(g, cfg, j, s[j]) by {
                assert(grid_fits(g, cfg, k - 1, s[k - 1]));
            }
            lemma_grid_kept_none_over(s, g, cfg, k - 1);
            assert(t + f =~= t);
            assert(s.take(k) =~= s.take(k - 1).push(s[k - 1]));
            assert(t.push(s[k - 1]) + f =~= s.take(k));
        } else {
            assert(s.take(k) =~= s.take(k - 1).push(s[k - 1]));
            assert(t + f.push(s[k - 1]) =~= (t + f).push(s[k - 1]));
        }
    }
}

/// With `force_square`, the grid packer's atlas is square.
pub proof fn lemma_grid_square(
    out: PackOutput,
    input: Seq<Sprite>,
    fixed_cw: Option<u32>,
    fixed_ch: Option<u32>,
    cfg: LayoutConfig,
)
    requires
        grid_result(out, input, fixed_cw, fixed_ch, cfg),
        cfg.force_square,
    ensures
        out.atlas_size.w == out.atlas_size.h,
{
}

/// Each placed sprite of a grid pass keeps its size and sits centred in the cell of
/// its input position (column `idx % cols`, row `idx / cols`, cells one step apart
/// from the border): the gaps on its left and right differ by at most one pixel,
/// the larger one on the right, and likewise above and below.
pub proof fn lemma_grid_centred(
    out: PackOutput,
    input: Seq<Sprite>,
    fixed_cw: Option<u32>,
    fixed_ch: Option<u32>,
    cfg: LayoutConfig,
    i: int,
)
    requires
        grid_result(out, input, fixed_cw, fixed_ch, cfg),
        grid_in_range(input, grid_geom(input, fixed_cw, fixed_ch, cfg), cfg),
        0 <= i < out.placed@.len(),
    ensures
        exists|idx: int|
            0 <= idx < input.len() && input[idx] == #[trigger] out.placed@[i].sprite && ({
                let g = grid_geom(input, fixed_cw, fixed_ch, cfg);
                let d = out.placed@[i].placement.dest;
                let cx = cfg.border_padding + (idx % g.cols) * g.step_x;
                let cy = cfg.border_padding + (idx / g.cols) * g.step_y;
                let left = d.x - cx;
                let right = cx + g.cell_w - (d.x + d.w);
                let top = d.y - cy;
                let bottom = cy + g.cell_h - (d.y + d.h);
                &&& d.w == input[idx].w() && d.h == input[idx].h()
                &&& 0 <= left <= right <= left + 1
                &&& 0 <= top <= bottom <= top + 1
            }),
{
    let g = grid_geom(input, fixed_cw, fixed_ch, cfg);
    let idx = choose|idx: int|
        0 <= idx < input.len() && input[idx] == (#[trigger] out.placed@[i]).sprite && grid_fits(
            g,
            cfg,
            idx,
            input[idx],
        ) && out.placed@[i].placement.dest == grid_dest(g, cfg, idx, input[idx])
            && !out.placed@[i].placement.rotated && out.placed@[i].placement.sprite_id@
            == input[idx].id@;
    let s = input[idx];
    vstd::arithmetic::div_mod::lemma_mod_pos_bound(idx, g.cols);
    lemma_cell_bounds(idx % g.cols, g.step_x, g.cols);
    assert(0 <= (idx / g.cols) * g.step_y) by (nonlinear_arith)
        requires
            idx >= 0,
            g.cols >= 1,
            g.step_y >= 0,
    ;
    let cx = cfg.border_padding + (idx % g.cols) * g.step_x;
    let cy = cfg.border_padding + (idx / g.cols) * g.step_y;
    assert(cx == cell_x(g, cfg, idx) && cy == cell_y(g, cfg, idx));
    assert(cx + g.cell_w <= u32::MAX);
    assert(cy + g.cell_h <= u32::MAX);
}

} // verus!
