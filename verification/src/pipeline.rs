use vstd::prelude::*;

use crate::basic::{strip_result, strip_run, Basic};
use crate::config::{
    lemma_next_pot_unique, is_pow2, AlgorithmConfig, LayoutConfig, MaxRectsHeuristic,
    SizeConstraint, SpriteConfig,
};
use crate::grid::{grid_geom, grid_in_range, grid_result, largest_dim, Grid};
use crate::image::{raw_rgba, Image};
use crate::maxrects::{maxrects_result, MaxRects};
use crate::packer::{
    is_partition, key_order, layout_in_range, max_int, placed_sprites, placement_ok, sprite_in_range,
    sprites_in_range, CoreError, PackInput, PackOutput, PlacedSprite,
};
use crate::alias::{alias_split, detect_aliases, with_alias};
use crate::sheet::{
    add_alias_frames, alias_frame, alias_info, alias_name, alias_target, atlas_frames, blit_ok,
    compose_sheet, frame_infos, frame_of, info_of, layered, AtlasFrame, FrameInfo, SheetOutput,
    WorkerOutput,
};
use crate::sprite::Sprite;

verus! {

broadcast use vstd::seq_lib::group_to_multiset_ensures;

/// Whether the layout's arithmetic stays within `u32` (see `layout_in_range`).
pub fn layout_fits(cfg: &LayoutConfig) -> (b: bool)
    ensures
        b == layout_in_range(*cfg),
{
    2 * (cfg.border_padding as u64) <= 0xffff_ffff
}

/// Whether one sprite's padded size fits in `u32`.
fn sprite_fits(s: &Sprite, sp: u32) -> (b: bool)
    ensures
        b == sprite_in_range(*s, sp),
{
    let w = s.image.width as u64;
    let h = s.image.height as u64;
    w + (sp as u64) <= 0xffff_ffff && h + (sp as u64) <= 0xffff_ffff
}

/// Whether every sprite's padded size fits in `u32`.
pub fn sprites_fit(sprites: &Vec<Sprite>, sp: u32) -> (b: bool)
    ensures
        b == sprites_in_range(sprites@, sp),
{
    let mut i: usize = 0;
    while i < sprites.len()
        invariant
            i <= sprites@.len(),
            forall|j: int| 0 <= j < i ==> sprite_in_range(#[trigger] sprites@[j], sp),
        decreases sprites@.len() - i,
    {
        if !sprite_fits(&sprites[i], sp) {
            return false;
        }
        i = i + 1;
    }
    true
}

/// Whether the grid packer's arithmetic stays within `u32` (see `grid_in_range`).
pub fn grid_fits(
    sprites: &Vec<Sprite>,
    fixed_cw: Option<u32>,
    fixed_ch: Option<u32>,
    cfg: &LayoutConfig,
) -> (b: bool)
    ensures
        b == grid_in_range(sprites@, grid_geom(sprites@, fixed_cw, fixed_ch, *cfg), *cfg),
{
    let ghost g = grid_geom(sprites@, fixed_cw, fixed_ch, *cfg);
    if !layout_fits(cfg) {
        return false;
    }
    let n = sprites.len();
    if n as u64 > 0xffff_ffff {
        return false;
    }
    let cw = match fixed_cw {
        Some(c) => c,
        None => largest_dim(sprites, false),
    } as u64;
    let ch = match fixed_ch {
        Some(c) => c,
        None => largest_dim(sprites, true),
    } as u64;
    assert(cw == g.cell_w && ch == g.cell_h);
    let bp2 = 2 * (cfg.border_padding as u64);
    let sp = cfg.shape_padding as u64;
    let sx = cw + sp;
    let sy = ch + sp;
    if sx < 1 || sx > 0xffff_ffff || sy > 0xffff_ffff {
        return false;
    }
    let usable = if (cfg.max_width as u64) >= bp2 {
        cfg.max_width as u64 - bp2
    } else {
        0
    };
    if usable + sp > 0xffff_ffff {
        return false;
    }
    let c = (usable + sp) / sx;
    let cols = if c >= 1 {
        c
    } else {
        1
    };
    assert(cols == g.cols);
    let last_row: u64 = if n == 0 {
        0
    } else {
        (n as u64 - 1) / cols
    };
    assert(last_row <= n);
    assert(last_row * sy <= 0xffff_ffff * 0xffff_ffff) by (nonlinear_arith)
        requires
            last_row <= 0xffff_ffff,
            sy <= 0xffff_ffff,
    ;
    assert((last_row + 1) * sy <= 0x1_0000_0000 * 0xffff_ffff) by (nonlinear_arith)
        requires
            last_row <= 0xffff_ffff,
            sy <= 0xffff_ffff,
    ;
    assert(cols * sx <= usable + sp + sx) by (nonlinear_arith)
        requires
            c == (usable + sp) as int / sx as int,
            sx >= 1,
            cols == (if c >= 1 {
                c
            } else {
                1
            }),
    ;
    if bp2 + last_row * sy + ch > 0xffff_ffff {
        return false;
    }
    if bp2 + cols * sx > 0xffff_ffff {
        return false;
    }
    bp2 + (last_row + 1) * sy <= 0xffff_ffff
}

/// Why a pack run stopped.
#[derive(Debug)]
pub enum PipelineError {
    /// The packer refused the sprites.
    Packing(CoreError),
    /// Sizes too large for the packer's `u32` arithmetic or for one atlas buffer.
    TooLarge,
}

/// A grid cell size of 0 means "size the cells to the sprites".
pub open spec fn cell_opt(c: u32) -> Option<u32> {
    if c == 0 {
        None
    } else {
        Some(c)
    }
}

/// The chosen packer's arithmetic stays within range for these sprites.
pub open spec fn packable(alg: AlgorithmConfig, s: Seq<Sprite>, cfg: LayoutConfig) -> bool {
    match alg {
        AlgorithmConfig::Grid { cell_width, cell_height } => grid_in_range(
            s,
            grid_geom(s, cell_opt(cell_width), cell_opt(cell_height), cfg),
            cfg,
        ),
        AlgorithmConfig::Basic => layout_in_range(cfg) && sprites_in_range(s, cfg.shape_padding),
        AlgorithmConfig::MaxRects { .. } => layout_in_range(cfg) && sprites_in_range(
            s,
            cfg.shape_padding,
        ),
        AlgorithmConfig::Polygon => layout_in_range(cfg) && sprites_in_range(s, cfg.shape_padding),
    }
}

/// `out` is what the chosen packer delivers for these sprites.
pub open spec fn packed_by(
    alg: AlgorithmConfig,
    out: PackOutput,
    s: Seq<Sprite>,
    cfg: LayoutConfig,
) -> bool {
    match alg {
        AlgorithmConfig::Grid { cell_width, cell_height } => grid_result(
            out,
            s,
            cell_opt(cell_width),
            cell_opt(cell_height),
            cfg,
        ),
        AlgorithmConfig::Basic => strip_result(out, s, cfg) && out.placed@ == strip_run(
            key_order(s, false),
            cfg,
        ).placed && out.overflow@ == strip_run(key_order(s, false), cfg).overflow,
        AlgorithmConfig::MaxRects { heuristic } => maxrects_result(out, s, cfg, heuristic),
        AlgorithmConfig::Polygon => maxrects_result(
            out,
            s,
            cfg,
            MaxRectsHeuristic::BestShortSideFit,
        ),
    }
}

/// Whether the chosen packer's arithmetic stays within range for these sprites.
pub fn packable_check(alg: AlgorithmConfig, sprites: &Vec<Sprite>, cfg: &LayoutConfig) -> (b: bool)
    ensures
        b == packable(alg, sprites@, *cfg),
{
    match alg {
        AlgorithmConfig::Grid { cell_width, cell_height } => {
            let cw = if cell_width == 0 {
                None
            } else {
                Some(cell_width)
            };
            let ch = if cell_height == 0 {
                None
            } else {
                Some(cell_height)
            };
            grid_fits(sprites, cw, ch, cfg)
        },
        AlgorithmConfig::Basic => layout_fits(cfg) && sprites_fit(sprites, cfg.shape_padding),
        AlgorithmConfig::MaxRects { .. } => layout_fits(cfg) && sprites_fit(
            sprites,
            cfg.shape_padding,
        ),
        AlgorithmConfig::Polygon => layout_fits(cfg) && sprites_fit(sprites, cfg.shape_padding),
    }
}

/// Run the packer the algorithm setting names (Polygon packs as MaxRects with
/// the default heuristic). An empty list is refused first; sprites too large for
/// the packer's arithmetic are refused next.
pub fn pack_with(
    alg: AlgorithmConfig,
    sprites: Vec<Sprite>,
    layout: LayoutConfig,
    sprite_config: SpriteConfig,
) -> (r: Result<PackOutput, PipelineError>)
    ensures
        sprites@.len() == 0 ==> r matches Err(PipelineError::Packing(CoreError::NoSprites)),
        sprites@.len() > 0 && !packable(alg, sprites@, layout) ==> r matches Err(
            PipelineError::TooLarge,
        ),
        sprites@.len() > 0 && packable(alg, sprites@, layout) ==> r is Ok,
        r matches Ok(out) ==> packed_by(alg, out, sprites@, layout),
{
    if sprites.len() == 0 {
        return Err(PipelineError::Packing(CoreError::NoSprites));
    }
    if !packable_check(alg, &sprites, &layout) {
        return Err(PipelineError::TooLarge);
    }
    let input = PackInput { sprites, config: layout, sprite_config };
    let r = match alg {
        AlgorithmConfig::Grid { cell_width, cell_height } => {
            let g = Grid {
                cell_width: if cell_width == 0 {
                    None
                } else {
                    Some(cell_width)
                },
                cell_height: if cell_height == 0 {
                    None
                } else {
                    Some(cell_height)
                },
            };
            g.pack(input)
        },
        AlgorithmConfig::Basic => Basic.pack(input),
        AlgorithmConfig::MaxRects { heuristic } => MaxRects { heuristic }.pack(input),
        AlgorithmConfig::Polygon => MaxRects { heuristic: MaxRectsHeuristic::BestShortSideFit }.pack(
            input,
        ),
    };
    match r {
        Ok(out) => Ok(out),
        Err(e) => Err(PipelineError::Packing(e)),
    }
}

/// Every sprite's image holds `width * height` pixels.
pub open spec fn images_wf(s: Seq<Sprite>) -> bool {
    forall|i: int| 0 <= i < s.len() ==> (#[trigger] s[i]).image.wf()
}

/// A packer's placements can be copied into the atlas, and what overflows keeps
/// well-formed images.
proof fn lemma_packed_blit_ok(alg: AlgorithmConfig, out: PackOutput, s: Seq<Sprite>, cfg: LayoutConfig)
    requires
        packed_by(alg, out, s, cfg),
        images_wf(s),
    ensures
        forall|i: int| 0 <= i < out.placed@.len() ==> blit_ok(#[trigger] out.placed@[i]),
        images_wf(out.overflow@),
{
    let ps = placed_sprites(out.placed@);
    let all = ps + out.overflow@;
    assert(is_partition(out, s));
    assert forall|x: Sprite| all.contains(x) implies x.image.wf() by {
        assert(all.to_multiset().count(x) > 0);
        assert(s.to_multiset().count(x) > 0);
        let j = choose|j: int| 0 <= j < s.len() && s[j] == x;
        assert(s[j].image.wf());
    }
    assert forall|i: int| 0 <= i < out.placed@.len() implies blit_ok(#[trigger] out.placed@[i]) by {
        assert(ps[i] == out.placed@[i].sprite);
        assert(all[i] == ps[i]);
        assert(all.contains(ps[i]));
        match alg {
            AlgorithmConfig::Grid { .. } => {},
            AlgorithmConfig::Basic => {
                assert(placement_ok(out.placed@[i], cfg));
            },
            _ => {
                assert(placement_ok(out.placed@[i], cfg));
            },
        }
    }
    assert forall|i: int| 0 <= i < out.overflow@.len() implies (#[trigger] out.overflow@[i]).image.wf() by {
        assert(all[ps.len() + i] == out.overflow@[i]);
        assert(all.contains(out.overflow@[i]));
    }
}

/// `img` is the atlas texture of the placements: `w × h`, each pixel that of the
/// last placement covering it, transparent elsewhere.
pub open spec fn composed(img: Image, placed: Seq<PlacedSprite>, w: int, h: int) -> bool {
    &&& img.wf()
    &&& img.width == w
    &&& img.height == h
    &&& forall|x: int, y: int| 0 <= x < w && 0 <= y < h ==> #[trigger] img.at(x, y) == layered(placed, x, y)
}

/// `sheet` is the sheet of the pack result `out`: its size, its composed texture as
/// RGBA bytes, and one position record and one exporter frame per placement.
pub open spec fn sheet_of(sheet: SheetOutput, out: PackOutput) -> bool {
    &&& sheet.width == out.atlas_size.w
    &&& sheet.height == out.atlas_size.h
    &&& exists|img: Image|
        composed(img, out.placed@, out.atlas_size.w as int, out.atlas_size.h as int)
            && sheet.rgba@ == raw_rgba(#[trigger] img.pixels@)
    &&& sheet.frames@.len() == out.placed@.len()
    &&& sheet.atlas_frames@.len() == out.placed@.len()
    &&& forall|i: int| 0 <= i < out.placed@.len() ==> #[trigger] sheet.frames@[i] == info_of(out.placed@[i])
    &&& forall|i: int|
        0 <= i < out.placed@.len() ==> #[trigger] sheet.atlas_frames@[i] == frame_of(out.placed@[i])
}

/// `sheet` and `overflow` are what packing `input` onto one sheet gives.
pub open spec fn sheet_from(
    alg: AlgorithmConfig,
    cfg: LayoutConfig,
    input: Seq<Sprite>,
    sheet: SheetOutput,
    overflow: Seq<Sprite>,
) -> bool {
    exists|out: PackOutput|
        #[trigger] packed_by(alg, out, input, cfg) && sheet_of(sheet, out) && overflow == out.overflow@
}

/// A sheet can be built from `s`: the packer's arithmetic takes the sprites, and
/// any atlas it may report has an RGBA buffer that fits in memory.
pub open spec fn sheet_fits(alg: AlgorithmConfig, s: Seq<Sprite>, cfg: LayoutConfig) -> bool {
    &&& packable(alg, s, cfg)
    &&& forall|out: PackOutput|
        #[trigger] packed_by(alg, out, s, cfg) ==> 4 * out.atlas_size.w * out.atlas_size.h
            <= usize::MAX
}

/// Pack the sprites onto one sheet and compose its texture and frame lists.
/// Returns the sheet and the sprites that did not fit.
pub fn build_sheet(
    alg: AlgorithmConfig,
    sprites: Vec<Sprite>,
    layout: LayoutConfig,
    sprite_config: SpriteConfig,
) -> (r: Result<(SheetOutput, Vec<Sprite>), PipelineError>)
    requires
        images_wf(sprites@),
    ensures
        sprites@.len() == 0 ==> r matches Err(PipelineError::Packing(CoreError::NoSprites)),
        sprites@.len() > 0 && !packable(alg, sprites@, layout) ==> r matches Err(
            PipelineError::TooLarge,
        ),
        r matches Err(PipelineError::Packing(e)) ==> sprites@.len() == 0 && e is NoSprites,
        r matches Ok((sheet, overflow)) ==> sheet_from(alg, layout, sprites@, sheet, overflow@)
            && images_wf(overflow@),
        r matches Err(PipelineError::TooLarge) ==> !packable(alg, sprites@, layout) || exists|
            out: PackOutput,
        |
            #[trigger] packed_by(alg, out, sprites@, layout) && 4 * out.atlas_size.w
                * out.atlas_size.h > usize::MAX,
        r matches Err(PipelineError::TooLarge) ==> sprites@.len() > 0 && !sheet_fits(
            alg,
            sprites@,
            layout,
        ),
        sprites@.len() > 0 && sheet_fits(alg, sprites@, layout) ==> r is Ok,
{
    let ghost input = sprites@;
    let out = pack_with(alg, sprites, layout, sprite_config)?;
    proof {
        lemma_packed_blit_ok(alg, out, input, layout);
    }
    let w = out.atlas_size.w;
    let h = out.atlas_size.h;
    let area = (w as u64).checked_mul(h as u64);
    let fits = match area {
        Some(a) => a <= (usize::MAX as u64) / 4,
        None => false,
    };
    if !fits {
        proof {
            assert(4 * w * h > usize::MAX) by (nonlinear_arith)
                requires
                    area matches Some(a) ==> a == w * h && a > usize::MAX as u64 / 4,
                    area is None ==> w * h > u64::MAX,
                    usize::MAX <= u64::MAX,
            ;
            assert(packed_by(alg, out, input, layout));
        }
        return Err(PipelineError::TooLarge);
    }
    let img = compose_sheet(&out.placed, w, h);
    let rgba = img.as_raw();
    let frames = frame_infos(&out.placed);
    let atlas = atlas_frames(&out.placed);
    let sheet = SheetOutput { rgba, width: w, height: h, frames, atlas_frames: atlas };
    assert(sheet_of(sheet, out));
    Ok((sheet, out.overflow))
}

/// `sheet` is `raw` with one frame per alias appended, each at the rectangle of the
/// frame it duplicates among `raw`'s frames.
pub open spec fn with_alias_frames(raw: SheetOutput, aliases: Seq<Sprite>, sheet: SheetOutput) -> bool {
    &&& sheet.rgba@ == raw.rgba@
    &&& sheet.width == raw.width
    &&& sheet.height == raw.height
    &&& sheet.frames@ == raw.frames@ + Seq::new(
        aliases.len(),
        |k: int| alias_info(aliases[k], alias_target(raw.frames@, alias_name(aliases[k]))),
    )
    &&& sheet.atlas_frames@ == raw.atlas_frames@ + Seq::new(
        aliases.len(),
        |k: int| alias_frame(aliases[k], alias_target(raw.frames@, alias_name(aliases[k]))),
    )
}

/// The unique sprites and the aliases a run packs: alias detection's split when
/// it is on, else all sprites and no aliases.
pub open spec fn run_split(sprites: Seq<Sprite>, detect: bool) -> (Seq<Sprite>, Seq<Sprite>) {
    if detect {
        alias_split(sprites)
    } else {
        (sprites, Seq::empty())
    }
}

/// The sheets of a run: sheet `i` packs `inputs[i]`, the first the unique sprites,
/// each later one the overflow of the one before, and the first also carries the
/// alias frames. A further sheet is made only with multipack on and only while the
/// overflow is not empty and smaller than the sheet's input; `ovfs` holds each
/// sheet's overflow.
pub open spec fn pack_run(
    alg: AlgorithmConfig,
    cfg: LayoutConfig,
    multipack: bool,
    base: Seq<Sprite>,
    aliases: Seq<Sprite>,
    sheets: Seq<SheetOutput>,
    inputs: Seq<Seq<Sprite>>,
    ovfs: Seq<Seq<Sprite>>,
    raw0: SheetOutput,
) -> bool {
    let n = sheets.len();
    &&& n >= 1
    &&& inputs.len() == n
    &&& ovfs.len() == n
    &&& inputs[0] == base
    &&& sheet_from(alg, cfg, inputs[0], raw0, ovfs[0])
    &&& with_alias_frames(raw0, aliases, sheets[0])
    &&& forall|i: int| 1 <= i < n ==> #[trigger] inputs[i] == ovfs[i - 1]
    &&& forall|i: int| 1 <= i < n ==> sheet_from(alg, cfg, inputs[i], #[trigger] sheets[i], ovfs[i])
    &&& forall|i: int|
        0 <= i < n - 1 ==> multipack && (#[trigger] ovfs[i]).len() > 0 && ovfs[i].len()
            < inputs[i].len()
    &&& (ovfs[n - 1].len() == 0 || !multipack || ovfs[n - 1].len() == inputs[n - 1].len())
}

/// `inputs` are the sprite lists a run packs onto its first sheets, `built[i]`
/// and `ovfs[i]` being the sheet made of list `i` and what it leaves over (the
/// last list's sheet is not yet made): the first list is `base`, each later one
/// is the overflow of the sheet before, and a further sheet comes only with
/// multipack after a sheet that placed some sprites and left some over.
pub open spec fn run_reaches(
    alg: AlgorithmConfig,
    cfg: LayoutConfig,
    multipack: bool,
    base: Seq<Sprite>,
    inputs: Seq<Seq<Sprite>>,
    ovfs: Seq<Seq<Sprite>>,
    built: Seq<SheetOutput>,
) -> bool {
    let n = inputs.len();
    &&& n >= 1
    &&& ovfs.len() == n - 1
    &&& built.len() == n - 1
    &&& inputs[0] == base
    &&& forall|i: int| 1 <= i < n ==> #[trigger] inputs[i] == ovfs[i - 1]
    &&& forall|i: int| 0 <= i < n - 1 ==> sheet_from(alg, cfg, inputs[i], #[trigger] built[i], ovfs[i])
    &&& forall|i: int|
        0 <= i < n - 1 ==> multipack && (#[trigger] ovfs[i]).len() > 0 && ovfs[i].len()
            < inputs[i].len()
}

/// The sheets a run has built so far, and the list it packs next, extend what
/// the run reaches by that list.
proof fn lemma_run_reaches_next(
    alg: AlgorithmConfig,
    cfg: LayoutConfig,
    multipack: bool,
    base: Seq<Sprite>,
    sheets: Seq<SheetOutput>,
    inputs: Seq<Seq<Sprite>>,
    ovfs: Seq<Seq<Sprite>>,
    raw0: SheetOutput,
    inp: Seq<Sprite>,
)
    requires
        sheets.len() == inputs.len(),
        ovfs.len() == inputs.len(),
        inputs.len() == 0 ==> inp == base,
        inputs.len() > 0 ==> {
            &&& multipack
            &&& inp == ovfs[inputs.len() - 1]
            &&& inp.len() > 0
            &&& inp.len() < inputs[inputs.len() - 1].len()
            &&& inputs[0] == base
            &&& sheet_from(alg, cfg, inputs[0], raw0, ovfs[0])
            &&& forall|i: int| 1 <= i < inputs.len() ==> #[trigger] inputs[i] == ovfs[i - 1]
            &&& forall|i: int|
                1 <= i < inputs.len() ==> sheet_from(alg, cfg, inputs[i], #[trigger] sheets[i], ovfs[i])
            &&& forall|i: int|
                0 <= i < inputs.len() - 1 ==> multipack && (#[trigger] ovfs[i]).len() > 0
                    && ovfs[i].len() < inputs[i].len()
        },
    ensures
        run_reaches(
            alg,
            cfg,
            multipack,
            base,
            inputs.push(inp),
            ovfs,
            if inputs.len() == 0 {
                sheets
            } else {
                sheets.update(0, raw0)
            },
        ),
        inputs.push(inp)[inputs.len() as int] == inp,
{
    let ins2 = inputs.push(inp);
    let built = if inputs.len() == 0 {
        sheets
    } else {
        sheets.update(0, raw0)
    };
    assert forall|i: int| 0 <= i < ins2.len() - 1 implies sheet_from(
        alg,
        cfg,
        ins2[i],
        #[trigger] built[i],
        ovfs[i],
    ) by {
        assert(ins2[i] == inputs[i]);
    }
    assert forall|i: int| 1 <= i < ins2.len() implies #[trigger] ins2[i] == ovfs[i - 1] by {
        if i < inputs.len() {
            assert(inputs[i] == ovfs[i - 1]);
        }
    }
    assert forall|i: int| 0 <= i < ins2.len() - 1 implies multipack && (#[trigger] ovfs[i]).len() > 0
        && ovfs[i].len() < ins2[i].len() by {
        assert(ins2[i] == inputs[i]);
    }
}

/// Alias detection keeps each sprite's image: the unique sprites are input
/// sprites, and each alias is an input sprite with `alias_of` set.
pub proof fn lemma_alias_split_members(sprites: Seq<Sprite>)
    ensures
        forall|i: int|
            0 <= i < alias_split(sprites).0.len() ==> exists|j: int|
                0 <= j < sprites.len() && #[trigger] alias_split(sprites).0[i] == sprites[j],
        forall|i: int|
            0 <= i < alias_split(sprites).1.len() ==> exists|j: int, id: String|
                0 <= j < sprites.len() && #[trigger] alias_split(sprites).1[i] == with_alias(
                    sprites[j],
                    id,
                ),
    decreases sprites.len(),
{
    if sprites.len() > 0 {
        let d = sprites.drop_last();
        lemma_alias_split_members(d);
        let (u, a) = alias_split(d);
        assert forall|j: int| 0 <= j < d.len() implies #[trigger] d[j] == sprites[j] by {}
        let (u2, a2) = alias_split(sprites);
        assert forall|i: int| 0 <= i < u2.len() implies exists|j: int|
            0 <= j < sprites.len() && #[trigger] u2[i] == sprites[j] by {
            if i < u.len() {
                assert(u2[i] == u[i]);
                let j = choose|j: int| 0 <= j < d.len() && u[i] == d[j];
                assert(d[j] == sprites[j]);
            } else {
                assert(u2[i] == sprites[sprites.len() - 1]);
            }
        }
        assert forall|i: int| 0 <= i < a2.len() implies exists|j: int, id: String|
            0 <= j < sprites.len() && #[trigger] a2[i] == with_alias(sprites[j], id) by {
            if i < a.len() {
                assert(a2[i] == a[i]);
                let (j, id) = choose|j: int, id: String|
                    0 <= j < d.len() && a[i] == with_alias(d[j], id);
                assert(d[j] == sprites[j]);
            } else {
                let k = crate::alias::first_same(u, sprites.last())->0;
                assert(a2[i] == with_alias(sprites[sprites.len() - 1], u[k].id));
            }
        }
    }
}

/// Pack prepared sprites (already trimmed and extruded) into sheets: detect
/// aliases when asked, pack the unique sprites, give the first sheet a frame per
/// alias, and with multipack keep packing the overflow onto further sheets.
///
/// A further sheet is not started when the previous one placed nothing, since it
/// would place nothing again; the overflow then counts as not fitting.
pub fn run_pack_sprites(
    sprites: Vec<Sprite>,
    detect: bool,
    alg: AlgorithmConfig,
    layout: LayoutConfig,
    sprite_config: SpriteConfig,
    multipack: bool,
) -> (r: Result<WorkerOutput, PipelineError>)
    requires
        images_wf(sprites@),
    ensures
        run_split(sprites@, detect).0.len() == 0 ==> r matches Err(
            PipelineError::Packing(CoreError::NoSprites),
        ),
        r matches Err(PipelineError::Packing(e)) ==> run_split(sprites@, detect).0.len() == 0
            && e is NoSprites,
        r matches Err(PipelineError::TooLarge) ==> exists|
            inputs: Seq<Seq<Sprite>>,
            ovfs: Seq<Seq<Sprite>>,
            built: Seq<SheetOutput>,
        |
            #[trigger] run_reaches(
                alg,
                layout,
                multipack,
                run_split(sprites@, detect).0,
                inputs,
                ovfs,
                built,
            ) && !sheet_fits(alg, inputs[inputs.len() - 1], layout),
        run_split(sprites@, detect).0.len() > 0 && (forall|
            inputs: Seq<Seq<Sprite>>,
            ovfs: Seq<Seq<Sprite>>,
            built: Seq<SheetOutput>,
        |
            #[trigger] run_reaches(
                alg,
                layout,
                multipack,
                run_split(sprites@, detect).0,
                inputs,
                ovfs,
                built,
            ) ==> sheet_fits(alg, inputs[inputs.len() - 1], layout)) ==> r is Ok,
        r matches Ok(wo) ==> {
            &&& wo.sprite_count == run_split(sprites@, detect).0.len()
            &&& wo.alias_count == run_split(sprites@, detect).1.len()
            &&& exists|inputs: Seq<Seq<Sprite>>, ovfs: Seq<Seq<Sprite>>, raw0: SheetOutput|
                #[trigger] pack_run(
                    alg,
                    layout,
                    multipack,
                    run_split(sprites@, detect).0,
                    run_split(sprites@, detect).1,
                    wo.sheets@,
                    inputs,
                    ovfs,
                    raw0,
                ) && wo.overflow_count == ovfs[ovfs.len() - 1].len()
        },
{
    let ghost all = sprites@;
    let (base, aliases) = if detect {
        proof {
            lemma_alias_split_members(all);
        }
        detect_aliases(sprites)
    } else {
        (sprites, Vec::new())
    };
    assert((base@, aliases@) == run_split(all, detect));
    assert(images_wf(base@)) by {
        if detect {
            assert forall|i: int| 0 <= i < base@.len() implies (#[trigger] base@[i]).image.wf() by {
                let j = choose|j: int| 0 <= j < all.len() && alias_split(all).0[i] == all[j];
            }
        }
    }
    let sprite_count = base.len();
    let alias_count = aliases.len();
    let mut sheets: Vec<SheetOutput> = Vec::new();
    let mut remaining = base;
    let mut overflow_count: usize = 0;
    let ghost mut inputs: Seq<Seq<Sprite>> = Seq::empty();
    let ghost mut ovfs: Seq<Seq<Sprite>> = Seq::empty();
    let ghost mut raw0: SheetOutput = arbitrary();
    loop
        invariant_except_break
            images_wf(remaining@),
            (base@, aliases@) == run_split(all, detect),
            all == sprites@,
            overflow_count == 0,
            inputs.len() > 0 ==> base@.len() > 0,
            sheets@.len() == inputs.len(),
            ovfs.len() == inputs.len(),
            inputs.len() == 0 ==> remaining@ == base@,
            inputs.len() > 0 ==> {
                &&& multipack
                &&& remaining@ == ovfs[inputs.len() - 1]
                &&& remaining@.len() > 0
                &&& remaining@.len() < inputs[inputs.len() - 1].len()
                &&& inputs[0] == base@
                &&& sheet_from(alg, layout, inputs[0], raw0, ovfs[0])
                &&& with_alias_frames(raw0, aliases@, sheets@[0])
                &&& forall|i: int| 1 <= i < inputs.len() ==> #[trigger] inputs[i] == ovfs[i - 1]
                &&& forall|i: int|
                    1 <= i < inputs.len() ==> sheet_from(
                        alg,
                        layout,
                        inputs[i],
                        #[trigger] sheets@[i],
                        ovfs[i],
                    )
                &&& forall|i: int|
                    0 <= i < inputs.len() - 1 ==> multipack && (#[trigger] ovfs[i]).len() > 0
                        && ovfs[i].len() < inputs[i].len()
            },
        ensures
            (base@, aliases@) == run_split(all, detect),
            all == sprites@,
            base@.len() > 0,
            pack_run(alg, layout, multipack, base@, aliases@, sheets@, inputs, ovfs, raw0),
            overflow_count == ovfs[ovfs.len() - 1].len(),
        decreases remaining@.len(),
    {
        let ghost inp = remaining@;
        let n_in = remaining.len();
        let built = build_sheet(alg, remaining, layout, sprite_config);
        let (mut sheet, overflow) = match built {
            Ok(pair) => pair,
            Err(e) => {
                proof {
                    lemma_run_reaches_next(alg, layout, multipack, base@, sheets@, inputs, ovfs, raw0, inp);
                    let built = if inputs.len() == 0 {
                        sheets@
                    } else {
                        sheets@.update(0, raw0)
                    };
                    let ins2 = inputs.push(inp);
                    assert(run_reaches(alg, layout, multipack, run_split(all, detect).0, ins2, ovfs, built));
                    if e is TooLarge {
                        assert(!sheet_fits(alg, ins2[ins2.len() - 1], layout));
                    }
                }
                return Err(e);
            },
        };
        proof {
            lemma_sheet_counts(alg, layout, inp, sheet, overflow@);
        }
        if sheets.len() == 0 {
            let ghost raw = sheet;
            add_alias_frames(&mut sheet, &aliases);
            proof {
                raw0 = raw;
                let fl = raw.frames@.len();
                let al = raw.atlas_frames@.len();
                assert forall|k: int| 0 <= k < aliases@.len() implies sheet.frames@[fl + k]
                    == alias_info(aliases@[k], alias_target(raw.frames@, alias_name(aliases@[k])))
                    && sheet.atlas_frames@[al + k] == alias_frame(
                    aliases@[k],
                    alias_target(raw.frames@, alias_name(aliases@[k])),
                ) by {}
                assert(sheet.frames@ =~= raw.frames@ + Seq::new(
                    aliases@.len(),
                    |k: int| alias_info(aliases@[k], alias_target(raw.frames@, alias_name(aliases@[k]))),
                ));
                assert(sheet.atlas_frames@ =~= raw.atlas_frames@ + Seq::new(
                    aliases@.len(),
                    |k: int| alias_frame(aliases@[k], alias_target(raw.frames@, alias_name(aliases@[k]))),
                ));
            }
        }
        sheets.push(sheet);
        proof {
            inputs = inputs.push(inp);
            ovfs = ovfs.push(overflow@);
        }
        if overflow.len() == 0 {
            break;
        }
        if !multipack || overflow.len() >= n_in {
            overflow_count = overflow.len();
            break;
        }
        remaining = overflow;
    }
    let wo = WorkerOutput { sheets, sprite_count, alias_count, overflow_count };
    assert(pack_run(
        alg,
        layout,
        multipack,
        run_split(all, detect).0,
        run_split(all, detect).1,
        wo.sheets@,
        inputs,
        ovfs,
        raw0,
    ) && wo.overflow_count == ovfs[ovfs.len() - 1].len());
    Ok(wo)
}

/// The number of frames on the first `k` sheets.
pub open spec fn frames_total(sheets: Seq<SheetOutput>, k: int) -> int
    decreases k,
{
    if k <= 0 {
        0
    } else {
        frames_total(sheets, k - 1) + sheets[k - 1].frames@.len()
    }
}

/// One sheet: its frames and its overflow together account for its input.
proof fn lemma_sheet_counts(
    alg: AlgorithmConfig,
    cfg: LayoutConfig,
    input: Seq<Sprite>,
    sheet: SheetOutput,
    overflow: Seq<Sprite>,
)
    requires
        sheet_from(alg, cfg, input, sheet, overflow),
    ensures
        sheet.frames@.len() + overflow.len() == input.len(),
{
    let out = choose|out: PackOutput|
        #[trigger] packed_by(alg, out, input, cfg) && sheet_of(sheet, out) && overflow
            == out.overflow@;
    assert(is_partition(out, input));
    let all = placed_sprites(out.placed@) + out.overflow@;
    assert(all.len() == all.to_multiset().len());
    assert(input.len() == input.to_multiset().len());
}

/// Over the first `k` sheets of a run, frames plus the last overflow account for
/// the unique sprites and the aliases.
proof fn lemma_run_prefix_counts(
    alg: AlgorithmConfig,
    cfg: LayoutConfig,
    multipack: bool,
    base: Seq<Sprite>,
    aliases: Seq<Sprite>,
    sheets: Seq<SheetOutput>,
    inputs: Seq<Seq<Sprite>>,
    ovfs: Seq<Seq<Sprite>>,
    raw0: SheetOutput,
    k: int,
)
    requires
        pack_run(alg, cfg, multipack, base, aliases, sheets, inputs, ovfs, raw0),
        1 <= k <= sheets.len(),
    ensures
        frames_total(sheets, k) + ovfs[k - 1].len() == base.len() + aliases.len(),
    decreases k,
{
    if k == 1 {
        lemma_sheet_counts(alg, cfg, inputs[0], raw0, ovfs[0]);
        assert(frames_total(sheets, 0) == 0);
    } else {
        lemma_run_prefix_counts(alg, cfg, multipack, base, aliases, sheets, inputs, ovfs, raw0, k - 1);
        assert(inputs[k - 1] == ovfs[k - 2]);
        assert(sheet_from(alg, cfg, inputs[k - 1], sheets[k - 1], ovfs[k - 1]));
        lemma_sheet_counts(alg, cfg, inputs[k - 1], sheets[k - 1], ovfs[k - 1]);
    }
}

/// No sprite goes missing in a pack run: the frames on all sheets plus the
/// sprites left over (the run's overflow count) add up to the sprites the run was
/// given, aliases included.
pub proof fn lemma_run_accounts_for_every_sprite(
    sprites: Seq<Sprite>,
    detect: bool,
    alg: AlgorithmConfig,
    cfg: LayoutConfig,
    multipack: bool,
    sheets: Seq<SheetOutput>,
    inputs: Seq<Seq<Sprite>>,
    ovfs: Seq<Seq<Sprite>>,
    raw0: SheetOutput,
)
    requires
        pack_run(
            alg,
            cfg,
            multipack,
            run_split(sprites, detect).0,
            run_split(sprites, detect).1,
            sheets,
            inputs,
            ovfs,
            raw0,
        ),
    ensures
        frames_total(sheets, sheets.len() as int) + ovfs[ovfs.len() - 1].len() == sprites.len(),
{
    let (base, aliases) = run_split(sprites, detect);
    lemma_run_prefix_counts(
        alg,
        cfg,
        multipack,
        base,
        aliases,
        sheets,
        inputs,
        ovfs,
        raw0,
        sheets.len() as int,
    );
    if detect {
        crate::alias::lemma_alias_split_laws(sprites);
    }
}

} // verus!
