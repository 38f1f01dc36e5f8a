use fastpack::config::{AlgorithmConfig, LayoutConfig, MaxRectsHeuristic, PackMode, SpriteConfig};
use fastpack::image::{Image, Rgba};
use fastpack::packer::{PlacedSprite, Placement};
use fastpack::pipeline::{build_sheet, run_pack_sprites, PipelineError};
use fastpack::rect::{Rect, Size};
use fastpack::sheet::{add_alias_frames, compose_sheet, SheetOutput};
use fastpack::sprite::Sprite;

fn filled(w: u32, h: u32, p: Rgba) -> Image {
    Image { width: w, height: h, pixels: vec![p; (w * h) as usize] }
}

fn sprite(id: &str, image: Image) -> Sprite {
    let (w, h) = (image.width, image.height);
    Sprite {
        id: id.to_string(),
        source_path: format!("{id}.png"),
        image,
        trim_rect: None,
        original_size: Size { w, h },
        nine_patch: None,
        content_hash: 0,
        extrude: 0,
        alias_of: None,
    }
}

fn layout(max_w: u32, max_h: u32) -> LayoutConfig {
    LayoutConfig {
        max_width: max_w,
        max_height: max_h,
        border_padding: 0,
        shape_padding: 0,
        pack_mode: PackMode::Fast,
        ..LayoutConfig::default()
    }
}

fn px(img: &Image, x: u32, y: u32) -> Rgba {
    img.pixels[(y * img.width + x) as usize]
}

#[test]
fn compose_copies_sprites_to_their_destinations() {
    let red = Rgba { r: 255, g: 0, b: 0, a: 255 };
    let blue = Rgba { r: 0, g: 0, b: 255, a: 255 };
    let placed = vec![
        PlacedSprite {
            sprite: sprite("a", filled(2, 2, red)),
            placement: Placement { sprite_id: "a".to_string(), dest: Rect::new(0, 0, 2, 2), rotated: false },
        },
        PlacedSprite {
            sprite: sprite("b", filled(1, 1, blue)),
            placement: Placement { sprite_id: "b".to_string(), dest: Rect::new(3, 1, 1, 1), rotated: false },
        },
    ];
    let img = compose_sheet(&placed, 4, 3);
    assert_eq!(px(&img, 1, 1), red);
    assert_eq!(px(&img, 3, 1), blue);
    assert_eq!(px(&img, 2, 0), Rgba { r: 0, g: 0, b: 0, a: 0 });
    assert_eq!(px(&img, 0, 2), Rgba { r: 0, g: 0, b: 0, a: 0 });
}

#[test]
fn compose_rotates_clockwise() {
    // 2 wide, 1 tall: left pixel A, right pixel B. Rotated 90° clockwise it is
    // 1 wide, 2 tall with A on top.
    let a = Rgba { r: 1, g: 0, b: 0, a: 255 };
    let b = Rgba { r: 2, g: 0, b: 0, a: 255 };
    let img = Image { width: 2, height: 1, pixels: vec![a, b] };
    let placed = vec![PlacedSprite {
        sprite: sprite("r", img),
        placement: Placement { sprite_id: "r".to_string(), dest: Rect::new(0, 0, 1, 2), rotated: true },
    }];
    let out = compose_sheet(&placed, 1, 2);
    assert_eq!(px(&out, 0, 0), a);
    assert_eq!(px(&out, 0, 1), b);
}

#[test]
fn compose_clips_outside_the_atlas() {
    let c = Rgba { r: 5, g: 5, b: 5, a: 255 };
    let placed = vec![PlacedSprite {
        sprite: sprite("w", filled(4, 1, c)),
        placement: Placement { sprite_id: "w".to_string(), dest: Rect::new(1, 0, 4, 1), rotated: false },
    }];
    let out = compose_sheet(&placed, 3, 1);
    assert_eq!(out.pixels, vec![Rgba { r: 0, g: 0, b: 0, a: 0 }, c, c]);
}

#[test]
fn build_sheet_frames_match_placements() {
    let c = Rgba { r: 9, g: 8, b: 7, a: 255 };
    let sprites = vec![sprite("a", filled(4, 4, c)), sprite("b", filled(2, 2, c))];
    let (sheet, overflow) = build_sheet(
        AlgorithmConfig::MaxRects { heuristic: MaxRectsHeuristic::BestShortSideFit },
        sprites,
        layout(64, 64),
        SpriteConfig::default(),
    )
    .unwrap();
    assert!(overflow.is_empty());
    assert_eq!(sheet.frames.len(), 2);
    assert_eq!(sheet.atlas_frames.len(), 2);
    assert_eq!(sheet.rgba.len(), (sheet.width * sheet.height * 4) as usize);
    for f in &sheet.frames {
        let i = ((f.y * sheet.width + f.x) * 4) as usize;
        assert_eq!(&sheet.rgba[i..i + 4], &[9, 8, 7, 255]);
    }
}

#[test]
fn build_sheet_empty_is_no_sprites() {
    let r = build_sheet(AlgorithmConfig::Basic, vec![], layout(64, 64), SpriteConfig::default());
    assert!(matches!(r, Err(PipelineError::Packing(fastpack::packer::CoreError::NoSprites))));
}

#[test]
fn build_sheet_refuses_out_of_range_layout() {
    let mut cfg = layout(64, 64);
    cfg.border_padding = u32::MAX;
    let c = Rgba { r: 1, g: 1, b: 1, a: 255 };
    let r = build_sheet(AlgorithmConfig::Basic, vec![sprite("a", filled(1, 1, c))], cfg, SpriteConfig::default());
    assert!(matches!(r, Err(PipelineError::TooLarge)));
}

#[test]
fn alias_frames_point_at_their_canonical_frame() {
    let c = Rgba { r: 3, g: 3, b: 3, a: 255 };
    let (mut sheet, _) =
        build_sheet(AlgorithmConfig::Basic, vec![sprite("a", filled(4, 4, c))], layout(64, 64), SpriteConfig::default())
            .unwrap();
    let mut alias = sprite("b", filled(4, 4, c));
    alias.alias_of = Some("a".to_string());
    let mut dangling = sprite("z", filled(1, 1, c));
    dangling.alias_of = Some("missing".to_string());
    add_alias_frames(&mut sheet, &vec![alias, dangling]);
    let a = &sheet.frames[0];
    let b = &sheet.frames[1];
    assert_eq!((b.x, b.y, b.w, b.h), (a.x, a.y, a.w, a.h));
    assert_eq!(b.alias_of.as_deref(), Some("a"));
    let z = &sheet.frames[2];
    assert_eq!((z.x, z.y, z.w, z.h), (0, 0, 0, 0));
    assert_eq!(sheet.atlas_frames[1].alias_of.as_deref(), Some("a"));
}

#[test]
fn run_counts_sprites_aliases_and_overflow() {
    let c = Rgba { r: 1, g: 2, b: 3, a: 255 };
    let d = Rgba { r: 4, g: 5, b: 6, a: 255 };
    let sprites = vec![
        sprite("a", filled(8, 8, c)),
        sprite("b", filled(8, 8, c)),
        sprite("c", filled(8, 8, d)),
    ];
    let out = run_pack_sprites(
        sprites,
        true,
        AlgorithmConfig::MaxRects { heuristic: MaxRectsHeuristic::BestShortSideFit },
        layout(64, 64),
        SpriteConfig::default(),
        false,
    )
    .unwrap();
    assert_eq!(out.sprite_count, 2);
    assert_eq!(out.alias_count, 1);
    assert_eq!(out.overflow_count, 0);
    assert_eq!(out.sheets.len(), 1);
    let frames = &out.sheets[0].frames;
    assert_eq!(frames.len(), 3);
    assert_eq!(frames[2].alias_of.as_deref(), Some("a"));
}

#[test]
fn multipack_spreads_over_sheets() {
    let c = Rgba { r: 1, g: 1, b: 1, a: 255 };
    let sprites: Vec<Sprite> = (0..3).map(|i| sprite(&format!("s{i}"), filled(16, 16, Rgba { r: i as u8, ..c }))).collect();
    let out = run_pack_sprites(
        sprites,
        false,
        AlgorithmConfig::Basic,
        layout(16, 16),
        SpriteConfig::default(),
        true,
    )
    .unwrap();
    assert_eq!(out.sheets.len(), 3);
    assert_eq!(out.overflow_count, 0);
    let total: usize = out.sheets.iter().map(|s: &SheetOutput| s.frames.len()).sum();
    assert_eq!(total, 3);
}

#[test]
fn without_multipack_the_rest_overflows() {
    let c = Rgba { r: 1, g: 1, b: 1, a: 255 };
    let sprites: Vec<Sprite> = (0..3).map(|i| sprite(&format!("s{i}"), filled(16, 16, Rgba { r: i as u8, ..c }))).collect();
    let out = run_pack_sprites(sprites, false, AlgorithmConfig::Basic, layout(16, 16), SpriteConfig::default(), false)
        .unwrap();
    assert_eq!(out.sheets.len(), 1);
    assert_eq!(out.overflow_count, 2);
}

#[test]
fn multipack_stops_when_nothing_fits() {
    let c = Rgba { r: 1, g: 1, b: 1, a: 255 };
    let out = run_pack_sprites(
        vec![sprite("big", filled(32, 32, c))],
        false,
        AlgorithmConfig::MaxRects { heuristic: MaxRectsHeuristic::BestShortSideFit },
        layout(16, 16),
        SpriteConfig::default(),
        true,
    )
    .unwrap();
    assert_eq!(out.sheets.len(), 1);
    assert_eq!(out.overflow_count, 1);
}
