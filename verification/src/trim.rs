use vstd::prelude::*;

use crate::config::{round_up_to, SpriteConfig, TrimMode};
use crate::image::{crop_of, lemma_coords, lemma_mul_le_u, Image, Rgba};
use crate::rect::SourceRect;
use crate::sprite::Sprite;

verus! {

/// Hash a byte string with `rustc_hash::FxHasher` (one `write`, then `finish`).
/// Nothing is claimed about the value: FxHasher mixes in machine words, so the
/// same bytes hash differently on 32- and 64-bit targets.
#[verifier::external_body]
fn fx_hash(bytes: &[u8]) -> u64 {
    let mut h = rustc_hash::FxHasher::default();
    std::hash::Hasher::write(&mut h, bytes);
    std::hash::Hasher::finish(&h)
}

/// Hash of an image's RGBA bytes, used for alias detection.
pub fn content_hash(img: &Image) -> u64
    requires
        4 * img.pixels@.len() <= usize::MAX,
{
    let raw = img.as_raw();
    fx_hash(&raw)
}

/// Pixel `j` (flat, row-major) has alpha above the threshold.
pub open spec fn opaque_at(img: Image, t: u8, j: int) -> bool {
    img.pixels@[j].a > t
}

/// Some pixel has alpha above the threshold.
pub open spec fn any_opaque(img: Image, t: u8) -> bool {
    exists|j: int| 0 <= j < img.pixels@.len() && #[trigger] opaque_at(img, t, j)
}

/// `(x1, y1, x2, y2)` is the inclusive bounding box of the pixels with alpha above
/// the threshold: every such pixel lies inside, and each edge touches one.
pub open spec fn is_opaque_bbox(img: Image, t: u8, x1: int, y1: int, x2: int, y2: int) -> bool {
    let w = img.width as int;
    &&& forall|j: int|
        0 <= j < img.pixels@.len() && #[trigger] opaque_at(img, t, j) ==> x1 <= j % w <= x2 && y1
            <= j / w <= y2
    &&& exists|j: int| 0 <= j < img.pixels@.len() && #[trigger] opaque_at(img, t, j) && j % w == x1
    &&& exists|j: int| 0 <= j < img.pixels@.len() && #[trigger] opaque_at(img, t, j) && j % w == x2
    &&& exists|j: int| 0 <= j < img.pixels@.len() && #[trigger] opaque_at(img, t, j) && j / w == y1
    &&& exists|j: int| 0 <= j < img.pixels@.len() && #[trigger] opaque_at(img, t, j) && j / w == y2
}

/// The inclusive pixel bounding box `(x_min, y_min, x_max, y_max)` of all pixels whose
/// alpha exceeds `threshold`; `None` if there are none.
pub fn find_opaque_bounds(img: &Image, threshold: u8) -> (r: Option<(u32, u32, u32, u32)>)
    requires
        img.wf(),
    ensures
        r is None <==> !any_opaque(*img, threshold),
        r matches Some((x1, y1, x2, y2)) ==> is_opaque_bbox(
            *img,
            threshold,
            x1 as int,
            y1 as int,
            x2 as int,
            y2 as int,
        ) && x1 <= x2 < img.width && y1 <= y2 < img.height,
{
    let w = img.width;
    let h = img.height;
    let n = img.pixels.len();
    if w == 0 || h == 0 {
        assert(w as int * h as int == 0) by (nonlinear_arith)
            requires
                w == 0 || h == 0,
        ;
        return None;
    }
    let mut x1 = u32::MAX;
    let mut y1 = u32::MAX;
    let mut x2 = 0u32;
    let mut y2 = 0u32;
    let mut found = false;
    let ghost mut jx1: int = 0;
    let ghost mut jx2: int = 0;
    let ghost mut jy1: int = 0;
    let ghost mut jy2: int = 0;
    let ghost wi = w as int;
    let mut k: usize = 0;
    while k < n
        invariant
            img.wf(),
            n == img.pixels@.len(),
            n == w * h,
            wi == w,
            w >= 1,
            k <= n,
            !found ==> forall|j: int| 0 <= j < k ==> !#[trigger] opaque_at(*img, threshold, j),
            found ==> {
                &&& forall|j: int|
                    0 <= j < k && #[trigger] opaque_at(*img, threshold, j) ==> x1 <= j % wi <= x2
                        && y1 <= j / wi <= y2
                &&& 0 <= jx1 < k && opaque_at(*img, threshold, jx1) && jx1 % wi == x1
                &&& 0 <= jx2 < k && opaque_at(*img, threshold, jx2) && jx2 % wi == x2
                &&& 0 <= jy1 < k && opaque_at(*img, threshold, jy1) && jy1 / wi == y1
                &&& 0 <= jy2 < k && opaque_at(*img, threshold, jy2) && jy2 / wi == y2
                &&& x1 <= x2 < w
                &&& y1 <= y2 < h
            },
        decreases n - k,
    {
        proof {
            lemma_coords(k as int, w as int, h as int);
        }
        let x = (k % (w as usize)) as u32;
        let y = (k / (w as usize)) as u32;
        if img.pixels[k].a > threshold {
            if !found {
                x1 = x;
                y1 = y;
                x2 = x;
                y2 = y;
                found = true;
                proof {
                    jx1 = k as int;
                    jx2 = k as int;
                    jy1 = k as int;
                    jy2 = k as int;
                }
            } else {
                if x < x1 {
                    x1 = x;
                    proof {
                        jx1 = k as int;
                    }
                }
                if x > x2 {
                    x2 = x;
                    proof {
                        jx2 = k as int;
                    }
                }
                if y > y2 {
                    y2 = y;
                    proof {
                        jy2 = k as int;
                    }
                }
                // y1 cannot decrease since we scan top-to-bottom.
                proof {
                    vstd::arithmetic::div_mod::lemma_div_is_ordered(jy1, k as int, wi);
                }
            }
        }
        k = k + 1;
    }
    if found {
        Some((x1, y1, x2, y2))
    } else {
        None
    }
}

/// `size` rounded up to the nearest multiple of `divisor`; unchanged when `divisor`
/// is 0 or 1.
pub open spec fn expand_spec(size: int, divisor: int) -> int {
    if divisor <= 1 {
        size
    } else {
        round_up_to(size, divisor)
    }
}

/// Round `size` up to the nearest multiple of `divisor`. Returns `size` unchanged
/// when `divisor` is 0 or 1.
pub fn expand_to_divisor(size: u32, divisor: u32) -> (r: u32)
    requires
        expand_spec(size as int, divisor as int) <= u32::MAX,
    ensures
        r == expand_spec(size as int, divisor as int),
{
    if divisor <= 1 {
        return size;
    }
    let r = size % divisor;
    if r == 0 {
        size
    } else {
        size + (divisor - r)
    }
}

/// `expand_spec` is monotone in the size and never shrinks it.
pub proof fn lemma_expand_monotone(a: int, b: int, d: int)
    requires
        0 <= a <= b,
    ensures
        a <= expand_spec(a, d) <= expand_spec(b, d),
{
    if d > 1 {
        let qa = a / d;
        let qb = b / d;
        let ra = a % d;
        let rb = b % d;
        vstd::arithmetic::div_mod::lemma_fundamental_div_mod(a, d);
        vstd::arithmetic::div_mod::lemma_fundamental_div_mod(b, d);
        vstd::arithmetic::div_mod::lemma_div_is_ordered(a, b, d);
        assert(0 <= ra < d && 0 <= rb < d);
        assert(d * (qa + 1) == d * qa + d) by (nonlinear_arith);
        if qa < qb {
            assert(d * (qa + 1) <= d * qb) by (nonlinear_arith)
                requires
                    qa + 1 <= qb,
                    d > 1,
            ;
        } else {
            assert(qa == qb);
        }
    }
}

/// The trimmed region for a bounding box: widened by the margin (clamped to the
/// image), sizes rounded up to the common divisors (clamped to the image).
/// Returns `(x, y, w, h)`.
pub open spec fn trim_region(
    x1: int,
    y1: int,
    x2: int,
    y2: int,
    img_w: int,
    img_h: int,
    cfg: SpriteConfig,
) -> (int, int, int, int) {
    let m = cfg.trim_margin as int;
    let ax1 = if x1 >= m {
        x1 - m
    } else {
        0
    };
    let ay1 = if y1 >= m {
        y1 - m
    } else {
        0
    };
    let ax2 = if x2 + m <= img_w - 1 {
        x2 + m
    } else {
        img_w - 1
    };
    let ay2 = if y2 + m <= img_h - 1 {
        y2 + m
    } else {
        img_h - 1
    };
    let ew = expand_spec(ax2 - ax1 + 1, cfg.common_divisor_x as int);
    let eh = expand_spec(ay2 - ay1 + 1, cfg.common_divisor_y as int);
    let tw = if ew <= img_w - ax1 {
        ew
    } else {
        img_w - ax1
    };
    let th = if eh <= img_h - ay1 {
        eh
    } else {
        img_h - ay1
    };
    (ax1, ay1, tw, th)
}

/// The arithmetic of trimming stays within `u32`.
pub open spec fn trim_in_range(img: Image, cfg: SpriteConfig) -> bool {
    &&& img.wf()
    &&& 4 * img.pixels@.len() <= usize::MAX
    &&& img.width + cfg.trim_margin <= u32::MAX
    &&& img.height + cfg.trim_margin <= u32::MAX
    &&& expand_spec(img.width as int, cfg.common_divisor_x as int) <= u32::MAX
    &&& expand_spec(img.height as int, cfg.common_divisor_y as int) <= u32::MAX
}

/// Everything but the image, the trim rectangle and the content hash is unchanged.
pub open spec fn same_metadata(a: Sprite, b: Sprite) -> bool {
    &&& a.id == b.id
    &&& a.source_path == b.source_path
    &&& a.original_size == b.original_size
    &&& a.nine_patch == b.nine_patch
    &&& a.extrude == b.extrude
    &&& a.alias_of == b.alias_of
}

/// What trimming `old` with `cfg` leaves (`new`): nothing changes for `NoTrim` or
/// an image with no pixel above the threshold; otherwise, for the opaque bounding
/// box, the trim region of `trim_region` is cut out and recorded as the trim
/// rectangle, unless that region is the whole image, which leaves the sprite as it was.
pub open spec fn trim_result(old: Sprite, new: Sprite, cfg: SpriteConfig) -> bool {
    &&& (cfg.trim_mode == TrimMode::NoTrim || !any_opaque(old.image, cfg.trim_threshold)) ==> new == old
    &&& (cfg.trim_mode != TrimMode::NoTrim && any_opaque(old.image, cfg.trim_threshold))
        ==> exists|x1: int, y1: int, x2: int, y2: int|
        #![trigger is_opaque_bbox(old.image, cfg.trim_threshold, x1, y1, x2, y2)]
        {
            let img = old.image;
            let (rx, ry, tw, th) = trim_region(x1, y1, x2, y2, img.width as int, img.height as int, cfg);
            &&& is_opaque_bbox(img, cfg.trim_threshold, x1, y1, x2, y2)
            &&& if rx == 0 && ry == 0 && tw == img.width && th == img.height {
                new == old
            } else {
                &&& new.trim_rect == Some(
                    SourceRect { x: rx as i32, y: ry as i32, w: tw as u32, h: th as u32 },
                )
                &&& crop_of(new.image, img, rx, ry, tw, th)
                &&& same_metadata(new, old)
            }
        }
}

/// Trimming cuts out the opaque bounding box widened by `trim_margin` on every side,
/// clamped to the image: a trimmed sprite's rectangle starts `trim_margin` left of and
/// above the box (or at the image edge), reaches at least `trim_margin` past its right
/// and bottom edges (or the image edge), and stays inside the image.
pub proof fn lemma_trim_widens_by_margin(old: Sprite, new: Sprite, cfg: SpriteConfig)
    requires
        old.image.wf(),
        trim_result(old, new, cfg),
        new != old,
    ensures
        exists|x1: int, y1: int, x2: int, y2: int|
            #![trigger is_opaque_bbox(old.image, cfg.trim_threshold, x1, y1, x2, y2)]
            {
                let m = cfg.trim_margin as int;
                let w = old.image.width as int;
                let h = old.image.height as int;
                let left = if x1 >= m { x1 - m } else { 0 };
                let top = if y1 >= m { y1 - m } else { 0 };
                let right = if x2 + m <= w - 1 { x2 + m } else { w - 1 };
                let bottom = if y2 + m <= h - 1 { y2 + m } else { h - 1 };
                let dx = cfg.common_divisor_x as int;
                let dy = cfg.common_divisor_y as int;
                &&& is_opaque_bbox(old.image, cfg.trim_threshold, x1, y1, x2, y2)
                &&& new.trim_rect matches Some(r) && r.x == left as i32 && r.y == top as i32 && left + r.w
                    >= right + 1 && top + r.h >= bottom + 1 && left + r.w <= w && top + r.h <= h
                    && r.w <= right - left + 1 + (if dx > 1 { dx - 1 } else { 0 }) && r.h <= bottom - top
                    + 1 + (if dy > 1 { dy - 1 } else { 0 }) && (dx > 1 && left + r.w < w ==> (r.w as int) % dx == 0)
                    && (dy > 1 && top + r.h < h ==> (r.h as int) % dy == 0)
            },
{
    let t = cfg.trim_threshold;
    let img = old.image;
    let w = img.width as int;
    let h = img.height as int;
    let (x1, y1, x2, y2) = choose|x1: int, y1: int, x2: int, y2: int|
        #![trigger is_opaque_bbox(old.image, cfg.trim_threshold, x1, y1, x2, y2)]
        {
            let (rx, ry, tw, th) = trim_region(x1, y1, x2, y2, w, h, cfg);
            &&& is_opaque_bbox(img, t, x1, y1, x2, y2)
            &&& if rx == 0 && ry == 0 && tw == img.width && th == img.height {
                new == old
            } else {
                &&& new.trim_rect == Some(
                    SourceRect { x: rx as i32, y: ry as i32, w: tw as u32, h: th as u32 },
                )
                &&& crop_of(new.image, img, rx, ry, tw, th)
                &&& same_metadata(new, old)
            }
        };
    let jx1 = choose|j: int| 0 <= j < img.pixels@.len() && #[trigger] opaque_at(img, t, j) && j % w == x1;
    let jx2 = choose|j: int| 0 <= j < img.pixels@.len() && #[trigger] opaque_at(img, t, j) && j % w == x2;
    let jy1 = choose|j: int| 0 <= j < img.pixels@.len() && #[trigger] opaque_at(img, t, j) && j / w == y1;
    let jy2 = choose|j: int| 0 <= j < img.pixels@.len() && #[trigger] opaque_at(img, t, j) && j / w == y2;
    lemma_coords(jx1, w, h);
    lemma_coords(jx2, w, h);
    lemma_coords(jy1, w, h);
    lemma_coords(jy2, w, h);
    assert(0 <= x1 <= x2 < w && 0 <= y1 <= y2 < h) by {
        assert(x1 <= jx2 % w <= x2);
        assert(y1 <= jy2 / w <= y2);
    }
    let (rx, ry, tw, th) = trim_region(x1, y1, x2, y2, w, h, cfg);
    let m = cfg.trim_margin as int;
    let ax2 = if x2 + m <= w - 1 { x2 + m } else { w - 1 };
    let ay2 = if y2 + m <= h - 1 { y2 + m } else { h - 1 };
    lemma_expand_monotone(ax2 - rx + 1, ax2 - rx + 1, cfg.common_divisor_x as int);
    lemma_expand_monotone(ay2 - ry + 1, ay2 - ry + 1, cfg.common_divisor_y as int);
    assert(tw >= ax2 - rx + 1 && th >= ay2 - ry + 1);
    assert(rx + tw <= w && ry + th <= h);
    lemma_expand_rounds(ax2 - rx + 1, cfg.common_divisor_x as int);
    lemma_expand_rounds(ay2 - ry + 1, cfg.common_divisor_y as int);
}

/// Rounding a positive size up to a divisor above 1 gives a multiple of it, less
/// than a divisor above the size.
proof fn lemma_expand_rounds(n: int, d: int)
    requires
        n >= 1,
    ensures
        expand_spec(n, d) <= n + (if d > 1 { d - 1 } else { 0 }),
        d > 1 ==> expand_spec(n, d) % d == 0,
{
    if d > 1 {
        vstd::arithmetic::div_mod::lemma_fundamental_div_mod(n, d);
        let q = n / d;
        let r = n % d;
        if r == 0 {
            assert(expand_spec(n, d) == n);
        } else {
            assert(expand_spec(n, d) == d * q + d);
            assert(d * q + d == (q + 1) * d) by (nonlinear_arith);
            vstd::arithmetic::div_mod::lemma_mod_multiples_basic(q + 1, d);
        }
    }
}

/// Trim transparent borders from a sprite's image.
///
/// Modifies `sprite.image`, `sprite.trim_rect` and `sprite.content_hash`.
/// `sprite.original_size` is left unchanged.
///
/// For `TrimMode::NoTrim` the function is a no-op, and so it is for an image with no
/// pixel above the threshold. Otherwise the image is cropped to the opaque bounding
/// box plus `trim_margin`, with the size rounded up to the common divisors, all
/// clamped to the image. When that region is the whole image there is nothing to
/// trim, and the sprite is left unchanged (no trim rectangle is set). `Polygon`
/// trims like `Trim`.
pub fn trim(sprite: &mut Sprite, config: &SpriteConfig)
    requires
        config.trim_mode != TrimMode::NoTrim ==> trim_in_range(old(sprite).image, *config),
    ensures
        trim_result(*old(sprite), *final(sprite), *config),
{
    if matches!(config.trim_mode, TrimMode::NoTrim) {
        return;
    }
    let img_w = sprite.image.width;
    let img_h = sprite.image.height;
    let bounds = find_opaque_bounds(&sprite.image, config.trim_threshold);
    let (mut x1, mut y1, mut x2, mut y2) = match bounds {
        Some(b) => b,
        // Fully transparent — pack the full image with no trim offset.
        None => return,
    };
    let ghost (bx1, by1, bx2, by2) = (x1 as int, y1 as int, x2 as int, y2 as int);

    // Expand by trim_margin, clamped to image bounds.
    let m = config.trim_margin;
    x1 = x1.saturating_sub(m);
    y1 = y1.saturating_sub(m);
    x2 = if x2 + m <= img_w - 1 {
        x2 + m
    } else {
        img_w - 1
    };
    y2 = if y2 + m <= img_h - 1 {
        y2 + m
    } else {
        img_h - 1
    };

    // Align width and height to common_divisor requirements.
    proof {
        lemma_expand_monotone((x2 - x1 + 1) as int, img_w as int, config.common_divisor_x as int);
        lemma_expand_monotone((y2 - y1 + 1) as int, img_h as int, config.common_divisor_y as int);
    }
    let ew = expand_to_divisor(x2 - x1 + 1, config.common_divisor_x);
    let eh = expand_to_divisor(y2 - y1 + 1, config.common_divisor_y);
    let tw = if ew <= img_w - x1 {
        ew
    } else {
        img_w - x1
    };
    let th = if eh <= img_h - y1 {
        eh
    } else {
        img_h - y1
    };

    if x1 == 0 && y1 == 0 && tw == img_w && th == img_h {
        // The region is the whole image: nothing to trim.
        assert(is_opaque_bbox(sprite.image, config.trim_threshold, bx1, by1, bx2, by2));
        return;
    }
    let ghost old_sprite = *sprite;
    sprite.trim_rect = Some(SourceRect { x: x1 as i32, y: y1 as i32, w: tw, h: th });
    let cropped = sprite.image.crop(x1, y1, tw, th);
    // Rehash with the trimmed pixels so alias detection compares the actual
    // packed content, not the (possibly differently-bordered) original.
    proof {
        lemma_mul_le_u(tw as int, th as int, img_w as int, img_h as int);
    }
    sprite.content_hash = content_hash(&cropped);
    sprite.image = cropped;
    assert(is_opaque_bbox(old_sprite.image, config.trim_threshold, bx1, by1, bx2, by2));
}

/// `size` rounded up to a multiple of `divisor` without the `u32` limit.
fn expand_wide(size: u64, divisor: u64) -> (r: u64)
    requires
        size <= u32::MAX,
        divisor <= u32::MAX,
    ensures
        r == expand_spec(size as int, divisor as int),
{
    if divisor <= 1 {
        return size;
    }
    let r = size % divisor;
    if r == 0 {
        size
    } else {
        size + (divisor - r)
    }
}

/// Whether trimming this image under `cfg` stays within the integer ranges
/// (see `trim_in_range`).
pub fn trim_fits(img: &Image, cfg: &SpriteConfig) -> (b: bool)
    requires
        img.wf(),
    ensures
        b == trim_in_range(*img, *cfg),
{
    let n = img.pixels.len();
    if n > usize::MAX / 4 {
        return false;
    }
    let w = img.width as u64;
    let h = img.height as u64;
    let m = cfg.trim_margin as u64;
    w + m <= 0xffff_ffff && h + m <= 0xffff_ffff && expand_wide(w, cfg.common_divisor_x as u64)
        <= 0xffff_ffff && expand_wide(h, cfg.common_divisor_y as u64) <= 0xffff_ffff
}

/// Trimming loses no pixel above the threshold: each one lies inside the trim
/// region and shows, unchanged, at its offset in the trimmed image.
pub proof fn lemma_trim_keeps_opaque(
    img: Image,
    t: u8,
    x1: int,
    y1: int,
    x2: int,
    y2: int,
    cfg: SpriteConfig,
    out: Image,
    j: int,
)
    requires
        img.wf(),
        is_opaque_bbox(img, t, x1, y1, x2, y2),
        0 <= x1 <= x2 < img.width,
        0 <= y1 <= y2 < img.height,
        crop_of(
            out,
            img,
            trim_region(x1, y1, x2, y2, img.width as int, img.height as int, cfg).0,
            trim_region(x1, y1, x2, y2, img.width as int, img.height as int, cfg).1,
            trim_region(x1, y1, x2, y2, img.width as int, img.height as int, cfg).2,
            trim_region(x1, y1, x2, y2, img.width as int, img.height as int, cfg).3,
        ),
        0 <= j < img.pixels@.len(),
        opaque_at(img, t, j),
    ensures
        ({
            let (rx, ry, tw, th) = trim_region(
                x1,
                y1,
                x2,
                y2,
                img.width as int,
                img.height as int,
                cfg,
            );
            let w = img.width as int;
            &&& rx <= j % w < rx + tw
            &&& ry <= j / w < ry + th
            &&& out.at(j % w - rx, j / w - ry) == img.pixels@[j]
        }),
{
    let w = img.width as int;
    let h = img.height as int;
    let (rx, ry, tw, th) = trim_region(x1, y1, x2, y2, w, h, cfg);
    lemma_coords(j, w, h);
    let px = j % w;
    let py = j / w;
    assert(x1 <= px <= x2 && y1 <= py <= y2);
    let m = cfg.trim_margin as int;
    let ax2 = if x2 + m <= w - 1 {
        x2 + m
    } else {
        w - 1
    };
    let ay2 = if y2 + m <= h - 1 {
        y2 + m
    } else {
        h - 1
    };
    lemma_expand_monotone(ax2 - rx + 1, ax2 - rx + 1, cfg.common_divisor_x as int);
    lemma_expand_monotone(ay2 - ry + 1, ay2 - ry + 1, cfg.common_divisor_y as int);
    assert(tw >= ax2 - rx + 1);
    assert(th >= ay2 - ry + 1);
    let a = px - rx;
    let b = py - ry;
    let k = b * tw + a;
    assert(0 <= k < tw * th) by (nonlinear_arith)
        requires
            0 <= a < tw,
            0 <= b < th,
            k == b * tw + a,
    ;
    vstd::arithmetic::div_mod::lemma_fundamental_div_mod_converse(k, tw, b, a);
    assert(out.pixels@[k] == img.at(rx + k % tw, ry + k / tw));
}

} // verus!
