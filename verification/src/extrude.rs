use vstd::prelude::*;

use crate::image::{lemma_coords, Image, Rgba};
use crate::sprite::Sprite;

verus! {

/// `v` clamped to `[lo, hi]`.
pub open spec fn clamp(v: int, lo: int, hi: int) -> int {
    if v < lo {
        lo
    } else if v > hi {
        hi
    } else {
        v
    }
}

/// `out` is `src` grown by `amount` on every side, each new pixel a copy of the
/// nearest source pixel (border rows, columns and corners repeated outward).
pub open spec fn extruded(out: Image, src: Image, amount: int) -> bool {
    let w = src.width as int;
    let h = src.height as int;
    let aw = w + 2 * amount;
    &&& out.wf()
    &&& out.width == aw
    &&& out.height == h + 2 * amount
    &&& forall|k: int|
        0 <= k < out.pixels@.len() ==> #[trigger] out.pixels@[k] == src.at(
            clamp(k % aw - amount, 0, w - 1),
            clamp(k / aw - amount, 0, h - 1),
        )
}

/// The grown image fits the machine's integer types.
pub open spec fn extrude_in_range(img: Image, amount: u32) -> bool {
    &&& img.wf()
    &&& img.width + 2 * amount <= u32::MAX
    &&& img.height + 2 * amount <= u32::MAX
    &&& (img.width + 2 * amount) * (img.height + 2 * amount) <= usize::MAX
}

/// Build the image of `src` grown by `amount` pixels on every side.
fn extrude_image(src: &Image, amount: u32) -> (out: Image)
    requires
        extrude_in_range(*src, amount),
        src.width >= 1,
        src.height >= 1,
    ensures
        extruded(out, *src, amount as int),
{
    let w = src.width;
    let h = src.height;
    let aw = w + 2 * amount;
    let ah = h + 2 * amount;
    let n = (aw as usize) * (ah as usize);
    let mut pixels: Vec<Rgba> = Vec::new();
    let mut k: usize = 0;
    while k < n
        invariant
            extrude_in_range(*src, amount),
            w == src.width,
            h == src.height,
            w >= 1,
            h >= 1,
            aw == w + 2 * amount,
            ah == h + 2 * amount,
            n == aw * ah,
            k <= n,
            pixels@.len() == k,
            forall|j: int|
                0 <= j < k ==> #[trigger] pixels@[j] == src.at(
                    clamp(j % aw as int - amount, 0, w - 1),
                    clamp(j / aw as int - amount, 0, h - 1),
                ),
        decreases n - k,
    {
        proof {
            lemma_coords(k as int, aw as int, ah as int);
        }
        let ox = (k % (aw as usize)) as u32;
        let oy = (k / (aw as usize)) as u32;
        let sx0 = ox.saturating_sub(amount);
        let sx = if sx0 < w - 1 {
            sx0
        } else {
            w - 1
        };
        let sy0 = oy.saturating_sub(amount);
        let sy = if sy0 < h - 1 {
            sy0
        } else {
            h - 1
        };
        let p = src.get_pixel(sx, sy);
        pixels.push(p);
        k = k + 1;
    }
    Image { width: aw, height: ah, pixels }
}

/// Extrude a sprite's image by repeating its border pixels outward.
///
/// Creates a new image of size `(w + 2*amount) × (h + 2*amount)` where the
/// original image is centred and each border is filled by clamping to the
/// nearest source pixel. This prevents texture bleeding when hardware filtering
/// samples outside the intended sprite boundary at atlas seams.
///
/// `sprite.extrude` is updated to record the applied amount. The function is a
/// no-op when `amount` is zero or the image is empty.
pub fn extrude(sprite: &mut Sprite, amount: u32)
    requires
        amount > 0 && old(sprite).image.width > 0 && old(sprite).image.height > 0 ==> extrude_in_range(
            old(sprite).image,
            amount,
        ),
    ensures
        (amount == 0 || old(sprite).image.width == 0 || old(sprite).image.height == 0)
            ==> *final(sprite) == *old(sprite),
        !(amount == 0 || old(sprite).image.width == 0 || old(sprite).image.height == 0) ==> {
            &&& extruded(final(sprite).image, old(sprite).image, amount as int)
            &&& final(sprite).extrude == amount
            &&& final(sprite).id == old(sprite).id
            &&& final(sprite).source_path == old(sprite).source_path
            &&& final(sprite).trim_rect == old(sprite).trim_rect
            &&& final(sprite).original_size == old(sprite).original_size
            &&& final(sprite).nine_patch == old(sprite).nine_patch
            &&& final(sprite).content_hash == old(sprite).content_hash
            &&& final(sprite).alias_of == old(sprite).alias_of
        },
{
    if amount == 0 {
        return;
    }
    if sprite.image.width == 0 || sprite.image.height == 0 {
        return;
    }
    let out = extrude_image(&sprite.image, amount);
    sprite.extrude = amount;
    sprite.image = out;
}

/// Whether extruding this image by `amount` stays within the integer ranges
/// (see `extrude_in_range`).
pub fn extrude_fits(img: &Image, amount: u32) -> (b: bool)
    requires
        img.wf(),
    ensures
        b == extrude_in_range(*img, amount),
{
    let aw = img.width as u64 + 2 * (amount as u64);
    let ah = img.height as u64 + 2 * (amount as u64);
    if aw > 0xffff_ffff || ah > 0xffff_ffff {
        return false;
    }
    assert(aw * ah <= 0xffff_ffff_ffff_ffff) by (nonlinear_arith)
        requires
            aw <= 0xffff_ffff,
            ah <= 0xffff_ffff,
    ;
    aw * ah <= usize::MAX as u64
}

/// Extrusion keeps the original image intact at the centre: source pixel
/// `(x, y)` sits at `(x + amount, y + amount)`.
pub proof fn lemma_extrude_keeps_centre(out: Image, src: Image, amount: int, x: int, y: int)
    requires
        extruded(out, src, amount),
        amount >= 0,
        0 <= x < src.width,
        0 <= y < src.height,
    ensures
        out.at(x + amount, y + amount) == src.at(x, y),
{
    let aw = src.width + 2 * amount;
    let k = (y + amount) * aw + (x + amount);
    assert(0 <= k < out.pixels@.len()) by (nonlinear_arith)
        requires
            k == (y + amount) * aw + (x + amount),
            0 <= x + amount < aw,
            0 <= y + amount < src.height + 2 * amount,
            out.pixels@.len() == aw * (src.height + 2 * amount),
    ;
    vstd::arithmetic::div_mod::lemma_fundamental_div_mod_converse(k, aw, y + amount, x + amount);
    assert(out.pixels@[k] == src.at(
        clamp(k % aw - amount, 0, src.width - 1),
        clamp(k / aw - amount, 0, src.height - 1),
    ));
}

/// Every pixel of the grown image repeats the nearest source pixel: left of the
/// source it takes column 0, right of it the last column, above it row 0, below it
/// the last row, and inside it the pixel `amount` up and left.
pub proof fn lemma_extrude_border(out: Image, src: Image, amount: int, ox: int, oy: int)
    requires
        extruded(out, src, amount),
        amount >= 0,
        src.width >= 1,
        src.height >= 1,
        0 <= ox < src.width + 2 * amount,
        0 <= oy < src.height + 2 * amount,
    ensures
        out.at(ox, oy) == src.at(
            if ox < amount {
                0
            } else if ox >= amount + src.width {
                src.width - 1
            } else {
                ox - amount
            },
            if oy < amount {
                0
            } else if oy >= amount + src.height {
                src.height - 1
            } else {
                oy - amount
            },
        ),
{
    let aw = src.width + 2 * amount;
    let k = oy * aw + ox;
    assert(0 <= k < out.pixels@.len()) by (nonlinear_arith)
        requires
            k == oy * aw + ox,
            0 <= ox < aw,
            0 <= oy < src.height + 2 * amount,
            out.pixels@.len() == aw * (src.height + 2 * amount),
    ;
    vstd::arithmetic::div_mod::lemma_fundamental_div_mod_converse(k, aw, oy, ox);
    assert(out.pixels@[k] == src.at(
        clamp(k % aw - amount, 0, src.width - 1),
        clamp(k / aw - amount, 0, src.height - 1),
    ));
}

} // verus!
