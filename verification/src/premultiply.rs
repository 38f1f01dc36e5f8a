use vstd::prelude::*;

use crate::image::{transparent, Image, Rgba};

verus! {

/// One pixel with its alpha multiplied into the colour channels:
/// `(R * A / 255, G * A / 255, B * A / 255, A)`, and `(0, 0, 0, 0)` when `A == 0`.
pub open spec fn premultiplied(p: Rgba) -> Rgba {
    if p.a == 255 {
        p
    } else if p.a == 0 {
        transparent()
    } else {
        Rgba {
            r: (p.r * p.a / 255) as u8,
            g: (p.g * p.a / 255) as u8,
            b: (p.b * p.a / 255) as u8,
            a: p.a,
        }
    }
}

/// `c * a / 255` for one channel; at most `c`.
fn scale_channel(c: u8, a: u8) -> (r: u8)
    ensures
        r == c * a / 255,
{
    assert((c as u16) * (a as u16) <= 65025) by (nonlinear_arith)
        requires
            c <= 255,
            a <= 255,
    ;
    let prod = (c as u16) * (a as u16);
    assert(prod / 255 <= 255) by (nonlinear_arith)
        requires
            prod == c * a,
            c <= 255,
            a <= 255,
    ;
    (prod / 255) as u8
}

/// Premultiply the alpha channel into the RGB channels.
///
/// Each pixel becomes `(R * A / 255, G * A / 255, B * A / 255, A)`.
/// Fully transparent pixels (A == 0) are set to `(0, 0, 0, 0)`.
///
/// Premultiplied alpha is required by some rendering APIs (CoreGraphics,
/// certain WebGL blend modes) and produces better filtering results when
/// mipmaps are generated.
pub fn premultiply(image: &Image) -> (out: Image)
    requires
        image.wf(),
    ensures
        out.wf(),
        out.width == image.width,
        out.height == image.height,
        forall|k: int|
            0 <= k < out.pixels@.len() ==> #[trigger] out.pixels@[k] == premultiplied(
                image.pixels@[k],
            ),
{
    let n = image.pixels.len();
    let mut pixels: Vec<Rgba> = Vec::new();
    let mut k: usize = 0;
    while k < n
        invariant
            n == image.pixels@.len(),
            k <= n,
            pixels@.len() == k,
            forall|j: int| 0 <= j < k ==> #[trigger] pixels@[j] == premultiplied(image.pixels@[j]),
        decreases n - k,
    {
        let p = image.pixels[k];
        let a = p.a;
        let q = if a == 255 {
            p
        } else if a == 0 {
            Rgba { r: 0, g: 0, b: 0, a: 0 }
        } else {
            Rgba {
                r: scale_channel(p.r, a),
                g: scale_channel(p.g, a),
                b: scale_channel(p.b, a),
                a,
            }
        };
        pixels.push(q);
        k = k + 1;
    }
    Image { width: image.width, height: image.height, pixels }
}

/// One channel `c` with alpha `a` multiplied in is the whole part of `c * a / 255`.
proof fn lemma_scaled_channel(c: int, a: int)
    requires
        0 <= c <= 255,
        0 <= a <= 255,
    ensures
        0 <= c * a / 255 <= c,
        (c * a / 255) * 255 <= c * a < (c * a / 255 + 1) * 255,
{
    vstd::arithmetic::div_mod::lemma_fundamental_div_mod(c * a, 255);
    assert(0 <= c * a <= c * 255) by (nonlinear_arith)
        requires
            0 <= c <= 255,
            0 <= a <= 255,
    ;
    vstd::arithmetic::div_mod::lemma_div_is_ordered(c * a, c * 255, 255);
    vstd::arithmetic::div_mod::lemma_div_by_multiple(c, 255);
    vstd::arithmetic::div_mod::lemma_div_pos_is_pos(c * a, 255);
}

/// Premultiplying a pixel keeps its alpha and turns each colour channel `c` into
/// the whole part of `c * alpha / 255`: the new value `c'` has
/// `c' * 255 <= c * alpha < (c' + 1) * 255`.
pub proof fn lemma_premultiplied_channels(p: Rgba)
    ensures
        premultiplied(p).a == p.a,
        premultiplied(p).r * 255 <= p.r * p.a < (premultiplied(p).r + 1) * 255,
        premultiplied(p).g * 255 <= p.g * p.a < (premultiplied(p).g + 1) * 255,
        premultiplied(p).b * 255 <= p.b * p.a < (premultiplied(p).b + 1) * 255,
{
    lemma_scaled_channel(p.r as int, p.a as int);
    lemma_scaled_channel(p.g as int, p.a as int);
    lemma_scaled_channel(p.b as int, p.a as int);
    if p.a == 255 {
        assert(p.r * 255 / 255 == p.r) by {
            vstd::arithmetic::div_mod::lemma_div_by_multiple(p.r as int, 255);
        }
        assert(p.g * 255 / 255 == p.g) by {
            vstd::arithmetic::div_mod::lemma_div_by_multiple(p.g as int, 255);
        }
        assert(p.b * 255 / 255 == p.b) by {
            vstd::arithmetic::div_mod::lemma_div_by_multiple(p.b as int, 255);
        }
    }
}

} // verus!
