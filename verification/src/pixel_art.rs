use vstd::prelude::*;

use crate::image::{lemma_coords, Image, Rgba};

verus! {

/// The neighbour of `(x, y)` at offset `(dx, dy)`, or the pixel itself when the
/// neighbour lies outside the image.
pub open spec fn nb(src: Image, x: int, y: int, dx: int, dy: int) -> Rgba {
    if 0 <= x + dx < src.width && 0 <= y + dy < src.height {
        src.at(x + dx, y + dy)
    } else {
        src.at(x, y)
    }
}

/// Output pixel `(i, j)` of the 2×2 block Scale2x (EPX) makes of source pixel `(x, y)`.
pub open spec fn epx_pixel(src: Image, x: int, y: int, i: int, j: int) -> Rgba {
    let p = src.at(x, y);
    let n = nb(src, x, y, 0, -1);
    let w = nb(src, x, y, -1, 0);
    let e = nb(src, x, y, 1, 0);
    let s = nb(src, x, y, 0, 1);
    if i == 0 && j == 0 {
        if w == n && w != s && n != e {
            w
        } else {
            p
        }
    } else if j == 0 {
        if n == e && n != w && e != s {
            e
        } else {
            p
        }
    } else if i == 0 {
        if w == s && w != n && s != e {
            w
        } else {
            p
        }
    } else {
        if s == e && w != s && n != e {
            e
        } else {
            p
        }
    }
}

/// Output pixel `(i, j)` of the 3×3 block Scale3x makes of source pixel `(x, y)`.
pub open spec fn scale3x_pixel(src: Image, x: int, y: int, i: int, j: int) -> Rgba {
    let e = src.at(x, y);
    let nw = nb(src, x, y, -1, -1);
    let n = nb(src, x, y, 0, -1);
    let ne = nb(src, x, y, 1, -1);
    let w = nb(src, x, y, -1, 0);
    let ea = nb(src, x, y, 1, 0);
    let sw = nb(src, x, y, -1, 1);
    let s = nb(src, x, y, 0, 1);
    let se = nb(src, x, y, 1, 1);
    let k = j * 3 + i;
    if k == 0 {
        if w == n && n != ea && w != s {
            w
        } else {
            e
        }
    } else if k == 1 {
        if (w == n && n != ea && w != s && e != ne) || (n == ea && n != w && ea != s && e != nw) {
            n
        } else {
            e
        }
    } else if k == 2 {
        if n == ea && n != w && ea != s {
            ea
        } else {
            e
        }
    } else if k == 3 {
        if (w == n && n != ea && w != s && e != sw) || (w == s && w != n && s != ea && e != nw) {
            w
        } else {
            e
        }
    } else if k == 4 {
        e
    } else if k == 5 {
        if (n == ea && n != w && ea != s && e != se) || (s == ea && w != s && n != ea && e != ne) {
            ea
        } else {
            e
        }
    } else if k == 6 {
        if w == s && w != n && s != ea {
            w
        } else {
            e
        }
    } else if k == 7 {
        if (w == s && w != n && s != ea && e != se) || (s == ea && w != s && n != ea && e != sw) {
            s
        } else {
            e
        }
    } else {
        if s == ea && w != s && n != ea {
            ea
        } else {
            e
        }
    }
}

/// Output pixel `(i, j)` of the 2×2 block Eagle makes of source pixel `(x, y)`.
pub open spec fn eagle_pixel(src: Image, x: int, y: int, i: int, j: int) -> Rgba {
    let p = src.at(x, y);
    let dx = if i == 0 {
        -1int
    } else {
        1int
    };
    let dy = if j == 0 {
        -1int
    } else {
        1int
    };
    let diag = nb(src, x, y, dx, dy);
    let vert = nb(src, x, y, 0, dy);
    let horz = nb(src, x, y, dx, 0);
    if diag == vert && diag == horz {
        diag
    } else {
        p
    }
}

/// Per channel `(2 * base + a + b) / 4`.
pub open spec fn blend3_spec(base: Rgba, a: Rgba, b: Rgba) -> Rgba {
    Rgba {
        r: ((2 * base.r + a.r + b.r) / 4) as u8,
        g: ((2 * base.g + a.g + b.g) / 4) as u8,
        b: ((2 * base.b + a.b + b.b) / 4) as u8,
        a: ((2 * base.a + a.a + b.a) / 4) as u8,
    }
}

/// Output pixel `(i, j)` of the 2×2 block the HQ2x-style scaler makes of `(x, y)`.
pub open spec fn hq2x_pixel(src: Image, x: int, y: int, i: int, j: int) -> Rgba {
    let p = src.at(x, y);
    let vert = if j == 0 {
        nb(src, x, y, 0, -1)
    } else {
        nb(src, x, y, 0, 1)
    };
    let horz = if i == 0 {
        nb(src, x, y, -1, 0)
    } else {
        nb(src, x, y, 1, 0)
    };
    if vert == horz && vert != p {
        blend3_spec(p, vert, horz)
    } else {
        p
    }
}

/// The pixel-art upscalers.
#[derive(Debug, Clone, Copy, PartialEq, Eq, Structural)]
pub enum ArtScaler {
    Scale2x,
    Scale3x,
    Eagle2x,
    Hq2x,
}

/// The integer factor a scaler enlarges by.
pub open spec fn art_factor(kind: ArtScaler) -> int {
    if kind == ArtScaler::Scale3x {
        3
    } else {
        2
    }
}

/// Output pixel `(i, j)` of the block `kind` makes of source pixel `(x, y)`.
pub open spec fn art_pixel(kind: ArtScaler, src: Image, x: int, y: int, i: int, j: int) -> Rgba {
    match kind {
        ArtScaler::Scale2x => epx_pixel(src, x, y, i, j),
        ArtScaler::Scale3x => scale3x_pixel(src, x, y, i, j),
        ArtScaler::Eagle2x => eagle_pixel(src, x, y, i, j),
        ArtScaler::Hq2x => hq2x_pixel(src, x, y, i, j),
    }
}

/// `out` is `src` enlarged by `kind`: each source pixel becomes an `f × f` block
/// (f = 3 for Scale3x, 2 otherwise) whose pixels the scaler's rules choose.
pub open spec fn upscaled(out: Image, src: Image, kind: ArtScaler) -> bool {
    let f = art_factor(kind);
    let ow = f * src.width;
    &&& out.wf()
    &&& out.width == ow
    &&& out.height == f * src.height
    &&& forall|k: int|
        0 <= k < out.pixels@.len() ==> #[trigger] out.pixels@[k] == art_pixel(
            kind,
            src,
            (k % ow) / f,
            (k / ow) / f,
            (k % ow) % f,
            (k / ow) % f,
        )
}

/// The enlarged image fits the machine's integer types.
pub open spec fn upscale_in_range(src: Image, f: int) -> bool {
    &&& src.wf()
    &&& f * src.width <= u32::MAX
    &&& f * src.height <= u32::MAX
    &&& (f * src.width) * (f * src.height) <= usize::MAX
}

/// The neighbour at offset `(dx, dy)`, or the pixel itself outside the image.
fn neighbour(src: &Image, x: u32, y: u32, dx: i8, dy: i8) -> (p: Rgba)
    requires
        src.wf(),
        x < src.width,
        y < src.height,
        -1 <= dx <= 1,
        -1 <= dy <= 1,
    ensures
        p == nb(*src, x as int, y as int, dx as int, dy as int),
{
    let in_x = if dx < 0 {
        x > 0
    } else if dx > 0 {
        x < src.width - 1
    } else {
        true
    };
    let in_y = if dy < 0 {
        y > 0
    } else if dy > 0 {
        y < src.height - 1
    } else {
        true
    };
    if in_x && in_y {
        let nx = if dx < 0 {
            x - 1
        } else if dx > 0 {
            x + 1
        } else {
            x
        };
        let ny = if dy < 0 {
            y - 1
        } else if dy > 0 {
            y + 1
        } else {
            y
        };
        src.get_pixel(nx, ny)
    } else {
        src.get_pixel(x, y)
    }
}

/// Weighted average: (2×base + a + b) / 4 per channel.
pub fn blend3(base: Rgba, a: Rgba, b: Rgba) -> (r: Rgba)
    ensures
        r == blend3_spec(base, a, b),
{
    Rgba {
        r: ((base.r as u16 * 2 + a.r as u16 + b.r as u16) / 4) as u8,
        g: ((base.g as u16 * 2 + a.g as u16 + b.g as u16) / 4) as u8,
        b: ((base.b as u16 * 2 + a.b as u16 + b.b as u16) / 4) as u8,
        a: ((base.a as u16 * 2 + a.a as u16 + b.a as u16) / 4) as u8,
    }
}

/// Output pixel `(i, j)` of the block `kind` makes of source pixel `(x, y)`.
fn art_pixel_exec(kind: ArtScaler, src: &Image, x: u32, y: u32, i: u32, j: u32) -> (p: Rgba)
    requires
        src.wf(),
        x < src.width,
        y < src.height,
        i < art_factor(kind),
        j < art_factor(kind),
    ensures
        p == art_pixel(kind, *src, x as int, y as int, i as int, j as int),
{
    let c = src.get_pixel(x, y);
    match kind {
        ArtScaler::Scale2x => {
            let n = neighbour(src, x, y, 0, -1);
            let w = neighbour(src, x, y, -1, 0);
            let e = neighbour(src, x, y, 1, 0);
            let s = neighbour(src, x, y, 0, 1);
            if i == 0 && j == 0 {
                if w == n && w != s && n != e {
                    w
                } else {
                    c
                }
            } else if j == 0 {
                if n == e && n != w && e != s {
                    e
                } else {
                    c
                }
            } else if i == 0 {
                if w == s && w != n && s != e {
                    w
                } else {
                    c
                }
            } else {
                if s == e && w != s && n != e {
                    e
                } else {
                    c
                }
            }
        },
        ArtScaler::Scale3x => {
            let e = c;
            let nw = neighbour(src, x, y, -1, -1);
            let n = neighbour(src, x, y, 0, -1);
            let ne = neighbour(src, x, y, 1, -1);
            let w = neighbour(src, x, y, -1, 0);
            let ea = neighbour(src, x, y, 1, 0);
            let sw = neighbour(src, x, y, -1, 1);
            let s = neighbour(src, x, y, 0, 1);
            let se = neighbour(src, x, y, 1, 1);
            let k = j * 3 + i;
            if k == 0 {
                if w == n && n != ea && w != s {
                    w
                } else {
                    e
                }
            } else if k == 1 {
                if (w == n && n != ea && w != s && e != ne) || (n == ea && n != w && ea != s && e
                    != nw) {
                    n
                } else {
                    e
                }
            } else if k == 2 {
                if n == ea && n != w && ea != s {
                    ea
                } else {
                    e
                }
            } else if k == 3 {
                if (w == n && n != ea && w != s && e != sw) || (w == s && w != n && s != ea && e
                    != nw) {
                    w
                } else {
                    e
                }
            } else if k == 4 {
                e
            } else if k == 5 {
                if (n == ea && n != w && ea != s && e != se) || (s == ea && w != s && n != ea && e
                    != ne) {
                    ea
                } else {
                    e
                }
            } else if k == 6 {
                if w == s && w != n && s != ea {
                    w
                } else {
                    e
                }
            } else if k == 7 {
                if (w == s && w != n && s != ea && e != se) || (s == ea && w != s && n != ea && e
                    != sw) {
                    s
                } else {
                    e
                }
            } else {
                if s == ea && w != s && n != ea {
                    ea
                } else {
                    e
                }
            }
        },
        ArtScaler::Eagle2x => {
            let dx: i8 = if i == 0 {
                -1
            } else {
                1
            };
            let dy: i8 = if j == 0 {
                -1
            } else {
                1
            };
            let diag = neighbour(src, x, y, dx, dy);
            let vert = neighbour(src, x, y, 0, dy);
            let horz = neighbour(src, x, y, dx, 0);
            if diag == vert && diag == horz {
                diag
            } else {
                c
            }
        },
        ArtScaler::Hq2x => {
            let vert = if j == 0 {
                neighbour(src, x, y, 0, -1)
            } else {
                neighbour(src, x, y, 0, 1)
            };
            let horz = if i == 0 {
                neighbour(src, x, y, -1, 0)
            } else {
                neighbour(src, x, y, 1, 0)
            };
            if vert == horz && vert != c {
                blend3(c, vert, horz)
            } else {
                c
            }
        },
    }
}

/// `src` enlarged by the pixel-art scaler `kind`, output pixels in row-major order.
fn upscale(src: &Image, kind: ArtScaler) -> (out: Image)
    requires
        upscale_in_range(*src, art_factor(kind)),
    ensures
        upscaled(out, *src, kind),
{
    let f: u32 = if matches!(kind, ArtScaler::Scale3x) {
        3
    } else {
        2
    };
    let ow = f * src.width;
    let oh = f * src.height;
    let n = (ow as usize) * (oh as usize);
    let mut pixels: Vec<Rgba> = Vec::new();
    if ow == 0 || oh == 0 {
        assert(ow as int * oh as int == 0) by (nonlinear_arith)
            requires
                ow == 0 || oh == 0,
        ;
        return Image { width: ow, height: oh, pixels };
    }
    let mut k: usize = 0;
    while k < n
        invariant
            upscale_in_range(*src, art_factor(kind)),
            f == art_factor(kind),
            ow == f * src.width,
            oh == f * src.height,
            ow >= 1,
            oh >= 1,
            n == ow * oh,
            k <= n,
            pixels@.len() == k,
            forall|j: int|
                0 <= j < k ==> #[trigger] pixels@[j] == art_pixel(
                    kind,
                    *src,
                    (j % ow as int) / f as int,
                    (j / ow as int) / f as int,
                    (j % ow as int) % f as int,
                    (j / ow as int) % f as int,
                ),
        decreases n - k,
    {
        proof {
            lemma_coords(k as int, ow as int, oh as int);
        }
        let ox = (k % (ow as usize)) as u32;
        let oy = (k / (ow as usize)) as u32;
        proof {
            assert(ox / f < src.width) by (nonlinear_arith)
                requires
                    ox < f * src.width,
                    f >= 2,
            ;
            assert(oy / f < src.height) by (nonlinear_arith)
                requires
                    oy < f * src.height,
                    f >= 2,
            ;
        }
        let p = art_pixel_exec(kind, src, ox / f, oy / f, ox % f, oy % f);
        pixels.push(p);
        k = k + 1;
    }
    Image { width: ow, height: oh, pixels }
}

/// Scale2x / EPX algorithm. Produces a 2× pixel-art upscale of `src`.
///
/// Each source pixel becomes a 2×2 block. The four output pixels are chosen
/// by comparing the four cardinal neighbours of the source pixel.
pub fn scale2x(src: &Image) -> (out: Image)
    requires
        upscale_in_range(*src, 2),
    ensures
        upscaled(out, *src, ArtScaler::Scale2x),
{
    upscale(src, ArtScaler::Scale2x)
}

/// Scale3x algorithm. Produces a 3× pixel-art upscale of `src`.
///
/// Each source pixel becomes a 3×3 block. The output pixels are determined by
/// comparing all 8 neighbours of the source pixel.
pub fn scale3x(src: &Image) -> (out: Image)
    requires
        upscale_in_range(*src, 3),
    ensures
        upscaled(out, *src, ArtScaler::Scale3x),
{
    upscale(src, ArtScaler::Scale3x)
}

/// Eagle 2× algorithm. Produces a 2× pixel-art upscale of `src`.
///
/// Each corner of the 2×2 output block takes the colour of the matching
/// diagonal neighbour when that neighbour also matches both adjacent cardinal
/// neighbours on the same side. Otherwise the source pixel is kept.
pub fn eagle2x(src: &Image) -> (out: Image)
    requires
        upscale_in_range(*src, 2),
    ensures
        upscaled(out, *src, ArtScaler::Eagle2x),
{
    upscale(src, ArtScaler::Eagle2x)
}

/// Simplified HQ2x-style scaler. Produces a 2× output from `src`.
///
/// Each corner pixel of the 2×2 output block blends towards its two adjacent
/// cardinal neighbours when those neighbours share the same colour and that
/// colour differs from the centre pixel. This smooths diagonal edges in pixel
/// art without introducing blurring on horizontal or vertical edges.
pub fn hq2x(src: &Image) -> (out: Image)
    requires
        upscale_in_range(*src, 2),
    ensures
        upscaled(out, *src, ArtScaler::Hq2x),
{
    upscale(src, ArtScaler::Hq2x)
}

/// The source pixel at `(x + dx, y + dy)`, or the pixel `(x, y)` itself when that
/// spot lies outside the image.
pub open spec fn beside(src: Image, x: int, y: int, dx: int, dy: int) -> Rgba {
    if 0 <= x + dx && x + dx < src.width && 0 <= y + dy && y + dy < src.height {
        src.pixels@[(y + dy) * src.width + (x + dx)]
    } else {
        src.pixels@[y * src.width + x]
    }
}

/// The side of the block an output column (or row) `i` lies on: left (`-1`), middle
/// (`0`, only for 3×3 blocks) or right (`1`).
pub open spec fn block_side(f: int, i: int) -> int {
    if f == 3 {
        i - 1
    } else if i == 0 {
        -1
    } else {
        1
    }
}

/// What the pixel-art scalers may put at output pixel `(i, j)` of the block of
/// source pixel `(x, y)`: the source pixel itself, or a colour taken from the
/// neighbours on that pixel's own sides. Scale2x and Scale3x take the horizontal
/// neighbour on its side or the vertical one; Eagle takes a colour only when the
/// horizontal, vertical and diagonal neighbours on its sides all have it; HQ2x
/// blends the pixel (twice) with the horizontal and vertical neighbours on its
/// sides, channel by channel, when those two agree and differ from the pixel.
pub proof fn lemma_upscale_sides(out: Image, src: Image, kind: ArtScaler, x: int, y: int, i: int, j: int)
    requires
        upscaled(out, src, kind),
        src.wf(),
        0 <= x < src.width,
        0 <= y < src.height,
        0 <= i < (if kind == ArtScaler::Scale3x { 3int } else { 2int }),
        0 <= j < (if kind == ArtScaler::Scale3x { 3int } else { 2int }),
    ensures
        ({
            let f = if kind == ArtScaler::Scale3x { 3int } else { 2int };
            let q = out.pixels@[(f * y + j) * (f * src.width) + (f * x + i)];
            let c = src.pixels@[y * src.width + x];
            let sx = block_side(f, i);
            let sy = block_side(f, j);
            let hz = beside(src, x, y, sx, 0);
            let vt = beside(src, x, y, 0, sy);
            let dg = beside(src, x, y, sx, sy);
            match kind {
                ArtScaler::Scale2x => q == c || q == hz || q == vt,
                ArtScaler::Scale3x => q == c || (sx != 0 && q == hz) || (sy != 0 && q == vt),
                ArtScaler::Eagle2x => q == c || (q == hz && q == vt && q == dg),
                ArtScaler::Hq2x => q == c || (hz == vt && hz != c && q.r == (2 * c.r + hz.r + vt.r) / 4
                    && q.g == (2 * c.g + hz.g + vt.g) / 4 && q.b == (2 * c.b + hz.b + vt.b) / 4 && q.a == (2
                    * c.a + hz.a + vt.a) / 4),
            }
        }),
{
    let f: int = if kind == ArtScaler::Scale3x { 3 } else { 2 };
    let ow = f * src.width;
    let oh = f * src.height;
    let ox = f * x + i;
    let oy = f * y + j;
    let k = oy * ow + ox;
    assert(0 <= ox < ow && 0 <= oy < oh) by (nonlinear_arith)
        requires
            ox == f * x + i,
            oy == f * y + j,
            ow == f * src.width,
            oh == f * src.height,
            0 <= x < src.width,
            0 <= y < src.height,
            0 <= i < f,
            0 <= j < f,
    ;
    assert(0 <= k < ow * oh) by (nonlinear_arith)
        requires
            k == oy * ow + ox,
            0 <= ox < ow,
            0 <= oy < oh,
    ;
    assert(out.pixels@.len() == ow * oh);
    vstd::arithmetic::div_mod::lemma_fundamental_div_mod_converse(k, ow, oy, ox);
    vstd::arithmetic::div_mod::lemma_fundamental_div_mod_converse(ox, f, x, i);
    vstd::arithmetic::div_mod::lemma_fundamental_div_mod_converse(oy, f, y, j);
    assert(out.pixels@[k] == art_pixel(kind, src, x, y, i, j));
}

} // verus!
