use vstd::prelude::*;

verus! {

/// One RGBA8 pixel.
#[derive(Debug, Clone, Copy, PartialEq, Eq, Structural)]
pub struct Rgba {
    pub r: u8,
    pub g: u8,
    pub b: u8,
    pub a: u8,
}

/// The fully transparent black pixel.
pub open spec fn transparent() -> Rgba {
    Rgba { r: 0, g: 0, b: 0, a: 0 }
}

/// `y * w + x < h * w` whenever `x < w` and `y < h`.
pub proof fn lemma_index_in_bounds(x: int, y: int, w: int, h: int)
    requires
        0 <= x < w,
        0 <= y < h,
    ensures
        0 <= y * w + x < h * w,
        y * w + x < (y + 1) * w,
        (y + 1) * w <= h * w,
        h * w == w * h,
        0 <= y * w,
{
    assert(h * w == w * h) by (nonlinear_arith);
    assert(0 <= y * w) by (nonlinear_arith)
        requires
            0 <= y,
            0 <= w,
    ;
    assert((y + 1) * w == y * w + w) by (nonlinear_arith);
    assert((y + 1) * w <= h * w) by (nonlinear_arith)
        requires
            y + 1 <= h,
            0 <= w,
    ;
}

/// An RGBA8 raster stored row by row, top row first.
#[derive(Debug, Clone)]
pub struct Image {
    /// Width in pixels.
    pub width: u32,
    /// Height in pixels.
    pub height: u32,
    /// `width * height` pixels in row-major order.
    pub pixels: Vec<Rgba>,
}

impl Image {
    /// The pixel buffer holds exactly `width * height` pixels.
    pub open spec fn wf(&self) -> bool {
        self.pixels@.len() == self.width as int * self.height as int
    }

    /// The pixel at column `x`, row `y`.
    pub open spec fn at(&self, x: int, y: int) -> Rgba {
        self.pixels@[y * self.width + x]
    }

    /// A `width × height` image of transparent black pixels.
    pub fn new(width: u32, height: u32) -> (img: Image)
        requires
            width as int * height as int <= usize::MAX,
        ensures
            img.wf(),
            img.width == width,
            img.height == height,
            forall|i: int| 0 <= i < img.pixels@.len() ==> img.pixels@[i] == transparent(),
    {
        let n = (width as usize) * (height as usize);
        let mut pixels: Vec<Rgba> = Vec::with_capacity(n);
        let mut i: usize = 0;
        while i < n
            invariant
                i <= n,
                pixels@.len() == i,
                forall|j: int| 0 <= j < i ==> pixels@[j] == transparent(),
            decreases n - i,
        {
            pixels.push(Rgba { r: 0, g: 0, b: 0, a: 0 });
            i = i + 1;
        }
        Image { width, height, pixels }
    }

    /// The pixel at column `x`, row `y`.
    pub fn get_pixel(&self, x: u32, y: u32) -> (p: Rgba)
        requires
            self.wf(),
            x < self.width,
            y < self.height,
        ensures
            p == self.at(x as int, y as int),
    {
        let _n = self.pixels.len();
        proof {
            lemma_index_in_bounds(x as int, y as int, self.width as int, self.height as int);
        }
        self.pixels[(y as usize) * (self.width as usize) + (x as usize)]
    }

    /// Overwrite the pixel at column `x`, row `y`.
    pub fn put_pixel(&mut self, x: u32, y: u32, p: Rgba)
        requires
            old(self).wf(),
            x < old(self).width,
            y < old(self).height,
        ensures
            final(self).wf(),
            final(self).width == old(self).width,
            final(self).height == old(self).height,
            final(self).pixels@ == old(self).pixels@.update(y * old(self).width + x, p),
    {
        let _n = self.pixels.len();
        proof {
            lemma_index_in_bounds(x as int, y as int, self.width as int, self.height as int);
        }
        let idx = (y as usize) * (self.width as usize) + (x as usize);
        self.pixels.set(idx, p);
    }
}

/// Channel `c` (0 = red, 1 = green, 2 = blue, 3 = alpha) of a pixel.
pub open spec fn channel(p: Rgba, c: int) -> u8 {
    if c == 0 {
        p.r
    } else if c == 1 {
        p.g
    } else if c == 2 {
        p.b
    } else {
        p.a
    }
}

/// The pixels as interleaved RGBA bytes.
pub open spec fn raw_rgba(px: Seq<Rgba>) -> Seq<u8> {
    Seq::new(4 * px.len(), |i: int| channel(px[i / 4], i % 4))
}

/// The pixels as interleaved RGB bytes (alpha dropped).
pub open spec fn raw_rgb(px: Seq<Rgba>) -> Seq<u8> {
    Seq::new(3 * px.len(), |i: int| channel(px[i / 3], i % 3))
}

impl Image {
    /// The pixel data as interleaved RGBA bytes.
    pub fn as_raw(&self) -> (raw: Vec<u8>)
        requires
            4 * self.pixels@.len() <= usize::MAX,
        ensures
            raw@ == raw_rgba(self.pixels@),
    {
        let n = self.pixels.len();
        let mut raw: Vec<u8> = Vec::new();
        let mut i: usize = 0;
        while i < n
            invariant
                n == self.pixels@.len(),
                4 * n <= usize::MAX,
                i <= n,
                raw@ =~= raw_rgba(self.pixels@.take(i as int)),
            decreases n - i,
        {
            let p = self.pixels[i];
            raw.push(p.r);
            raw.push(p.g);
            raw.push(p.b);
            raw.push(p.a);
            i = i + 1;
            assert(raw@ =~= raw_rgba(self.pixels@.take(i as int))) by {
                assert forall|j: int| 0 <= j < raw@.len() implies raw@[j] == raw_rgba(
                    self.pixels@.take(i as int),
                )[j] by {
                    if j < 4 * (i - 1) {
                        assert(raw_rgba(self.pixels@.take(i - 1))[j] == raw_rgba(
                            self.pixels@.take(i as int),
                        )[j]);
                    }
                }
            }
        }
        assert(self.pixels@.take(n as int) =~= self.pixels@);
        raw
    }

    /// An image from interleaved RGBA bytes, row by row; `None` unless the buffer
    /// holds exactly four bytes per pixel.
    pub fn from_raw(width: u32, height: u32, raw: &[u8]) -> (r: Option<Image>)
        ensures
            r is Some <==> raw@.len() == 4 * (width as int * height as int),
            r matches Some(img) ==> img.wf() && img.width == width && img.height == height
                && raw_rgba(img.pixels@) == raw@,
    {
        let len = raw.len();
        if len % 4 != 0 {
            return None;
        }
        let n = len / 4;
        assert((width as u64) * (height as u64) <= 0xffff_ffff_ffff_ffff) by (nonlinear_arith)
            requires
                width <= 0xffff_ffff,
                height <= 0xffff_ffff,
        ;
        if (width as u64) * (height as u64) != n as u64 {
            return None;
        }
        let mut pixels: Vec<Rgba> = Vec::new();
        let mut i: usize = 0;
        while i < n
            invariant
                n == len / 4,
                len == raw@.len(),
                len % 4 == 0,
                i <= n,
                pixels@.len() == i,
                forall|j: int| 0 <= j < 4 * i ==> #[trigger] raw_rgba(pixels@)[j] == raw@[j],
            decreases n - i,
        {
            let p = Rgba { r: raw[4 * i], g: raw[4 * i + 1], b: raw[4 * i + 2], a: raw[4 * i + 3] };
            let ghost old_px = pixels@;
            pixels.push(p);
            assert forall|j: int| 0 <= j < 4 * (i + 1) implies #[trigger] raw_rgba(pixels@)[j] == raw@[j] by {
                if j < 4 * i {
                    assert(raw_rgba(old_px)[j] == raw@[j]);
                    assert(pixels@[j / 4] == old_px[j / 4]);
                } else {
                    assert(j / 4 == i);
                }
            }
            i = i + 1;
        }
        assert(raw_rgba(pixels@) =~= raw@);
        Some(Image { width, height, pixels })
    }

    /// The pixel data as interleaved RGB bytes, alpha dropped.
    pub fn to_rgb_bytes(&self) -> (raw: Vec<u8>)
        requires
            3 * self.pixels@.len() <= usize::MAX,
        ensures
            raw@ == raw_rgb(self.pixels@),
    {
        let n = self.pixels.len();
        let mut raw: Vec<u8> = Vec::new();
        let mut i: usize = 0;
        while i < n
            invariant
                n == self.pixels@.len(),
                3 * n <= usize::MAX,
                i <= n,
                raw@ =~= raw_rgb(self.pixels@.take(i as int)),
            decreases n - i,
        {
            let p = self.pixels[i];
            raw.push(p.r);
            raw.push(p.g);
            raw.push(p.b);
            i = i + 1;
            assert(raw@ =~= raw_rgb(self.pixels@.take(i as int))) by {
                assert forall|j: int| 0 <= j < raw@.len() implies raw@[j] == raw_rgb(
                    self.pixels@.take(i as int),
                )[j] by {
                    if j < 3 * (i - 1) {
                        assert(raw_rgb(self.pixels@.take(i - 1))[j] == raw_rgb(
                            self.pixels@.take(i as int),
                        )[j]);
                    }
                }
            }
        }
        assert(self.pixels@.take(n as int) =~= self.pixels@);
        raw
    }
}

/// Flat pixel index `k` of a `w`-wide image lies at column `k % w`, row `k / w`, inside
/// a `w × h` image.
pub proof fn lemma_coords(k: int, w: int, h: int)
    requires
        w >= 1,
        0 <= k < w * h,
    ensures
        0 <= k % w < w,
        0 <= k / w < h,
        (k / w) * w + k % w == k,
{
    vstd::arithmetic::div_mod::lemma_fundamental_div_mod(k, w);
    assert(k / w < h) by (nonlinear_arith)
        requires
            0 <= k < w * h,
            k == w * (k / w) + k % w,
            0 <= k % w,
            w >= 1,
    ;
    assert((k / w) * w == w * (k / w)) by (nonlinear_arith);
}

/// `out` is the `w × h` region of `src` whose top-left corner is `(x, y)`.
pub open spec fn crop_of(out: Image, src: Image, x: int, y: int, w: int, h: int) -> bool {
    &&& out.wf()
    &&& out.width == w
    &&& out.height == h
    &&& forall|k: int|
        0 <= k < w * h ==> #[trigger] out.pixels@[k] == src.at(x + k % w, y + k / w)
}

impl Image {
    /// The `w × h` region whose top-left corner is `(x, y)`.
    pub fn crop(&self, x: u32, y: u32, w: u32, h: u32) -> (out: Image)
        requires
            self.wf(),
            x + w <= self.width,
            y + h <= self.height,
        ensures
            crop_of(out, *self, x as int, y as int, w as int, h as int),
    {
        let _n = self.pixels.len();
        proof {
            lemma_mul_le_u(w as int, h as int, self.width as int, self.height as int);
        }
        let n = (w as usize) * (h as usize);
        let mut pixels: Vec<Rgba> = Vec::new();
        if w == 0 {
            assert(w as int * h as int == 0) by (nonlinear_arith)
                requires
                    w == 0,
            ;
            return Image { width: w, height: h, pixels };
        }
        let mut k: usize = 0;
        while k < n
            invariant
                self.wf(),
                x + w <= self.width,
                y + h <= self.height,
                w >= 1,
                n == w * h,
                k <= n,
                pixels@.len() == k,
                forall|j: int| 0 <= j < k ==> #[trigger] pixels@[j] == self.at(x + j % w as int, y + j / w as int),
            decreases n - k,
        {
            proof {
                lemma_coords(k as int, w as int, h as int);
            }
            let cx = (k % (w as usize)) as u32;
            let cy = (k / (w as usize)) as u32;
            let p = self.get_pixel(x + cx, y + cy);
            pixels.push(p);
            k = k + 1;
        }
        Image { width: w, height: h, pixels }
    }
}

/// `a <= c` and `b <= d` give `a * b <= c * d` for naturals.
pub proof fn lemma_mul_le_u(a: int, b: int, c: int, d: int)
    requires
        0 <= a <= c,
        0 <= b <= d,
    ensures
        a * b <= c * d,
{
    assert(a * b <= c * d) by (nonlinear_arith)
        requires
            0 <= a <= c,
            0 <= b <= d,
    ;
}

} // verus!
