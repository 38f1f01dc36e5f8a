use vstd::prelude::*;

verus! {

/// Integer rectangle used for atlas placement coordinates.
#[derive(Debug, Clone, Copy, PartialEq, Eq, Hash, Default)]
pub struct Rect {
    /// Left edge in pixels.
    pub x: u32,
    /// Top edge in pixels.
    pub y: u32,
    /// Width in pixels.
    pub w: u32,
    /// Height in pixels.
    pub h: u32,
}

impl Rect {
    /// One past the right edge, as a mathematical integer.
    pub open spec fn spec_right(self) -> int {
        self.x + self.w
    }

    /// One past the bottom edge, as a mathematical integer.
    pub open spec fn spec_bottom(self) -> int {
        self.y + self.h
    }

    /// The right and bottom edges are representable as `u32`.
    pub open spec fn edges_fit(self) -> bool {
        self.spec_right() <= u32::MAX && self.spec_bottom() <= u32::MAX
    }

    /// `other` lies entirely within `self`.
    pub open spec fn spec_contains(self, other: Rect) -> bool {
        &&& self.x <= other.x
        &&& self.y <= other.y
        &&& self.spec_right() >= other.spec_right()
        &&& self.spec_bottom() >= other.spec_bottom()
    }

    /// The two rectangles share interior area (touching edges do not count).
    pub open spec fn spec_intersects(self, other: Rect) -> bool {
        &&& self.x < other.spec_right()
        &&& self.spec_right() > other.x
        &&& self.y < other.spec_bottom()
        &&& self.spec_bottom() > other.y
    }

    /// The pixel `(px, py)` lies inside the rectangle.
    pub open spec fn covers(self, px: int, py: int) -> bool {
        self.x <= px < self.spec_right() && self.y <= py < self.spec_bottom()
    }

    /// Construct a rectangle from its left edge, top edge, width, and height.
    #[inline]
    pub fn new(x: u32, y: u32, w: u32, h: u32) -> (r: Self)
        ensures
            r == (Rect { x, y, w, h }),
    {
        Self { x, y, w, h }
    }

    /// Area in pixels squared.
    #[inline]
    pub fn area(&self) -> (a: u32)
        requires
            self.w * self.h <= u32::MAX,
        ensures
            a == self.w * self.h,
    {
        self.w * self.h
    }

    /// One pixel past the right edge (`x + w`).
    #[inline]
    pub fn right(&self) -> (r: u32)
        requires
            self.spec_right() <= u32::MAX,
        ensures
            r == self.spec_right(),
    {
        self.x + self.w
    }

    /// One pixel past the bottom edge (`y + h`).
    #[inline]
    pub fn bottom(&self) -> (b: u32)
        requires
            self.spec_bottom() <= u32::MAX,
        ensures
            b == self.spec_bottom(),
    {
        self.y + self.h
    }

    /// `true` if `other` fits entirely within `self`.
    pub fn contains(&self, other: &Self) -> (b: bool)
        requires
            self.edges_fit(),
            other.edges_fit(),
        ensures
            b == self.spec_contains(*other),
    {
        self.x <= other.x && self.y <= other.y && self.right() >= other.right() && self.bottom()
            >= other.bottom()
    }

    /// `true` if the two rectangles overlap (touching edges do not count).
    pub fn intersects(&self, other: &Self) -> (b: bool)
        requires
            self.edges_fit(),
            other.edges_fit(),
        ensures
            b == self.spec_intersects(*other),
    {
        self.x < other.right() && self.right() > other.x && self.y < other.bottom()
            && self.bottom() > other.y
    }
}

/// Every rectangle contains itself.
pub proof fn lemma_contains_reflexive(r: Rect)
    ensures
        r.spec_contains(r),
{
}

/// Containment is transitive.
pub proof fn lemma_contains_transitive(a: Rect, b: Rect, c: Rect)
    requires
        a.spec_contains(b),
        b.spec_contains(c),
    ensures
        a.spec_contains(c),
{
}

/// Overlap is symmetric.
pub proof fn lemma_intersects_symmetric(a: Rect, b: Rect)
    ensures
        a.spec_intersects(b) == b.spec_intersects(a),
{
}

/// Two non-empty rectangles overlap exactly when some pixel lies inside both.
pub proof fn lemma_intersects_iff_common_pixel(a: Rect, b: Rect)
    requires
        a.w > 0,
        a.h > 0,
        b.w > 0,
        b.h > 0,
    ensures
        a.spec_intersects(b) <==> exists|px: int, py: int| a.covers(px, py) && b.covers(px, py),
{
    if a.spec_intersects(b) {
        let px = if a.x >= b.x { a.x as int } else { b.x as int };
        let py = if a.y >= b.y { a.y as int } else { b.y as int };
        assert(a.covers(px, py) && b.covers(px, py));
    }
}

/// A non-empty rectangle overlaps every rectangle that contains it.
pub proof fn lemma_contained_nonempty_intersects(outer: Rect, inner: Rect)
    requires
        outer.spec_contains(inner),
        inner.w > 0,
        inner.h > 0,
    ensures
        outer.spec_intersects(inner),
{
}

/// If `a` does not overlap `b`, no rectangle inside `a` overlaps `b`.
pub proof fn lemma_contained_keeps_disjoint(a: Rect, inner: Rect, b: Rect)
    requires
        a.spec_contains(inner),
        !a.spec_intersects(b),
    ensures
        !inner.spec_intersects(b),
{
}

/// Source region within the original image.
///
/// Coordinates may be negative for `CropKeepPos` mode, where the sprite has
/// transparent padding that must be preserved for correct registration.
#[derive(Debug, Clone, Copy, PartialEq, Eq, Default)]
pub struct SourceRect {
    /// Left offset within the original image (can be negative in `CropKeepPos` mode).
    pub x: i32,
    /// Top offset within the original image (can be negative in `CropKeepPos` mode).
    pub y: i32,
    /// Width of the region in pixels.
    pub w: u32,
    /// Height of the region in pixels.
    pub h: u32,
}

/// Axis-aligned pixel dimensions.
#[derive(Debug, Clone, Copy, PartialEq, Eq, Default)]
pub struct Size {
    /// Width in pixels.
    pub w: u32,
    /// Height in pixels.
    pub h: u32,
}

impl Size {
    /// Area in pixels squared.
    #[inline]
    pub fn area(&self) -> (a: u32)
        requires
            self.w * self.h <= u32::MAX,
        ensures
            a == self.w * self.h,
    {
        self.w * self.h
    }

    /// `true` if either dimension is zero.
    #[inline]
    pub fn is_empty(&self) -> (b: bool)
        ensures
            b == (self.w == 0 || self.h == 0),
    {
        self.w == 0 || self.h == 0
    }
}

/// Border widths for a 9-patch / 9-slice scalable sprite.
#[derive(Debug, Clone, Copy, PartialEq, Eq, Default)]
pub struct NinePatch {
    pub top: u32,
    pub right: u32,
    pub bottom: u32,
    pub left: u32,
}

} // verus!
