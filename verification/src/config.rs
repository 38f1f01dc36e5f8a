use vstd::prelude::*;

use crate::pixel_format::{PixelFormat, TextureFormat};
use crate::text::{fold_bytes, fold_key, is_word, message_with, utf8};

verus! {

/// `n` is a power of two (1, 2, 4, 8, ...).
pub open spec fn is_pow2(n: int) -> bool
    decreases n,
{
    if n <= 0 {
        false
    } else if n == 1 {
        true
    } else {
        n % 2 == 0 && is_pow2(n / 2)
    }
}

/// The smallest power of two that is at least `n` (1 for `n <= 1`).
pub open spec fn next_pot(n: int) -> int
    decreases n,
{
    if n <= 1 {
        1
    } else {
        2 * next_pot((n + 1) / 2)
    }
}

/// `n` rounded up to the next multiple of `m` (for `m > 0`).
pub open spec fn round_up_to(n: int, m: int) -> int {
    if n % m == 0 {
        n
    } else {
        n + (m - n % m)
    }
}

/// `next_pot(n)` is a power of two, at least `n`, and no power of two below it is at least `n`.
pub proof fn lemma_next_pot_is_least_pow2(n: int)
    ensures
        is_pow2(next_pot(n)),
        next_pot(n) >= n,
        next_pot(n) >= 1,
        next_pot(n) == 1 || next_pot(n) / 2 < n,
    decreases n,
{
    if n > 1 {
        lemma_next_pot_is_least_pow2((n + 1) / 2);
        let p = next_pot((n + 1) / 2);
        assert((2 * p) / 2 == p);
        assert((2 * p) % 2 == 0);
    }
}

/// A power of two `p` with `p / 2 < n <= p` (or `p == 1` and `n <= 1`) is `next_pot(n)`.
pub proof fn lemma_next_pot_unique(n: int, p: int)
    requires
        is_pow2(p),
        p >= n,
        p == 1 || p / 2 < n,
    ensures
        p == next_pot(n),
    decreases n,
{
    if n <= 1 {
        if p != 1 {
            assert(p >= 2);
        }
    } else {
        assert(p >= 2);
        assert(p % 2 == 0);
        let m = (n + 1) / 2;
        assert(p / 2 >= m);
        assert(p / 2 == 1 || (p / 2) / 2 < m);
        lemma_next_pot_unique(m, p / 2);
    }
}

/// A power of two below another is at most half of it.
pub proof fn lemma_pow2_below(q: int, p: int)
    requires
        is_pow2(q),
        is_pow2(p),
        q < p,
    ensures
        q <= p / 2,
    decreases q,
{
    if q >= 2 {
        assert(p >= 2);
        assert(q % 2 == 0 && p % 2 == 0);
        if p / 2 == 1 {
            assert(p == 2);
        } else {
            assert(q / 2 < p / 2);
            lemma_pow2_below(q / 2, p / 2);
            assert((p / 2) % 2 == 0);
        }
    } else {
        assert(p >= 2);
    }
}

/// `next_pot` is monotone.
pub proof fn lemma_next_pot_monotone(a: int, b: int)
    requires
        a <= b,
    ensures
        next_pot(a) <= next_pot(b),
    decreases b,
{
    if a > 1 {
        lemma_next_pot_monotone((a + 1) / 2, (b + 1) / 2);
    } else {
        lemma_next_pot_is_least_pow2(b);
    }
}

/// How transparent borders are handled before packing.
#[derive(Debug, Clone, Copy, PartialEq, Eq, Default)]
pub enum TrimMode {
    /// Pack the full image including all transparent borders.
    NoTrim,
    /// Strip transparent borders; store the offset so engines can restore position.
    #[default]
    Trim,
    /// Crop tightly; the packed frame rect reflects only the opaque region.
    Crop,
    /// Like `Crop` but `SourceRect` offsets may be negative to keep original registration.
    CropKeepPos,
    /// Build a convex hull polygon; pack the hull's axis-aligned bounding box.
    Polygon,
}

/// Constraint applied to the atlas texture dimensions.
#[derive(Debug, Clone, Copy, PartialEq, Eq, Default)]
pub enum SizeConstraint {
    /// No constraint — use the smallest rectangle that fits.
    #[default]
    AnySize,
    /// Width and height must both be powers of two.
    Pot,
    /// Width and height must each be divisible by 4.
    MultipleOf4,
    /// Width and height must each be divisible by 2.
    WordAligned,
}

impl SizeConstraint {
    /// The value `apply` rounds `size` up to.
    pub open spec fn spec_apply(self, size: int) -> int {
        match self {
            SizeConstraint::AnySize => size,
            SizeConstraint::Pot => next_pot(size),
            SizeConstraint::MultipleOf4 => round_up_to(size, 4),
            SizeConstraint::WordAligned => round_up_to(size, 2),
        }
    }

    /// Rounding up never decreases the size, and larger sizes never round to smaller ones.
    pub proof fn lemma_apply_monotone(self, a: int, b: int)
        requires
            0 <= a <= b,
        ensures
            a <= self.spec_apply(a) <= self.spec_apply(b),
    {
        match self {
            SizeConstraint::Pot => {
                lemma_next_pot_is_least_pow2(a);
                lemma_next_pot_monotone(a, b);
            },
            _ => {},
        }
    }

    /// `v` is an allowed atlas dimension under this constraint.
    pub open spec fn allows(self, v: int) -> bool {
        match self {
            SizeConstraint::AnySize => true,
            SizeConstraint::Pot => is_pow2(v),
            SizeConstraint::MultipleOf4 => v % 4 == 0,
            SizeConstraint::WordAligned => v % 2 == 0,
        }
    }

    /// `apply` rounds up to the smallest allowed dimension: the result is allowed,
    /// at least `n`, and no allowed dimension at least `n` is smaller.
    pub proof fn lemma_apply_is_least(self, n: int, m: int)
        requires
            0 <= n,
        ensures
            self.allows(self.spec_apply(n)),
            self.spec_apply(n) >= n,
            m >= n && self.allows(m) ==> self.spec_apply(n) <= m,
    {
        match self {
            SizeConstraint::Pot => {
                lemma_next_pot_is_least_pow2(n);
                if m >= n && is_pow2(m) && m < next_pot(n) {
                    lemma_pow2_below(m, next_pot(n));
                }
            },
            SizeConstraint::MultipleOf4 => {
                if m >= n && m % 4 == 0 && n % 4 != 0 {
                    assert(m >= n + (4 - n % 4));
                }
            },
            SizeConstraint::WordAligned => {
                if m >= n && m % 2 == 0 && n % 2 != 0 {
                    assert(m >= n + 1);
                }
            },
            _ => {},
        }
    }

    /// Round `size` up to satisfy this constraint, but to no more than `cap`.
    pub fn apply_capped(self, size: u32, cap: u32) -> (r: u32)
        ensures
            r == (if self.spec_apply(size as int) <= cap {
                self.spec_apply(size as int)
            } else {
                cap as int
            }),
    {
        let n = size as u64;
        let v: u64 = match self {
            Self::AnySize => n,
            Self::Pot => {
                if n <= 1 {
                    1
                } else {
                    let mut p: u64 = 1;
                    while p < n
                        invariant
                            n <= u32::MAX,
                            is_pow2(p as int),
                            p == 1 || p / 2 < n,
                            1 <= p <= 2 * n,
                        decreases 2 * n - p,
                    {
                        assert((2 * p) / 2 == p);
                        assert((2 * p) % 2 == 0);
                        p = p * 2;
                    }
                    proof {
                        lemma_next_pot_unique(n as int, p as int);
                    }
                    p
                }
            },
            Self::MultipleOf4 => {
                let r = n % 4;
                if r == 0 {
                    n
                } else {
                    n + (4 - r)
                }
            },
            Self::WordAligned => {
                let r = n % 2;
                if r == 0 {
                    n
                } else {
                    n + 1
                }
            },
        };
        assert(v == self.spec_apply(size as int));
        if v <= cap as u64 {
            v as u32
        } else {
            cap
        }
    }

    /// Round `size` up to satisfy this constraint.
    pub fn apply(self, size: u32) -> (r: u32)
        requires
            self.spec_apply(size as int) <= u32::MAX,
        ensures
            r == self.spec_apply(size as int),
    {
        match self {
            Self::AnySize => size,
            Self::Pot => {
                if size <= 1 {
                    1
                } else {
                    let mut p: u64 = 1;
                    while p < size as u64
                        invariant
                            is_pow2(p as int),
                            p == 1 || p / 2 < size,
                            1 <= p <= 2 * (size as u64),
                        decreases 2 * (size as u64) - p,
                    {
                        assert((2 * p) / 2 == p);
                        assert((2 * p) % 2 == 0);
                        p = p * 2;
                    }
                    proof {
                        lemma_next_pot_unique(size as int, p as int);
                    }
                    p as u32
                }
            },
            Self::MultipleOf4 => {
                let r = size % 4;
                if r == 0 {
                    size
                } else {
                    size + (4 - r)
                }
            },
            Self::WordAligned => {
                let r = size % 2;
                if r == 0 {
                    size
                } else {
                    size + 1
                }
            },
        }
    }
}

/// Speed vs. density trade-off for the packing search.
#[derive(Debug, Clone, Copy, PartialEq, Eq, Default)]
pub enum PackMode {
    /// Single-pass — fastest, largest atlas.
    Fast,
    /// Binary-search on width — balanced (recommended).
    #[default]
    Good,
    /// Exhaustive search — densest atlas, slowest.
    Best,
}

/// Which packing algorithm to use.
#[derive(Debug, Clone, Copy, PartialEq, Eq, Default)]
pub enum AlgorithmChoice {
    /// Equal-size grid; no data file required.
    Grid,
    /// Top-to-bottom strip fill — fast, no data file benefit.
    Basic,
    /// Rectangle bin-packing that minimises atlas area (recommended).
    #[default]
    MaxRects,
    /// Tight polygon-level packing (requires engine support).
    Polygon,
}

/// Placement heuristic for the MaxRects algorithm.
#[derive(Debug, Clone, Copy, PartialEq, Eq, Default)]
pub enum MaxRectsHeuristic {
    /// Minimise the shorter leftover side after placement.
    #[default]
    BestShortSideFit,
    /// Minimise the longer leftover side after placement.
    BestLongSideFit,
    /// Minimise wasted area after placement.
    BestAreaFit,
    /// Topmost then leftmost placement.
    BottomLeftRule,
    /// Maximise contact perimeter with already-placed sprites and walls.
    ContactPointRule,
}

/// Resampling algorithm used when producing scale variants.
#[derive(Debug, Clone, Copy, PartialEq, Eq, Default)]
pub enum ScaleMode {
    /// Lanczos3 — high quality.
    #[default]
    Smooth,
    /// Nearest-neighbour — fast, crisp pixel art.
    Fast,
    /// EPX / Scale2x pixel art integer scaler.
    Scale2x,
    /// Scale3x — 3× EPX variant.
    Scale3x,
    /// HQ2x — look-up table anti-aliasing scaler.
    Hq2x,
    /// Eagle2x pixel art scaler.
    Eagle,
}

/// Atlas layout and dimension constraints.
#[derive(Debug, Clone, Copy)]
pub struct LayoutConfig {
    /// Maximum atlas width in pixels. Sprites wider than this cannot be packed.
    pub max_width: u32,
    /// Maximum atlas height in pixels. Sprites taller than this cannot be packed.
    pub max_height: u32,
    /// Pin the atlas width to an exact value, bypassing the size-fit algorithm.
    pub fixed_width: Option<u32>,
    /// Pin the atlas height to an exact value, bypassing the size-fit algorithm.
    pub fixed_height: Option<u32>,
    /// Rounding constraint applied to the computed atlas dimensions.
    pub size_constraint: SizeConstraint,
    /// When `true`, the atlas width and height are forced to be equal.
    pub force_square: bool,
    /// When `true`, sprites may be rotated 90° clockwise to improve packing density.
    pub allow_rotation: bool,
    /// Packing effort level (affects time but not algorithm choice).
    pub pack_mode: PackMode,
    /// Transparent pixels added around the entire atlas edge.
    pub border_padding: u32,
    /// Transparent gap between every pair of adjacent sprites.
    pub shape_padding: u32,
}

impl LayoutConfig {
    /// The default layout: 2048×2048 maximum, no size constraint, best packing,
    /// two pixels of border and shape padding.
    pub fn default_layout() -> (c: Self)
        ensures
            c.max_width == 2048,
            c.max_height == 2048,
            c.fixed_width is None,
            c.fixed_height is None,
            c.size_constraint == SizeConstraint::AnySize,
            !c.force_square,
            !c.allow_rotation,
            c.pack_mode == PackMode::Best,
            c.border_padding == 2,
            c.shape_padding == 2,
    {
        Self {
            max_width: 2048,
            max_height: 2048,
            fixed_width: None,
            fixed_height: None,
            size_constraint: SizeConstraint::AnySize,
            force_square: false,
            allow_rotation: false,
            pack_mode: PackMode::Best,
            border_padding: 2,
            shape_padding: 2,
        }
    }
}

impl Default for LayoutConfig {
    fn default() -> (c: Self)
        ensures
            c.max_width == 2048,
            c.max_height == 2048,
            c.fixed_width is None,
            c.fixed_height is None,
            c.size_constraint == SizeConstraint::AnySize,
            !c.force_square,
            !c.allow_rotation,
            c.pack_mode == PackMode::Best,
            c.border_padding == 2,
            c.shape_padding == 2,
    {
        Self::default_layout()
    }
}

} // verus!

verus! {

/// Sprite pre-processing options.
#[derive(Debug, Clone, Copy)]
pub struct SpriteConfig {
    /// How transparent borders are stripped before packing.
    pub trim_mode: TrimMode,
    /// Alpha threshold: pixels at or below this level are treated as transparent.
    pub trim_threshold: u8,
    /// Pixels of transparent margin to preserve around trimmed edges.
    pub trim_margin: u32,
    /// Border pixel repetition count to prevent texture bleeding.
    pub extrude: u32,
    /// Width must be divisible by this value (0 = disabled).
    pub common_divisor_x: u32,
    /// Height must be divisible by this value (0 = disabled).
    pub common_divisor_y: u32,
    /// When `true`, duplicate sprites share a single atlas entry.
    pub detect_aliases: bool,
}

impl Default for SpriteConfig {
    fn default() -> (c: Self)
        ensures
            c.trim_mode == TrimMode::Trim,
            c.trim_threshold == 1,
            c.trim_margin == 0,
            c.extrude == 0,
            c.common_divisor_x == 0,
            c.common_divisor_y == 0,
            c.detect_aliases,
    {
        Self {
            trim_mode: TrimMode::Trim,
            trim_threshold: 1,
            trim_margin: 0,
            extrude: 0,
            common_divisor_x: 0,
            common_divisor_y: 0,
            detect_aliases: true,
        }
    }
}

/// Output data file format.
#[derive(Debug, Clone, Copy, PartialEq, Eq, Default)]
pub enum DataFormat {
    /// TexturePacker-compatible JSON with frames as a hash.
    JsonHash,
    /// TexturePacker-compatible JSON with frames as an array.
    JsonArray,
    /// Phaser 3 multi-atlas JSON.
    #[default]
    Phaser3,
    /// PixiJS sprite sheet JSON.
    Pixijs,
}

/// Where and how the atlas files are written.
#[derive(Debug, Clone)]
pub struct OutputConfig {
    /// Base file name of the atlas files (without extension).
    pub name: String,
    /// Output directory.
    pub directory: String,
    /// Texture container format.
    pub texture_format: TextureFormat,
    /// Pixel encoding of the texture data.
    pub pixel_format: PixelFormat,
    /// Multiply RGB by alpha before encoding.
    pub premultiply_alpha: bool,
    /// Data file format.
    pub data_format: DataFormat,
    /// Lossy encoder quality, 0–100.
    pub quality: u8,
    /// Prefix prepended to the texture file name inside the data file.
    pub texture_path_prefix: String,
    /// Spread sprites that do not fit over additional sheets.
    pub multipack: bool,
}

impl Default for OutputConfig {
    fn default() -> (c: Self)
        ensures
            c.name@ == "atlas"@,
            c.directory@ == "output"@,
            c.texture_format == TextureFormat::Png,
            c.pixel_format == PixelFormat::Rgba8888,
            !c.premultiply_alpha,
            c.data_format == DataFormat::Phaser3,
            c.quality == 95,
            c.texture_path_prefix@ == Seq::<char>::empty(),
            !c.multipack,
    {
        OutputConfig {
            name: String::from_str("atlas"),
            directory: String::from_str("output"),
            texture_format: TextureFormat::Png,
            pixel_format: PixelFormat::Rgba8888,
            premultiply_alpha: false,
            data_format: DataFormat::Phaser3,
            quality: 95,
            texture_path_prefix: String::new(),
            multipack: false,
        }
    }
}

/// Packing algorithm together with its parameters.
#[derive(Debug, Clone, Copy, PartialEq, Eq)]
pub enum AlgorithmConfig {
    /// Fixed cells; 0 means "size the cells to the largest sprite".
    Grid { cell_width: u32, cell_height: u32 },
    /// Row strip packing.
    Basic,
    /// Free-rectangle bin packing with the given heuristic.
    MaxRects { heuristic: MaxRectsHeuristic },
    /// Polygon packing (packs as MaxRects with the default heuristic).
    Polygon,
}

impl Default for AlgorithmConfig {
    fn default() -> (c: Self)
        ensures
            c == (AlgorithmConfig::MaxRects { heuristic: MaxRectsHeuristic::BestShortSideFit }),
    {
        AlgorithmConfig::MaxRects { heuristic: MaxRectsHeuristic::BestShortSideFit }
    }
}

/// One input source: a file or a directory of images.
#[derive(Debug, Clone)]
pub struct SourceSpec {
    /// File or directory path.
    pub path: String,
    /// File name filter.
    pub filter: String,
}

/// The display name of a trim mode.
pub open spec fn trim_mode_text(m: TrimMode) -> &'static str {
    match m {
        TrimMode::NoTrim => "none",
        TrimMode::Trim => "trim",
        TrimMode::Crop => "crop",
        TrimMode::CropKeepPos => "crop-keep-pos",
        TrimMode::Polygon => "polygon",
    }
}

impl TrimMode {
    /// The display name of the mode.
    pub fn name(&self) -> (s: &'static str)
        ensures
            s@ == trim_mode_text(*self)@,
    {
        match self {
            TrimMode::NoTrim => "none",
            TrimMode::Trim => "trim",
            TrimMode::Crop => "crop",
            TrimMode::CropKeepPos => "crop-keep-pos",
            TrimMode::Polygon => "polygon",
        }
    }
}

/// The trim mode a folded name denotes (see `fold_bytes`), if any.
pub open spec fn trim_mode_named(key: Seq<u8>) -> Option<TrimMode> {
    if key == utf8("none"@) {
        Some(TrimMode::NoTrim)
    } else if key == utf8("trim"@) {
        Some(TrimMode::Trim)
    } else if key == utf8("crop"@) {
        Some(TrimMode::Crop)
    } else if key == utf8("crop-keep-pos"@) || key == utf8("cropkeeppos"@) {
        Some(TrimMode::CropKeepPos)
    } else if key == utf8("polygon"@) {
        Some(TrimMode::Polygon)
    } else {
        None
    }
}

impl TrimMode {
    /// Parse a trim mode name, ignoring case.
    pub fn parse_name(s: &str) -> (r: Result<TrimMode, String>)
        ensures
            match trim_mode_named(fold_bytes(utf8(s@))) {
                Some(v) => r matches Ok(x) && x == v,
                None => r matches Err(e) && e@ == "unknown trim mode: "@ + s@,
            },
    {
        let key = fold_key(s);
        if is_word(&key, "none") {
            Ok(TrimMode::NoTrim)
        } else if is_word(&key, "trim") {
            Ok(TrimMode::Trim)
        } else if is_word(&key, "crop") {
            Ok(TrimMode::Crop)
        } else if is_word(&key, "crop-keep-pos") || is_word(&key, "cropkeeppos") {
            Ok(TrimMode::CropKeepPos)
        } else if is_word(&key, "polygon") {
            Ok(TrimMode::Polygon)
        } else {
            Err(message_with("unknown trim mode: ", s))
        }
    }
}

impl std::str::FromStr for TrimMode {
    type Err = String;

    fn from_str(s: &str) -> (r: Result<Self, Self::Err>)
        ensures
            match trim_mode_named(fold_bytes(utf8(s@))) {
                Some(v) => r matches Ok(x) && x == v,
                None => r matches Err(e) && e@ == "unknown trim mode: "@ + s@,
            },
    {
        TrimMode::parse_name(s)
    }
}

/// The size constraint a folded name denotes (see `fold_bytes`), if any.
pub open spec fn size_constraint_named(key: Seq<u8>) -> Option<SizeConstraint> {
    if key == utf8("any"@) || key == utf8("anysize"@) || key == utf8("any-size"@) {
        Some(SizeConstraint::AnySize)
    } else if key == utf8("pot"@) {
        Some(SizeConstraint::Pot)
    } else if key == utf8("multipleof4"@) || key == utf8("multiple-of-4"@) {
        Some(SizeConstraint::MultipleOf4)
    } else if key == utf8("wordaligned"@) || key == utf8("word-aligned"@) {
        Some(SizeConstraint::WordAligned)
    } else {
        None
    }
}

impl SizeConstraint {
    /// Parse a size constraint name, ignoring case.
    pub fn parse_name(s: &str) -> (r: Result<SizeConstraint, String>)
        ensures
            match size_constraint_named(fold_bytes(utf8(s@))) {
                Some(v) => r matches Ok(x) && x == v,
                None => r matches Err(e) && e@ == "unknown size constraint: "@ + s@,
            },
    {
        let key = fold_key(s);
        if is_word(&key, "any") || is_word(&key, "anysize") || is_word(&key, "any-size") {
            Ok(SizeConstraint::AnySize)
        } else if is_word(&key, "pot") {
            Ok(SizeConstraint::Pot)
        } else if is_word(&key, "multipleof4") || is_word(&key, "multiple-of-4") {
            Ok(SizeConstraint::MultipleOf4)
        } else if is_word(&key, "wordaligned") || is_word(&key, "word-aligned") {
            Ok(SizeConstraint::WordAligned)
        } else {
            Err(message_with("unknown size constraint: ", s))
        }
    }
}

impl std::str::FromStr for SizeConstraint {
    type Err = String;

    fn from_str(s: &str) -> (r: Result<Self, Self::Err>)
        ensures
            match size_constraint_named(fold_bytes(utf8(s@))) {
                Some(v) => r matches Ok(x) && x == v,
                None => r matches Err(e) && e@ == "unknown size constraint: "@ + s@,
            },
    {
        SizeConstraint::parse_name(s)
    }
}

/// The pack mode a folded name denotes (see `fold_bytes`), if any.
pub open spec fn pack_mode_named(key: Seq<u8>) -> Option<PackMode> {
    if key == utf8("fast"@) {
        Some(PackMode::Fast)
    } else if key == utf8("good"@) {
        Some(PackMode::Good)
    } else if key == utf8("best"@) {
        Some(PackMode::Best)
    } else {
        None
    }
}

impl PackMode {
    /// Parse a pack mode name, ignoring case.
    pub fn parse_name(s: &str) -> (r: Result<PackMode, String>)
        ensures
            match pack_mode_named(fold_bytes(utf8(s@))) {
                Some(v) => r matches Ok(x) && x == v,
                None => r matches Err(e) && e@ == "unknown pack mode: "@ + s@,
            },
    {
        let key = fold_key(s);
        if is_word(&key, "fast") {
            Ok(PackMode::Fast)
        } else if is_word(&key, "good") {
            Ok(PackMode::Good)
        } else if is_word(&key, "best") {
            Ok(PackMode::Best)
        } else {
            Err(message_with("unknown pack mode: ", s))
        }
    }
}

impl std::str::FromStr for PackMode {
    type Err = String;

    fn from_str(s: &str) -> (r: Result<Self, Self::Err>)
        ensures
            match pack_mode_named(fold_bytes(utf8(s@))) {
                Some(v) => r matches Ok(x) && x == v,
                None => r matches Err(e) && e@ == "unknown pack mode: "@ + s@,
            },
    {
        PackMode::parse_name(s)
    }
}

/// The algorithm a folded name denotes (see `fold_bytes`), if any.
pub open spec fn algorithm_named(key: Seq<u8>) -> Option<AlgorithmChoice> {
    if key == utf8("grid"@) {
        Some(AlgorithmChoice::Grid)
    } else if key == utf8("basic"@) {
        Some(AlgorithmChoice::Basic)
    } else if key == utf8("max-rects"@) || key == utf8("maxrects"@) {
        Some(AlgorithmChoice::MaxRects)
    } else if key == utf8("polygon"@) {
        Some(AlgorithmChoice::Polygon)
    } else {
        None
    }
}

impl AlgorithmChoice {
    /// Parse a algorithm name, ignoring case.
    pub fn parse_name(s: &str) -> (r: Result<AlgorithmChoice, String>)
        ensures
            match algorithm_named(fold_bytes(utf8(s@))) {
                Some(v) => r matches Ok(x) && x == v,
                None => r matches Err(e) && e@ == "unknown algorithm: "@ + s@,
            },
    {
        let key = fold_key(s);
        if is_word(&key, "grid") {
            Ok(AlgorithmChoice::Grid)
        } else if is_word(&key, "basic") {
            Ok(AlgorithmChoice::Basic)
        } else if is_word(&key, "max-rects") || is_word(&key, "maxrects") {
            Ok(AlgorithmChoice::MaxRects)
        } else if is_word(&key, "polygon") {
            Ok(AlgorithmChoice::Polygon)
        } else {
            Err(message_with("unknown algorithm: ", s))
        }
    }
}

impl std::str::FromStr for AlgorithmChoice {
    type Err = String;

    fn from_str(s: &str) -> (r: Result<Self, Self::Err>)
        ensures
            match algorithm_named(fold_bytes(utf8(s@))) {
                Some(v) => r matches Ok(x) && x == v,
                None => r matches Err(e) && e@ == "unknown algorithm: "@ + s@,
            },
    {
        AlgorithmChoice::parse_name(s)
    }
}

/// The maxrects heuristic a folded name denotes (see `fold_bytes`), if any.
pub open spec fn heuristic_named(key: Seq<u8>) -> Option<MaxRectsHeuristic> {
    if key == utf8("best-short-side-fit"@) || key == utf8("bssf"@) {
        Some(MaxRectsHeuristic::BestShortSideFit)
    } else if key == utf8("best-long-side-fit"@) || key == utf8("blsf"@) {
        Some(MaxRectsHeuristic::BestLongSideFit)
    } else if key == utf8("best-area-fit"@) || key == utf8("baf"@) {
        Some(MaxRectsHeuristic::BestAreaFit)
    } else if key == utf8("bottom-left-rule"@) || key == utf8("blr"@) {
        Some(MaxRectsHeuristic::BottomLeftRule)
    } else if key == utf8("contact-point-rule"@) || key == utf8("cpr"@) {
        Some(MaxRectsHeuristic::ContactPointRule)
    } else {
        None
    }
}

impl MaxRectsHeuristic {
    /// Parse a maxrects heuristic name, ignoring case.
    pub fn parse_name(s: &str) -> (r: Result<MaxRectsHeuristic, String>)
        ensures
            match heuristic_named(fold_bytes(utf8(s@))) {
                Some(v) => r matches Ok(x) && x == v,
                None => r matches Err(e) && e@ == "unknown maxrects heuristic: "@ + s@,
            },
    {
        let key = fold_key(s);
        if is_word(&key, "best-short-side-fit") || is_word(&key, "bssf") {
            Ok(MaxRectsHeuristic::BestShortSideFit)
        } else if is_word(&key, "best-long-side-fit") || is_word(&key, "blsf") {
            Ok(MaxRectsHeuristic::BestLongSideFit)
        } else if is_word(&key, "best-area-fit") || is_word(&key, "baf") {
            Ok(MaxRectsHeuristic::BestAreaFit)
        } else if is_word(&key, "bottom-left-rule") || is_word(&key, "blr") {
            Ok(MaxRectsHeuristic::BottomLeftRule)
        } else if is_word(&key, "contact-point-rule") || is_word(&key, "cpr") {
            Ok(MaxRectsHeuristic::ContactPointRule)
        } else {
            Err(message_with("unknown maxrects heuristic: ", s))
        }
    }
}

impl std::str::FromStr for MaxRectsHeuristic {
    type Err = String;

    fn from_str(s: &str) -> (r: Result<Self, Self::Err>)
        ensures
            match heuristic_named(fold_bytes(utf8(s@))) {
                Some(v) => r matches Ok(x) && x == v,
                None => r matches Err(e) && e@ == "unknown maxrects heuristic: "@ + s@,
            },
    {
        MaxRectsHeuristic::parse_name(s)
    }
}

/// The scale mode a folded name denotes (see `fold_bytes`), if any.
pub open spec fn scale_mode_named(key: Seq<u8>) -> Option<ScaleMode> {
    if key == utf8("smooth"@) {
        Some(ScaleMode::Smooth)
    } else if key == utf8("fast"@) {
        Some(ScaleMode::Fast)
    } else if key == utf8("scale2x"@) {
        Some(ScaleMode::Scale2x)
    } else if key == utf8("scale3x"@) {
        Some(ScaleMode::Scale3x)
    } else if key == utf8("hq2x"@) {
        Some(ScaleMode::Hq2x)
    } else if key == utf8("eagle"@) {
        Some(ScaleMode::Eagle)
    } else {
        None
    }
}

impl ScaleMode {
    /// Parse a scale mode name, ignoring case.
    pub fn parse_name(s: &str) -> (r: Result<ScaleMode, String>)
        ensures
            match scale_mode_named(fold_bytes(utf8(s@))) {
                Some(v) => r matches Ok(x) && x == v,
                None => r matches Err(e) && e@ == "unknown scale mode: "@ + s@,
            },
    {
        let key = fold_key(s);
        if is_word(&key, "smooth") {
            Ok(ScaleMode::Smooth)
        } else if is_word(&key, "fast") {
            Ok(ScaleMode::Fast)
        } else if is_word(&key, "scale2x") {
            Ok(ScaleMode::Scale2x)
        } else if is_word(&key, "scale3x") {
            Ok(ScaleMode::Scale3x)
        } else if is_word(&key, "hq2x") {
            Ok(ScaleMode::Hq2x)
        } else if is_word(&key, "eagle") {
            Ok(ScaleMode::Eagle)
        } else {
            Err(message_with("unknown scale mode: ", s))
        }
    }
}

impl std::str::FromStr for ScaleMode {
    type Err = String;

    fn from_str(s: &str) -> (r: Result<Self, Self::Err>)
        ensures
            match scale_mode_named(fold_bytes(utf8(s@))) {
                Some(v) => r matches Ok(x) && x == v,
                None => r matches Err(e) && e@ == "unknown scale mode: "@ + s@,
            },
    {
        ScaleMode::parse_name(s)
    }
}

} // verus!
