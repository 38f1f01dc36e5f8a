use vstd::prelude::*;

use crate::config::{round_up_to, LayoutConfig, MaxRectsHeuristic, SizeConstraint};
use crate::packer::{canvas, fitted_size, footprints_disjoint, max_bottom, max_right, placement_ok, footprint, is_partition, layout_in_range, max_int, placed_dests, placed_sprites, sprite_in_range, sprites_in_range, take_largest, key_order, CoreError, PackInput, PackOutput, PlacedSprite, Placement};
use crate::rect::{Rect, Size};
use crate::sprite::Sprite;

verus! {

broadcast use vstd::seq_lib::group_to_multiset_ensures;

/// The smaller of two integers.
pub open spec fn min_int(a: int, b: int) -> int {
    if a <= b {
        a
    } else {
        b
    }
}

/// Lexicographic order on score pairs.
pub open spec fn lex_lt(a: (int, int), b: (int, int)) -> bool {
    a.0 < b.0 || (a.0 == b.0 && a.1 < b.1)
}

/// Score of placing an `fw × fh` footprint at the top-left of free rectangle `r`
/// (lower is better; compared lexicographically).
pub open spec fn score_spec(r: Rect, fw: int, fh: int, heuristic: MaxRectsHeuristic) -> (int, int) {
    let lw = r.w - fw;
    let lh = r.h - fh;
    match heuristic {
        MaxRectsHeuristic::BestShortSideFit => (min_int(lw, lh), max_int(lw, lh)),
        MaxRectsHeuristic::BestLongSideFit => (max_int(lw, lh), min_int(lw, lh)),
        MaxRectsHeuristic::BestAreaFit => (r.w * r.h - fw * fh, min_int(lw, lh)),
        MaxRectsHeuristic::ContactPointRule => (r.w * r.h - fw * fh, min_int(lw, lh)),
        MaxRectsHeuristic::BottomLeftRule => (r.y as int, r.x as int),
    }
}

/// Candidate `k` places the footprint in free rectangle `k / 2`, rotated when `k` is odd.
pub open spec fn cand_w(fw: int, fh: int, k: int) -> int {
    if k % 2 == 1 {
        fh
    } else {
        fw
    }
}

/// Height of the footprint for candidate `k`.
pub open spec fn cand_h(fw: int, fh: int, k: int) -> int {
    if k % 2 == 1 {
        fw
    } else {
        fh
    }
}

/// Candidate `k` fits its free rectangle (rotation only when allowed and the footprint
/// is not square).
pub open spec fn cand_valid(rects: Seq<Rect>, fw: int, fh: int, allow_rotation: bool, k: int) -> bool {
    &&& 0 <= k < 2 * rects.len()
    &&& (k % 2 == 1 ==> allow_rotation && fw != fh)
    &&& cand_w(fw, fh, k) <= rects[k / 2].w
    &&& cand_h(fw, fh, k) <= rects[k / 2].h
}

/// Score of candidate `k`.
pub open spec fn cand_score(
    rects: Seq<Rect>,
    fw: int,
    fh: int,
    heuristic: MaxRectsHeuristic,
    k: int,
) -> (int, int) {
    score_spec(rects[k / 2], cand_w(fw, fh, k), cand_h(fw, fh, k), heuristic)
}

/// Candidate `k` has the lowest score of all fitting candidates, and is the first
/// candidate with that score.
pub open spec fn is_best_candidate(
    rects: Seq<Rect>,
    fw: int,
    fh: int,
    allow_rotation: bool,
    heuristic: MaxRectsHeuristic,
    k: int,
) -> bool {
    &&& cand_valid(rects, fw, fh, allow_rotation, k)
    &&& forall|k2: int|
        0 <= k2 < k && #[trigger] cand_valid(rects, fw, fh, allow_rotation, k2) ==> lex_lt(
            cand_score(rects, fw, fh, heuristic, k),
            cand_score(rects, fw, fh, heuristic, k2),
        )
    &&& forall|k2: int|
        k < k2 < 2 * rects.len() && #[trigger] cand_valid(rects, fw, fh, allow_rotation, k2)
            ==> !lex_lt(
            cand_score(rects, fw, fh, heuristic, k2),
            cand_score(rects, fw, fh, heuristic, k),
        )
}

/// `a <= c` and `b <= d` give `a * b <= c * d` for naturals.
pub proof fn lemma_mul_le(a: int, b: int, c: int, d: int)
    requires
        0 <= a <= c,
        0 <= b <= d,
    ensures
        a * b <= c * d,
{
    assert(a * b <= c * d) by (nonlinear_arith)
        requires
            0 <= a <= c,
            0 <= b <= d,
    ;
}

/// Score of placing an `fw × fh` footprint into `rect` under `heuristic`.
pub fn score(rect: &Rect, fw: u32, fh: u32, heuristic: MaxRectsHeuristic) -> (s: (i128, i128))
    requires
        fw <= rect.w,
        fh <= rect.h,
    ensures
        s.0 == score_spec(*rect, fw as int, fh as int, heuristic).0,
        s.1 == score_spec(*rect, fw as int, fh as int, heuristic).1,
        s.0 < 0x1_0000_0000_0000_0000,
{
    let lw = (rect.w - fw) as i128;
    let lh = (rect.h - fh) as i128;
    match heuristic {
        MaxRectsHeuristic::BestShortSideFit => (
            if lw <= lh {
                lw
            } else {
                lh
            },
            if lw >= lh {
                lw
            } else {
                lh
            },
        ),
        MaxRectsHeuristic::BestLongSideFit => (
            if lw >= lh {
                lw
            } else {
                lh
            },
            if lw <= lh {
                lw
            } else {
                lh
            },
        ),
        MaxRectsHeuristic::BestAreaFit | MaxRectsHeuristic::ContactPointRule => {
            proof {
                lemma_mul_le(fw as int, fh as int, rect.w as int, rect.h as int);
                lemma_mul_le(rect.w as int, rect.h as int, u32::MAX as int, u32::MAX as int);
            }
            let waste = (rect.w as i128) * (rect.h as i128) - (fw as i128) * (fh as i128);
            (waste, if lw <= lh {
                lw
            } else {
                lh
            })
        },
        MaxRectsHeuristic::BottomLeftRule => (rect.y as i128, rect.x as i128),
    }
}

/// Choose where to place an `fw × fh` footprint: the fitting free rectangle (and
/// orientation) with the lowest score, the first one on ties. Returns its top-left
/// corner and whether the footprint is rotated.
pub fn find_best(
    free_rects: &Vec<Rect>,
    fw: u32,
    fh: u32,
    allow_rotation: bool,
    heuristic: MaxRectsHeuristic,
) -> (r: Option<(u32, u32, bool)>)
    ensures
        r is None <==> forall|k: int|
            0 <= k < 2 * free_rects@.len() ==> !#[trigger] cand_valid(
                free_rects@,
                fw as int,
                fh as int,
                allow_rotation,
                k,
            ),
        r matches Some((x, y, rot)) ==> exists|k: int|
            #![trigger free_rects@[k / 2]]
            is_best_candidate(free_rects@, fw as int, fh as int, allow_rotation, heuristic, k)
                && free_rects@[k / 2].x == x && free_rects@[k / 2].y == y && rot == (k % 2 == 1),
{
    let ghost rects = free_rects@;
    let ghost fwi = fw as int;
    let ghost fhi = fh as int;
    let mut best_x = 0u32;
    let mut best_y = 0u32;
    let mut best_rotated = false;
    let mut best_primary = i128::MAX;
    let mut best_secondary = i128::MAX;
    let mut found = false;
    let ghost mut best_k: int = 0;
    let n = free_rects.len();
    let mut i: usize = 0;
    while i < n
        invariant
            n == rects.len(),
            rects == free_rects@,
            fwi == fw,
            fhi == fh,
            i <= n,
            !found ==> best_primary == i128::MAX,
            !found ==> forall|k2: int|
                0 <= k2 < 2 * i ==> !#[trigger] cand_valid(rects, fwi, fhi, allow_rotation, k2),
            found ==> {
                &&& 0 <= best_k < 2 * i
                &&& cand_valid(rects, fwi, fhi, allow_rotation, best_k)
                &&& cand_score(rects, fwi, fhi, heuristic, best_k) == (
                    best_primary as int,
                    best_secondary as int,
                )
                &&& rects[best_k / 2].x == best_x
                &&& rects[best_k / 2].y == best_y
                &&& best_rotated == (best_k % 2 == 1)
                &&& forall|k2: int|
                    0 <= k2 < best_k && #[trigger] cand_valid(rects, fwi, fhi, allow_rotation, k2)
                        ==> lex_lt(
                        cand_score(rects, fwi, fhi, heuristic, best_k),
                        cand_score(rects, fwi, fhi, heuristic, k2),
                    )
                &&& forall|k2: int|
                    best_k < k2 < 2 * i && #[trigger] cand_valid(
                        rects,
                        fwi,
                        fhi,
                        allow_rotation,
                        k2,
                    ) ==> !lex_lt(
                        cand_score(rects, fwi, fhi, heuristic, k2),
                        cand_score(rects, fwi, fhi, heuristic, best_k),
                    )
            },
        decreases n - i,
    {
        let r = &free_rects[i];
        let ghost k0: int = 2 * i;
        let ghost k1: int = 2 * i + 1;
        assert(k0 / 2 == i && k0 % 2 == 0);
        assert(k1 / 2 == i && k1 % 2 == 1);
        if fw <= r.w && fh <= r.h {
            let (p, s) = score(r, fw, fh, heuristic);
            if p < best_primary || (p == best_primary && s < best_secondary) {
                best_primary = p;
                best_secondary = s;
                best_x = r.x;
                best_y = r.y;
                best_rotated = false;
                found = true;
                proof {
                    best_k = k0;
                }
            }
        }
        assert(found ==> 0 <= best_k < 2 * i + 1);
        if allow_rotation && fw != fh && fh <= r.w && fw <= r.h {
            let (p, s) = score(r, fh, fw, heuristic);
            if p < best_primary || (p == best_primary && s < best_secondary) {
                best_primary = p;
                best_secondary = s;
                best_x = r.x;
                best_y = r.y;
                best_rotated = true;
                found = true;
                proof {
                    best_k = k1;
                }
            }
        }
        i = i + 1;
    }
    if found {
        proof {
            assert(is_best_candidate(rects, fwi, fhi, allow_rotation, heuristic, best_k));
        }
        Some((best_x, best_y, best_rotated))
    } else {
        None
    }
}

/// `r` lies inside the canvas and overlaps none of the footprints in `prev`.
pub open spec fn free_ok(r: Rect, canvas: Rect, prev: Seq<Rect>) -> bool {
    &&& canvas.spec_contains(r)
    &&& forall|j: int| 0 <= j < prev.len() ==> !r.spec_intersects(#[trigger] prev[j])
}

/// `r` lies inside some rectangle of `outer`.
pub open spec fn contained_in_some(r: Rect, outer: Seq<Rect>) -> bool {
    exists|m: int| 0 <= m < outer.len() && #[trigger] outer[m].spec_contains(r)
}

/// Every rectangle of `inner` lies inside some rectangle of `outer`.
pub open spec fn all_inside_some(inner: Seq<Rect>, outer: Seq<Rect>) -> bool {
    forall|k: int| 0 <= k < inner.len() ==> #[trigger] contained_in_some(inner[k], outer)
}

/// Every rectangle of a list lies inside one of the list.
proof fn lemma_all_inside_self(s: Seq<Rect>)
    ensures
        all_inside_some(s, s),
{
    assert forall|k: int| 0 <= k < s.len() implies #[trigger] contained_in_some(s[k], s) by {
        crate::rect::lemma_contains_reflexive(s[k]);
        assert(s[k].spec_contains(s[k]));
    }
}

/// No rectangle of the list lies inside a rectangle at another place of the list
/// (so no rectangle occurs twice).
pub open spec fn no_nested(s: Seq<Rect>) -> bool {
    forall|i: int, j: int|
        0 <= i < s.len() && 0 <= j < s.len() && i != j ==> !(#[trigger] s[j]).spec_contains(
            #[trigger] s[i],
        )
}

/// Drop every rectangle that lies inside another rectangle of the list. Whatever
/// property all the old rectangles had, the remaining ones have, and every old
/// rectangle lies inside a remaining one.
pub fn prune(rects: &mut Vec<Rect>, Ghost(pred): Ghost<spec_fn(Rect) -> bool>)
    requires
        forall|i: int| 0 <= i < old(rects)@.len() ==> (#[trigger] old(rects)@[i]).edges_fit(),
        forall|i: int| 0 <= i < old(rects)@.len() ==> pred(#[trigger] old(rects)@[i]),
    ensures
        forall|i: int| 0 <= i < final(rects)@.len() ==> (#[trigger] final(rects)@[i]).edges_fit(),
        forall|i: int| 0 <= i < final(rects)@.len() ==> pred(#[trigger] final(rects)@[i]),
        final(rects)@.len() <= old(rects)@.len(),
        all_inside_some(old(rects)@, final(rects)@),
        no_nested(final(rects)@),
{
    let ghost orig = rects@;
    proof {
        lemma_all_inside_self(orig);
    }
    let mut i: usize = 0;
    while i < rects.len()
        invariant
            i <= rects@.len(),
            rects@.len() <= old(rects)@.len(),
            orig == old(rects)@,
            forall|k: int| 0 <= k < rects@.len() ==> (#[trigger] rects@[k]).edges_fit(),
            forall|k: int| 0 <= k < rects@.len() ==> pred(#[trigger] rects@[k]),
            all_inside_some(orig, rects@),
            forall|k: int, j: int|
                0 <= k < i && 0 <= j < rects@.len() && j != k ==> !(#[trigger] rects@[j]).spec_contains(
                    #[trigger] rects@[k],
                ),
        decreases rects@.len() - i,
    {
        let mut dominated = false;
        let mut dom_at: usize = 0;
        let mut j: usize = 0;
        let n = rects.len();
        while j < n && !dominated
            invariant
                n == rects@.len(),
                i < n,
                j <= n,
                forall|k: int| 0 <= k < rects@.len() ==> (#[trigger] rects@[k]).edges_fit(),
                dominated ==> dom_at < n && dom_at != i && rects@[dom_at as int].spec_contains(
                    rects@[i as int],
                ),
                !dominated ==> forall|jj: int|
                    0 <= jj < j && jj != i ==> !(#[trigger] rects@[jj]).spec_contains(rects@[i as int]),
            decreases n - j,
        {
            if i != j && rects[j].contains(&rects[i]) {
                dominated = true;
                dom_at = j;
            }
            j = j + 1;
        }
        if dominated {
            let ghost before = rects@;
            let ghost dj = if dom_at < i {
                dom_at as int
            } else {
                dom_at - 1
            };
            rects.remove(i);
            assert forall|k: int| 0 <= k < rects@.len() implies pred(#[trigger] rects@[k])
                && rects@[k].edges_fit() by {
                if k < i {
                    assert(rects@[k] == before[k]);
                } else {
                    assert(rects@[k] == before[k + 1]);
                }
            }
            assert(rects@[dj] == before[dom_at as int]);
            assert forall|k: int| 0 <= k < orig.len() implies #[trigger] contained_in_some(
                orig[k],
                rects@,
            ) by {
                assert(contained_in_some(orig[k], before));
                let m0 = choose|m: int| 0 <= m < before.len() && #[trigger] before[m].spec_contains(
                    orig[k],
                );
                if m0 == i {
                    crate::rect::lemma_contains_transitive(before[dom_at as int], before[m0], orig[k]);
                    assert(rects@[dj].spec_contains(orig[k]));
                } else if m0 < i {
                    assert(rects@[m0].spec_contains(orig[k]));
                } else {
                    assert(rects@[m0 - 1] == before[m0]);
                    assert(rects@[m0 - 1].spec_contains(orig[k]));
                }
            }
            assert forall|k: int, j: int|
                0 <= k < i && 0 <= j < rects@.len() && j != k implies !(#[trigger] rects@[j]).spec_contains(
                #[trigger] rects@[k],
            ) by {
                assert(rects@[k] == before[k]);
                if j < i {
                    assert(rects@[j] == before[j]);
                } else {
                    assert(rects@[j] == before[j + 1]);
                }
            }
        } else {
            i = i + 1;
        }
    }
}

/// A list whose rectangles lie inside rectangles of `outer` keeps that when a
/// rectangle inside `outer[m]` (through `r`) is added.
proof fn lemma_push_inside(s: Seq<Rect>, x: Rect, outer: Seq<Rect>, r: Rect, m: int)
    requires
        all_inside_some(s, outer),
        0 <= m < outer.len(),
        outer[m].spec_contains(r),
        r.spec_contains(x),
    ensures
        all_inside_some(s.push(x), outer),
{
    crate::rect::lemma_contains_transitive(outer[m], r, x);
    assert forall|k: int| 0 <= k < s.push(x).len() implies #[trigger] contained_in_some(
        s.push(x)[k],
        outer,
    ) by {
        if k < s.len() {
            assert(s.push(x)[k] == s[k]);
        } else {
            assert(outer[m].spec_contains(s.push(x)[k]));
        }
    }
}

/// Every non-empty rectangle inside the canvas and clear of the footprints lies
/// inside one of the free rectangles.
pub open spec fn free_cover(free: Seq<Rect>, cv: Rect, fps: Seq<Rect>) -> bool {
    forall|e: Rect| e.w > 0 && e.h > 0 && #[trigger] free_ok(e, cv, fps) ==> contained_in_some(e, free)
}

/// The strip of `r` left of `p`.
pub open spec fn left_piece(r: Rect, p: Rect) -> Rect {
    Rect { x: r.x, y: r.y, w: (p.x - r.x) as u32, h: r.h }
}

/// The strip of `r` right of `p`.
pub open spec fn right_piece(r: Rect, p: Rect) -> Rect {
    Rect { x: p.spec_right() as u32, y: r.y, w: (r.spec_right() - p.spec_right()) as u32, h: r.h }
}

/// The strip of `r` above `p`.
pub open spec fn top_piece(r: Rect, p: Rect) -> Rect {
    Rect { x: r.x, y: r.y, w: r.w, h: (p.y - r.y) as u32 }
}

/// The strip of `r` below `p`.
pub open spec fn bottom_piece(r: Rect, p: Rect) -> Rect {
    Rect { x: r.x, y: p.spec_bottom() as u32, w: r.w, h: (r.spec_bottom() - p.spec_bottom()) as u32 }
}

/// A non-empty rectangle inside `r` and clear of `p` lies inside one of the strips
/// of `r` around `p`, and that strip is not empty.
proof fn lemma_split_piece(r: Rect, p: Rect, e: Rect)
    requires
        r.edges_fit(),
        p.edges_fit(),
        r.spec_contains(e),
        e.w > 0,
        e.h > 0,
        !e.spec_intersects(p),
    ensures
        (p.x > r.x && left_piece(r, p).spec_contains(e)) || (p.spec_right() < r.spec_right()
            && right_piece(r, p).spec_contains(e)) || (p.y > r.y && top_piece(r, p).spec_contains(e))
            || (p.spec_bottom() < r.spec_bottom() && bottom_piece(r, p).spec_contains(e)),
{
}

/// Free-cover is kept when a rectangle covering more replaces the list.
proof fn lemma_cover_through(inner: Seq<Rect>, outer: Seq<Rect>, e: Rect)
    requires
        contained_in_some(e, inner),
        all_inside_some(inner, outer),
    ensures
        contained_in_some(e, outer),
{
    let m = choose|m: int| 0 <= m < inner.len() && #[trigger] inner[m].spec_contains(e);
    assert(contained_in_some(inner[m], outer));
    let m2 = choose|m2: int| 0 <= m2 < outer.len() && #[trigger] outer[m2].spec_contains(inner[m]);
    crate::rect::lemma_contains_transitive(outer[m2], inner[m], e);
}

/// Carve the placed footprint out of the free-rectangle list: every free rectangle
/// that overlaps `placed` is replaced by the (up to four) maximal strips of it that lie
/// left of, right of, above and below `placed`; then contained rectangles are pruned.
/// Afterwards no free rectangle overlaps `placed`, each lies inside an old one, none
/// lies inside another, and every non-empty rectangle that lay inside an old free
/// rectangle and misses `placed` lies inside a new one. When the old rectangles lay
/// inside the canvas `canvas` and clear of the footprints `prev`, the new ones lie
/// inside it and clear of those and of `placed`; when the old ones also held every
/// clear spot, the new ones hold every spot clear of `placed` too.
pub fn split_and_prune(
    free_rects: &mut Vec<Rect>,
    placed: Rect,
    Ghost(canvas): Ghost<Rect>,
    Ghost(prev): Ghost<Seq<Rect>>,
)
    requires
        placed.edges_fit(),
        forall|i: int| 0 <= i < old(free_rects)@.len() ==> (#[trigger] old(free_rects)@[i]).edges_fit(),
    ensures
        forall|i: int|
            0 <= i < final(free_rects)@.len() ==> (#[trigger] final(free_rects)@[i]).edges_fit()
                && !final(free_rects)@[i].spec_intersects(placed),
        (forall|i: int| 0 <= i < old(free_rects)@.len() ==> free_ok(#[trigger] old(free_rects)@[i], canvas, prev))
            ==> forall|i: int|
            0 <= i < final(free_rects)@.len() ==> free_ok(
                #[trigger] final(free_rects)@[i],
                canvas,
                prev.push(placed),
            ),
        final(free_rects)@.len() <= 4 * old(free_rects)@.len(),
        free_cover(old(free_rects)@, canvas, prev) && (forall|i: int|
            0 <= i < old(free_rects)@.len() ==> free_ok(#[trigger] old(free_rects)@[i], canvas, prev))
            ==> free_cover(
            final(free_rects)@,
            canvas,
            prev.push(placed),
        ),
        all_inside_some(final(free_rects)@, old(free_rects)@),
        no_nested(final(free_rects)@),
        forall|e: Rect|
            e.w > 0 && e.h > 0 && #[trigger] contained_in_some(e, old(free_rects)@) && !e.spec_intersects(
                placed,
            ) ==> contained_in_some(e, final(free_rects)@),
{
    let ghost n0 = free_rects@.len();
    let ghost orig0 = free_rects@;
    let ghost prev2 = prev.push(placed);
    let mut splits: Vec<Rect> = Vec::new();
    let mut i: usize = 0;
    proof {
        lemma_all_inside_self(orig0);
        assert forall|e: Rect|
            e.w > 0 && e.h > 0 && #[trigger] contained_in_some(e, orig0) && !e.spec_intersects(placed)
                implies contained_in_some(e, free_rects@) || contained_in_some(e, splits@) by {}
    }
    while i < free_rects.len()
        invariant
            placed.edges_fit(),
            prev2 == prev.push(placed),
            i <= free_rects@.len(),
            free_rects@.len() + splits@.len() <= 4 * n0,
            i <= n0 - (n0 - free_rects@.len()),
            free_rects@.len() <= n0,
            splits@.len() <= 4 * (n0 - free_rects@.len()),
            forall|k: int| 0 <= k < free_rects@.len() ==> (#[trigger] free_rects@[k]).edges_fit(),
            forall|k: int| 0 <= k < i ==> !(#[trigger] free_rects@[k]).spec_intersects(placed),
            all_inside_some(free_rects@, orig0),
            all_inside_some(splits@, orig0),
            forall|k: int|
                0 <= k < splits@.len() ==> (#[trigger] splits@[k]).edges_fit()
                    && !splits@[k].spec_intersects(placed),
            orig0 == old(free_rects)@,
            forall|e: Rect|
                e.w > 0 && e.h > 0 && #[trigger] contained_in_some(e, orig0) && !e.spec_intersects(placed)
                    ==> contained_in_some(e, free_rects@) || contained_in_some(e, splits@),
        decreases free_rects@.len() - i,
    {
        assert(free_rects@[i as int].edges_fit());
        if free_rects[i].intersects(&placed) {
            let ghost before = free_rects@;
            let ghost splits0 = splits@;
            let r = free_rects.remove(i);
            proof {
                assert(before[i as int] == r);
                assert(contained_in_some(before[i as int], orig0));
            }
            let ghost mo = choose|m: int| 0 <= m < orig0.len() && #[trigger] orig0[m].spec_contains(r);
            let ghost il = splits@.len();
            if placed.x > r.x {
                let ghost s0 = splits@;
                splits.push(Rect::new(r.x, r.y, placed.x - r.x, r.h));
                proof { lemma_push_inside(s0, splits@.last(), orig0, r, mo); }
            }
            let ghost ir = splits@.len();
            if placed.right() < r.right() {
                let ghost s0 = splits@;
                splits.push(Rect::new(placed.right(), r.y, r.right() - placed.right(), r.h));
                proof { lemma_push_inside(s0, splits@.last(), orig0, r, mo); }
            }
            let ghost it = splits@.len();
            if placed.y > r.y {
                let ghost s0 = splits@;
                splits.push(Rect::new(r.x, r.y, r.w, placed.y - r.y));
                proof { lemma_push_inside(s0, splits@.last(), orig0, r, mo); }
            }
            let ghost ib = splits@.len();
            if placed.bottom() < r.bottom() {
                let ghost s0 = splits@;
                splits.push(Rect::new(r.x, placed.bottom(), r.w, r.bottom() - placed.bottom()));
                proof { lemma_push_inside(s0, splits@.last(), orig0, r, mo); }
            }
            assert forall|k: int| 0 <= k < free_rects@.len() implies #[trigger] contained_in_some(
                free_rects@[k],
                orig0,
            ) by {
                if k < i {
                    assert(free_rects@[k] == before[k]);
                } else {
                    assert(free_rects@[k] == before[k + 1]);
                }
            }
            assert forall|k: int| 0 <= k < free_rects@.len() implies (
                #[trigger] free_rects@[k]).edges_fit() by {
                if k < i {
                    assert(free_rects@[k] == before[k]);
                } else {
                    assert(free_rects@[k] == before[k + 1]);
                }
            }
            assert forall|k: int| 0 <= k < i implies !(#[trigger] free_rects@[k]).spec_intersects(
                placed,
            ) by {
                assert(free_rects@[k] == before[k]);
            }
            proof {
                {
                    assert forall|e: Rect|
                        e.w > 0 && e.h > 0 && #[trigger] contained_in_some(e, orig0) && !e.spec_intersects(placed)
                            implies contained_in_some(e, free_rects@) || contained_in_some(e, splits@) by {
                        if contained_in_some(e, splits0) {
                            let m = choose|m: int| 0 <= m < splits0.len() && #[trigger] splits0[m].spec_contains(e);
                            assert(splits@[m] == splits0[m]);
                        } else {
                            let m = choose|m: int| 0 <= m < before.len() && #[trigger] before[m].spec_contains(e);
                            if m == i {
                                lemma_split_piece(r, placed, e);
                                if placed.x > r.x && left_piece(r, placed).spec_contains(e) {
                                    assert(splits@[il as int] == left_piece(r, placed));
                                } else if placed.spec_right() < r.spec_right() && right_piece(r, placed).spec_contains(e) {
                                    assert(splits@[ir as int] == right_piece(r, placed));
                                } else if placed.y > r.y && top_piece(r, placed).spec_contains(e) {
                                    assert(splits@[it as int] == top_piece(r, placed));
                                } else {
                                    assert(splits@[ib as int] == bottom_piece(r, placed));
                                }
                            } else if m < i {
                                assert(free_rects@[m] == before[m]);
                            } else {
                                assert(free_rects@[m - 1] == before[m]);
                            }
                        }
                    }
                }
            }
        } else {
            i = i + 1;
        }
    }
    let ghost kept = free_rects@;
    let ghost split_list = splits@;
    free_rects.append(&mut splits);
    assert forall|k: int| 0 <= k < free_rects@.len() implies (#[trigger] free_rects@[k]).edges_fit()
        && !free_rects@[k].spec_intersects(placed) by {
        if k < kept.len() {
            assert(free_rects@[k] == kept[k]);
        } else {
            assert(free_rects@[k] == split_list[k - kept.len()]);
        }
    }
    let ghost joined = free_rects@;
    proof {
        {
            assert forall|e: Rect|
                e.w > 0 && e.h > 0 && #[trigger] contained_in_some(e, orig0) && !e.spec_intersects(placed)
                    implies contained_in_some(e, joined) by {
                if contained_in_some(e, kept) {
                    let m = choose|m: int| 0 <= m < kept.len() && #[trigger] kept[m].spec_contains(e);
                    assert(joined[m] == kept[m]);
                } else {
                    let m = choose|m: int| 0 <= m < split_list.len() && #[trigger] split_list[m].spec_contains(e);
                    assert(joined[kept.len() + m] == split_list[m]);
                }
            }
        }
    }
    let ghost pred = |r: Rect| !r.spec_intersects(placed) && contained_in_some(r, orig0);
    assert forall|k: int| 0 <= k < free_rects@.len() implies (#[trigger] free_rects@[k]).edges_fit() && pred(free_rects@[k]) by {
        if k < kept.len() {
            assert(free_rects@[k] == kept[k]);
            assert(contained_in_some(kept[k], orig0));
        } else {
            assert(free_rects@[k] == split_list[k - kept.len()]);
            assert(contained_in_some(split_list[k - kept.len()], orig0));
        }
    }
    prune(free_rects, Ghost(pred));
    proof {
        assert forall|k: int| 0 <= k < free_rects@.len() implies #[trigger] contained_in_some(
            free_rects@[k],
            orig0,
        ) && !free_rects@[k].spec_intersects(placed) by {
            assert(pred(free_rects@[k]));
        }
        if forall|i: int| 0 <= i < orig0.len() ==> free_ok(#[trigger] orig0[i], canvas, prev) {
            assert forall|k: int| 0 <= k < free_rects@.len() implies free_ok(
                #[trigger] free_rects@[k],
                canvas,
                prev2,
            ) by {
                let r = free_rects@[k];
                assert(contained_in_some(r, orig0));
                let m = choose|m: int| 0 <= m < orig0.len() && #[trigger] orig0[m].spec_contains(r);
                assert(free_ok(orig0[m], canvas, prev));
                crate::rect::lemma_contains_transitive(canvas, orig0[m], r);
                assert forall|j: int| 0 <= j < prev2.len() implies !r.spec_intersects(#[trigger] prev2[j]) by {
                    if j < prev.len() {
                        assert(prev2[j] == prev[j]);
                        crate::rect::lemma_contained_keeps_disjoint(orig0[m], r, prev[j]);
                    } else {
                        assert(prev2[j] == placed);
                        assert(!r.spec_intersects(placed));
                    }
                }
            }
        }
        assert forall|e: Rect|
            e.w > 0 && e.h > 0 && #[trigger] contained_in_some(e, orig0) && !e.spec_intersects(placed)
                implies contained_in_some(e, free_rects@) by {
            lemma_cover_through(joined, free_rects@, e);
        }
        if free_cover(orig0, canvas, prev) && (forall|i: int| 0 <= i < orig0.len() ==> free_ok(#[trigger] orig0[i], canvas, prev)) {
            assert forall|e: Rect| e.w > 0 && e.h > 0 && #[trigger] free_ok(e, canvas, prev2) implies contained_in_some(e, free_rects@) by {
                assert(prev2[prev.len() as int] == placed);
                assert(!e.spec_intersects(placed));
                assert forall|j: int| 0 <= j < prev.len() implies !e.spec_intersects(#[trigger] prev[j]) by {
                    assert(prev2[j] == prev[j]);
                }
                assert(free_ok(e, canvas, prev));
                assert(contained_in_some(e, orig0));
            }
        }
    }
}

/// The atlas size covering all placements (see `fitted_size`).
fn compute_atlas_size(placed: &Vec<PlacedSprite>, border_padding: u32, cfg: &LayoutConfig) -> (s: Size)
    requires
        layout_in_range(*cfg),
        border_padding == cfg.border_padding,
        forall|i: int|
            0 <= i < placed@.len() ==> (#[trigger] placed@[i]).placement.dest.spec_right()
                + border_padding <= max_int(cfg.max_width as int, 2 * border_padding)
                && placed@[i].placement.dest.spec_bottom() + border_padding <= max_int(
                cfg.max_height as int,
                2 * border_padding,
            ),
    ensures
        s == fitted_size(placed_dests(placed@), *cfg),
{
    let ghost dests = placed_dests(placed@);
    if placed.len() == 0 {
        return Size { w: 0, h: 0 };
    }
    let mut max_x = 0u32;
    let mut max_y = 0u32;
    let mut i: usize = 0;
    while i < placed.len()
        invariant
            dests == placed_dests(placed@),
            i <= placed@.len(),
            max_x == max_right(dests.take(i as int)),
            max_y == max_bottom(dests.take(i as int)),
            max_x + border_padding <= max_int(cfg.max_width as int, 2 * border_padding),
            max_y + border_padding <= max_int(cfg.max_height as int, 2 * border_padding),
            forall|k: int|
                0 <= k < placed@.len() ==> (#[trigger] placed@[k]).placement.dest.spec_right()
                    + border_padding <= max_int(cfg.max_width as int, 2 * border_padding)
                    && placed@[k].placement.dest.spec_bottom() + border_padding <= max_int(
                    cfg.max_height as int,
                    2 * border_padding,
                ),
        decreases placed@.len() - i,
    {
        assert(dests.take(i + 1).drop_last() =~= dests.take(i as int));
        assert(dests.take(i + 1).last() == placed@[i as int].placement.dest);
        let r = placed[i].placement.dest.right();
        let b = placed[i].placement.dest.bottom();
        if r > max_x {
            max_x = r;
        }
        if b > max_y {
            max_y = b;
        }
        i = i + 1;
    }
    assert(dests.take(placed@.len() as int) =~= dests);
    let cap = if cfg.max_width >= cfg.max_height {
        cfg.max_width
    } else {
        cfg.max_height
    };
    let w = cfg.size_constraint.apply_capped(max_x + border_padding, cap);
    let h = cfg.size_constraint.apply_capped(max_y + border_padding, cap);
    let (w, h) = if cfg.force_square {
        let side = if w >= h {
            w
        } else {
            h
        };
        (side, side)
    } else {
        (w, h)
    };
    Size {
        w: if w <= cfg.max_width {
            w
        } else {
            cfg.max_width
        },
        h: if h <= cfg.max_height {
            h
        } else {
            cfg.max_height
        },
    }
}

/// The padded footprints of the placements, in order.
pub open spec fn placed_footprints(placed: Seq<PlacedSprite>, sp: u32) -> Seq<Rect> {
    Seq::new(placed.len(), |i: int| footprint(placed[i].placement.dest, sp))
}

/// No spot of the canvas clear of the footprints takes the padded footprint of
/// `s`, upright or (when rotation is allowed) turned.
pub open spec fn no_room(s: Sprite, cv: Rect, fps: Seq<Rect>, sp: u32, rot: bool) -> bool {
    let fw = s.w() + sp;
    let fh = s.h() + sp;
    fw > 0 && fh > 0 ==> forall|x: u32, y: u32|
        !#[trigger] free_ok(Rect { x, y, w: fw as u32, h: fh as u32 }, cv, fps) && (rot ==> !free_ok(
            Rect { x, y, w: fh as u32, h: fw as u32 },
            cv,
            fps,
        ))
}

/// A sprite with no room keeps having none as more footprints are added.
proof fn lemma_no_room_grows(s: Sprite, cv: Rect, fps: Seq<Rect>, fp: Rect, sp: u32, rot: bool)
    requires
        no_room(s, cv, fps, sp, rot),
    ensures
        no_room(s, cv, fps.push(fp), sp, rot),
{
    let fw = s.w() + sp;
    let fh = s.h() + sp;
    if fw > 0 && fh > 0 {
        assert forall|x: u32, y: u32| !#[trigger] free_ok(
            Rect { x, y, w: fw as u32, h: fh as u32 },
            cv,
            fps.push(fp),
        ) && (rot ==> !free_ok(Rect { x, y, w: fh as u32, h: fw as u32 }, cv, fps.push(fp))) by {
            let e1 = Rect { x, y, w: fw as u32, h: fh as u32 };
            let e2 = Rect { x, y, w: fh as u32, h: fw as u32 };
            assert(!free_ok(e1, cv, fps));
            if free_ok(e1, cv, fps.push(fp)) {
                assert forall|j: int| 0 <= j < fps.len() implies !e1.spec_intersects(#[trigger] fps[j]) by {
                    assert(fps.push(fp)[j] == fps[j]);
                }
            }
            if rot && free_ok(e2, cv, fps.push(fp)) {
                assert(!free_ok(e2, cv, fps));
                assert forall|j: int| 0 <= j < fps.len() implies !e2.spec_intersects(#[trigger] fps[j]) by {
                    assert(fps.push(fp)[j] == fps[j]);
                }
            }
        }
    }
}

/// When no free rectangle takes the footprint in any allowed orientation and the
/// free rectangles cover every free spot, the sprite has no room.
proof fn lemma_overflow_no_room(
    free: Seq<Rect>,
    cv: Rect,
    fps: Seq<Rect>,
    s: Sprite,
    sp: u32,
    rot: bool,
)
    requires
        free_cover(free, cv, fps),
        s.w() + sp <= u32::MAX,
        s.h() + sp <= u32::MAX,
        forall|k: int|
            0 <= k < 2 * free.len() ==> !#[trigger] cand_valid(
                free,
                s.w() + sp,
                s.h() + sp,
                rot,
                k,
            ),
    ensures
        no_room(s, cv, fps, sp, rot),
{
    let fw = s.w() + sp;
    let fh = s.h() + sp;
    if fw > 0 && fh > 0 {
        assert forall|x: u32, y: u32| !#[trigger] free_ok(
            Rect { x, y, w: fw as u32, h: fh as u32 },
            cv,
            fps,
        ) && (rot ==> !free_ok(Rect { x, y, w: fh as u32, h: fw as u32 }, cv, fps)) by {
            let e1 = Rect { x, y, w: fw as u32, h: fh as u32 };
            let e2 = Rect { x, y, w: fh as u32, h: fw as u32 };
            if free_ok(e1, cv, fps) {
                let m = choose|m: int| 0 <= m < free.len() && #[trigger] free[m].spec_contains(e1);
                assert(cand_valid(free, fw, fh, rot, 2 * m));
            }
            if rot && free_ok(e2, cv, fps) {
                let m = choose|m: int| 0 <= m < free.len() && #[trigger] free[m].spec_contains(e2);
                if fw != fh {
                    assert(cand_valid(free, fw, fh, rot, 2 * m + 1));
                } else {
                    assert(e1 == e2);
                    assert(cand_valid(free, fw, fh, rot, 2 * m));
                }
            }
        }
    }
}

/// How many entries of `w` are `true`.
pub open spec fn count_true(w: Seq<bool>) -> nat
    decreases w.len(),
{
    if w.len() == 0 {
        0
    } else {
        count_true(w.drop_last()) + if w.last() {
            1nat
        } else {
            0nat
        }
    }
}

/// The sprites of `order` whose flag in `went` equals `fit`, in order.
pub open spec fn split_by_flag(order: Seq<Sprite>, went: Seq<bool>, fit: bool) -> Seq<Sprite>
    decreases order.len(),
{
    if order.len() == 0 || went.len() != order.len() {
        Seq::empty()
    } else {
        let prev = split_by_flag(order.drop_last(), went.drop_last(), fit);
        if went.last() == fit {
            prev.push(order.last())
        } else {
            prev
        }
    }
}

/// `r` is a maximal clear spot: inside the canvas, clear of the footprints, and no
/// other non-empty clear spot contains it.
pub open spec fn max_free(r: Rect, cv: Rect, fps: Seq<Rect>) -> bool {
    &&& free_ok(r, cv, fps)
    &&& forall|e: Rect|
        #![trigger free_ok(e, cv, fps), e.spec_contains(r)]
        e.w > 0 && e.h > 0 && free_ok(e, cv, fps) && e.spec_contains(r) ==> e == r
}

/// An `fw × fh` footprint fits spot `r` upright, or turned when `rot` (turning only
/// when allowed and the footprint is not square).
pub open spec fn spot_fits(r: Rect, fw: int, fh: int, rot: bool, allow_rotation: bool) -> bool {
    if rot {
        allow_rotation && fw != fh && fh <= r.w && fw <= r.h
    } else {
        fw <= r.w && fh <= r.h
    }
}

/// Score of putting the footprint into spot `r`, turned when `rot`.
pub open spec fn spot_score(r: Rect, fw: int, fh: int, rot: bool, heuristic: MaxRectsHeuristic) -> (
    int,
    int,
) {
    if rot {
        score_spec(r, fh, fw, heuristic)
    } else {
        score_spec(r, fw, fh, heuristic)
    }
}

/// A footprint put at `(x, y)`, turned when `rot`, takes a maximal clear spot whose
/// score under `heuristic` no other fitting non-empty maximal clear spot beats.
pub open spec fn best_spot(
    x: u32,
    y: u32,
    rot: bool,
    fw: int,
    fh: int,
    allow_rotation: bool,
    cv: Rect,
    fps: Seq<Rect>,
    heuristic: MaxRectsHeuristic,
) -> bool {
    exists|m: Rect|
        #[trigger] max_free(m, cv, fps) && m.x == x && m.y == y && spot_fits(
            m,
            fw,
            fh,
            rot,
            allow_rotation,
        ) && forall|m2: Rect, rot2: bool|
            #![trigger max_free(m2, cv, fps), spot_fits(m2, fw, fh, rot2, allow_rotation)]
            m2.w > 0 && m2.h > 0 && max_free(m2, cv, fps) && spot_fits(m2, fw, fh, rot2, allow_rotation)
                ==> !lex_lt(
                spot_score(m2, fw, fh, rot2, heuristic),
                spot_score(m, fw, fh, rot, heuristic),
            )
}

/// A free list clear of the footprints, covering every clear spot, with no rectangle
/// inside another, is the list of maximal clear spots; so the best candidate on it
/// takes a best maximal clear spot.
proof fn lemma_best_spot(
    free: Seq<Rect>,
    cv: Rect,
    fps: Seq<Rect>,
    fw: int,
    fh: int,
    allow_rotation: bool,
    heuristic: MaxRectsHeuristic,
    k: int,
)
    requires
        forall|i: int| 0 <= i < free.len() ==> free_ok(#[trigger] free[i], cv, fps),
        free_cover(free, cv, fps),
        no_nested(free),
        is_best_candidate(free, fw, fh, allow_rotation, heuristic, k),
    ensures
        best_spot(free[k / 2].x, free[k / 2].y, k % 2 == 1, fw, fh, allow_rotation, cv, fps, heuristic),
{
    let m = free[k / 2];
    assert forall|e: Rect|
        #![trigger free_ok(e, cv, fps), e.spec_contains(m)]
        e.w > 0 && e.h > 0 && free_ok(e, cv, fps) && e.spec_contains(m) implies e == m by {
        let j = choose|j: int| 0 <= j < free.len() && #[trigger] free[j].spec_contains(e);
        crate::rect::lemma_contains_transitive(free[j], e, m);
        if j != k / 2 {
            assert(!free[j].spec_contains(free[k / 2]));
        }
    }
    assert(max_free(m, cv, fps));
    assert forall|m2: Rect, rot2: bool|
        #![trigger max_free(m2, cv, fps), spot_fits(m2, fw, fh, rot2, allow_rotation)]
        m2.w > 0 && m2.h > 0 && max_free(m2, cv, fps) && spot_fits(m2, fw, fh, rot2, allow_rotation)
            implies !lex_lt(spot_score(m2, fw, fh, rot2, heuristic), spot_score(m, fw, fh, k % 2 == 1, heuristic)) by {
        let j = choose|j: int| 0 <= j < free.len() && #[trigger] free[j].spec_contains(m2);
        assert(free_ok(free[j], cv, fps));
        assert(free[j] == m2);
        let k2: int = if rot2 { 2 * j + 1 } else { 2 * j };
        assert(k2 / 2 == j && (k2 % 2 == 1) == rot2);
        assert(cand_valid(free, fw, fh, allow_rotation, k2));
        assert(cand_score(free, fw, fh, heuristic, k2) == spot_score(m2, fw, fh, rot2, heuristic));
        assert(cand_score(free, fw, fh, heuristic, k) == spot_score(m, fw, fh, k % 2 == 1, heuristic));
    }
}

/// A MaxRects run over the sprites of `order`, taken in that order: `went[k]` says
/// whether the `k`-th sprite was placed. Placed and overflowing sprites keep that
/// order; a sprite overflows only when, at its turn, no spot of the canvas clear of
/// the footprints placed before it takes its footprint; and a placed sprite takes,
/// at its turn, a best maximal clear spot under `heuristic`.
pub open spec fn run_ok(
    order: Seq<Sprite>,
    went: Seq<bool>,
    placed: Seq<PlacedSprite>,
    overflow: Seq<Sprite>,
    cv: Rect,
    sp: u32,
    rot: bool,
    heuristic: MaxRectsHeuristic,
) -> bool {
    &&& went.len() == order.len()
    &&& placed_sprites(placed) == split_by_flag(order, went, true)
    &&& overflow == split_by_flag(order, went, false)
    &&& count_true(went) == placed.len()
    &&& forall|k: int|
        #![trigger went[k]]
        0 <= k < order.len() && !went[k] ==> count_true(went.take(k)) <= placed.len() && no_room(
            order[k],
            cv,
            placed_footprints(placed.take(count_true(went.take(k)) as int), sp),
            sp,
            rot,
        )
    &&& forall|k: int|
        #![trigger went[k]]
        0 <= k < order.len() && went[k] ==> count_true(went.take(k)) < placed.len() && best_spot(
            placed[count_true(went.take(k)) as int].placement.dest.x,
            placed[count_true(went.take(k)) as int].placement.dest.y,
            placed[count_true(went.take(k)) as int].placement.rotated,
            order[k].w() + sp,
            order[k].h() + sp,
            rot,
            cv,
            placed_footprints(placed.take(count_true(went.take(k)) as int), sp),
            heuristic,
        )
}

/// The empty run.
proof fn lemma_run_empty(cv: Rect, sp: u32, rot: bool, heuristic: MaxRectsHeuristic)
    ensures
        run_ok(Seq::empty(), Seq::empty(), Seq::empty(), Seq::empty(), cv, sp, rot, heuristic),
{
    assert(placed_sprites(Seq::<PlacedSprite>::empty()) =~= Seq::<Sprite>::empty());
}

/// A run extended by a sprite that found no room.
proof fn lemma_run_overflow(
    order: Seq<Sprite>,
    went: Seq<bool>,
    placed: Seq<PlacedSprite>,
    overflow: Seq<Sprite>,
    s: Sprite,
    cv: Rect,
    sp: u32,
    rot: bool,
    heuristic: MaxRectsHeuristic,
)
    requires
        run_ok(order, went, placed, overflow, cv, sp, rot, heuristic),
        no_room(s, cv, placed_footprints(placed, sp), sp, rot),
    ensures
        run_ok(order.push(s), went.push(false), placed, overflow.push(s), cv, sp, rot, heuristic),
{
    let o2 = order.push(s);
    let w2 = went.push(false);
    assert(o2.drop_last() =~= order);
    assert(w2.drop_last() =~= went);
    assert(split_by_flag(o2, w2, true) == split_by_flag(order, went, true));
    assert(split_by_flag(o2, w2, false) == split_by_flag(order, went, false).push(s));
    assert(count_true(w2) == count_true(went));
    assert forall|k: int|
        #![trigger w2[k]]
        0 <= k < o2.len() && !w2[k] implies count_true(w2.take(k)) <= placed.len() && no_room(
            o2[k],
            cv,
            placed_footprints(placed.take(count_true(w2.take(k)) as int), sp),
            sp,
            rot,
        ) by {
        if k < order.len() {
            assert(w2.take(k) =~= went.take(k));
            assert(w2[k] == went[k]);
            assert(o2[k] == order[k]);
        } else {
            assert(w2.take(k) =~= went);
            assert(placed.take(placed.len() as int) =~= placed);
        }
    }
    assert forall|k: int|
        #![trigger w2[k]]
        0 <= k < o2.len() && w2[k] implies count_true(w2.take(k)) < placed.len() && best_spot(
            placed[count_true(w2.take(k)) as int].placement.dest.x,
            placed[count_true(w2.take(k)) as int].placement.dest.y,
            placed[count_true(w2.take(k)) as int].placement.rotated,
            o2[k].w() + sp,
            o2[k].h() + sp,
            rot,
            cv,
            placed_footprints(placed.take(count_true(w2.take(k)) as int), sp),
            heuristic,
        ) by {
        assert(k < order.len());
        assert(w2.take(k) =~= went.take(k));
        assert(w2[k] == went[k]);
        assert(o2[k] == order[k]);
    }
}

/// A run extended by a placed sprite.
proof fn lemma_run_place(
    order: Seq<Sprite>,
    went: Seq<bool>,
    placed: Seq<PlacedSprite>,
    overflow: Seq<Sprite>,
    ps: PlacedSprite,
    cv: Rect,
    sp: u32,
    rot: bool,
    heuristic: MaxRectsHeuristic,
)
    requires
        run_ok(order, went, placed, overflow, cv, sp, rot, heuristic),
        best_spot(
            ps.placement.dest.x,
            ps.placement.dest.y,
            ps.placement.rotated,
            ps.sprite.w() + sp,
            ps.sprite.h() + sp,
            rot,
            cv,
            placed_footprints(placed, sp),
            heuristic,
        ),
    ensures
        run_ok(order.push(ps.sprite), went.push(true), placed.push(ps), overflow, cv, sp, rot, heuristic),
{
    let o2 = order.push(ps.sprite);
    let w2 = went.push(true);
    let p2 = placed.push(ps);
    assert(o2.drop_last() =~= order);
    assert(w2.drop_last() =~= went);
    assert(placed_sprites(p2) =~= placed_sprites(placed).push(ps.sprite));
    assert(split_by_flag(o2, w2, true) == split_by_flag(order, went, true).push(ps.sprite));
    assert(split_by_flag(o2, w2, false) == split_by_flag(order, went, false));
    assert(count_true(w2) == count_true(went) + 1);
    assert forall|k: int|
        #![trigger w2[k]]
        0 <= k < o2.len() && !w2[k] implies count_true(w2.take(k)) <= p2.len() && no_room(
            o2[k],
            cv,
            placed_footprints(p2.take(count_true(w2.take(k)) as int), sp),
            sp,
            rot,
        ) by {
        assert(k < order.len());
        assert(w2.take(k) =~= went.take(k));
        assert(w2[k] == went[k]);
        assert(o2[k] == order[k]);
        let c = count_true(went.take(k)) as int;
        assert(p2.take(c) =~= placed.take(c));
    }
    assert forall|k: int|
        #![trigger w2[k]]
        0 <= k < o2.len() && w2[k] implies count_true(w2.take(k)) < p2.len() && best_spot(
            p2[count_true(w2.take(k)) as int].placement.dest.x,
            p2[count_true(w2.take(k)) as int].placement.dest.y,
            p2[count_true(w2.take(k)) as int].placement.rotated,
            o2[k].w() + sp,
            o2[k].h() + sp,
            rot,
            cv,
            placed_footprints(p2.take(count_true(w2.take(k)) as int), sp),
            heuristic,
        ) by {
        if k < order.len() {
            assert(w2.take(k) =~= went.take(k));
            assert(w2[k] == went[k]);
            assert(o2[k] == order[k]);
            let c = count_true(went.take(k)) as int;
            assert(p2.take(c) =~= placed.take(c));
            assert(p2[c] == placed[c]);
        } else {
            assert(w2.take(k) =~= went);
            assert(p2.take(placed.len() as int) =~= placed);
            assert(p2[placed.len() as int] == ps);
            assert(o2[k] == ps.sprite);
        }
    }
}

/// What a MaxRects pass delivers: every sprite is placed once or overflows once;
/// each placement matches its sprite; padded footprints lie inside the canvas and do
/// not overlap; the atlas size just covers the placements; and a sprite overflows
/// only when no spot of the canvas clear of the placed footprints takes its
/// footprint, upright or (when rotation is allowed) turned. Sprites are taken
/// largest area first (ties in input order), each placed into a best-scoring
/// maximal clear spot under `heuristic` at its turn (see `run_ok`).
pub open spec fn maxrects_result(
    out: PackOutput,
    input: Seq<Sprite>,
    cfg: LayoutConfig,
    heuristic: MaxRectsHeuristic,
) -> bool {
    &&& is_partition(out, input)
    &&& forall|i: int| 0 <= i < out.placed@.len() ==> placement_ok(#[trigger] out.placed@[i], cfg)
    &&& forall|i: int|
        0 <= i < out.placed@.len() ==> (#[trigger] out.placed@[i]).placement.dest.w
            + cfg.shape_padding <= u32::MAX && out.placed@[i].placement.dest.h
            + cfg.shape_padding <= u32::MAX
    &&& forall|i: int|
        0 <= i < out.placed@.len() ==> canvas(cfg).spec_contains(
            footprint((#[trigger] out.placed@[i]).placement.dest, cfg.shape_padding),
        )
    &&& footprints_disjoint(out.placed@, cfg.shape_padding)
    &&& out.atlas_size == fitted_size(placed_dests(out.placed@), cfg)
    &&& forall|i: int|
        0 <= i < out.overflow@.len() ==> no_room(
            #[trigger] out.overflow@[i],
            canvas(cfg),
            placed_footprints(out.placed@, cfg.shape_padding),
            cfg.shape_padding,
            cfg.allow_rotation,
        )
    &&& exists|went: Seq<bool>|
        #[trigger] run_ok(
            key_order(input, true),
            went,
            out.placed@,
            out.overflow@,
            canvas(cfg),
            cfg.shape_padding,
            cfg.allow_rotation,
            heuristic,
        )
}

/// Place the sprites, largest area first (ties in input order), each at the best
/// free rectangle under `heuristic`; sprites that fit nowhere overflow.
fn pack_sprites(input: PackInput, heuristic: MaxRectsHeuristic) -> (out: PackOutput)
    requires
        layout_in_range(input.config),
        sprites_in_range(input.sprites@, input.config.shape_padding),
    ensures
        maxrects_result(out, input.sprites@, input.config, heuristic),
{
    let cfg = &input.config;
    let bp = cfg.border_padding;
    let sp = cfg.shape_padding;
    let ghost cv = canvas(*cfg);
    let ghost orig = input.sprites@;

    let canvas_w = cfg.max_width.saturating_sub(bp * 2);
    let canvas_h = cfg.max_height.saturating_sub(bp * 2);
    let mut free_rects: Vec<Rect> = Vec::new();
    free_rects.push(Rect::new(bp, bp, canvas_w, canvas_h));
    assert(cv == free_rects@[0]);
    assert forall|e: Rect| e.w > 0 && e.h > 0 && #[trigger] free_ok(e, cv, Seq::<Rect>::empty()) implies contained_in_some(e, free_rects@) by {
        assert(free_rects@[0].spec_contains(e));
    }

    let mut remaining = input.sprites;
    let mut placed: Vec<PlacedSprite> = Vec::new();
    let mut overflow: Vec<Sprite> = Vec::new();
    let ghost mut fps: Seq<Rect> = Seq::empty();
    let ghost mut done: Seq<Sprite> = Seq::empty();
    let ghost mut went: Seq<bool> = Seq::empty();

    proof {
        assert(remaining@.to_multiset().add(placed_sprites(placed@).to_multiset()).add(
            overflow@.to_multiset(),
        ) =~= orig.to_multiset());
        assert(key_order(orig, true) =~= done + key_order(remaining@, true));
        lemma_run_empty(cv, sp, cfg.allow_rotation, heuristic);
        assert(no_nested(free_rects@));
        assert(placed@ =~= Seq::<PlacedSprite>::empty());
        assert(overflow@ =~= Seq::<Sprite>::empty());
    }

    while remaining.len() > 0
        invariant
            cv == canvas(*cfg),
            cv.edges_fit(),
            sp == cfg.shape_padding,
            bp == cfg.border_padding,
            layout_in_range(*cfg),
            sprites_in_range(remaining@, sp),
            remaining@.to_multiset().add(placed_sprites(placed@).to_multiset()).add(
                overflow@.to_multiset(),
            ) == orig.to_multiset(),
            fps.len() == placed@.len(),
            key_order(orig, true) == done + key_order(remaining@, true),
            run_ok(done, went, placed@, overflow@, cv, sp, cfg.allow_rotation, heuristic),
            no_nested(free_rects@),
            forall|i: int|
                0 <= i < placed@.len() ==> fps[i] == footprint(
                    (#[trigger] placed@[i]).placement.dest,
                    sp,
                ),
            forall|i: int| 0 <= i < placed@.len() ==> placement_ok(#[trigger] placed@[i], *cfg),
            forall|i: int|
                0 <= i < placed@.len() ==> (#[trigger] placed@[i]).placement.dest.w + sp <= u32::MAX
                    && placed@[i].placement.dest.h + sp <= u32::MAX,
            forall|i: int| 0 <= i < fps.len() ==> cv.spec_contains(#[trigger] fps[i]),
            forall|i: int, j: int| 0 <= i < j < fps.len() ==> !fps[i].spec_intersects(fps[j]),
            forall|i: int| 0 <= i < free_rects@.len() ==> free_ok(#[trigger] free_rects@[i], cv, fps),
            free_cover(free_rects@, cv, fps),
            forall|i: int|
                0 <= i < overflow@.len() ==> no_room(
                    #[trigger] overflow@[i],
                    cv,
                    fps,
                    sp,
                    cfg.allow_rotation,
                ),
        decreases remaining@.len(),
    {
        let sprite = take_largest(&mut remaining, true, Ghost(sp));
        proof {
            assert(key_order(orig, true) =~= done.push(sprite) + key_order(remaining@, true));
        }
        let sw = sprite.image.width;
        let sh = sprite.image.height;
        let fw = sw + sp;
        let fh = sh + sp;

        let best = find_best(&free_rects, fw, fh, cfg.allow_rotation, heuristic);
        match best {
            None => {
                let ghost old_overflow = overflow@;
                proof {
                    lemma_overflow_no_room(free_rects@, cv, fps, sprite, sp, cfg.allow_rotation);
                }
                proof {
                    assert(fps =~= placed_footprints(placed@, sp));
                    lemma_run_overflow(done, went, placed@, overflow@, sprite, cv, sp, cfg.allow_rotation, heuristic);
                    done = done.push(sprite);
                    went = went.push(false);
                }
                overflow.push(sprite);
                proof {
                    assert(overflow@ == old_overflow.push(sprite));
                }
            },
            Some((dest_x, dest_y, rotated)) => {
                let ghost k = choose|k: int|
                    #![trigger free_rects@[k / 2]]
                    is_best_candidate(free_rects@, fw as int, fh as int, cfg.allow_rotation, heuristic, k)
                        && free_rects@[k / 2].x == dest_x && free_rects@[k / 2].y == dest_y && rotated
                        == (k % 2 == 1);
                let ghost f = free_rects@[k / 2];
                proof {
                    lemma_best_spot(free_rects@, cv, fps, fw as int, fh as int, cfg.allow_rotation, heuristic, k);
                }
                let (placed_w, placed_h) = if rotated {
                    (sh, sw)
                } else {
                    (sw, sh)
                };
                let (foot_w, foot_h) = if rotated {
                    (sh + sp, sw + sp)
                } else {
                    (fw, fh)
                };
                let dest = Rect::new(dest_x, dest_y, placed_w, placed_h);
                let fp = Rect::new(dest_x, dest_y, foot_w, foot_h);
                proof {
                    assert(free_ok(f, cv, fps));
                    assert(f.spec_contains(fp));
                    assert(cv.spec_contains(fp));
                    assert forall|j: int| 0 <= j < fps.len() implies !fp.spec_intersects(
                        #[trigger] fps[j],
                    ) by {
                        crate::rect::lemma_contained_keeps_disjoint(f, fp, fps[j]);
                    }
                    assert(fp == footprint(dest, sp));
                }
                split_and_prune(&mut free_rects, fp, Ghost(cv), Ghost(fps));
                let id = sprite.id.clone();
                let ps = PlacedSprite {
                    placement: Placement { sprite_id: id, dest, rotated },
                    sprite,
                };
                let ghost old_placed = placed@;
                proof {
                    assert(fps =~= placed_footprints(placed@, sp));
                    lemma_run_place(done, went, placed@, overflow@, ps, cv, sp, cfg.allow_rotation, heuristic);
                    done = done.push(sprite);
                    went = went.push(true);
                }
                placed.push(ps);
                proof {
                    assert(placed_sprites(placed@) =~= placed_sprites(old_placed).push(sprite));
                    let old_fps = fps;
                    assert forall|i: int| 0 <= i < overflow@.len() implies no_room(
                        #[trigger] overflow@[i],
                        cv,
                        old_fps.push(fp),
                        sp,
                        cfg.allow_rotation,
                    ) by {
                        lemma_no_room_grows(overflow@[i], cv, old_fps, fp, sp, cfg.allow_rotation);
                    }
                    fps = fps.push(fp);
                    assert forall|i: int, j: int| 0 <= i < j < fps.len() implies !fps[i].spec_intersects(
                        fps[j],
                    ) by {
                        if j == fps.len() - 1 {
                            assert(!fp.spec_intersects(old_fps[i]));
                        }
                    }
                    assert forall|i: int|
                        0 <= i < placed@.len() implies fps[i] == footprint(
                        (#[trigger] placed@[i]).placement.dest,
                        sp,
                    ) by {
                        if i < old_placed.len() {
                            assert(placed@[i] == old_placed[i]);
                        }
                    }
                }
            },
        }
    }
    proof {
        vstd::seq_lib::lemma_multiset_commutative(placed_sprites(placed@), overflow@);
        assert(remaining@.to_multiset() =~= vstd::multiset::Multiset::empty());
        assert(placed_sprites(placed@).to_multiset().add(overflow@.to_multiset())
            =~= remaining@.to_multiset().add(placed_sprites(placed@).to_multiset()).add(
            overflow@.to_multiset(),
        ));
        assert forall|i: int|
            0 <= i < placed@.len() implies (#[trigger] placed@[i]).placement.dest.spec_right()
            + bp <= max_int(cfg.max_width as int, 2 * bp) && placed@[i].placement.dest.spec_bottom()
            + bp <= max_int(cfg.max_height as int, 2 * bp) by {
            assert(cv.spec_contains(fps[i]));
        }
    }
    proof {
        assert(fps =~= placed_footprints(placed@, sp));
        assert(key_order(remaining@, true) =~= Seq::<Sprite>::empty());
        assert(done =~= key_order(orig, true));
        assert(run_ok(key_order(orig, true), went, placed@, overflow@, cv, sp, cfg.allow_rotation, heuristic));
    }
    let atlas_size = compute_atlas_size(&placed, bp, cfg);
    let out = PackOutput { placed, atlas_size, overflow };
    assert(is_partition(out, orig));
    assert(footprints_disjoint(out.placed@, sp));
    assert(out.atlas_size == fitted_size(placed_dests(out.placed@), *cfg));
    assert(run_ok(key_order(orig, true), went, out.placed@, out.overflow@, cv, sp, cfg.allow_rotation, heuristic));
    out
}

/// MaxRects rectangle bin-packing algorithm.
///
/// Maintains a list of maximal free rectangles. For each sprite the algorithm
/// scores every free rect under the configured heuristic, places the sprite in
/// the best-scoring position, then splits and prunes the free-rect list to
/// maintain the invariant that no free rect overlaps any placed sprite.
///
/// `ContactPointRule` scores like `BestAreaFit`.
pub struct MaxRects {
    pub heuristic: MaxRectsHeuristic,
}

impl Default for MaxRects {
    fn default() -> (m: Self)
        ensures
            m.heuristic == MaxRectsHeuristic::BestShortSideFit,
    {
        MaxRects { heuristic: MaxRectsHeuristic::BestShortSideFit }
    }
}

impl MaxRects {
    /// Pack sprites onto a single sheet. An empty sprite list is an error.
    pub fn pack(&self, input: PackInput) -> (r: Result<PackOutput, CoreError>)
        requires
            layout_in_range(input.config),
            sprites_in_range(input.sprites@, input.config.shape_padding),
        ensures
            input.sprites@.len() == 0 <==> r is Err,
            r matches Err(e) ==> e is NoSprites,
            r matches Ok(out) ==> maxrects_result(out, input.sprites@, input.config, self.heuristic),
    {
        if input.sprites.len() == 0 {
            return Err(CoreError::NoSprites);
        }
        Ok(pack_sprites(input, self.heuristic))
    }

    /// Short human-readable name shown in log output.
    pub fn name(&self) -> (s: &'static str)
        ensures
            s@ == "maxrects"@,
    {
        "maxrects"
    }
}

/// The rightmost and bottom-most edges bound every rectangle of the list.
pub proof fn lemma_max_edges_bound(s: Seq<Rect>, i: int)
    requires
        0 <= i < s.len(),
    ensures
        s[i].spec_right() <= max_right(s),
        s[i].spec_bottom() <= max_bottom(s),
    decreases s.len(),
{
    if i < s.len() - 1 {
        lemma_max_edges_bound(s.drop_last(), i);
        assert(s.drop_last()[i] == s[i]);
    }
}

/// A MaxRects pass reports an atlas that contains every placed sprite (of
/// positive size).
pub proof fn lemma_maxrects_atlas_covers(
    out: PackOutput,
    input: Seq<Sprite>,
    cfg: LayoutConfig,
    heuristic: MaxRectsHeuristic,
)
    requires
        maxrects_result(out, input, cfg, heuristic),
        layout_in_range(cfg),
    ensures
        forall|i: int|
            0 <= i < out.placed@.len() && (#[trigger] out.placed@[i]).placement.dest.w > 0
                && out.placed@[i].placement.dest.h > 0 ==> out.placed@[i].placement.dest.spec_right()
                <= out.atlas_size.w && out.placed@[i].placement.dest.spec_bottom()
                <= out.atlas_size.h,
{
    let dests = placed_dests(out.placed@);
    let bp = cfg.border_padding;
    assert forall|i: int|
        0 <= i < out.placed@.len() && (#[trigger] out.placed@[i]).placement.dest.w > 0
            && out.placed@[i].placement.dest.h > 0 implies out.placed@[i].placement.dest.spec_right()
        <= out.atlas_size.w && out.placed@[i].placement.dest.spec_bottom() <= out.atlas_size.h by {
        let d = out.placed@[i].placement.dest;
        assert(dests[i] == d);
        lemma_max_edges_bound(dests, i);
        let rw = max_right(dests) + bp;
        let rh = max_bottom(dests) + bp;
        cfg.size_constraint.lemma_apply_monotone(rw, rw);
        cfg.size_constraint.lemma_apply_monotone(rh, rh);
        assert(canvas(cfg).spec_contains(footprint(d, cfg.shape_padding)));
    }
}

/// With `force_square`, a MaxRects atlas that holds something is square unless a
/// side is held at its maximum; each side reaches at least the placements' extent
/// in either direction (border included), capped at that side's maximum.
pub proof fn lemma_maxrects_square(
    out: PackOutput,
    input: Seq<Sprite>,
    cfg: LayoutConfig,
    heuristic: MaxRectsHeuristic,
)
    requires
        maxrects_result(out, input, cfg, heuristic),
        cfg.force_square,
        out.placed@.len() > 0,
    ensures
        ({
            let ew = max_right(placed_dests(out.placed@)) + cfg.border_padding;
            let eh = max_bottom(placed_dests(out.placed@)) + cfg.border_padding;
            let w = out.atlas_size.w as int;
            let h = out.atlas_size.h as int;
            &&& w <= cfg.max_width && h <= cfg.max_height
            &&& (w < cfg.max_width && h < cfg.max_height ==> w == h)
            &&& w >= min_int(ew, cfg.max_width as int) && w >= min_int(eh, cfg.max_width as int)
            &&& h >= min_int(ew, cfg.max_height as int) && h >= min_int(eh, cfg.max_height as int)
        }),
{
    let dests = placed_dests(out.placed@);
    let ew = max_right(dests) + cfg.border_padding;
    let eh = max_bottom(dests) + cfg.border_padding;
    lemma_max_edges_bound(dests, 0);
    cfg.size_constraint.lemma_apply_monotone(ew, ew);
    cfg.size_constraint.lemma_apply_monotone(eh, eh);
}

/// The width left over when an `fw × fh` footprint goes into spot `m` (turned when `rot`).
pub open spec fn leftover_w(m: Rect, fw: int, fh: int, rot: bool) -> int {
    m.w - (if rot { fh } else { fw })
}

/// The height left over when an `fw × fh` footprint goes into spot `m` (turned when `rot`).
pub open spec fn leftover_h(m: Rect, fw: int, fh: int, rot: bool) -> int {
    m.h - (if rot { fw } else { fh })
}

/// What each heuristic prefers, for a footprint placed at a best spot: the spot
/// taken leaves no larger shorter side than any other fitting maximal spot
/// (BestShortSideFit), no larger longer side (BestLongSideFit), has no larger
/// area (BestAreaFit and ContactPointRule), or lies no lower (BottomLeftRule).
pub proof fn lemma_heuristic_rule(
    x: u32,
    y: u32,
    rot: bool,
    fw: int,
    fh: int,
    allow_rotation: bool,
    cv: Rect,
    fps: Seq<Rect>,
    heuristic: MaxRectsHeuristic,
)
    requires
        best_spot(x, y, rot, fw, fh, allow_rotation, cv, fps, heuristic),
    ensures
        exists|m: Rect|
            #[trigger] max_free(m, cv, fps) && m.x == x && m.y == y && spot_fits(m, fw, fh, rot, allow_rotation)
                && forall|m2: Rect, rot2: bool|
                #![trigger max_free(m2, cv, fps), spot_fits(m2, fw, fh, rot2, allow_rotation)]
                m2.w > 0 && m2.h > 0 && max_free(m2, cv, fps) && spot_fits(m2, fw, fh, rot2, allow_rotation)
                    ==> match heuristic {
                    MaxRectsHeuristic::BestShortSideFit => min_int(
                        leftover_w(m, fw, fh, rot),
                        leftover_h(m, fw, fh, rot),
                    ) <= min_int(leftover_w(m2, fw, fh, rot2), leftover_h(m2, fw, fh, rot2)),
                    MaxRectsHeuristic::BestLongSideFit => max_int(
                        leftover_w(m, fw, fh, rot),
                        leftover_h(m, fw, fh, rot),
                    ) <= max_int(leftover_w(m2, fw, fh, rot2), leftover_h(m2, fw, fh, rot2)),
                    MaxRectsHeuristic::BestAreaFit => m.w * m.h <= m2.w * m2.h,
                    MaxRectsHeuristic::ContactPointRule => m.w * m.h <= m2.w * m2.h,
                    MaxRectsHeuristic::BottomLeftRule => m.y <= m2.y,
                },
{
    let m = choose|m: Rect|
        #[trigger] max_free(m, cv, fps) && m.x == x && m.y == y && spot_fits(m, fw, fh, rot, allow_rotation)
            && forall|m2: Rect, rot2: bool|
            #![trigger max_free(m2, cv, fps), spot_fits(m2, fw, fh, rot2, allow_rotation)]
            m2.w > 0 && m2.h > 0 && max_free(m2, cv, fps) && spot_fits(m2, fw, fh, rot2, allow_rotation)
                ==> !lex_lt(
                spot_score(m2, fw, fh, rot2, heuristic),
                spot_score(m, fw, fh, rot, heuristic),
            );
    assert forall|m2: Rect, rot2: bool|
        #![trigger max_free(m2, cv, fps), spot_fits(m2, fw, fh, rot2, allow_rotation)]
        m2.w > 0 && m2.h > 0 && max_free(m2, cv, fps) && spot_fits(m2, fw, fh, rot2, allow_rotation)
            implies match heuristic {
            MaxRectsHeuristic::BestShortSideFit => min_int(
                leftover_w(m, fw, fh, rot),
                leftover_h(m, fw, fh, rot),
            ) <= min_int(leftover_w(m2, fw, fh, rot2), leftover_h(m2, fw, fh, rot2)),
            MaxRectsHeuristic::BestLongSideFit => max_int(
                leftover_w(m, fw, fh, rot),
                leftover_h(m, fw, fh, rot),
            ) <= max_int(leftover_w(m2, fw, fh, rot2), leftover_h(m2, fw, fh, rot2)),
            MaxRectsHeuristic::BestAreaFit => m.w * m.h <= m2.w * m2.h,
            MaxRectsHeuristic::ContactPointRule => m.w * m.h <= m2.w * m2.h,
            MaxRectsHeuristic::BottomLeftRule => m.y <= m2.y,
        } by {
        assert(!lex_lt(spot_score(m2, fw, fh, rot2, heuristic), spot_score(m, fw, fh, rot, heuristic)));
        let a = if rot { fh * fw } else { fw * fh };
        let a2 = if rot2 { fh * fw } else { fw * fh };
        assert(a == a2) by (nonlinear_arith)
            requires
                a == (if rot { fh * fw } else { fw * fh }),
                a2 == (if rot2 { fh * fw } else { fw * fh }),
        ;
    }
}

} // verus!
