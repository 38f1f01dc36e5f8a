use vstd::prelude::*;

use rustc_hash::FxHashMap;

use crate::image::Image;
use crate::sprite::Sprite;

verus! {

/// The bucket key of a sprite: image width, image height and content hash.
pub type AliasKey = (u32, u32, u64);

/// Indices of unique sprites, filed by key.
pub type Buckets = FxHashMap<AliasKey, Vec<usize>>;

#[verifier::external_type_specification]
#[verifier::external_body]
pub struct ExFxBuildHasher(rustc_hash::FxBuildHasher);

/// What an alias bucket map holds: for each key, the indices (into the list of
/// unique sprites) filed under it, in the order they were filed.
pub uninterp spec fn buckets_of(m: Buckets) -> Map<AliasKey, Seq<usize>>;

/// An empty `FxHashMap` (`Default::default`).
#[verifier::external_body]
fn buckets_new() -> (fresh: Buckets)
    ensures
        buckets_of(fresh).dom().is_empty(),
{
    FxHashMap::default()
}

/// `HashMap::get`: the list filed under `key`, if any.
#[verifier::external_body]
fn buckets_get<'a>(m: &'a Buckets, key: &AliasKey) -> (r: Option<
    &'a Vec<usize>,
>)
    ensures
        match r {
            Some(v) => buckets_of(*m).contains_key(*key) && v@ == buckets_of(*m)[*key],
            None => !buckets_of(*m).contains_key(*key),
        },
{
    m.get(key)
}

/// `HashMap::remove`: takes the list filed under `key` out of the map.
#[verifier::external_body]
fn buckets_remove(m: &mut Buckets, key: &AliasKey) -> (r: Option<
    Vec<usize>,
>)
    ensures
        buckets_of(*final(m)) == buckets_of(*old(m)).remove(*key),
        match r {
            Some(v) => buckets_of(*old(m)).contains_key(*key) && v@ == buckets_of(*old(m))[*key],
            None => !buckets_of(*old(m)).contains_key(*key),
        },
{
    m.remove(key)
}

/// `HashMap::insert`: files `v` under `key`, replacing any previous list.
#[verifier::external_body]
fn buckets_insert(m: &mut Buckets, key: AliasKey, v: Vec<usize>)
    ensures
        buckets_of(*final(m)) == buckets_of(*old(m)).insert(key, v@),
{
    m.insert(key, v);
}

/// The key under which a sprite is filed.
pub open spec fn alias_key(s: Sprite) -> AliasKey {
    (s.image.width, s.image.height, s.content_hash)
}

/// `s` duplicates `u`: same key and the same pixel bytes.
pub open spec fn same_content(s: Sprite, u: Sprite) -> bool {
    alias_key(s) == alias_key(u) && s.image.pixels@ == u.image.pixels@
}

/// The index of the first sprite of `unique` that `s` duplicates, if any.
pub open spec fn first_same(unique: Seq<Sprite>, s: Sprite) -> Option<int>
    decreases unique.len(),
{
    if unique.len() == 0 {
        None
    } else {
        match first_same(unique.drop_last(), s) {
            Some(i) => Some(i),
            None => if same_content(s, unique.last()) {
                Some(unique.len() - 1)
            } else {
                None
            },
        }
    }
}

/// `s` marked as an alias of the sprite named `id`.
pub open spec fn with_alias(s: Sprite, id: String) -> Sprite {
    Sprite { alias_of: Some(id), ..s }
}

/// The result of alias detection on `sprites`: `(unique, aliases)`. Each sprite in
/// turn is either a duplicate of the first unique sprite it matches (and joins the
/// aliases, `alias_of` naming that sprite) or becomes unique itself.
pub open spec fn alias_split(sprites: Seq<Sprite>) -> (Seq<Sprite>, Seq<Sprite>)
    decreases sprites.len(),
{
    if sprites.len() == 0 {
        (Seq::empty(), Seq::empty())
    } else {
        let (u, a) = alias_split(sprites.drop_last());
        let s = sprites.last();
        match first_same(u, s) {
            Some(i) => (u, a.push(with_alias(s, u[i].id))),
            None => (u.push(s), a),
        }
    }
}

/// The two images hold the same pixels.
pub fn pixels_equal(a: &Image, b: &Image) -> (r: bool)
    ensures
        r == (a.pixels@ == b.pixels@),
{
    let n = a.pixels.len();
    if n != b.pixels.len() {
        return false;
    }
    let mut i: usize = 0;
    while i < n
        invariant
            n == a.pixels@.len(),
            n == b.pixels@.len(),
            i <= n,
            forall|j: int| 0 <= j < i ==> a.pixels@[j] == b.pixels@[j],
        decreases n - i,
    {
        if a.pixels[i] != b.pixels[i] {
            return false;
        }
        i = i + 1;
    }
    assert(a.pixels@ =~= b.pixels@);
    true
}

/// The bucket map files each unique sprite's index under its key, in order.
pub open spec fn buckets_match(b: Map<AliasKey, Seq<usize>>, unique: Seq<Sprite>) -> bool {
    &&& forall|key: AliasKey|
        #[trigger] b.contains_key(key) ==> {
            &&& forall|t: int| 0 <= t < b[key].len() ==> #[trigger] b[key][t] < unique.len()
            &&& forall|t: int|
                0 <= t < b[key].len() ==> alias_key(unique[#[trigger] b[key][t] as int]) == key
            &&& forall|t1: int, t2: int|
                0 <= t1 < t2 < b[key].len() ==> #[trigger] b[key][t1] < #[trigger] b[key][t2]
        }
    &&& forall|i: int|
        0 <= i < unique.len() ==> #[trigger] b.contains_key(alias_key(unique[i])) && exists|t: int|
            0 <= t < b[alias_key(unique[i])].len() && b[alias_key(unique[i])][t] == i
}

/// `first_same` finds the least index of a duplicate, and `None` exactly when
/// there is none.
proof fn lemma_first_same(unique: Seq<Sprite>, s: Sprite)
    ensures
        match first_same(unique, s) {
            Some(i) => 0 <= i < unique.len() && same_content(s, unique[i]) && forall|j: int|
                0 <= j < i ==> !same_content(s, #[trigger] unique[j]),
            None => forall|j: int| 0 <= j < unique.len() ==> !same_content(s, #[trigger] unique[j]),
        },
    decreases unique.len(),
{
    if unique.len() > 0 {
        let d = unique.drop_last();
        lemma_first_same(d, s);
        match first_same(d, s) {
            Some(i) => {
                assert(d[i] == unique[i]);
                assert forall|j: int| 0 <= j < i implies !same_content(s, #[trigger] unique[j]) by {
                    assert(d[j] == unique[j]);
                }
            },
            None => {
                assert forall|j: int| 0 <= j < unique.len() - 1 implies !same_content(
                    s,
                    #[trigger] unique[j],
                ) by {
                    assert(d[j] == unique[j]);
                }
            },
        }
    }
}

/// The position in `indices` of the first sprite whose pixels equal `sprite`'s.
fn find_canonical(sprite: &Sprite, unique: &Vec<Sprite>, indices: &Vec<usize>) -> (r: Option<usize>)
    requires
        forall|t: int| 0 <= t < indices@.len() ==> #[trigger] indices@[t] < unique@.len(),
    ensures
        match r {
            Some(t) => t < indices@.len() && sprite.image.pixels@ == unique@[indices@[t as int] as int].image.pixels@
                && forall|t2: int|
                0 <= t2 < t ==> sprite.image.pixels@ != unique@[#[trigger] indices@[t2] as int].image.pixels@,
            None => forall|t2: int|
                0 <= t2 < indices@.len() ==> sprite.image.pixels@ != unique@[#[trigger] indices@[t2] as int].image.pixels@,
        },
{
    let mut t: usize = 0;
    while t < indices.len()
        invariant
            forall|t: int| 0 <= t < indices@.len() ==> #[trigger] indices@[t] < unique@.len(),
            t <= indices@.len(),
            forall|t2: int|
                0 <= t2 < t ==> sprite.image.pixels@ != unique@[#[trigger] indices@[t2] as int].image.pixels@,
        decreases indices@.len() - t,
    {
        let i = indices[t];
        if pixels_equal(&sprite.image, &unique[i].image) {
            return Some(t);
        }
        t = t + 1;
    }
    None
}

/// With the buckets matching the unique list, the first match in `s`'s bucket is
/// the first duplicate of `s` among the unique sprites.
proof fn lemma_bucket_search(b: Map<AliasKey, Seq<usize>>, unique: Seq<Sprite>, s: Sprite, r: Option<int>)
    requires
        buckets_match(b, unique),
        b.contains_key(alias_key(s)) ==> match r {
            Some(t) => 0 <= t < b[alias_key(s)].len() && s.image.pixels@ == unique[b[alias_key(s)][t] as int].image.pixels@
                && forall|t2: int| 0 <= t2 < t ==> s.image.pixels@ != unique[#[trigger] b[alias_key(s)][t2] as int].image.pixels@,
            None => forall|t2: int|
                0 <= t2 < b[alias_key(s)].len() ==> s.image.pixels@ != unique[#[trigger] b[alias_key(s)][t2] as int].image.pixels@,
        },
        !b.contains_key(alias_key(s)) ==> r is None,
    ensures
        first_same(unique, s) == (match r {
            Some(t) => Some(b[alias_key(s)][t] as int),
            None => None::<int>,
        }),
{
    lemma_first_same(unique, s);
    let key = alias_key(s);
    if b.contains_key(key) {
        let l = b[key];
        match r {
            Some(t) => {
                let i0 = l[t] as int;
                assert(i0 < unique.len());
                assert(alias_key(unique[i0]) == key);
                assert(same_content(s, unique[i0]));
                assert forall|j: int| 0 <= j < i0 implies !same_content(s, #[trigger] unique[j]) by {
                    if same_content(s, unique[j]) {
                        assert(b.contains_key(alias_key(unique[j])));
                        let tj = choose|tj: int| 0 <= tj < b[alias_key(unique[j])].len() && b[alias_key(unique[j])][tj] == j;
                        if tj >= t {
                            if tj > t {
                                assert(l[t] < l[tj]);
                            }
                        } else {
                            assert(s.image.pixels@ != unique[l[tj] as int].image.pixels@);
                        }
                    }
                }
                match first_same(unique, s) {
                    Some(i) => {
                        if i < i0 {
                        } else if i > i0 {
                            assert(!same_content(s, unique[i0]));
                        }
                    },
                    None => {
                        assert(!same_content(s, unique[i0]));
                    },
                }
            },
            None => {
                assert forall|j: int| 0 <= j < unique.len() implies !same_content(s, #[trigger] unique[j]) by {
                    if same_content(s, unique[j]) {
                        assert(b.contains_key(alias_key(unique[j])));
                        let tj = choose|tj: int| 0 <= tj < b[alias_key(unique[j])].len() && b[alias_key(unique[j])][tj] == j;
                        assert(s.image.pixels@ != unique[l[tj] as int].image.pixels@);
                    }
                }
                if first_same(unique, s) is Some {
                    let i = first_same(unique, s)->0;
                    assert(!same_content(s, unique[i]));
                }
            },
        }
    } else {
        assert forall|j: int| 0 <= j < unique.len() implies !same_content(s, #[trigger] unique[j]) by {
            if same_content(s, unique[j]) {
                assert(b.contains_key(alias_key(unique[j])));
            }
        }
        if first_same(unique, s) is Some {
            let i = first_same(unique, s)->0;
            assert(!same_content(s, unique[i]));
        }
    }
}

/// Filing a new unique sprite at the end of its key's list keeps the buckets
/// matching the unique list.
proof fn lemma_buckets_push(b: Map<AliasKey, Seq<usize>>, unique: Seq<Sprite>, s: Sprite, l: Seq<usize>)
    requires
        buckets_match(b, unique),
        l == (if b.contains_key(alias_key(s)) { b[alias_key(s)] } else { Seq::<usize>::empty() }),
        unique.len() < usize::MAX,
    ensures
        buckets_match(b.insert(alias_key(s), l.push(unique.len() as usize)), unique.push(s)),
{
    let key = alias_key(s);
    let n = unique.len();
    let b2 = b.insert(key, l.push(n as usize));
    let u2 = unique.push(s);
    assert forall|i: int| 0 <= i < n implies #[trigger] u2[i] == unique[i] by {}
    assert forall|k2: AliasKey| #[trigger] b2.contains_key(k2) implies {
        &&& forall|t: int| 0 <= t < b2[k2].len() ==> #[trigger] b2[k2][t] < u2.len()
        &&& forall|t: int| 0 <= t < b2[k2].len() ==> alias_key(u2[#[trigger] b2[k2][t] as int]) == k2
        &&& forall|t1: int, t2: int| 0 <= t1 < t2 < b2[k2].len() ==> #[trigger] b2[k2][t1] < #[trigger] b2[k2][t2]
    } by {
        if k2 == key {
            assert forall|t: int| 0 <= t < b2[k2].len() implies alias_key(u2[#[trigger] b2[k2][t] as int]) == k2 by {
                if t < l.len() {
                    assert(b.contains_key(key));
                    assert(b[key][t] < n);
                }
            }
            assert forall|t1: int, t2: int| 0 <= t1 < t2 < b2[k2].len() implies #[trigger] b2[k2][t1] < #[trigger] b2[k2][t2] by {
                if t2 == l.len() {
                    assert(b.contains_key(key));
                    assert(b[key][t1] < n);
                }
            }
        } else {
            assert(b.contains_key(k2));
            assert forall|t: int| 0 <= t < b2[k2].len() implies alias_key(u2[#[trigger] b2[k2][t] as int]) == k2 by {
                assert(b[k2][t] < n);
            }
        }
    }
    assert forall|i: int| 0 <= i < u2.len() implies #[trigger] b2.contains_key(alias_key(u2[i])) && exists|t: int|
        0 <= t < b2[alias_key(u2[i])].len() && b2[alias_key(u2[i])][t] == i by {
        if i == n {
            assert(u2[i] == s);
            assert(b2[key][l.len() as int] == n);
            assert(0 <= l.len() < b2[alias_key(u2[i])].len() && b2[alias_key(u2[i])][l.len() as int] == i);
        } else {
            assert(u2[i] == unique[i]);
            let ki = alias_key(unique[i]);
            assert(b.contains_key(ki));
            let t = choose|t: int| 0 <= t < b[ki].len() && b[ki][t] == i;
            assert(0 <= t < b[ki].len() && b[ki][t] == i);
            if ki == key {
                assert(l == b[key]);
                assert(b2[key][t] == i);
                assert(0 <= t < b2[alias_key(u2[i])].len() && b2[alias_key(u2[i])][t] == i);
            } else {
                assert(b2[ki] == b[ki]);
                assert(0 <= t < b2[alias_key(u2[i])].len() && b2[alias_key(u2[i])][t] == i);
            }
        }
    }
}

/// Detect duplicate sprites by pixel content and mark them as aliases.
///
/// Sprites are grouped by `(width, height, content_hash)`. Within each group,
/// pixel bytes are compared exactly to confirm identity (handles hash collisions).
/// The first sprite encountered in each unique-pixel group becomes the canonical
/// entry; all others have `alias_of` set to that canonical sprite's id.
///
/// Returns `(unique, aliases)` where `unique` is suitable to pass to the packer
/// and `aliases` contains the stripped duplicates (each with `alias_of` set).
pub fn detect_aliases(sprites: Vec<Sprite>) -> (r: (Vec<Sprite>, Vec<Sprite>))
    ensures
        (r.0@, r.1@) == alias_split(sprites@),
{
    let ghost all = sprites@;
    let _count = sprites.len();
    let mut buckets = buckets_new();
    let mut unique: Vec<Sprite> = Vec::new();
    let mut aliases: Vec<Sprite> = Vec::new();
    for sprite in it: sprites.into_iter()
        invariant
            it.seq() == all,
            (unique@, aliases@) == alias_split(all.take(it.index() as int)),
            buckets_match(buckets_of(buckets), unique@),
            unique@.len() <= it.index(),
            all.len() <= usize::MAX,
    {
        let ghost k = it.index() as int;
        assert(sprite == all[k]);
        let mut sprite = sprite;
        let key: AliasKey = (sprite.image.width, sprite.image.height, sprite.content_hash);
        let ghost b = buckets_of(buckets);
        let ghost mut pos: Option<int> = None;
        let found = match buckets_get(&buckets, &key) {
            Some(indices) => {
                assert(b.contains_key(key));
                match find_canonical(&sprite, &unique, indices) {
                    Some(t) => {
                        proof {
                            pos = Some(t as int);
                        }
                        Some(indices[t])
                    },
                    None => None,
                }
            },
            None => None,
        };
        proof {
            lemma_bucket_search(b, unique@, sprite, pos);
            assert(all.take(k + 1).drop_last() =~= all.take(k));
            assert(all.take(k + 1).last() == sprite);
        }
        match found {
            Some(i) => {
                sprite.alias_of = Some(unique[i].id.clone());
                aliases.push(sprite);
            },
            None => {
                let idx = unique.len();
                let mut list = match buckets_remove(&mut buckets, &key) {
                    Some(v) => v,
                    None => Vec::new(),
                };
                proof {
                    lemma_buckets_push(b, unique@, sprite, list@);
                }
                list.push(idx);
                let ghost filed = list@;
                buckets_insert(&mut buckets, key, list);
                assert(buckets_of(buckets) =~= b.insert(key, filed));
                unique.push(sprite);
            },
        }
    }
    assert(all.take(all.len() as int) =~= all);
    (unique, aliases)
}

/// Alias detection loses no sprite and keeps no duplicate: every input sprite
/// ends up either unique or an alias; no two unique sprites share their content;
/// and every alias names a unique sprite whose content it shares.
pub proof fn lemma_alias_split_laws(sprites: Seq<Sprite>)
    ensures
        alias_split(sprites).0.len() + alias_split(sprites).1.len() == sprites.len(),
        forall|i: int, j: int|
            0 <= i < j < alias_split(sprites).0.len() ==> !same_content(
                #[trigger] alias_split(sprites).0[j],
                #[trigger] alias_split(sprites).0[i],
            ),
        forall|t: int|
            0 <= t < alias_split(sprites).1.len() ==> exists|i: int|
                0 <= i < alias_split(sprites).0.len() && (#[trigger] alias_split(sprites).1[t]).alias_of
                    == Some(alias_split(sprites).0[i].id) && same_content(
                    alias_split(sprites).1[t],
                    alias_split(sprites).0[i],
                ),
    decreases sprites.len(),
{
    if sprites.len() > 0 {
        let d = sprites.drop_last();
        lemma_alias_split_laws(d);
        let (u, a) = alias_split(d);
        let s = sprites.last();
        lemma_first_same(u, s);
        let (u2, a2) = alias_split(sprites);
        match first_same(u, s) {
            Some(k) => {
                assert(u2 == u);
                assert forall|t: int| 0 <= t < a2.len() implies exists|i: int|
                    0 <= i < u2.len() && (#[trigger] a2[t]).alias_of == Some(u2[i].id)
                        && same_content(a2[t], u2[i]) by {
                    if t < a.len() {
                        assert(a2[t] == a[t]);
                    } else {
                        assert(a2[t] == with_alias(s, u[k].id));
                        assert(same_content(a2[t], u2[k]));
                    }
                }
            },
            None => {
                assert(a2 == a);
                assert forall|i: int, j: int| 0 <= i < j < u2.len() implies !same_content(
                    #[trigger] u2[j],
                    #[trigger] u2[i],
                ) by {
                    if j < u.len() {
                        assert(u2[j] == u[j] && u2[i] == u[i]);
                    } else {
                        assert(u2[j] == s && u2[i] == u[i]);
                    }
                }
                assert forall|t: int| 0 <= t < a2.len() implies exists|i: int|
                    0 <= i < u2.len() && (#[trigger] a2[t]).alias_of == Some(u2[i].id)
                        && same_content(a2[t], u2[i]) by {
                    let i = choose|i: int|
                        0 <= i < u.len() && (#[trigger] a[t]).alias_of == Some(u[i].id)
                            && same_content(a[t], u[i]);
                    assert(u2[i] == u[i]);
                }
            },
        }
    }
}

} // verus!
