use vstd::prelude::*;

use crate::config::DataFormat;
use crate::json::{
    arr, fields_model, items_model, json_model, json_pretty, json_text, obj, push_item, push_member, JsonModel,
    JsonNumber, JsonValue,
};
use crate::rect::{NinePatch, Rect, SourceRect};
use crate::sheet::{AtlasFrame, FramePivot};
use crate::text::{bytes_le, str_le, utf8};

verus! {

/// Exports atlas metadata in TexturePacker-compatible JSON Hash format.
///
/// Each frame is a key in the top-level `"frames"` object. The frame key is
/// the sprite ID (relative path without extension).
pub struct JsonHashExporter;

/// Exports atlas metadata in TexturePacker-compatible JSON Array format.
///
/// Frames are written as an array, each entry carrying its `"filename"`.
pub struct JsonArrayExporter;

/// Exports Phaser 3 multi-atlas JSON: one `"textures"` entry per sheet, so all
/// sheets of a multipack run go into a single data file.
pub struct Phaser3Exporter;

/// Exports PixiJS sprite sheet JSON (the JSON Hash layout).
pub struct PixiJsExporter;

impl JsonHashExporter {
    /// Short identifier used in the `data_format` setting.
    pub fn format_id(&self) -> (s: &'static str)
        ensures
            s@ == "json_hash"@,
    {
        "json_hash"
    }

    /// File extension for the data file, without leading dot.
    pub fn file_extension(&self) -> (s: &'static str)
        ensures
            s@ == "json"@,
    {
        "json"
    }

    /// Whether all sheets can go into one data file.
    pub fn combines(&self) -> (b: bool)
        ensures
            !b,
    {
        false
    }
}

impl JsonArrayExporter {
    /// Short identifier used in the `data_format` setting.
    pub fn format_id(&self) -> (s: &'static str)
        ensures
            s@ == "json_array"@,
    {
        "json_array"
    }

    /// File extension for the data file, without leading dot.
    pub fn file_extension(&self) -> (s: &'static str)
        ensures
            s@ == "json"@,
    {
        "json"
    }

    /// Whether all sheets can go into one data file.
    pub fn combines(&self) -> (b: bool)
        ensures
            !b,
    {
        false
    }
}

impl Phaser3Exporter {
    /// Short identifier used in the `data_format` setting.
    pub fn format_id(&self) -> (s: &'static str)
        ensures
            s@ == "phaser3"@,
    {
        "phaser3"
    }

    /// File extension for the data file, without leading dot.
    pub fn file_extension(&self) -> (s: &'static str)
        ensures
            s@ == "json"@,
    {
        "json"
    }

    /// Whether all sheets can go into one data file.
    pub fn combines(&self) -> (b: bool)
        ensures
            b,
    {
        true
    }
}

impl PixiJsExporter {
    /// Short identifier used in the `data_format` setting.
    pub fn format_id(&self) -> (s: &'static str)
        ensures
            s@ == "pixijs"@,
    {
        "pixijs"
    }

    /// File extension for the data file, without leading dot.
    pub fn file_extension(&self) -> (s: &'static str)
        ensures
            s@ == "json"@,
    {
        "json"
    }

    /// Whether all sheets can go into one data file.
    pub fn combines(&self) -> (b: bool)
        ensures
            !b,
    {
        false
    }
}

/// The identifier of the exporter for a data format.
pub open spec fn data_format_id(f: DataFormat) -> &'static str {
    match f {
        DataFormat::JsonHash => "json_hash",
        DataFormat::JsonArray => "json_array",
        DataFormat::Phaser3 => "phaser3",
        DataFormat::Pixijs => "pixijs",
    }
}

/// The identifier of the exporter that writes a data format.
pub fn exporter_id(f: DataFormat) -> (s: &'static str)
    ensures
        s@ == data_format_id(f)@,
{
    match f {
        DataFormat::JsonHash => JsonHashExporter.format_id(),
        DataFormat::JsonArray => JsonArrayExporter.format_id(),
        DataFormat::Phaser3 => Phaser3Exporter.format_id(),
        DataFormat::Pixijs => PixiJsExporter.format_id(),
    }
}


/// What an exporter writes about one sheet besides its frames: the texture's
/// file name, the pixel format name, the sheet's size, and its scale twice,
/// as text (`"1"`) for the JSON hash and array layouts and as a JSON number
/// (`1.0`) for Phaser 3.
pub struct SheetMeta {
    pub texture_filename: String,
    pub pixel_format: String,
    pub width: u32,
    pub height: u32,
    pub scale_text: String,
    pub scale_number: JsonNumber,
}

/// The input of one sheet's export: its atlas frames and what is said about it.
#[derive(Clone, Copy)]
pub struct ExportInput<'a> {
    pub frames: &'a Vec<AtlasFrame>,
    pub meta: &'a SheetMeta,
}

/// An object member.
pub open spec fn member(key: &str, v: JsonModel) -> (Seq<char>, JsonModel) {
    (key@, v)
}

/// `{x, y, w, h}` in that order.
pub open spec fn xywh_model(x: int, y: int, w: int, h: int) -> JsonModel {
    JsonModel::Obj(
        seq![
            member("x", JsonModel::Int(x)),
            member("y", JsonModel::Int(y)),
            member("w", JsonModel::Int(w)),
            member("h", JsonModel::Int(h)),
        ],
    )
}

/// `{h, w, x, y}`: the same members with the keys in byte order.
pub open spec fn hwxy_model(x: int, y: int, w: int, h: int) -> JsonModel {
    JsonModel::Obj(
        seq![
            member("h", JsonModel::Int(h)),
            member("w", JsonModel::Int(w)),
            member("x", JsonModel::Int(x)),
            member("y", JsonModel::Int(y)),
        ],
    )
}

/// `{w, h}` in that order.
pub open spec fn wh_model(w: int, h: int) -> JsonModel {
    JsonModel::Obj(seq![member("w", JsonModel::Int(w)), member("h", JsonModel::Int(h))])
}

/// `{h, w}`: the keys in byte order.
pub open spec fn hw_model(w: int, h: int) -> JsonModel {
    JsonModel::Obj(seq![member("h", JsonModel::Int(h)), member("w", JsonModel::Int(w))])
}

/// An object of four integers, keys and values in the order given.
fn obj4(k0: &str, v0: i64, k1: &str, v1: i64, k2: &str, v2: i64, k3: &str, v3: i64) -> (r: JsonValue)
    ensures
        json_model(r) == JsonModel::Obj(
            seq![
                member(k0, JsonModel::Int(v0 as int)),
                member(k1, JsonModel::Int(v1 as int)),
                member(k2, JsonModel::Int(v2 as int)),
                member(k3, JsonModel::Int(v3 as int)),
            ],
        ),
{
    let mut v: Vec<(String, JsonValue)> = Vec::new();
    assert(fields_model(v@) =~= Seq::empty());
    push_member(&mut v, k0, JsonValue::Int(v0));
    push_member(&mut v, k1, JsonValue::Int(v1));
    push_member(&mut v, k2, JsonValue::Int(v2));
    push_member(&mut v, k3, JsonValue::Int(v3));
    assert(fields_model(v@) =~= seq![
        member(k0, JsonModel::Int(v0 as int)),
        member(k1, JsonModel::Int(v1 as int)),
        member(k2, JsonModel::Int(v2 as int)),
        member(k3, JsonModel::Int(v3 as int)),
    ]);
    obj(v)
}

/// An object of two integers, keys and values in the order given.
fn obj2(k0: &str, v0: i64, k1: &str, v1: i64) -> (r: JsonValue)
    ensures
        json_model(r) == JsonModel::Obj(
            seq![member(k0, JsonModel::Int(v0 as int)), member(k1, JsonModel::Int(v1 as int))],
        ),
{
    let mut v: Vec<(String, JsonValue)> = Vec::new();
    assert(fields_model(v@) =~= Seq::empty());
    push_member(&mut v, k0, JsonValue::Int(v0));
    push_member(&mut v, k1, JsonValue::Int(v1));
    assert(fields_model(v@) =~= seq![
        member(k0, JsonModel::Int(v0 as int)),
        member(k1, JsonModel::Int(v1 as int)),
    ]);
    obj(v)
}


/// A nine-patch as `{bottom, left, right, top}` (keys in byte order).
pub open spec fn nine_patch_model(n: NinePatch) -> JsonModel {
    JsonModel::Obj(
        seq![
            member("bottom", JsonModel::Int(n.bottom as int)),
            member("left", JsonModel::Int(n.left as int)),
            member("right", JsonModel::Int(n.right as int)),
            member("top", JsonModel::Int(n.top as int)),
        ],
    )
}

/// A pivot: `{x, y}` as JSON numbers.
pub open spec fn pivot_model(p: FramePivot) -> JsonModel {
    JsonModel::Obj(seq![member("x", JsonModel::Num(p.x@)), member("y", JsonModel::Num(p.y@))])
}

/// A frame of the JSON hash layout. Its members, and theirs, come with the keys
/// in byte order: `aliasOf` (for an alias), `frame`, `ninePatch` (when set),
/// `pivot` (when set), `rotated`, `sourceSize`, `spriteSourceSize`, `trimmed`.
pub open spec fn hash_frame_model(f: AtlasFrame) -> JsonModel {
    let ss = f.sprite_source_size;
    JsonModel::Obj(
        (match f.alias_of {
            Some(a) => seq![member("aliasOf", JsonModel::Str(a@))],
            None => Seq::empty(),
        }) + seq![
            member(
                "frame",
                hwxy_model(f.frame.x as int, f.frame.y as int, f.frame.w as int, f.frame.h as int),
            ),
        ] + (match f.nine_patch {
            Some(n) => seq![member("ninePatch", nine_patch_model(n))],
            None => Seq::empty(),
        }) + (match f.pivot {
            Some(p) => seq![member("pivot", pivot_model(p))],
            None => Seq::empty(),
        }) + seq![
            member("rotated", JsonModel::Bool(f.rotated)),
            member("sourceSize", hw_model(f.source_size.w as int, f.source_size.h as int)),
            member("spriteSourceSize", hwxy_model(ss.x as int, ss.y as int, ss.w as int, ss.h as int)),
            member("trimmed", JsonModel::Bool(f.trimmed)),
        ],
    )
}

/// The frame members shared by the JSON array and Phaser 3 layouts, in this
/// order: `filename`, `frame`, `rotated`, `trimmed`, `spriteSourceSize`,
/// `sourceSize`.
pub open spec fn listed_frame_members(f: AtlasFrame) -> Seq<(Seq<char>, JsonModel)> {
    let ss = f.sprite_source_size;
    seq![
        member("filename", JsonModel::Str(f.id@)),
        member("frame", xywh_model(f.frame.x as int, f.frame.y as int, f.frame.w as int, f.frame.h as int)),
        member("rotated", JsonModel::Bool(f.rotated)),
        member("trimmed", JsonModel::Bool(f.trimmed)),
        member("spriteSourceSize", xywh_model(ss.x as int, ss.y as int, ss.w as int, ss.h as int)),
        member("sourceSize", wh_model(f.source_size.w as int, f.source_size.h as int)),
    ]
}

/// A frame of the JSON array layout: the listed members, then `aliasOf` for an
/// alias.
pub open spec fn array_frame_model(f: AtlasFrame) -> JsonModel {
    JsonModel::Obj(
        listed_frame_members(f) + match f.alias_of {
            Some(a) => seq![member("aliasOf", JsonModel::Str(a@))],
            None => Seq::empty(),
        },
    )
}

/// A frame of the Phaser 3 layout: the listed members.
pub open spec fn phaser_frame_model(f: AtlasFrame) -> JsonModel {
    JsonModel::Obj(listed_frame_members(f))
}

/// The `meta` block of the JSON hash and array layouts.
pub open spec fn meta_model(m: SheetMeta) -> JsonModel {
    JsonModel::Obj(
        seq![
            member("app", JsonModel::Str("FastPack"@)),
            member("version", JsonModel::Str("1.0"@)),
            member("image", JsonModel::Str(m.texture_filename@)),
            member("format", JsonModel::Str(m.pixel_format@)),
            member("size", wh_model(m.width as int, m.height as int)),
            member("scale", JsonModel::Str(m.scale_text@)),
        ],
    )
}

fn hash_frame_doc(f: &AtlasFrame) -> (r: JsonValue)
    ensures
        json_model(r) == hash_frame_model(*f),
{
    let ss = f.sprite_source_size;
    let mut v: Vec<(String, JsonValue)> = Vec::new();
    let ghost mut want: Seq<(Seq<char>, JsonModel)> = Seq::empty();
    assert(fields_model(v@) =~= want);
    match &f.alias_of {
        Some(a) => {
            push_member(&mut v, "aliasOf", JsonValue::Str(a.clone()));
            proof {
                want = want.push(member("aliasOf", JsonModel::Str(a@)));
            }
        },
        None => {},
    }
    push_member(
        &mut v,
        "frame",
        obj4("h", f.frame.h as i64, "w", f.frame.w as i64, "x", f.frame.x as i64, "y", f.frame.y as i64),
    );
    proof {
        want = want.push(member("frame", hwxy_model(f.frame.x as int, f.frame.y as int, f.frame.w as int, f.frame.h as int)));
    }
    match &f.nine_patch {
        Some(n) => {
            push_member(
                &mut v,
                "ninePatch",
                obj4("bottom", n.bottom as i64, "left", n.left as i64, "right", n.right as i64, "top", n.top as i64),
            );
            proof {
                want = want.push(member("ninePatch", nine_patch_model(*n)));
            }
        },
        None => {},
    }
    match &f.pivot {
        Some(p) => {
            let mut pv: Vec<(String, JsonValue)> = Vec::new();
            assert(fields_model(pv@) =~= Seq::empty());
            push_member(&mut pv, "x", JsonValue::Num(p.x.duplicate()));
            push_member(&mut pv, "y", JsonValue::Num(p.y.duplicate()));
            assert(fields_model(pv@) =~= seq![member("x", JsonModel::Num(p.x@)), member("y", JsonModel::Num(p.y@))]);
            push_member(&mut v, "pivot", obj(pv));
            proof {
                want = want.push(member("pivot", pivot_model(*p)));
            }
        },
        None => {},
    }
    push_member(&mut v, "rotated", JsonValue::Bool(f.rotated));
    push_member(&mut v, "sourceSize", obj2("h", f.source_size.h as i64, "w", f.source_size.w as i64));
    push_member(
        &mut v,
        "spriteSourceSize",
        obj4("h", ss.h as i64, "w", ss.w as i64, "x", ss.x as i64, "y", ss.y as i64),
    );
    push_member(&mut v, "trimmed", JsonValue::Bool(f.trimmed));
    proof {
        want = want.push(member("rotated", JsonModel::Bool(f.rotated)));
        want = want.push(member("sourceSize", hw_model(f.source_size.w as int, f.source_size.h as int)));
        want = want.push(member("spriteSourceSize", hwxy_model(ss.x as int, ss.y as int, ss.w as int, ss.h as int)));
        want = want.push(member("trimmed", JsonModel::Bool(f.trimmed)));
        match hash_frame_model(*f) {
            JsonModel::Obj(m) => assert(m =~= want),
            _ => {},
        }
    }
    obj(v)
}


/// The listed frame members (see `listed_frame_members`), appended to `v`.
fn push_listed_members(v: &mut Vec<(String, JsonValue)>, f: &AtlasFrame)
    ensures
        fields_model(final(v)@) == fields_model(old(v)@) + listed_frame_members(*f),
{
    let ss = f.sprite_source_size;
    let ghost start = fields_model(v@);
    push_member(v, "filename", JsonValue::Str(f.id.clone()));
    push_member(
        v,
        "frame",
        obj4("x", f.frame.x as i64, "y", f.frame.y as i64, "w", f.frame.w as i64, "h", f.frame.h as i64),
    );
    push_member(v, "rotated", JsonValue::Bool(f.rotated));
    push_member(v, "trimmed", JsonValue::Bool(f.trimmed));
    push_member(
        v,
        "spriteSourceSize",
        obj4("x", ss.x as i64, "y", ss.y as i64, "w", ss.w as i64, "h", ss.h as i64),
    );
    push_member(v, "sourceSize", obj2("w", f.source_size.w as i64, "h", f.source_size.h as i64));
    assert(fields_model(v@) =~= start + listed_frame_members(*f));
}

fn array_frame_doc(f: &AtlasFrame) -> (r: JsonValue)
    ensures
        json_model(r) == array_frame_model(*f),
{
    let mut v: Vec<(String, JsonValue)> = Vec::new();
    assert(fields_model(v@) =~= Seq::empty());
    push_listed_members(&mut v, f);
    match &f.alias_of {
        Some(a) => {
            push_member(&mut v, "aliasOf", JsonValue::Str(a.clone()));
        },
        None => {},
    }
    proof {
        match array_frame_model(*f) {
            JsonModel::Obj(m) => assert(m =~= fields_model(v@)),
            _ => {},
        }
    }
    obj(v)
}

fn phaser_frame_doc(f: &AtlasFrame) -> (r: JsonValue)
    ensures
        json_model(r) == phaser_frame_model(*f),
{
    let mut v: Vec<(String, JsonValue)> = Vec::new();
    assert(fields_model(v@) =~= Seq::empty());
    push_listed_members(&mut v, f);
    assert(fields_model(v@) =~= listed_frame_members(*f));
    obj(v)
}

fn meta_doc(m: &SheetMeta) -> (r: JsonValue)
    ensures
        json_model(r) == meta_model(*m),
{
    let mut v: Vec<(String, JsonValue)> = Vec::new();
    assert(fields_model(v@) =~= Seq::empty());
    push_member(&mut v, "app", JsonValue::Str(String::from_str("FastPack")));
    push_member(&mut v, "version", JsonValue::Str(String::from_str("1.0")));
    push_member(&mut v, "image", JsonValue::Str(m.texture_filename.clone()));
    push_member(&mut v, "format", JsonValue::Str(m.pixel_format.clone()));
    push_member(&mut v, "size", obj2("w", m.width as i64, "h", m.height as i64));
    push_member(&mut v, "scale", JsonValue::Str(m.scale_text.clone()));
    proof {
        match meta_model(*m) {
            JsonModel::Obj(x) => assert(x =~= fields_model(v@)),
            _ => {},
        }
    }
    obj(v)
}


/// Frame `a`'s ID sorts no later than frame `b`'s (byte order, as Rust
/// compares strings).
pub open spec fn frame_id_le(a: AtlasFrame, b: AtlasFrame) -> bool {
    bytes_le(utf8(a.id@), utf8(b.id@))
}

/// Where frame `k` goes among the frames listed (by index) in `t`: before the
/// first whose ID sorts after its own, or at the end.
pub open spec fn id_insert_pos(s: Seq<AtlasFrame>, t: Seq<usize>, k: int) -> int
    decreases t.len(),
{
    if t.len() == 0 {
        0
    } else if !frame_id_le(s[t[0] as int], s[k]) {
        0
    } else {
        1 + id_insert_pos(s, t.drop_first(), k)
    }
}

/// The indices of the first `k` frames in order of their IDs, frames with equal
/// IDs in their own order: each frame is put after every earlier one whose ID
/// sorts no later.
pub open spec fn id_order(s: Seq<AtlasFrame>, k: int) -> Seq<usize>
    decreases k,
{
    if k <= 0 {
        Seq::empty()
    } else {
        let t = id_order(s, k - 1);
        t.insert(id_insert_pos(s, t, k - 1), (k - 1) as usize)
    }
}

/// The frames of the JSON hash layout: one member per frame, keyed by its ID,
/// in order of the IDs (`id_order`). A repeated ID is printed once, where it
/// first comes, with the last of its frames.
pub open spec fn hash_frames_model(s: Seq<AtlasFrame>) -> JsonModel {
    let order = id_order(s, s.len() as int);
    JsonModel::Obj(
        Seq::new(
            order.len(),
            |i: int| (s[order[i] as int].id@, hash_frame_model(s[order[i] as int])),
        ),
    )
}

proof fn lemma_id_order_len(s: Seq<AtlasFrame>, k: int)
    requires
        0 <= k <= s.len(),
    ensures
        id_order(s, k).len() == k,
        forall|i: int| 0 <= i < k ==> (#[trigger] id_order(s, k)[i]) < k,
    decreases k,
{
    if k > 0 {
        lemma_id_order_len(s, k - 1);
        lemma_insert_pos_bound(s, id_order(s, k - 1), k - 1);
        let t = id_order(s, k - 1);
        let p = id_insert_pos(s, t, k - 1);
        assert forall|i: int| 0 <= i < k implies (#[trigger] id_order(s, k)[i]) < k by {
            if i < p {
                assert(id_order(s, k)[i] == t[i]);
            } else if i > p {
                assert(id_order(s, k)[i] == t[i - 1]);
            }
        }
    }
}

proof fn lemma_insert_pos_bound(s: Seq<AtlasFrame>, t: Seq<usize>, k: int)
    ensures
        0 <= id_insert_pos(s, t, k) <= t.len(),
    decreases t.len(),
{
    if t.len() > 0 {
        lemma_insert_pos_bound(s, t.drop_first(), k);
    }
}

/// The indices of the frames in order of their IDs (see `id_order`).
fn frame_id_order(frames: &Vec<AtlasFrame>) -> (r: Vec<usize>)
    ensures
        r@ == id_order(frames@, frames@.len() as int),
{
    let n = frames.len();
    let mut order: Vec<usize> = Vec::new();
    let mut k: usize = 0;
    while k < n
        invariant
            n == frames@.len(),
            k <= n,
            order@ == id_order(frames@, k as int),
        decreases n - k,
    {
        proof {
            lemma_id_order_len(frames@, k as int);
        }
        let mut j: usize = 0;
        assert(order@.skip(0) =~= order@);
        while j < order.len() && str_le(frames[order[j]].id.as_str(), frames[k].id.as_str())
            invariant
                n == frames@.len(),
                k < n,
                order@ == id_order(frames@, k as int),
                order@.len() == k,
                forall|i: int| 0 <= i < k ==> (#[trigger] order@[i]) < k,
                j <= order@.len(),
                id_insert_pos(frames@, order@, k as int) == j + id_insert_pos(
                    frames@,
                    order@.skip(j as int),
                    k as int,
                ),
            decreases order@.len() - j,
        {
            assert(order@.skip(j as int).drop_first() =~= order@.skip(j + 1));
            assert(order@.skip(j as int)[0] == order@[j as int]);
            j = j + 1;
        }
        proof {
            if j < order@.len() {
                assert(order@.skip(j as int)[0] == order@[j as int]);
            } else {
                assert(order@.skip(j as int).len() == 0);
            }
        }
        order.insert(j, k);
        k = k + 1;
    }
    order
}


/// The JSON hash document of a sheet: `frames` (see `hash_frames_model`), then
/// `meta`.
pub open spec fn json_hash_model(frames: Seq<AtlasFrame>, m: SheetMeta) -> JsonModel {
    JsonModel::Obj(seq![member("frames", hash_frames_model(frames)), member("meta", meta_model(m))])
}

/// The JSON array document of a sheet: `frames`, an array of the frames in
/// their order, then `meta`.
pub open spec fn json_array_model(frames: Seq<AtlasFrame>, m: SheetMeta) -> JsonModel {
    JsonModel::Obj(
        seq![
            member("frames", JsonModel::Arr(Seq::new(frames.len(), |i: int| array_frame_model(frames[i])))),
            member("meta", meta_model(m)),
        ],
    )
}

/// One sheet's entry in the Phaser 3 `textures` array.
pub open spec fn texture_entry_model(frames: Seq<AtlasFrame>, m: SheetMeta) -> JsonModel {
    JsonModel::Obj(
        seq![
            member("image", JsonModel::Str(m.texture_filename@)),
            member("format", JsonModel::Str(m.pixel_format@)),
            member("size", wh_model(m.width as int, m.height as int)),
            member("scale", JsonModel::Num(m.scale_number@)),
            member(
                "frames",
                JsonModel::Arr(Seq::new(frames.len(), |i: int| phaser_frame_model(frames[i]))),
            ),
        ],
    )
}

/// The Phaser 3 multi-atlas document: `textures`, one entry per sheet in
/// order, then `meta` naming the app and format version `3.0`.
pub open spec fn phaser3_model(inputs: Seq<ExportInput>) -> JsonModel {
    JsonModel::Obj(
        seq![
            member(
                "textures",
                JsonModel::Arr(
                    Seq::new(
                        inputs.len(),
                        |i: int| texture_entry_model(inputs[i].frames@, *inputs[i].meta),
                    ),
                ),
            ),
            member(
                "meta",
                JsonModel::Obj(
                    seq![
                        member("app", JsonModel::Str("FastPack"@)),
                        member("version", JsonModel::Str("3.0"@)),
                    ],
                ),
            ),
        ],
    )
}

/// The JSON hash document of a sheet (see `json_hash_model`).
pub fn json_hash_doc(input: &ExportInput) -> (d: JsonValue)
    ensures
        json_model(d) == json_hash_model(input.frames@, *input.meta),
{
    let frames = input.frames;
    let order = frame_id_order(frames);
    proof {
        lemma_id_order_len(frames@, frames@.len() as int);
    }
    let mut members: Vec<(String, JsonValue)> = Vec::new();
    let mut i: usize = 0;
    assert(fields_model(members@) =~= Seq::empty());
    while i < order.len()
        invariant
            order@ == id_order(frames@, frames@.len() as int),
            order@.len() == frames@.len(),
            forall|j: int| 0 <= j < order@.len() ==> (#[trigger] order@[j]) < frames@.len(),
            i <= order@.len(),
            fields_model(members@) == Seq::new(
                i as nat,
                |j: int| (frames@[order@[j] as int].id@, hash_frame_model(frames@[order@[j] as int])),
            ),
        decreases order@.len() - i,
    {
        let f = &frames[order[i]];
        let ghost before = fields_model(members@);
        let ghost fv = *f;
        let x = hash_frame_doc(f);
        members.push((f.id.clone(), x));
        assert(fields_model(members@) =~= Seq::new(
            (i + 1) as nat,
            |j: int| (frames@[order@[j] as int].id@, hash_frame_model(frames@[order@[j] as int])),
        )) by {
            assert(fields_model(members@) =~= before.push((fv.id@, hash_frame_model(fv))));
        }
        i = i + 1;
    }
    let fm = obj(members);
    assert(json_model(fm) == hash_frames_model(frames@)) by {
        match hash_frames_model(frames@) {
            JsonModel::Obj(x) => assert(x =~= fields_model(members@)),
            _ => {},
        }
    }
    let mut top: Vec<(String, JsonValue)> = Vec::new();
    assert(fields_model(top@) =~= Seq::empty());
    push_member(&mut top, "frames", fm);
    push_member(&mut top, "meta", meta_doc(input.meta));
    proof {
        match json_hash_model(frames@, *input.meta) {
            JsonModel::Obj(x) => assert(x =~= fields_model(top@)),
            _ => {},
        }
    }
    obj(top)
}


/// The frames as an array, each made by `item` of the frame.
fn frame_array(frames: &Vec<AtlasFrame>, phaser: bool) -> (r: JsonValue)
    ensures
        json_model(r) == JsonModel::Arr(
            Seq::new(
                frames@.len(),
                |i: int|
                    if phaser {
                        phaser_frame_model(frames@[i])
                    } else {
                        array_frame_model(frames@[i])
                    },
            ),
        ),
        !phaser ==> json_model(r) == JsonModel::Arr(
            Seq::new(frames@.len(), |i: int| array_frame_model(frames@[i])),
        ),
        phaser ==> json_model(r) == JsonModel::Arr(
            Seq::new(frames@.len(), |i: int| phaser_frame_model(frames@[i])),
        ),
{
    let mut items: Vec<JsonValue> = Vec::new();
    let mut i: usize = 0;
    assert(items_model(items@) =~= Seq::empty());
    while i < frames.len()
        invariant
            i <= frames@.len(),
            items_model(items@) == Seq::new(
                i as nat,
                |j: int|
                    if phaser {
                        phaser_frame_model(frames@[j])
                    } else {
                        array_frame_model(frames@[j])
                    },
            ),
        decreases frames@.len() - i,
    {
        let ghost before = items_model(items@);
        let x = if phaser {
            phaser_frame_doc(&frames[i])
        } else {
            array_frame_doc(&frames[i])
        };
        push_item(&mut items, x);
        assert(items_model(items@) =~= Seq::new(
            (i + 1) as nat,
            |j: int|
                if phaser {
                    phaser_frame_model(frames@[j])
                } else {
                    array_frame_model(frames@[j])
                },
        ));
        i = i + 1;
    }
    let r = arr(items);
    assert(!phaser ==> Seq::new(
        frames@.len(),
        |j: int|
            if phaser {
                phaser_frame_model(frames@[j])
            } else {
                array_frame_model(frames@[j])
            },
    ) =~= Seq::new(frames@.len(), |j: int| array_frame_model(frames@[j])));
    assert(phaser ==> Seq::new(
        frames@.len(),
        |j: int|
            if phaser {
                phaser_frame_model(frames@[j])
            } else {
                array_frame_model(frames@[j])
            },
    ) =~= Seq::new(frames@.len(), |j: int| phaser_frame_model(frames@[j])));
    r
}

/// The JSON array document of a sheet (see `json_array_model`).
pub fn json_array_doc(input: &ExportInput) -> (d: JsonValue)
    ensures
        json_model(d) == json_array_model(input.frames@, *input.meta),
{
    let mut top: Vec<(String, JsonValue)> = Vec::new();
    assert(fields_model(top@) =~= Seq::empty());
    let fa = frame_array(input.frames, false);
    push_member(&mut top, "frames", fa);
    push_member(&mut top, "meta", meta_doc(input.meta));
    proof {
        match json_array_model(input.frames@, *input.meta) {
            JsonModel::Obj(x) => {
                assert(x =~= fields_model(top@));
            },
            _ => {},
        }
    }
    obj(top)
}

fn texture_entry_doc(input: &ExportInput) -> (r: JsonValue)
    ensures
        json_model(r) == texture_entry_model(input.frames@, *input.meta),
{
    let m = input.meta;
    let mut v: Vec<(String, JsonValue)> = Vec::new();
    assert(fields_model(v@) =~= Seq::empty());
    push_member(&mut v, "image", JsonValue::Str(m.texture_filename.clone()));
    push_member(&mut v, "format", JsonValue::Str(m.pixel_format.clone()));
    push_member(&mut v, "size", obj2("w", m.width as i64, "h", m.height as i64));
    push_member(&mut v, "scale", JsonValue::Num(m.scale_number.duplicate()));
    let fa = frame_array(input.frames, true);
    push_member(&mut v, "frames", fa);
    proof {
        match texture_entry_model(input.frames@, *m) {
            JsonModel::Obj(x) => {
                assert(x =~= fields_model(v@));
            },
            _ => {},
        }
    }
    obj(v)
}

/// The Phaser 3 document of the sheets (see `phaser3_model`).
pub fn phaser3_doc(inputs: &[ExportInput]) -> (d: JsonValue)
    ensures
        json_model(d) == phaser3_model(inputs@),
{
    let mut items: Vec<JsonValue> = Vec::new();
    let mut i: usize = 0;
    assert(items_model(items@) =~= Seq::empty());
    while i < inputs.len()
        invariant
            i <= inputs@.len(),
            items_model(items@) == Seq::new(
                i as nat,
                |j: int| texture_entry_model(inputs@[j].frames@, *inputs@[j].meta),
            ),
        decreases inputs@.len() - i,
    {
        push_item(&mut items, texture_entry_doc(&inputs[i]));
        assert(items_model(items@) =~= Seq::new(
            (i + 1) as nat,
            |j: int| texture_entry_model(inputs@[j].frames@, *inputs@[j].meta),
        ));
        i = i + 1;
    }
    let ghost items_copy = items@;
    let textures = arr(items);
    let mut meta: Vec<(String, JsonValue)> = Vec::new();
    assert(fields_model(meta@) =~= Seq::empty());
    push_member(&mut meta, "app", JsonValue::Str(String::from_str("FastPack")));
    push_member(&mut meta, "version", JsonValue::Str(String::from_str("3.0")));
    assert(fields_model(meta@) =~= seq![
        member("app", JsonModel::Str("FastPack"@)),
        member("version", JsonModel::Str("3.0"@)),
    ]);
    let meta_v = obj(meta);
    let mut top: Vec<(String, JsonValue)> = Vec::new();
    assert(fields_model(top@) =~= Seq::empty());
    push_member(&mut top, "textures", textures);
    push_member(&mut top, "meta", meta_v);
    proof {
        match phaser3_model(inputs@) {
            JsonModel::Obj(x) => {
                assert(x[0].1 == json_model(textures)) by {
                    match x[0].1 {
                        JsonModel::Arr(a) => assert(a =~= items_model(items_copy)),
                        _ => {},
                    }
                }
                assert(x =~= fields_model(top@));
            },
            _ => {},
        }
    }
    obj(top)
}


impl JsonHashExporter {
    /// JSON hash data files hold one sheet each: there is no combined file.
    pub fn combine(&self, inputs: &[ExportInput]) -> (r: Option<Result<String, String>>)
        ensures
            r is None,
    {
        None
    }

    /// The sheet's data file (see `json_hash_model`).
    pub fn export(&self, input: &ExportInput) -> (r: Result<String, String>)
        ensures
            r is Ok,
            r matches Ok(t) ==> t@ == json_text(json_hash_model(input.frames@, *input.meta)),
    {
        json_pretty(&json_hash_doc(input))
    }
}

impl JsonArrayExporter {
    /// JSON array data files hold one sheet each: there is no combined file.
    pub fn combine(&self, inputs: &[ExportInput]) -> (r: Option<Result<String, String>>)
        ensures
            r is None,
    {
        None
    }

    /// The sheet's data file (see `json_array_model`).
    pub fn export(&self, input: &ExportInput) -> (r: Result<String, String>)
        ensures
            r is Ok,
            r matches Ok(t) ==> t@ == json_text(json_array_model(input.frames@, *input.meta)),
    {
        json_pretty(&json_array_doc(input))
    }
}

impl Phaser3Exporter {
    /// The data file of one sheet: the multi-atlas document of that sheet alone.
    pub fn export(&self, input: &ExportInput) -> (r: Result<String, String>)
        ensures
            r is Ok,
            r matches Ok(t) ==> t@ == json_text(phaser3_model(seq![*input])),
    {
        let mut v: Vec<ExportInput> = Vec::new();
        v.push(*input);
        assert(v@ =~= seq![*input]);
        json_pretty(&phaser3_doc(v.as_slice()))
    }

    /// One data file for all the sheets: the multi-atlas document.
    pub fn combine(&self, inputs: &[ExportInput]) -> (r: Option<Result<String, String>>)
        ensures
            r matches Some(res) && res is Ok,
            r matches Some(Ok(t)) ==> t@ == json_text(phaser3_model(inputs@)),
    {
        Some(json_pretty(&phaser3_doc(inputs)))
    }
}

impl PixiJsExporter {
    /// PixiJS data files hold one sheet each: there is no combined file.
    pub fn combine(&self, inputs: &[ExportInput]) -> (r: Option<Result<String, String>>)
        ensures
            r is None,
    {
        None
    }

    /// The sheet's data file: the JSON hash layout, which PixiJS reads.
    pub fn export(&self, input: &ExportInput) -> (r: Result<String, String>)
        ensures
            r is Ok,
            r matches Ok(t) ==> t@ == json_text(json_hash_model(input.frames@, *input.meta)),
    {
        JsonHashExporter.export(input)
    }
}

/// The members of an object (none for another value).
pub open spec fn members(m: JsonModel) -> Seq<(Seq<char>, JsonModel)> {
    match m {
        JsonModel::Obj(ms) => ms,
        _ => Seq::empty(),
    }
}

/// No key occurs twice among the members.
pub open spec fn keys_distinct(ms: Seq<(Seq<char>, JsonModel)>) -> bool {
    forall|i: int, j: int| 0 <= i < j < ms.len() ==> ms[i].0 != ms[j].0
}

/// A frame of the JSON hash layout is an object with distinct keys that says, from
/// the frame's own fields: `frame` is `{h, w, x, y}` of the atlas rectangle,
/// `spriteSourceSize` is `{h, w, x, y}` of the trimmed region within the original
/// image, `sourceSize` is `{h, w}` of the original image, `rotated` and `trimmed`
/// are the frame's flags, `aliasOf` names the sprite an alias duplicates, and
/// `pivot` is `{x, y}` of the pivot when there is one.
pub proof fn lemma_hash_frame_fields(f: AtlasFrame)
    ensures
        hash_frame_model(f) is Obj,
        keys_distinct(members(hash_frame_model(f))),
        members(hash_frame_model(f)).contains(
            (
                "frame"@,
                JsonModel::Obj(
                    seq![
                        ("h"@, JsonModel::Int(f.frame.h as int)),
                        ("w"@, JsonModel::Int(f.frame.w as int)),
                        ("x"@, JsonModel::Int(f.frame.x as int)),
                        ("y"@, JsonModel::Int(f.frame.y as int)),
                    ],
                ),
            ),
        ),
        members(hash_frame_model(f)).contains(
            (
                "spriteSourceSize"@,
                JsonModel::Obj(
                    seq![
                        ("h"@, JsonModel::Int(f.sprite_source_size.h as int)),
                        ("w"@, JsonModel::Int(f.sprite_source_size.w as int)),
                        ("x"@, JsonModel::Int(f.sprite_source_size.x as int)),
                        ("y"@, JsonModel::Int(f.sprite_source_size.y as int)),
                    ],
                ),
            ),
        ),
        members(hash_frame_model(f)).contains(
            (
                "sourceSize"@,
                JsonModel::Obj(
                    seq![
                        ("h"@, JsonModel::Int(f.source_size.h as int)),
                        ("w"@, JsonModel::Int(f.source_size.w as int)),
                    ],
                ),
            ),
        ),
        members(hash_frame_model(f)).contains(("rotated"@, JsonModel::Bool(f.rotated))),
        members(hash_frame_model(f)).contains(("trimmed"@, JsonModel::Bool(f.trimmed))),
        f.alias_of matches Some(a) ==> members(hash_frame_model(f)).contains(("aliasOf"@, JsonModel::Str(a@))),
        f.pivot matches Some(p) ==> members(hash_frame_model(f)).contains(
            ("pivot"@, JsonModel::Obj(seq![("x"@, JsonModel::Num(p.x@)), ("y"@, JsonModel::Num(p.y@))])),
        ),
{
    reveal_strlit("aliasOf");
    reveal_strlit("frame");
    reveal_strlit("ninePatch");
    reveal_strlit("pivot");
    reveal_strlit("rotated");
    reveal_strlit("sourceSize");
    reveal_strlit("spriteSourceSize");
    reveal_strlit("trimmed");
    reveal_strlit("h");
    reveal_strlit("w");
    reveal_strlit("x");
    reveal_strlit("y");
    let ms = members(hash_frame_model(f));
    let a: int = if f.alias_of is Some { 1 } else { 0 };
    let n: int = if f.nine_patch is Some { 1 } else { 0 };
    let p: int = if f.pivot is Some { 1 } else { 0 };
    assert(ms.len() == a + 1 + n + p + 4);
    assert(ms[a].0 == "frame"@);
    assert(a + 1 + n + p + 0 < ms.len() && ms[a + 1 + n + p].0 == "rotated"@);
    assert(ms[a + 2 + n + p].0 == "sourceSize"@);
    assert(ms[a + 3 + n + p].0 == "spriteSourceSize"@);
    assert(ms[a + 4 + n + p].0 == "trimmed"@);
    assert(n == 1 ==> ms[a + 1].0 == "ninePatch"@);
    assert(p == 1 ==> ms[a + 1 + n].0 == "pivot"@);
    assert(a == 1 ==> ms[0].0 == "aliasOf"@);
    assert("aliasOf"@.len() == 7 && "aliasOf"@[0] == 'a');
    assert("frame"@.len() == 5 && "frame"@[0] == 'f');
    assert("ninePatch"@.len() == 9 && "ninePatch"@[0] == 'n');
    assert("pivot"@.len() == 5 && "pivot"@[0] == 'p');
    assert("rotated"@.len() == 7 && "rotated"@[0] == 'r');
    assert("sourceSize"@.len() == 10 && "sourceSize"@[0] == 's');
    assert("spriteSourceSize"@.len() == 16 && "spriteSourceSize"@[0] == 's');
    assert("trimmed"@.len() == 7 && "trimmed"@[0] == 't');
    assert forall|i: int, j: int| 0 <= i < j < ms.len() implies ms[i].0 != ms[j].0 by {
        assert(ms[i].0.len() != ms[j].0.len() || ms[i].0[0] != ms[j].0[0]);
    }
    assert(ms[a] == ("frame"@, hwxy_model(f.frame.x as int, f.frame.y as int, f.frame.w as int, f.frame.h as int)));
    assert(ms[a + 3 + n + p] == ("spriteSourceSize"@, hwxy_model(
        f.sprite_source_size.x as int,
        f.sprite_source_size.y as int,
        f.sprite_source_size.w as int,
        f.sprite_source_size.h as int,
    )));
    assert(ms[a + 2 + n + p] == ("sourceSize"@, hw_model(f.source_size.w as int, f.source_size.h as int)));
    assert(ms[a + 1 + n + p] == ("rotated"@, JsonModel::Bool(f.rotated)));
    assert(ms[a + 4 + n + p] == ("trimmed"@, JsonModel::Bool(f.trimmed)));
    if let Some(al) = f.alias_of {
        assert(ms[0] == ("aliasOf"@, JsonModel::Str(al@)));
    }
    if let Some(pv) = f.pivot {
        assert(ms[a + 1 + n] == ("pivot"@, pivot_model(pv)));
    }
}

/// Every frame index below `k` has a place in the ID order.
proof fn lemma_id_order_has(s: Seq<AtlasFrame>, k: int, j: int)
    requires
        0 <= j < k <= s.len(),
        s.len() <= usize::MAX,
    ensures
        exists|i: int| 0 <= i < id_order(s, k).len() && id_order(s, k)[i] == j,
    decreases k,
{
    lemma_id_order_len(s, k);
    let t = id_order(s, k - 1);
    lemma_id_order_len(s, k - 1);
    lemma_insert_pos_bound(s, t, k - 1);
    let p = id_insert_pos(s, t, k - 1);
    assert(id_order(s, k) == t.insert(p, (k - 1) as usize));
    if j == k - 1 {
        assert(id_order(s, k)[p] == j);
    } else {
        lemma_id_order_has(s, k - 1, j);
        let i = choose|i: int| 0 <= i < t.len() && t[i] == j;
        if i < p {
            assert(id_order(s, k)[i] == j);
        } else {
            assert(id_order(s, k)[i + 1] == j);
        }
    }
}

/// The JSON hash document lists, under `frames`, every frame of the sheet keyed by
/// its ID, then the `meta` block.
pub proof fn lemma_json_hash_has_frame(frames: Seq<AtlasFrame>, m: SheetMeta, k: int)
    requires
        0 <= k < frames.len(),
        frames.len() <= usize::MAX,
    ensures
        members(json_hash_model(frames, m)).len() == 2,
        members(json_hash_model(frames, m))[0].0 == "frames"@,
        members(members(json_hash_model(frames, m))[0].1).contains(
            (frames[k].id@, hash_frame_model(frames[k])),
        ),
        members(json_hash_model(frames, m))[1] == ("meta"@, meta_model(m)),
{
    lemma_id_order_has(frames, frames.len() as int, k);
    let order = id_order(frames, frames.len() as int);
    let i = choose|i: int| 0 <= i < order.len() && order[i] == k;
    let fs = members(hash_frames_model(frames));
    assert(fs[i] == (frames[k].id@, hash_frame_model(frames[k])));
}

/// A frame of the JSON array layout (and, without `aliasOf`, of the Phaser 3
/// layout) is an object with distinct keys that says, from the frame's own fields:
/// `filename` is its ID, `frame` is `{x, y, w, h}` of the atlas rectangle,
/// `spriteSourceSize` is `{x, y, w, h}` of the trimmed region, `sourceSize` is
/// `{w, h}` of the original image, `rotated` and `trimmed` are its flags, and
/// `aliasOf` (array layout only) names the sprite an alias duplicates.
pub proof fn lemma_listed_frame_fields(f: AtlasFrame)
    ensures
        keys_distinct(members(array_frame_model(f))),
        keys_distinct(members(phaser_frame_model(f))),
        forall|e: (Seq<char>, JsonModel)|
            #[trigger] members(phaser_frame_model(f)).contains(e) ==> members(array_frame_model(f)).contains(e),
        members(phaser_frame_model(f)).contains(("filename"@, JsonModel::Str(f.id@))),
        members(phaser_frame_model(f)).contains(
            (
                "frame"@,
                JsonModel::Obj(
                    seq![
                        ("x"@, JsonModel::Int(f.frame.x as int)),
                        ("y"@, JsonModel::Int(f.frame.y as int)),
                        ("w"@, JsonModel::Int(f.frame.w as int)),
                        ("h"@, JsonModel::Int(f.frame.h as int)),
                    ],
                ),
            ),
        ),
        members(phaser_frame_model(f)).contains(
            (
                "spriteSourceSize"@,
                JsonModel::Obj(
                    seq![
                        ("x"@, JsonModel::Int(f.sprite_source_size.x as int)),
                        ("y"@, JsonModel::Int(f.sprite_source_size.y as int)),
                        ("w"@, JsonModel::Int(f.sprite_source_size.w as int)),
                        ("h"@, JsonModel::Int(f.sprite_source_size.h as int)),
                    ],
                ),
            ),
        ),
        members(phaser_frame_model(f)).contains(
            (
                "sourceSize"@,
                JsonModel::Obj(
                    seq![
                        ("w"@, JsonModel::Int(f.source_size.w as int)),
                        ("h"@, JsonModel::Int(f.source_size.h as int)),
                    ],
                ),
            ),
        ),
        members(phaser_frame_model(f)).contains(("rotated"@, JsonModel::Bool(f.rotated))),
        members(phaser_frame_model(f)).contains(("trimmed"@, JsonModel::Bool(f.trimmed))),
        f.alias_of matches Some(a) ==> members(array_frame_model(f)).contains(("aliasOf"@, JsonModel::Str(a@))),
{
    let keys = seq!["filename"@, "frame"@, "rotated"@, "trimmed"@, "spriteSourceSize"@, "sourceSize"@, "aliasOf"@];
    reveal_strlit("filename");
    reveal_strlit("frame");
    reveal_strlit("rotated");
    reveal_strlit("trimmed");
    reveal_strlit("spriteSourceSize");
    reveal_strlit("sourceSize");
    reveal_strlit("aliasOf");
    assert("filename"@.len() == 8 && "filename"@[1] == 'i');
    assert("frame"@.len() == 5 && "frame"@[1] == 'r');
    assert("rotated"@.len() == 7 && "rotated"@[1] == 'o');
    assert("trimmed"@.len() == 7 && "trimmed"@[1] == 'r');
    assert("spriteSourceSize"@.len() == 16 && "spriteSourceSize"@[1] == 'p');
    assert("sourceSize"@.len() == 10 && "sourceSize"@[1] == 'o');
    assert("aliasOf"@.len() == 7 && "aliasOf"@[1] == 'l');
    let ms = members(phaser_frame_model(f));
    let am = members(array_frame_model(f));
    assert(ms.len() == 6);
    assert forall|i: int| 0 <= i < 6 implies ms[i].0 == #[trigger] keys[i] by {}
    assert forall|i: int| 0 <= i < ms.len() implies am[i] == #[trigger] ms[i] by {}
    assert forall|i: int, j: int| 0 <= i < j < am.len() implies am[i].0 != am[j].0 by {
        assert(am[i].0 == keys[i] && am[j].0 == keys[j]);
        assert(keys[i].len() != keys[j].len() || keys[i][1] != keys[j][1]);
    }
    assert forall|e: (Seq<char>, JsonModel)| #[trigger] ms.contains(e) implies am.contains(e) by {
        let i = choose|i: int| 0 <= i < ms.len() && ms[i] == e;
        assert(am[i] == e);
    }
    assert(ms[0] == ("filename"@, JsonModel::Str(f.id@)));
    assert(ms[1].0 == "frame"@);
    assert(ms[2] == ("rotated"@, JsonModel::Bool(f.rotated)));
    assert(ms[3] == ("trimmed"@, JsonModel::Bool(f.trimmed)));
    assert(ms[4].0 == "spriteSourceSize"@);
    assert(ms[5].0 == "sourceSize"@);
    if let Some(al) = f.alias_of {
        assert(am[6] == ("aliasOf"@, JsonModel::Str(al@)));
    }
}

/// The `meta` block of the JSON hash and array layouts names the texture, its pixel
/// format, its size as `{w, h}` and its scale; a Phaser 3 texture entry names the
/// texture, format, size `{w, h}` and scale, and lists the sheet's frames in their
/// order.
pub proof fn lemma_meta_and_texture_fields(frames: Seq<AtlasFrame>, m: SheetMeta)
    ensures
        members(meta_model(m)).contains(("image"@, JsonModel::Str(m.texture_filename@))),
        members(meta_model(m)).contains(("format"@, JsonModel::Str(m.pixel_format@))),
        members(meta_model(m)).contains(
            (
                "size"@,
                JsonModel::Obj(
                    seq![("w"@, JsonModel::Int(m.width as int)), ("h"@, JsonModel::Int(m.height as int))],
                ),
            ),
        ),
        members(meta_model(m)).contains(("scale"@, JsonModel::Str(m.scale_text@))),
        members(texture_entry_model(frames, m)).contains(("image"@, JsonModel::Str(m.texture_filename@))),
        members(texture_entry_model(frames, m)).contains(("format"@, JsonModel::Str(m.pixel_format@))),
        members(texture_entry_model(frames, m)).contains(
            (
                "size"@,
                JsonModel::Obj(
                    seq![("w"@, JsonModel::Int(m.width as int)), ("h"@, JsonModel::Int(m.height as int))],
                ),
            ),
        ),
        members(texture_entry_model(frames, m)).contains(("scale"@, JsonModel::Num(m.scale_number@))),
        members(texture_entry_model(frames, m))[4].0 == "frames"@,
        members(texture_entry_model(frames, m))[4].1 matches JsonModel::Arr(items) && items.len()
            == frames.len() && forall|k: int| 0 <= k < frames.len() ==> #[trigger] items[k]
            == phaser_frame_model(frames[k]),
{
    let ms = members(meta_model(m));
    let ts = members(texture_entry_model(frames, m));
    assert(ms[2] == ("image"@, JsonModel::Str(m.texture_filename@)));
    assert(ms[3] == ("format"@, JsonModel::Str(m.pixel_format@)));
    assert(ms[4].0 == "size"@);
    assert(ms[5] == ("scale"@, JsonModel::Str(m.scale_text@)));
    assert(ts[0] == ("image"@, JsonModel::Str(m.texture_filename@)));
    assert(ts[1] == ("format"@, JsonModel::Str(m.pixel_format@)));
    assert(ts[2].0 == "size"@);
    assert(ts[3] == ("scale"@, JsonModel::Num(m.scale_number@)));
}

/// The JSON array document lists the sheet's frames in their order under `frames`;
/// the Phaser 3 document lists one texture entry per sheet, in the sheets' order,
/// under `textures`.
pub proof fn lemma_listed_documents(frames: Seq<AtlasFrame>, m: SheetMeta, inputs: Seq<ExportInput>)
    ensures
        members(json_array_model(frames, m))[0].0 == "frames"@,
        members(json_array_model(frames, m))[0].1 matches JsonModel::Arr(items) && items.len()
            == frames.len() && forall|k: int| 0 <= k < frames.len() ==> #[trigger] items[k]
            == array_frame_model(frames[k]),
        members(json_array_model(frames, m))[1] == ("meta"@, meta_model(m)),
        members(phaser3_model(inputs))[0].0 == "textures"@,
        members(phaser3_model(inputs))[0].1 matches JsonModel::Arr(items) && items.len()
            == inputs.len() && forall|k: int| 0 <= k < inputs.len() ==> #[trigger] items[k]
            == texture_entry_model(inputs[k].frames@, *inputs[k].meta),
{
}

} // verus!
