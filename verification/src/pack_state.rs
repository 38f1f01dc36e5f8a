use vstd::prelude::*;

use crate::sheet::{AtlasFrame, SheetOutput, WorkerMessage};
use crate::text::{bytes_le, lemma_bytes_le_total, lemma_bytes_le_transitive, str_le, utf8};

verus! {

/// A single frame in the packed atlas, as the sprite list and previews show it.
pub struct FrameInfo {
    /// Sprite identifier used in export data.
    pub id: String,
    /// Index of the atlas sheet this frame lives on.
    pub sheet_idx: usize,
    /// Packed X position in atlas pixels.
    pub x: u32,
    /// Packed Y position in atlas pixels.
    pub y: u32,
    /// Packed frame width in pixels.
    pub w: u32,
    /// Packed frame height in pixels.
    pub h: u32,
    /// Set to the canonical sprite ID if this frame is a duplicate.
    pub alias_of: Option<String>,
}

/// Per-sheet atlas data kept after a pack run.
pub struct SheetData {
    /// Raw RGBA pixel data.
    pub rgba: Vec<u8>,
    /// Atlas width in pixels.
    pub width: u32,
    /// Atlas height in pixels.
    pub height: u32,
    /// Front-end frame records for this sheet.
    pub frames: Vec<FrameInfo>,
    /// Full atlas frame data used by exporters.
    pub atlas_frames: Vec<AtlasFrame>,
}

/// The front-end record of a frame packed on sheet `sheet_idx`.
pub open spec fn tagged(f: crate::sheet::FrameInfo, sheet_idx: usize) -> FrameInfo {
    FrameInfo {
        id: f.id,
        sheet_idx,
        x: f.x,
        y: f.y,
        w: f.w,
        h: f.h,
        alias_of: f.alias_of,
    }
}

/// The front-end data of a packed sheet: its pixels and atlas frames as they
/// are, and each of its frames recorded with the sheet's index.
pub fn sheet_data(sheet: SheetOutput, sheet_idx: usize) -> (d: SheetData)
    ensures
        d.rgba@ == sheet.rgba@,
        d.width == sheet.width,
        d.height == sheet.height,
        d.atlas_frames@ == sheet.atlas_frames@,
        d.frames@ == sheet.frames@.map_values(|f: crate::sheet::FrameInfo| tagged(f, sheet_idx)),
{
    let SheetOutput { rgba, width, height, frames: raw, atlas_frames } = sheet;
    let ghost all = raw@;
    let mut frames: Vec<FrameInfo> = Vec::new();
    for f in it: raw.into_iter()
        invariant
            it.seq() == all,
            frames@ == all.take(it.index() as int).map_values(
                |f: crate::sheet::FrameInfo| tagged(f, sheet_idx),
            ),
    {
        let ghost k = it.index() as int;
        assert(f == all[k]);
        let crate::sheet::FrameInfo { id, x, y, w, h, alias_of } = f;
        frames.push(FrameInfo { id, sheet_idx, x, y, w, h, alias_of });
        assert(frames@ =~= all.take(k + 1).map_values(
            |f: crate::sheet::FrameInfo| tagged(f, sheet_idx),
        ));
    }
    assert(all.take(all.len() as int) =~= all);
    SheetData { rgba, width, height, frames, atlas_frames }
}


/// `a`'s ID sorts no later than `b`'s.
pub open spec fn id_le(a: FrameInfo, b: FrameInfo) -> bool {
    bytes_le(utf8(a.id@), utf8(b.id@))
}

/// The frames are in order of their IDs.
pub open spec fn sorted_by_id(s: Seq<FrameInfo>) -> bool {
    forall|i: int, j: int| 0 <= i < j < s.len() ==> id_le(#[trigger] s[i], #[trigger] s[j])
}

/// A copy of a frame record.
pub fn copy_frame(f: &FrameInfo) -> (r: FrameInfo)
    ensures
        r == *f,
{
    let alias_of = match &f.alias_of {
        Some(a) => Some(a.clone()),
        None => None,
    };
    FrameInfo { id: f.id.clone(), sheet_idx: f.sheet_idx, x: f.x, y: f.y, w: f.w, h: f.h, alias_of }
}

/// The frames reordered by ID (frames with equal IDs in no particular order).
pub fn sort_by_id(frames: Vec<FrameInfo>) -> (r: Vec<FrameInfo>)
    ensures
        r@.to_multiset() == frames@.to_multiset(),
        sorted_by_id(r@),
{
    let ghost all = frames@;
    let mut out: Vec<FrameInfo> = Vec::new();
    assert(all.take(0) =~= Seq::<FrameInfo>::empty());
    for x in it: frames.into_iter()
        invariant
            it.seq() == all,
            out@.to_multiset() == all.take(it.index() as int).to_multiset(),
            sorted_by_id(out@),
    {
        let ghost k = it.index() as int;
        assert(x == all[k]);
        let mut j: usize = 0;
        while j < out.len() && str_le(out[j].id.as_str(), x.id.as_str())
            invariant
                j <= out@.len(),
                forall|m: int| 0 <= m < j ==> id_le(#[trigger] out@[m], x),
            decreases out@.len() - j,
        {
            j = j + 1;
        }
        proof {
            if j < out@.len() {
                lemma_bytes_le_total(utf8(out@[j as int].id@), utf8(x.id@));
                assert forall|m: int| j <= m < out@.len() implies id_le(x, #[trigger] out@[m]) by {
                    if m > j {
                        lemma_bytes_le_transitive(
                            utf8(x.id@),
                            utf8(out@[j as int].id@),
                            utf8(out@[m].id@),
                        );
                    }
                }
            }
        }
        let ghost before = out@;
        out.insert(j, x);
        proof {
            assert forall|a: int, b: int| 0 <= a < b < out@.len() implies id_le(
                #[trigger] out@[a],
                #[trigger] out@[b],
            ) by {
                if b < j {
                    assert(id_le(before[a], before[b]));
                } else if a < j && b == j {
                    assert(id_le(before[a], x));
                } else if a < j {
                    assert(id_le(before[a], before[b - 1]));
                } else if a == j {
                    assert(id_le(x, before[b - 1]));
                } else {
                    assert(id_le(before[a - 1], before[b - 1]));
                }
            }
            assert(all.take(k + 1) =~= all.take(k).push(x));
            assert(out@ == before.insert(j as int, x));
            vstd::seq_lib::to_multiset_insert(before, j as int, x);
            vstd::seq_lib::to_multiset_build(all.take(k), x);
        }
    }
    assert(all.take(all.len() as int) =~= all);
    out
}


/// The frames of all sheets, sheet after sheet.
pub open spec fn all_frames(sheets: Seq<SheetData>) -> Seq<FrameInfo>
    decreases sheets.len(),
{
    if sheets.len() == 0 {
        Seq::empty()
    } else {
        all_frames(sheets.drop_last()) + sheets.last().frames@
    }
}

/// The frames of all sheets in order of their IDs.
pub fn frames_by_id(sheets: &Vec<SheetData>) -> (r: Vec<FrameInfo>)
    ensures
        r@.to_multiset() == all_frames(sheets@).to_multiset(),
        sorted_by_id(r@),
{
    let mut flat: Vec<FrameInfo> = Vec::new();
    let mut s: usize = 0;
    assert(sheets@.take(0) =~= Seq::<SheetData>::empty());
    while s < sheets.len()
        invariant
            s <= sheets@.len(),
            flat@ == all_frames(sheets@.take(s as int)),
        decreases sheets@.len() - s,
    {
        let fs = &sheets[s].frames;
        let ghost base = flat@;
        let mut i: usize = 0;
        while i < fs.len()
            invariant
                i <= fs@.len(),
                fs@ == sheets@[s as int].frames@,
                flat@ == base + fs@.take(i as int),
            decreases fs@.len() - i,
        {
            flat.push(copy_frame(&fs[i]));
            assert(base + fs@.take(i + 1) =~= (base + fs@.take(i as int)).push(fs@[i as int]));
            i = i + 1;
        }
        assert(fs@.take(fs@.len() as int) =~= fs@);
        assert(sheets@.take(s + 1).drop_last() =~= sheets@.take(s as int));
        s = s + 1;
    }
    assert(sheets@.take(sheets@.len() as int) =~= sheets@);
    sort_by_id(flat)
}

/// The part of the application state that pack runs change.
pub struct PackState {
    /// A pack is running in the background.
    pub packing: bool,
    /// All packed sheets from the last successful pack.
    pub sheets: Vec<SheetData>,
    /// Frame entries from all sheets, in order of their IDs.
    pub frames: Vec<FrameInfo>,
    /// Unique sprites packed in the last run.
    pub sprite_count: usize,
    /// Sprites deduplicated as aliases in the last run.
    pub alias_count: usize,
    /// Sprites that did not fit in the last run.
    pub overflow_count: usize,
    /// Indices into `frames` of highlighted frames, in click order.
    pub selected_frames: Vec<usize>,
    /// Anchor frame for range selection.
    pub anchor_frame: Option<usize>,
    /// The animation preview window is open.
    pub anim_preview_open: bool,
}

/// What the front end reports when a pack run is over.
pub enum PackReport {
    /// The run finished: its counts, the size of its first sheet (zero
    /// without sheets) and its number of sheets.
    Packed { sprites: usize, aliases: usize, overflow: usize, width: u32, height: u32, sheets: usize },
    /// The run failed with this message.
    Failed(String),
}

/// The front-end sheets of a run's sheets: sheet `i` with each of its frames
/// recorded with index `i`.
pub open spec fn sheets_of(out: Seq<SheetOutput>, sheets: Seq<SheetData>) -> bool {
    &&& sheets.len() == out.len()
    &&& forall|i: int|
        0 <= i < out.len() ==> {
            &&& (#[trigger] sheets[i]).rgba@ == out[i].rgba@
            &&& sheets[i].width == out[i].width
            &&& sheets[i].height == out[i].height
            &&& sheets[i].atlas_frames@ == out[i].atlas_frames@
            &&& sheets[i].frames@ == out[i].frames@.map_values(
                |f: crate::sheet::FrameInfo| tagged(f, i as usize),
            )
        }
}

/// Applies one message of a pack run to the pack state, and says what to
/// report when the run is over: a start marks a pack as running; progress
/// changes nothing; a finish stores the result (its sheets, their frames in
/// order of ID and its counts), drops the frame selection and closes the
/// animation preview; a failure ends the run and keeps the last result.
pub fn apply_worker_message(state: &mut PackState, msg: WorkerMessage) -> (r: Option<PackReport>)
    ensures
        match msg {
            WorkerMessage::Started => {
                &&& r is None
                &&& final(state).packing
                &&& final(state).sheets@ == old(state).sheets@
                &&& final(state).frames@ == old(state).frames@
                &&& final(state).sprite_count == old(state).sprite_count
                &&& final(state).alias_count == old(state).alias_count
                &&& final(state).overflow_count == old(state).overflow_count
                &&& final(state).selected_frames@ == old(state).selected_frames@
                &&& final(state).anchor_frame == old(state).anchor_frame
                &&& final(state).anim_preview_open == old(state).anim_preview_open
            },
            WorkerMessage::Progress { .. } => {
                &&& r is None
                &&& final(state).packing == old(state).packing
                &&& final(state).sheets@ == old(state).sheets@
                &&& final(state).frames@ == old(state).frames@
                &&& final(state).sprite_count == old(state).sprite_count
                &&& final(state).alias_count == old(state).alias_count
                &&& final(state).overflow_count == old(state).overflow_count
                &&& final(state).selected_frames@ == old(state).selected_frames@
                &&& final(state).anchor_frame == old(state).anchor_frame
                &&& final(state).anim_preview_open == old(state).anim_preview_open
            },
            WorkerMessage::Failed(m) => {
                &&& r == Some(PackReport::Failed(m))
                &&& !final(state).packing
                &&& final(state).sheets@ == old(state).sheets@
                &&& final(state).frames@ == old(state).frames@
                &&& final(state).sprite_count == old(state).sprite_count
                &&& final(state).alias_count == old(state).alias_count
                &&& final(state).overflow_count == old(state).overflow_count
                &&& final(state).selected_frames@ == old(state).selected_frames@
                &&& final(state).anchor_frame == old(state).anchor_frame
                &&& final(state).anim_preview_open == old(state).anim_preview_open
            },
            WorkerMessage::Finished(out) => {
                &&& !final(state).packing
                &&& sheets_of(out.sheets@, final(state).sheets@)
                &&& final(state).frames@.to_multiset() == all_frames(final(state).sheets@).to_multiset()
                &&& sorted_by_id(final(state).frames@)
                &&& final(state).sprite_count == out.sprite_count
                &&& final(state).alias_count == out.alias_count
                &&& final(state).overflow_count == out.overflow_count
                &&& final(state).selected_frames@.len() == 0
                &&& final(state).anchor_frame is None
                &&& !final(state).anim_preview_open
                &&& r == Some(
                    PackReport::Packed {
                        sprites: out.sprite_count,
                        aliases: out.alias_count,
                        overflow: out.overflow_count,
                        width: if out.sheets@.len() > 0 {
                            out.sheets@[0].width
                        } else {
                            0
                        },
                        height: if out.sheets@.len() > 0 {
                            out.sheets@[0].height
                        } else {
                            0
                        },
                        sheets: out.sheets@.len() as usize,
                    },
                )
            },
        },
{
    match msg {
        WorkerMessage::Started => {
            state.packing = true;
            None
        },
        WorkerMessage::Progress { .. } => None,
        WorkerMessage::Failed(m) => {
            state.packing = false;
            Some(PackReport::Failed(m))
        },
        WorkerMessage::Finished(out) => {
            let crate::sheet::WorkerOutput { sheets: raw, sprite_count, alias_count, overflow_count } = *out;
            state.packing = false;
            state.sprite_count = sprite_count;
            state.alias_count = alias_count;
            state.overflow_count = overflow_count;
            state.selected_frames = Vec::new();
            state.anchor_frame = None;
            state.anim_preview_open = false;
            let ghost all = raw@;
            let (width, height) = if raw.len() > 0 {
                (raw[0].width, raw[0].height)
            } else {
                (0, 0)
            };
            let count = raw.len();
            let mut sheets: Vec<SheetData> = Vec::new();
            let mut idx: usize = 0;
            for sheet in it: raw.into_iter()
                invariant
                    it.seq() == all,
                    all.len() <= usize::MAX,
                    idx == it.index(),
                    sheets_of(all.take(idx as int), sheets@),
            {
                assert(sheet == all[idx as int]);
                let d = sheet_data(sheet, idx);
                sheets.push(d);
                assert(all.take(idx + 1).drop_last() =~= all.take(idx as int));
                assert(sheets_of(all.take(idx + 1), sheets@)) by {
                    assert forall|i: int| 0 <= i < idx + 1 implies #[trigger] all.take(idx + 1)[i]
                        == all[i] by {}
                }
                idx = idx + 1;
            }
            assert(all.take(all.len() as int) =~= all);
            state.frames = frames_by_id(&sheets);
            state.sheets = sheets;
            Some(
                PackReport::Packed {
                    sprites: sprite_count,
                    aliases: alias_count,
                    overflow: overflow_count,
                    width,
                    height,
                    sheets: count,
                },
            )
        },
    }
}

/// What a request to pack leads to.
pub enum PackRequest {
    /// A pack is running already: nothing happens.
    Busy,
    /// There are no sources: the last result and selection are cleared.
    NoSources,
    /// A pack run is to be started.
    Start,
}

/// Decides a request to pack: ignored while a pack runs; without sources
/// the last result and the selection are cleared; otherwise a run starts.
pub fn request_pack(state: &mut PackState, has_sources: bool) -> (r: PackRequest)
    ensures
        old(state).packing ==> r is Busy,
        !old(state).packing && !has_sources ==> r is NoSources,
        !old(state).packing && has_sources ==> r is Start,
        final(state).packing == old(state).packing,
        final(state).sprite_count == old(state).sprite_count,
        final(state).alias_count == old(state).alias_count,
        final(state).overflow_count == old(state).overflow_count,
        final(state).anim_preview_open == old(state).anim_preview_open,
        r is NoSources ==> {
            &&& final(state).frames@.len() == 0
            &&& final(state).sheets@.len() == 0
            &&& final(state).selected_frames@.len() == 0
            &&& final(state).anchor_frame is None
        },
        !(r is NoSources) ==> {
            &&& final(state).frames@ == old(state).frames@
            &&& final(state).sheets@ == old(state).sheets@
            &&& final(state).selected_frames@ == old(state).selected_frames@
            &&& final(state).anchor_frame == old(state).anchor_frame
        },
{
    if state.packing {
        return PackRequest::Busy;
    }
    if !has_sources {
        state.frames = Vec::new();
        state.sheets = Vec::new();
        state.selected_frames = Vec::new();
        state.anchor_frame = None;
        return PackRequest::NoSources;
    }
    PackRequest::Start
}

} // verus!
