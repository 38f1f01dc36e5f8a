use fastpack::pack_state::{
    apply_worker_message, frames_by_id, request_pack, sheet_data, sort_by_id, FrameInfo, PackReport, PackRequest,
    PackState, SheetData,
};
use fastpack::sheet::{SheetOutput, WorkerMessage, WorkerOutput};
use fastpack::text::str_le;

fn raw_frame(id: &str, x: u32) -> fastpack::sheet::FrameInfo {
    fastpack::sheet::FrameInfo { id: id.to_string(), x, y: 0, w: 2, h: 3, alias_of: None }
}

fn frame(id: &str, sheet_idx: usize) -> FrameInfo {
    FrameInfo { id: id.to_string(), sheet_idx, x: 0, y: 0, w: 1, h: 1, alias_of: None }
}

fn sheet(width: u32, height: u32, ids: &[&str]) -> SheetOutput {
    SheetOutput {
        rgba: vec![0; (width * height * 4) as usize],
        width,
        height,
        frames: ids.iter().enumerate().map(|(i, id)| raw_frame(id, i as u32)).collect(),
        atlas_frames: Vec::new(),
    }
}

fn empty_state() -> PackState {
    PackState {
        packing: false,
        sheets: Vec::new(),
        frames: Vec::new(),
        sprite_count: 0,
        alias_count: 0,
        overflow_count: 0,
        selected_frames: Vec::new(),
        anchor_frame: None,
        anim_preview_open: false,
    }
}

fn ids(frames: &[FrameInfo]) -> Vec<(String, usize)> {
    frames.iter().map(|f| (f.id.clone(), f.sheet_idx)).collect()
}

#[test]
fn str_le_is_byte_order() {
    assert!(str_le("abc", "abd"));
    assert!(str_le("ab", "abc"));
    assert!(!str_le("abc", "ab"));
    assert!(str_le("", ""));
    assert!(str_le("Z", "a"));
    assert!(!str_le("é", "z"));
}

#[test]
fn sort_by_id_orders_frames() {
    let sorted = sort_by_id(vec![frame("walk_2", 0), frame("idle", 1), frame("walk_10", 0), frame("attack", 2)]);
    assert_eq!(
        ids(&sorted),
        vec![("attack".to_string(), 2), ("idle".to_string(), 1), ("walk_10".to_string(), 0), ("walk_2".to_string(), 0)]
    );
}

#[test]
fn sheet_data_tags_frames_with_their_sheet() {
    let d = sheet_data(sheet(4, 2, &["a", "b"]), 3);
    assert_eq!((d.width, d.height, d.rgba.len()), (4, 2, 32));
    assert_eq!(ids(&d.frames), vec![("a".to_string(), 3), ("b".to_string(), 3)]);
    assert_eq!(d.frames[1].x, 1);
}

#[test]
fn frames_by_id_merges_sheets() {
    let sheets: Vec<SheetData> = vec![sheet_data(sheet(2, 2, &["m", "c"]), 0), sheet_data(sheet(2, 2, &["a"]), 1)];
    let frames = frames_by_id(&sheets);
    assert_eq!(ids(&frames), vec![("a".to_string(), 1), ("c".to_string(), 0), ("m".to_string(), 0)]);
}

#[test]
fn worker_messages_update_state() {
    let mut st = empty_state();
    st.selected_frames = vec![0];
    st.anchor_frame = Some(0);
    st.anim_preview_open = true;
    assert!(apply_worker_message(&mut st, WorkerMessage::Started).is_none());
    assert!(st.packing);
    assert!(apply_worker_message(&mut st, WorkerMessage::Progress { done: 1, total: 2 }).is_none());
    assert!(st.packing);
    let out = WorkerOutput {
        sheets: vec![sheet(8, 4, &["b", "a"]), sheet(2, 2, &["c"])],
        sprite_count: 3,
        alias_count: 1,
        overflow_count: 0,
    };
    let report = apply_worker_message(&mut st, WorkerMessage::Finished(Box::new(out)));
    match report {
        Some(PackReport::Packed { sprites, aliases, overflow, width, height, sheets }) => {
            assert_eq!((sprites, aliases, overflow, width, height, sheets), (3, 1, 0, 8, 4, 2));
        }
        _ => panic!("expected a pack report"),
    }
    assert!(!st.packing);
    assert_eq!(st.sheets.len(), 2);
    assert_eq!(ids(&st.frames), vec![("a".to_string(), 0), ("b".to_string(), 0), ("c".to_string(), 1)]);
    assert!(st.selected_frames.is_empty());
    assert_eq!(st.anchor_frame, None);
    assert!(!st.anim_preview_open);
    assert_eq!((st.sprite_count, st.alias_count, st.overflow_count), (3, 1, 0));
}

#[test]
fn finished_run_without_sheets_reports_zero_size() {
    let mut st = empty_state();
    let out = WorkerOutput { sheets: Vec::new(), sprite_count: 0, alias_count: 0, overflow_count: 0 };
    match apply_worker_message(&mut st, WorkerMessage::Finished(Box::new(out))) {
        Some(PackReport::Packed { width, height, sheets, .. }) => assert_eq!((width, height, sheets), (0, 0, 0)),
        _ => panic!("expected a pack report"),
    }
}

#[test]
fn failed_run_keeps_last_result() {
    let mut st = empty_state();
    st.packing = true;
    st.frames = vec![frame("keep", 0)];
    match apply_worker_message(&mut st, WorkerMessage::Failed("boom".to_string())) {
        Some(PackReport::Failed(m)) => assert_eq!(m, "boom"),
        _ => panic!("expected a failure report"),
    }
    assert!(!st.packing);
    assert_eq!(ids(&st.frames), vec![("keep".to_string(), 0)]);
}

#[test]
fn pack_requests() {
    let mut st = empty_state();
    st.frames = vec![frame("x", 0)];
    st.selected_frames = vec![0];
    st.packing = true;
    assert!(matches!(request_pack(&mut st, false), PackRequest::Busy));
    assert_eq!(st.frames.len(), 1);
    st.packing = false;
    assert!(matches!(request_pack(&mut st, true), PackRequest::Start));
    assert_eq!(st.frames.len(), 1);
    assert!(matches!(request_pack(&mut st, false), PackRequest::NoSources));
    assert!(st.frames.is_empty());
    assert!(st.selected_frames.is_empty());
}
