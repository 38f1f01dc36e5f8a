use fastpack::pack_state::FrameInfo;
use fastpack::sprite_list::{build_tree, insert_frame, split_id, TreeNode};

fn frame(id: &str) -> FrameInfo {
    FrameInfo { id: id.to_string(), sheet_idx: 0, x: 0, y: 0, w: 1, h: 1, alias_of: None }
}

fn sprite(node: &TreeNode) -> (String, usize) {
    match node {
        TreeNode::Sprite { name, frame_idx } => (name.clone(), *frame_idx),
        TreeNode::Folder { name, .. } => panic!("expected a sprite row, found folder {name}"),
    }
}

fn folder(node: &TreeNode) -> (String, String, &Vec<TreeNode>) {
    match node {
        TreeNode::Folder { name, full_path, children } => (name.clone(), full_path.clone(), children),
        TreeNode::Sprite { name, .. } => panic!("expected a folder row, found sprite {name}"),
    }
}

#[test]
fn split_id_pieces() {
    assert_eq!(split_id("a/b"), vec!["a", "b"]);
    assert_eq!(split_id(""), vec![""]);
    assert_eq!(split_id("a/"), vec!["a", ""]);
    assert_eq!(split_id("/x"), vec!["", "x"]);
    assert_eq!(split_id("héros/épée"), vec!["héros", "épée"]);
}

#[test]
fn build_tree_groups_by_folder() {
    let frames = vec![frame("ui/button"), frame("ui/icons/star"), frame("hero"), frame("ui/panel")];
    let roots = build_tree(&frames);
    assert_eq!(roots.len(), 2);
    let (name, path, ui) = folder(&roots[0]);
    assert_eq!(name, "ui");
    assert_eq!(path, "ui");
    assert_eq!(ui.len(), 3);
    assert_eq!(sprite(&ui[0]), ("button".to_string(), 0));
    let (name, path, icons) = folder(&ui[1]);
    assert_eq!(name, "icons");
    assert_eq!(path, "ui/icons");
    assert_eq!(icons.len(), 1);
    assert_eq!(sprite(&icons[0]), ("star".to_string(), 1));
    assert_eq!(sprite(&ui[2]), ("panel".to_string(), 3));
    assert_eq!(sprite(&roots[1]), ("hero".to_string(), 2));
}

#[test]
fn build_tree_keeps_sprite_and_folder_of_one_name() {
    let frames = vec![frame("a"), frame("a/b")];
    let roots = build_tree(&frames);
    assert_eq!(roots.len(), 2);
    assert_eq!(sprite(&roots[0]), ("a".to_string(), 0));
    let (name, path, inner) = folder(&roots[1]);
    assert_eq!((name.as_str(), path.as_str()), ("a", "a"));
    assert_eq!(inner.len(), 1);
    assert_eq!(sprite(&inner[0]), ("b".to_string(), 1));
}

#[test]
fn build_tree_of_no_frames_is_empty() {
    assert!(build_tree(&[]).is_empty());
}

#[test]
fn insert_frame_with_no_parts_changes_nothing() {
    let mut nodes = build_tree(&[frame("x/y")]);
    insert_frame(&mut nodes, "", &[], 7);
    assert_eq!(nodes.len(), 1);
    let (_, _, inner) = folder(&nodes[0]);
    assert_eq!(inner.len(), 1);
}

#[test]
fn insert_frame_reuses_the_existing_folder() {
    let mut nodes = Vec::new();
    insert_frame(&mut nodes, "root", &["f", "one"], 0);
    insert_frame(&mut nodes, "root", &["f", "two"], 1);
    assert_eq!(nodes.len(), 1);
    let (name, path, inner) = folder(&nodes[0]);
    assert_eq!((name.as_str(), path.as_str()), ("f", "root/f"));
    assert_eq!(sprite(&inner[0]), ("one".to_string(), 0));
    assert_eq!(sprite(&inner[1]), ("two".to_string(), 1));
}
