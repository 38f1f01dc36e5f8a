use vstd::prelude::*;

use crate::pack_state::FrameInfo;

verus! {

/// One row of the sprite list: a folder of sprites or a single sprite.
pub enum TreeNode {
    /// A folder: one segment of a sprite ID, the path up to and including it,
    /// and the rows below it.
    Folder { name: String, full_path: String, children: Vec<TreeNode> },
    /// A sprite: the last segment of its ID and the index of its frame.
    Sprite { name: String, frame_idx: usize },
}

/// A tree row as a mathematical value.
pub enum NodeModel {
    Folder { name: Seq<char>, full_path: Seq<char>, children: Seq<NodeModel> },
    Sprite { name: Seq<char>, frame_idx: nat },
}

/// The value a row stands for.
pub open spec fn node_model(n: TreeNode) -> NodeModel
    decreases n,
{
    match n {
        TreeNode::Folder { name, full_path, children } => NodeModel::Folder {
            name: name@,
            full_path: full_path@,
            children: forest_model(children@),
        },
        TreeNode::Sprite { name, frame_idx } => NodeModel::Sprite {
            name: name@,
            frame_idx: frame_idx as nat,
        },
    }
}

/// The values a list of rows stands for, in order.
pub open spec fn forest_model(s: Seq<TreeNode>) -> Seq<NodeModel>
    decreases s,
{
    Seq::new(
        s.len(),
        |i: int|
            if 0 <= i < s.len() {
                node_model(s[i])
            } else {
                NodeModel::Sprite { name: Seq::empty(), frame_idx: 0 }
            },
    )
}

/// The path of a folder named `name` inside the folder at `prefix`: the two
/// joined by `/`, or `name` alone at the top.
pub open spec fn join_path(prefix: Seq<char>, name: Seq<char>) -> Seq<char> {
    if prefix.len() == 0 {
        name
    } else {
        prefix + seq!['/'] + name
    }
}

/// A sprite to be placed in the tree: the segments of its ID and its frame.
pub struct PathEntry {
    pub parts: Seq<Seq<char>>,
    pub frame_idx: nat,
}

/// The entry goes into the folder `name`: it has a folder segment, and its
/// first segment is `name`.
pub open spec fn goes_into(e: PathEntry, name: Seq<char>) -> bool {
    e.parts.len() >= 2 && e.parts[0] == name
}

/// Entry `k` is the first that goes into the folder named by its first segment.
pub open spec fn opens_folder(es: Seq<PathEntry>, k: int) -> bool {
    &&& es[k].parts.len() >= 2
    &&& forall|j: int| 0 <= j < k ==> !goes_into(#[trigger] es[j], es[k].parts[0])
}

/// The entry with its first segment taken off.
pub open spec fn entry_below(e: PathEntry) -> PathEntry {
    PathEntry { parts: e.parts.drop_first(), frame_idx: e.frame_idx }
}

/// The entries that go into the folder `name`, in order, each with that
/// first segment taken off.
pub open spec fn entries_under(es: Seq<PathEntry>, name: Seq<char>) -> Seq<PathEntry>
    decreases es.len(),
{
    if es.len() == 0 {
        Seq::empty()
    } else {
        let e = es.last();
        let before = entries_under(es.drop_last(), name);
        if goes_into(e, name) {
            before.push(entry_below(e))
        } else {
            before
        }
    }
}

/// The number of segments over all entries.
pub open spec fn segment_count(es: Seq<PathEntry>) -> nat
    decreases es.len(),
{
    if es.len() == 0 {
        0
    } else {
        segment_count(es.drop_last()) + es.last().parts.len()
    }
}

/// The entries under a folder that some entry goes into hold fewer segments.
pub proof fn lemma_entries_under_smaller(es: Seq<PathEntry>, name: Seq<char>, k: int)
    requires
        0 <= k < es.len(),
        goes_into(es[k], name),
    ensures
        segment_count(entries_under(es, name)) < segment_count(es),
    decreases es.len(),
{
    lemma_entries_under_no_larger(es.drop_last(), name);
    lemma_segment_count_push(entries_under(es.drop_last(), name), entry_below(es.last()));
    if k < es.len() - 1 {
        assert(es.drop_last()[k] == es[k]);
        lemma_entries_under_smaller(es.drop_last(), name, k);
    }
}

/// The entries under any folder hold no more segments than all entries.
pub proof fn lemma_entries_under_no_larger(es: Seq<PathEntry>, name: Seq<char>)
    ensures
        segment_count(entries_under(es, name)) <= segment_count(es),
    decreases es.len(),
{
    if es.len() > 0 {
        lemma_entries_under_no_larger(es.drop_last(), name);
        lemma_segment_count_push(entries_under(es.drop_last(), name), entry_below(es.last()));
    }
}

/// Counting the segments of a list with one more entry.
pub proof fn lemma_segment_count_push(es: Seq<PathEntry>, e: PathEntry)
    ensures
        segment_count(es.push(e)) == segment_count(es) + e.parts.len(),
{
    assert(es.push(e).drop_last() =~= es);
}

/// The rows of the tree holding the entries `es`, inside the folder at
/// `prefix`: each entry with one segment is a sprite row where it stands, and
/// each folder name is one folder row, where the first entry going into it
/// stands, holding the tree of all the entries that go into it.
pub open spec fn forest_of(es: Seq<PathEntry>, prefix: Seq<char>) -> Seq<NodeModel>
    decreases segment_count(es), es.len() + 1,
{
    rows_of(es, es.len() as int, prefix)
}

/// The rows that the first `k` entries of `es` contribute (see `forest_of`).
pub open spec fn rows_of(es: Seq<PathEntry>, k: int, prefix: Seq<char>) -> Seq<NodeModel>
    decreases segment_count(es), k,
{
    if k <= 0 || k > es.len() {
        Seq::empty()
    } else {
        let e = es[k - 1];
        let before = rows_of(es, k - 1, prefix);
        if e.parts.len() == 1 {
            before.push(NodeModel::Sprite { name: e.parts[0], frame_idx: e.frame_idx })
        } else if opens_folder(es, k - 1) {
            let name = e.parts[0];
            let path = join_path(prefix, name);
            proof {
                lemma_entries_under_smaller(es, name, k - 1);
            }
            before.push(
                NodeModel::Folder {
                    name,
                    full_path: path,
                    children: forest_of(entries_under(es, name), path),
                },
            )
        } else {
            before
        }
    }
}

/// The row is a folder named `name`.
pub open spec fn is_folder_named(m: NodeModel, name: Seq<char>) -> bool {
    m matches NodeModel::Folder { name: n, .. } && n == name
}

/// Where the first folder row named `name` stands, if there is one.
pub open spec fn folder_position(rows: Seq<NodeModel>, name: Seq<char>) -> Option<int> {
    if exists|i: int| 0 <= i < rows.len() && is_folder_named(#[trigger] rows[i], name) {
        Some(
            choose|i: int|
                0 <= i < rows.len() && is_folder_named(#[trigger] rows[i], name) && forall|j: int|
                    0 <= j < i ==> !is_folder_named(#[trigger] rows[j], name),
        )
    } else {
        None
    }
}

/// When some row is a folder named `name`, `folder_position` finds the first.
pub proof fn lemma_folder_position(rows: Seq<NodeModel>, name: Seq<char>)
    requires
        exists|i: int| 0 <= i < rows.len() && is_folder_named(#[trigger] rows[i], name),
    ensures
        folder_position(rows, name) matches Some(i) && 0 <= i < rows.len() && is_folder_named(
            rows[i],
            name,
        ) && forall|j: int| 0 <= j < i ==> !is_folder_named(#[trigger] rows[j], name),
    decreases rows.len(),
{
    let init = rows.drop_last();
    if exists|i: int| 0 <= i < init.len() && is_folder_named(#[trigger] init[i], name) {
        lemma_folder_position(init, name);
        let i = folder_position(init, name)->0;
        assert(forall|j: int| 0 <= j < init.len() ==> init[j] == rows[j]);
        assert(is_folder_named(rows[i], name));
    } else {
        let last = rows.len() - 1;
        assert forall|j: int| 0 <= j < last implies !is_folder_named(#[trigger] rows[j], name) by {
            assert(init[j] == rows[j]);
        }
        assert(is_folder_named(rows[last], name)) by {
            let i = choose|i: int| 0 <= i < rows.len() && is_folder_named(#[trigger] rows[i], name);
            if i < last {
                assert(init[i] == rows[i]);
            }
        }
    }
}

/// The rows `rows` of the folder at `prefix` after the sprite with ID
/// segments `parts` and frame `frame_idx` is put in: a single segment is a
/// new sprite row at the end; otherwise the first segment names a folder,
/// the first row of that name if there is one, else a new folder row at the
/// end, and the other segments go into that folder. An empty list of
/// segments changes nothing.
pub open spec fn insert_model(
    rows: Seq<NodeModel>,
    prefix: Seq<char>,
    parts: Seq<Seq<char>>,
    frame_idx: nat,
) -> Seq<NodeModel>
    decreases parts.len(),
{
    if parts.len() == 0 {
        rows
    } else if parts.len() == 1 {
        rows.push(NodeModel::Sprite { name: parts[0], frame_idx })
    } else {
        let name = parts[0];
        let path = join_path(prefix, name);
        match folder_position(rows, name) {
            Some(i) => match rows[i] {
                NodeModel::Folder { name: n, full_path, children } => rows.update(
                    i,
                    NodeModel::Folder {
                        name: n,
                        full_path,
                        children: insert_model(children, path, parts.drop_first(), frame_idx),
                    },
                ),
                NodeModel::Sprite { .. } => rows,
            },
            None => rows.push(
                NodeModel::Folder {
                    name,
                    full_path: path,
                    children: insert_model(Seq::empty(), path, parts.drop_first(), frame_idx),
                },
            ),
        }
    }
}

/// The text of each segment.
pub open spec fn segments(parts: Seq<&str>) -> Seq<Seq<char>> {
    parts.map_values(|p: &str| p@)
}

/// `prefix`, `/` and `name`, as a new string.
fn joined(prefix: &str, name: &str) -> (r: String)
    ensures
        r@ == prefix@ + seq!['/'] + name@,
{
    let mut s = String::from_str(prefix);
    s.append("/");
    proof {
        reveal_strlit("/");
    }
    s.append(name);
    s
}

/// Puts the sprite with ID segments `parts` and frame `frame_idx` into the
/// rows `nodes` of the folder at `path_prefix` (see `insert_model`).
pub fn insert_frame(nodes: &mut Vec<TreeNode>, path_prefix: &str, parts: &[&str], frame_idx: usize)
    ensures
        forest_model(final(nodes)@) == insert_model(
            forest_model(old(nodes)@),
            path_prefix@,
            segments(parts@),
            frame_idx as nat,
        ),
    decreases parts@.len(),
{
    let ghost rows = forest_model(nodes@);
    let ghost segs = segments(parts@);
    if parts.len() == 0 {
        return;
    }
    if parts.len() == 1 {
        nodes.push(TreeNode::Sprite { name: parts[0].to_owned(), frame_idx });
        assert(forest_model(nodes@) =~= rows.push(
            NodeModel::Sprite { name: segs[0], frame_idx: frame_idx as nat },
        ));
        return;
    }
    let folder_name = parts[0];
    let full_path = if path_prefix.is_empty() {
        folder_name.to_owned()
    } else {
        joined(path_prefix, folder_name)
    };
    assert(full_path@ == join_path(path_prefix@, segs[0]));
    let key = folder_name.to_owned();
    let mut pos: Option<usize> = None;
    let mut i: usize = 0;
    while i < nodes.len()
        invariant_except_break
            pos is None,
        invariant
            i <= nodes@.len(),
            rows == forest_model(nodes@),
            forall|j: int| 0 <= j < i ==> !is_folder_named(#[trigger] rows[j], key@),
        ensures
            match pos {
                Some(p) => p < nodes@.len() && p == i && is_folder_named(rows[p as int], key@),
                None => i == nodes@.len(),
            },
        decreases nodes@.len() - i,
    {
        let found = match &nodes[i] {
            TreeNode::Folder { name, .. } => *name == key,
            TreeNode::Sprite { .. } => false,
        };
        assert(rows[i as int] == node_model(nodes@[i as int]));
        if found {
            pos = Some(i);
            break;
        }
        i = i + 1;
    }
    let rest = vstd::slice::slice_subrange(parts, 1, parts.len());
    assert(segments(rest@) =~= segs.drop_first());
    match pos {
        Some(p) => {
            assert(folder_position(rows, segs[0]) == Some(p as int));
            let ghost before = nodes@;
            assert(rows[p as int] == node_model(before[p as int]));
            if let TreeNode::Folder { children, .. } = &mut nodes[p] {
                insert_frame(children, full_path.as_str(), rest, frame_idx);
            }
            proof {
                if let TreeNode::Folder { children: c0, .. } = before[p as int] {
                    let want = rows.update(
                        p as int,
                        with_children(
                            rows[p as int],
                            insert_model(forest_model(c0@), full_path@, segs.drop_first(), frame_idx as nat),
                        ),
                    );
                    assert forall|j: int| 0 <= j < rows.len() implies forest_model(nodes@)[j] == want[j] by {
                        assert(rows[j] == node_model(before[j]));
                    }
                    assert(forest_model(nodes@) =~= want);
                }
            }
        },
        None => {
            assert(folder_position(rows, segs[0]) is None);
            let mut children: Vec<TreeNode> = Vec::new();
            assert(forest_model(children@) =~= Seq::<NodeModel>::empty());
            insert_frame(&mut children, full_path.as_str(), rest, frame_idx);
            let ghost folder = NodeModel::Folder {
                name: segs[0],
                full_path: full_path@,
                children: forest_model(children@),
            };
            let ghost before = nodes@;
            nodes.push(TreeNode::Folder { name: key, full_path, children });
            assert(forest_model(nodes@) =~= rows.push(folder)) by {
                assert(forall|j: int| 0 <= j < before.len() ==> nodes@[j] == before[j]);
            }
        },
    }
}

/// The folder row named `name` of the tree holding the entries `es` inside the
/// folder at `prefix`.
pub open spec fn folder_row(es: Seq<PathEntry>, prefix: Seq<char>, name: Seq<char>) -> NodeModel {
    NodeModel::Folder {
        name,
        full_path: join_path(prefix, name),
        children: forest_of(entries_under(es, name), join_path(prefix, name)),
    }
}

/// The folder row `m` holding the rows `children` instead of its own.
pub open spec fn with_children(m: NodeModel, children: Seq<NodeModel>) -> NodeModel {
    match m {
        NodeModel::Folder { name, full_path, .. } => NodeModel::Folder { name, full_path, children },
        NodeModel::Sprite { .. } => m,
    }
}

/// The rows with every folder row named `name` given the rows `children`.
pub open spec fn replace_children(
    rows: Seq<NodeModel>,
    name: Seq<char>,
    children: Seq<NodeModel>,
) -> Seq<NodeModel> {
    Seq::new(
        rows.len(),
        |i: int|
            if is_folder_named(rows[i], name) {
                with_children(rows[i], children)
            } else {
                rows[i]
            },
    )
}

/// Adding an entry adds it to the entries under the folder it goes into.
pub proof fn lemma_entries_under_push(es: Seq<PathEntry>, e: PathEntry, name: Seq<char>)
    ensures
        entries_under(es.push(e), name) == (if goes_into(e, name) {
            entries_under(es, name).push(entry_below(e))
        } else {
            entries_under(es, name)
        }),
{
    assert(es.push(e).drop_last() =~= es);
}

/// No entry goes into `name`: nothing is under it.
pub proof fn lemma_entries_under_none(es: Seq<PathEntry>, name: Seq<char>)
    requires
        forall|j: int| 0 <= j < es.len() ==> !goes_into(#[trigger] es[j], name),
    ensures
        entries_under(es, name) == Seq::<PathEntry>::empty(),
    decreases es.len(),
{
    if es.len() > 0 {
        assert(forall|j: int| 0 <= j < es.len() - 1 ==> es.drop_last()[j] == es[j]);
        lemma_entries_under_none(es.drop_last(), name);
    }
}

/// The first `k` entries contribute the rows they contributed before one more
/// entry came, if that entry goes into no folder.
pub proof fn lemma_rows_of_push_leaf(es: Seq<PathEntry>, e: PathEntry, k: int, prefix: Seq<char>)
    requires
        e.parts.len() < 2,
        0 <= k <= es.len(),
    ensures
        rows_of(es.push(e), k, prefix) == rows_of(es, k, prefix),
    decreases k,
{
    if k > 0 {
        let es2 = es.push(e);
        lemma_rows_of_push_leaf(es, e, k - 1, prefix);
        assert(es2[k - 1] == es[k - 1]);
        assert(opens_folder(es2, k - 1) == opens_folder(es, k - 1)) by {
            assert(forall|j: int| 0 <= j < k - 1 ==> es2[j] == es[j]);
        }
        lemma_entries_under_push(es, e, es[k - 1].parts[0]);
    }
}

/// The first `k` entries contribute the rows they contributed before one more
/// entry came, with the folder that entry goes into holding it too.
pub proof fn lemma_rows_of_push_folder(es: Seq<PathEntry>, e: PathEntry, k: int, prefix: Seq<char>)
    requires
        e.parts.len() >= 2,
        0 <= k <= es.len(),
    ensures
        rows_of(es.push(e), k, prefix) == replace_children(
            rows_of(es, k, prefix),
            e.parts[0],
            forest_of(entries_under(es.push(e), e.parts[0]), join_path(prefix, e.parts[0])),
        ),
    decreases k,
{
    let es2 = es.push(e);
    let n = e.parts[0];
    let c = forest_of(entries_under(es2, n), join_path(prefix, n));
    if k == 0 {
        assert(replace_children(rows_of(es, k, prefix), n, c) =~= Seq::<NodeModel>::empty());
    } else {
        lemma_rows_of_push_folder(es, e, k - 1, prefix);
        assert(es2[k - 1] == es[k - 1]);
        assert(opens_folder(es2, k - 1) == opens_folder(es, k - 1)) by {
            assert(forall|j: int| 0 <= j < k - 1 ==> es2[j] == es[j]);
        }
        let m = es[k - 1].parts[0];
        lemma_entries_under_push(es, e, m);
        let before = rows_of(es, k - 1, prefix);
        let now = rows_of(es, k, prefix);
        assert(replace_children(now, n, c) =~= rows_of(es2, k, prefix));
    }
}

/// Some entry among the first `k` goes into the folder `name`.
pub open spec fn some_goes_into(es: Seq<PathEntry>, k: int, name: Seq<char>) -> bool {
    exists|j: int| 0 <= j < k && goes_into(#[trigger] es[j], name)
}

/// The folder rows that the first `k` entries contribute: a folder row named
/// `name` is there exactly when one of those entries goes into `name`; there
/// is at most one; and it holds the tree of all the entries under `name`.
pub proof fn lemma_rows_of_folders(es: Seq<PathEntry>, k: int, prefix: Seq<char>, name: Seq<char>)
    requires
        0 <= k <= es.len(),
    ensures
        forall|i: int|
            0 <= i < rows_of(es, k, prefix).len() && is_folder_named(
                #[trigger] rows_of(es, k, prefix)[i],
                name,
            ) ==> rows_of(es, k, prefix)[i] == folder_row(es, prefix, name),
        forall|i: int, i2: int|
            0 <= i < i2 < rows_of(es, k, prefix).len() && is_folder_named(
                #[trigger] rows_of(es, k, prefix)[i],
                name,
            ) ==> !is_folder_named(#[trigger] rows_of(es, k, prefix)[i2], name),
        some_goes_into(es, k, name) <==> (exists|i: int|
            0 <= i < rows_of(es, k, prefix).len() && is_folder_named(
                #[trigger] rows_of(es, k, prefix)[i],
                name,
            )),
    decreases k,
{
    if k > 0 {
        lemma_rows_of_folders(es, k - 1, prefix, name);
        let before = rows_of(es, k - 1, prefix);
        let now = rows_of(es, k, prefix);
        let e = es[k - 1];
        let b = before.len() as int;
        if some_goes_into(es, k - 1, name) {
            let j = choose|j: int| 0 <= j < k - 1 && goes_into(#[trigger] es[j], name);
            assert(goes_into(es[j], name));
        }
        assert(forall|i: int| 0 <= i < b ==> now[i] == before[i]);
        if exists|i: int| 0 <= i < b && is_folder_named(#[trigger] before[i], name) {
            let i = choose|i: int| 0 <= i < b && is_folder_named(#[trigger] before[i], name);
            assert(is_folder_named(now[i], name));
        }
        if exists|i: int| 0 <= i < now.len() && is_folder_named(#[trigger] now[i], name) {
            let i = choose|i: int| 0 <= i < now.len() && is_folder_named(#[trigger] now[i], name);
            if i < b {
                assert(is_folder_named(before[i], name));
            }
        }
        if e.parts.len() == 1 {
            assert(now == before.push(NodeModel::Sprite { name: e.parts[0], frame_idx: e.frame_idx }));
            assert(!goes_into(es[k - 1], name));
            assert(some_goes_into(es, k, name) == some_goes_into(es, k - 1, name));
        } else if opens_folder(es, k - 1) {
            let m = e.parts[0];
            assert(now == before.push(folder_row(es, prefix, m)));
            assert(goes_into(es[k - 1], m));
            if m == name {
                assert(some_goes_into(es, k, name));
                assert(!some_goes_into(es, k - 1, name));
                assert(is_folder_named(now[b], name));
            } else {
                assert(!is_folder_named(now[b], name));
                assert(some_goes_into(es, k, name) == some_goes_into(es, k - 1, name));
            }
        } else {
            assert(now == before);
            if goes_into(e, name) {
                let j = choose|j: int| 0 <= j < k - 1 && goes_into(#[trigger] es[j], e.parts[0]);
                assert(some_goes_into(es, k - 1, name));
            }
            assert(some_goes_into(es, k, name) == some_goes_into(es, k - 1, name));
        }
    }
}

/// With no folder row named `name`, giving such rows other children changes nothing.
pub proof fn lemma_replace_children_absent(rows: Seq<NodeModel>, name: Seq<char>, c: Seq<NodeModel>)
    requires
        forall|i: int| 0 <= i < rows.len() ==> !is_folder_named(#[trigger] rows[i], name),
    ensures
        replace_children(rows, name, c) == rows,
{
    assert(replace_children(rows, name, c) =~= rows);
}

/// With one folder row named `name`, at `i`, giving such rows other children
/// changes that row alone.
pub proof fn lemma_replace_children_single(rows: Seq<NodeModel>, name: Seq<char>, c: Seq<NodeModel>, i: int)
    requires
        0 <= i < rows.len(),
        is_folder_named(rows[i], name),
        forall|j: int| 0 <= j < rows.len() && j != i ==> !is_folder_named(#[trigger] rows[j], name),
    ensures
        replace_children(rows, name, c) == rows.update(i, with_children(rows[i], c)),
{
    assert(replace_children(rows, name, c) =~= rows.update(i, with_children(rows[i], c)));
}

/// Putting one more sprite into the tree of `es` gives the tree of `es` with
/// that sprite's entry added: building the tree one sprite at a time yields
/// the rows that `forest_of` describes.
pub proof fn lemma_insert_builds_forest(es: Seq<PathEntry>, prefix: Seq<char>, e: PathEntry)
    ensures
        insert_model(forest_of(es, prefix), prefix, e.parts, e.frame_idx) == forest_of(
            es.push(e),
            prefix,
        ),
    decreases e.parts.len(),
{
    let es2 = es.push(e);
    let k = es.len() as int;
    let rows = forest_of(es, prefix);
    assert(es2[k] == e);
    if e.parts.len() < 2 {
        lemma_rows_of_push_leaf(es, e, k, prefix);
    } else {
        let name = e.parts[0];
        let path = join_path(prefix, name);
        let below = entry_below(e);
        let c = forest_of(entries_under(es2, name), path);
        lemma_rows_of_push_folder(es, e, k, prefix);
        lemma_entries_under_push(es, e, name);
        lemma_rows_of_folders(es, k, prefix, name);
        assert(goes_into(e, name));
        if some_goes_into(es, k, name) {
            let j = choose|j: int| 0 <= j < k && goes_into(#[trigger] es[j], name);
            assert(es2[j] == es[j]);
            assert(!opens_folder(es2, k));
            let i = choose|i: int| 0 <= i < rows.len() && is_folder_named(#[trigger] rows[i], name);
            assert(folder_position(rows, name) == Some(i)) by {
                assert(forall|j: int| 0 <= j < i ==> !is_folder_named(#[trigger] rows[j], name));
                let f = choose|f: int|
                    0 <= f < rows.len() && is_folder_named(#[trigger] rows[f], name) && forall|j: int|
                        0 <= j < f ==> !is_folder_named(#[trigger] rows[j], name);
                assert(f == i);
            }
            lemma_replace_children_single(rows, name, c, i);
            lemma_insert_builds_forest(entries_under(es, name), path, below);
            assert(rows[i] == folder_row(es, prefix, name));
        } else {
            assert(opens_folder(es2, k)) by {
                assert forall|j: int| 0 <= j < k implies !goes_into(#[trigger] es2[j], name) by {
                    assert(es2[j] == es[j]);
                }
            }
            lemma_replace_children_absent(rows, name, c);
            assert(folder_position(rows, name) is None);
            lemma_entries_under_none(es, name);
            lemma_insert_builds_forest(Seq::empty(), path, below);
            assert(Seq::<PathEntry>::empty().push(below) =~= entries_under(es2, name));
            assert(forest_of(Seq::<PathEntry>::empty(), path) =~= Seq::<NodeModel>::empty());
        }
    }
}

/// The pieces of `s` between `/` characters, in order, as splitting at every
/// `/` gives them (one empty piece for an empty string).
pub open spec fn split_slash(s: Seq<char>) -> Seq<Seq<char>>
    decreases s.len(),
{
    if s.len() == 0 {
        seq![Seq::empty()]
    } else {
        let p = split_slash(s.drop_last());
        if s.last() == '/' {
            p.push(Seq::empty())
        } else {
            p.update(p.len() - 1, p.last().push(s.last()))
        }
    }
}

/// There is always a last piece.
pub proof fn lemma_split_slash_nonempty(s: Seq<char>)
    ensures
        split_slash(s).len() >= 1,
    decreases s.len(),
{
    if s.len() > 0 {
        lemma_split_slash_nonempty(s.drop_last());
    }
}

/// The pieces of `id` between `/` characters.
pub fn split_id(id: &str) -> (r: Vec<&str>)
    ensures
        segments(r@) == split_slash(id@),
{
    let n = id.unicode_len();
    let mut parts: Vec<&str> = Vec::new();
    let mut start: usize = 0;
    let mut i: usize = 0;
    assert(id@.take(0) =~= Seq::<char>::empty());
    assert(segments(parts@).push(id@.subrange(0, 0)) =~= split_slash(id@.take(0)));
    while i < n
        invariant
            n == id@.len(),
            start <= i <= n,
            segments(parts@).push(id@.subrange(start as int, i as int)) == split_slash(
                id@.take(i as int),
            ),
        decreases n - i,
    {
        let c = id.get_char(i);
        let ghost before = segments(parts@).push(id@.subrange(start as int, i as int));
        assert(id@.take(i + 1).drop_last() =~= id@.take(i as int));
        assert(id@.take(i + 1).last() == c);
        proof {
            lemma_split_slash_nonempty(id@.take(i as int));
        }
        let ghost segs = segments(parts@);
        let ghost piece = id@.subrange(start as int, i as int);
        assert(id@[i as int] == c);
        if c == '/' {
            parts.push(id.substring_char(start, i));
            assert(segments(parts@) =~= segs.push(piece));
            start = i + 1;
            assert(id@.subrange(start as int, i + 1) =~= Seq::<char>::empty());
            assert(segments(parts@).push(id@.subrange(start as int, i + 1)) =~= before.push(
                Seq::empty(),
            ));
        } else {
            assert(id@.subrange(start as int, i + 1) =~= piece.push(c));
            assert(segments(parts@).push(id@.subrange(start as int, i + 1)) =~= before.update(
                before.len() - 1,
                before.last().push(c),
            ));
        }
        i = i + 1;
    }
    let ghost segs = segments(parts@);
    parts.push(id.substring_char(start, n));
    assert(segments(parts@) =~= segs.push(id@.subrange(start as int, n as int)));
    assert(id@.take(n as int) =~= id@);
    assert(segments(parts@) =~= split_slash(id@));
    parts
}

/// The entries for a list of frames: the pieces of each frame's ID between
/// `/` characters, and the frame's index.
pub open spec fn frame_entries(frames: Seq<FrameInfo>) -> Seq<PathEntry> {
    Seq::new(
        frames.len(),
        |i: int| PathEntry { parts: split_slash(frames[i].id@), frame_idx: i as nat },
    )
}

/// The sprite list tree of the frames: each `/` in a frame's ID opens a
/// folder level (see `forest_of`).
pub fn build_tree(frames: &[FrameInfo]) -> (r: Vec<TreeNode>)
    ensures
        forest_model(r@) == forest_of(frame_entries(frames@), Seq::empty()),
        forall|f: nat|
            frame_count(forest_model(r@), f) == if f < frames@.len() {
                1nat
            } else {
                0nat
            },
{
    let ghost es = frame_entries(frames@);
    let mut roots: Vec<TreeNode> = Vec::new();
    assert(es.take(0) =~= Seq::<PathEntry>::empty());
    assert(forest_model(roots@) =~= forest_of(es.take(0), Seq::empty()));
    let mut i: usize = 0;
    while i < frames.len()
        invariant
            i <= frames@.len(),
            es == frame_entries(frames@),
            forest_model(roots@) == forest_of(es.take(i as int), Seq::empty()),
            forall|f: nat|
                frame_count(forest_model(roots@), f) == if f < i {
                    1nat
                } else {
                    0nat
                },
        decreases frames@.len() - i,
    {
        let parts = split_id(frames[i].id.as_str());
        let ghost before = forest_model(roots@);
        insert_frame(&mut roots, "", parts.as_slice(), i);
        proof {
            reveal_strlit("");
            lemma_insert_builds_forest(es.take(i as int), Seq::empty(), es[i as int]);
            assert(es.take(i as int).push(es[i as int]) =~= es.take(i + 1));
            lemma_split_slash_nonempty(frames@[i as int].id@);
            assert forall|f: nat|
                frame_count(forest_model(roots@), f) == if f < i + 1 {
                    1nat
                } else {
                    0nat
                } by {
                lemma_insert_counts(before, Seq::empty(), segments(parts@), i as nat, f);
            }
        }
        i = i + 1;
    }
    assert(es.take(frames@.len() as int) =~= es);
    roots
}

/// How many sprite rows inside the row `m`, at any depth, show frame `f`.
pub open spec fn node_frame_count(m: NodeModel, f: nat) -> nat
    decreases m,
{
    match m {
        NodeModel::Sprite { frame_idx, .. } => if frame_idx == f {
            1
        } else {
            0
        },
        NodeModel::Folder { children, .. } => frame_count(children, f),
    }
}

/// How many sprite rows among `rows`, at any depth, show frame `f`.
pub open spec fn frame_count(rows: Seq<NodeModel>, f: nat) -> nat
    decreases rows,
{
    if rows.len() == 0 {
        0
    } else {
        frame_count(rows.drop_last(), f) + node_frame_count(rows.last(), f)
    }
}

/// How many entries with at least one segment are for frame `f`.
pub open spec fn entry_count(es: Seq<PathEntry>, f: nat) -> nat
    decreases es.len(),
{
    if es.len() == 0 {
        0
    } else {
        entry_count(es.drop_last(), f) + if es.last().parts.len() >= 1 && es.last().frame_idx == f {
            1nat
        } else {
            0nat
        }
    }
}

/// Counting frames over one more row.
pub proof fn lemma_frame_count_push(rows: Seq<NodeModel>, m: NodeModel, f: nat)
    ensures
        frame_count(rows.push(m), f) == frame_count(rows, f) + node_frame_count(m, f),
{
    assert(rows.push(m).drop_last() =~= rows);
}

/// Counting frames after one row is replaced.
pub proof fn lemma_frame_count_update(rows: Seq<NodeModel>, i: int, m: NodeModel, f: nat)
    requires
        0 <= i < rows.len(),
    ensures
        frame_count(rows.update(i, m), f) + node_frame_count(rows[i], f) == frame_count(rows, f)
            + node_frame_count(m, f),
    decreases rows.len(),
{
    let r2 = rows.update(i, m);
    if i == rows.len() - 1 {
        assert(r2.drop_last() =~= rows.drop_last());
    } else {
        lemma_frame_count_update(rows.drop_last(), i, m, f);
        assert(r2.drop_last() =~= rows.drop_last().update(i, m));
    }
}

/// Putting a sprite in adds one row for its frame, at whatever depth, when
/// it has at least one segment.
pub proof fn lemma_insert_counts(rows: Seq<NodeModel>, prefix: Seq<char>, parts: Seq<Seq<char>>, frame_idx: nat, f: nat)
    ensures
        frame_count(insert_model(rows, prefix, parts, frame_idx), f) == frame_count(rows, f) + if parts.len()
            >= 1 && frame_idx == f {
            1nat
        } else {
            0nat
        },
    decreases parts.len(),
{
    if parts.len() == 1 {
        lemma_frame_count_push(rows, NodeModel::Sprite { name: parts[0], frame_idx }, f);
    } else if parts.len() >= 2 {
        let name = parts[0];
        let path = join_path(prefix, name);
        match folder_position(rows, name) {
            Some(i) => {
                lemma_folder_position(rows, name);
                if let NodeModel::Folder { name: n, full_path, children } = rows[i] {
                    lemma_insert_counts(children, path, parts.drop_first(), frame_idx, f);
                    lemma_frame_count_update(
                        rows,
                        i,
                        NodeModel::Folder {
                            name: n,
                            full_path,
                            children: insert_model(children, path, parts.drop_first(), frame_idx),
                        },
                        f,
                    );
                }
            },
            None => {
                lemma_insert_counts(Seq::empty(), path, parts.drop_first(), frame_idx, f);
                let c = insert_model(Seq::<NodeModel>::empty(), path, parts.drop_first(), frame_idx);
                lemma_frame_count_push(
                    rows,
                    NodeModel::Folder { name, full_path: path, children: c },
                    f,
                );
            },
        }
    }
}

/// The tree of the entries `es` shows each frame in as many sprite rows as
/// there are entries, with at least one segment, for it.
pub proof fn lemma_forest_counts(es: Seq<PathEntry>, prefix: Seq<char>, f: nat)
    ensures
        frame_count(forest_of(es, prefix), f) == entry_count(es, f),
    decreases es.len(),
{
    if es.len() == 0 {
        assert(forest_of(es, prefix) =~= Seq::<NodeModel>::empty());
    } else {
        let init = es.drop_last();
        lemma_forest_counts(init, prefix, f);
        lemma_insert_builds_forest(init, prefix, es.last());
        assert(init.push(es.last()) =~= es);
        lemma_insert_counts(forest_of(init, prefix), prefix, es.last().parts, es.last().frame_idx, f);
    }
}

} // verus!
