//! The right pane of the tree views: the diff of a file or of a hunk, or what is in
//! a directory.

use vstd::prelude::*;

use crate::text;
use crate::text::decimal_of;
use crate::tree::{
    find_in, id_of, node_within, shape_children, shapes, tree_within, Marks, NodeKind, Shape,
    TreeModel,
};
use crate::tree_laws::tidy_within;
use crate::ui::paint::{line_views, Line, SpanView};
use crate::ui::rows::{node_line, row_of};
use crate::vcs::{Snapshot, SnapshotView};

verus! {

/// What the pane shows.
#[derive(Debug)]
pub enum Detail {
    /// Nothing.
    Blank,
    /// A diff of the file at `path`; `key` tells it from every other.
    Diff { key: String, path: String, text: String },
    /// The rows of a directory.
    Rows(Vec<Line>),
}

/// What the pane shows, as a mathematical value.
pub enum DetailView {
    Blank,
    Diff { key: Seq<char>, path: Seq<char>, text: Seq<char> },
    Rows(Seq<Seq<SpanView>>),
}

impl View for Detail {
    type V = DetailView;

    open spec fn view(&self) -> DetailView {
        match self {
            Detail::Blank => DetailView::Blank,
            Detail::Diff { key, path, text } => DetailView::Diff {
                key: key@,
                path: path@,
                text: text@,
            },
            Detail::Rows(lines) => DetailView::Rows(line_views(lines@)),
        }
    }
}

/// The diff of a file; empty if there is none.
pub open spec fn diff_text(s: SnapshotView, path: Seq<char>) -> Seq<char> {
    if s.diffs.contains_key(path) {
        s.diffs[path]
    } else {
        seq![]
    }
}

/// How many hunks are known of a file.
pub open spec fn hunk_count(s: SnapshotView, path: Seq<char>) -> nat {
    if s.hunks.contains_key(path) {
        s.hunks[path].len()
    } else {
        0
    }
}

/// The text of a hunk; empty if there is none.
pub open spec fn hunk_body(s: SnapshotView, path: Seq<char>, k: int) -> Seq<char> {
    if 0 <= k < hunk_count(s, path) {
        s.hunks[path][k].text
    } else {
        seq![]
    }
}

/// The title and the content of the pane for a node.
pub open spec fn detail_of(marks: Seq<Marks>, s: SnapshotView, n: Shape) -> (Seq<char>, DetailView) {
    match n.kind {
        NodeKind::File { .. } => (
            " "@ + n.path + " "@,
            DetailView::Diff { key: n.path, path: n.path, text: diff_text(s, n.path) },
        ),
        NodeKind::Dir => (
            " "@ + n.path + "/ "@,
            DetailView::Rows(n.children.map_values(|c: Shape| row_of(marks, c))),
        ),
        NodeKind::Hunk { hunk_index, .. } => (
            " "@ + n.path + " — hunk "@ + decimal_of(hunk_index as nat + 1) + "/"@ + decimal_of(
                hunk_count(s, n.path),
            ) + " "@,
            DetailView::Diff {
                key: id_of(n),
                path: n.path,
                text: hunk_body(s, n.path, hunk_index as int),
            },
        ),
    }
}

/// The title and the content of the pane when the node with identifier `id` is
/// highlighted.
pub open spec fn pane(
    marks: Seq<Marks>,
    nodes: Seq<Shape>,
    s: SnapshotView,
    id: Option<Seq<char>>,
) -> (Seq<char>, DetailView) {
    match id {
        Some(id) => match find_in(nodes, id) {
            Some(n) => detail_of(marks, s, n),
            None => (" detail "@, DetailView::Blank),
        },
        None => (" detail "@, DetailView::Blank),
    }
}

/// A search finds a node whose children refer to files below `len` only.
proof fn found_children_within(nodes: Seq<Shape>, id: Seq<char>, len: int)
    requires
        tree_within(nodes, len),
    ensures
        find_in(nodes, id) matches Some(n) ==> tree_within(n.children, len),
    decreases nodes,
{
    if nodes.len() > 0 {
        let rest = nodes.drop_first();
        assert(node_within(nodes[0], len) && tree_within(nodes[0].children, len));
        assert(tree_within(rest, len)) by {
            assert forall|k: int| 0 <= k < rest.len() implies node_within(#[trigger] rest[k], len)
                && tree_within(rest[k].children, len) by {
                assert(rest[k] == nodes[k + 1]);
            }
        }
        found_children_within(nodes[0].children, id, len);
        found_children_within(rest, id, len);
    }
}

/// The title and the content of the pane when the node with identifier `id` is
/// highlighted.
pub fn build_detail(tree: &TreeModel, snapshot: &Snapshot, id: Option<&str>) -> (r: (
    String,
    Detail,
))
    requires
        tree.wf(),
    ensures
        (r.0@, r.1@) == pane(
            tree.marks(),
            tree.shapes(),
            snapshot@,
            match id {
                Some(s) => Some(s@),
                None => None,
            },
        ),
{
    let id: &str = match id {
        Some(id) => id,
        None => {
            return (" detail ".to_string(), Detail::Blank);
        },
    };
    let node = match tree.find(id) {
        Some(node) => node,
        None => {
            return (" detail ".to_string(), Detail::Blank);
        },
    };
    let ghost n = node.shape();
    proof {
        tidy_within(tree.shapes(), tree.marks().len() as int);
        found_children_within(tree.shapes(), id@, tree.marks().len() as int);
        shape_children(*node);
    }
    let mut title = " ".to_string();
    title.append(node.path.as_str());
    match node.kind {
        NodeKind::File { .. } => {
            title.append(" ");
            let diff = match snapshot.diffs.get(node.path.as_str()) {
                Some(d) => d.clone(),
                None => String::new(),
            };
            proof {
                assert(diff@ =~= diff_text(snapshot@, n.path));
            }
            (
                title,
                Detail::Diff { key: node.path.clone(), path: node.path.clone(), text: diff },
            )
        },
        NodeKind::Dir => {
            title.append("/ ");
            let ghost kids = shapes(node.children@);
            let ghost want = kids.map_values(|c: Shape| row_of(tree.marks(), c));
            let mut lines: Vec<Line> = Vec::new();
            let mut i: usize = 0;
            while i < node.children.len()
                invariant
                    i <= node.children@.len(),
                    kids == shapes(node.children@),
                    tree_within(kids, tree.marks().len() as int),
                    want == kids.map_values(|c: Shape| row_of(tree.marks(), c)),
                    line_views(lines@) == want.take(i as int),
                decreases node.children@.len() - i,
            {
                let ghost before = lines@;
                proof {
                    assert(kids[i as int] == node.children@[i as int].shape());
                    assert(node_within(kids[i as int], tree.marks().len() as int));
                }
                let line = node_line(tree, &node.children[i]);
                lines.push(line);
                proof {
                    assert(line_views(lines@) =~= line_views(before).push(line@));
                    assert(want.take(i + 1) =~= want.take(i as int).push(want[i as int]));
                }
                i = i + 1;
            }
            proof {
                assert(want.take(i as int) =~= want);
            }
            (title, Detail::Rows(lines))
        },
        NodeKind::Hunk { hunk_index, .. } => {
            let (count, body): (usize, String) = match snapshot.hunks.get(node.path.as_str()) {
                Some(list) => (
                    list.len(),
                    if hunk_index < list.len() {
                        list[hunk_index].text.clone()
                    } else {
                        String::new()
                    },
                ),
                None => (0, String::new()),
            };
            proof {
                assert(count == hunk_count(snapshot@, n.path));
                assert(body@ =~= hunk_body(snapshot@, n.path, hunk_index as int));
            }
            title.append(" — hunk ");
            text::push_decimal(&mut title, hunk_index as u128 + 1);
            title.append("/");
            text::push_decimal(&mut title, count as u128);
            title.append(" ");
            (title, Detail::Diff { key: node.id(), path: node.path.clone(), text: body })
        },
    }
}

/// What the pane shows of a file: its diff, under its path; a file without one shows an
/// empty diff.
pub proof fn files_show_their_diff(marks: Seq<Marks>, s: SnapshotView, n: Shape)
    requires
        n.kind is File,
    ensures
        detail_of(marks, s, n).0 == " "@ + n.path + " "@,
        s.diffs.contains_key(n.path) ==> detail_of(marks, s, n).1 == (DetailView::Diff {
            key: n.path,
            path: n.path,
            text: s.diffs[n.path],
        }),
        !s.diffs.contains_key(n.path) ==> detail_of(marks, s, n).1 == (DetailView::Diff {
            key: n.path,
            path: n.path,
            text: seq![],
        }),
{
}

/// What the pane shows of a hunk: its text, under the path of its file and its number
/// among the hunks of that, counted from one.
pub proof fn hunks_show_their_text(marks: Seq<Marks>, s: SnapshotView, n: Shape, k: int)
    requires
        n.kind matches NodeKind::Hunk { hunk_index, .. } && hunk_index == k,
        s.hunks.contains_key(n.path),
        k < s.hunks[n.path].len(),
    ensures
        detail_of(marks, s, n).0 == " "@ + n.path + " — hunk "@ + decimal_of((k + 1) as nat) + "/"@
            + decimal_of(s.hunks[n.path].len()) + " "@,
        detail_of(marks, s, n).1 == (DetailView::Diff {
            key: id_of(n),
            path: n.path,
            text: s.hunks[n.path][k].text,
        }),
{
}

/// What the pane shows of a hunk that the snapshot does not have: an empty diff.
pub proof fn lost_hunks_show_nothing(marks: Seq<Marks>, s: SnapshotView, n: Shape, k: int)
    requires
        n.kind matches NodeKind::Hunk { hunk_index, .. } && hunk_index == k,
        !s.hunks.contains_key(n.path) || k >= s.hunks[n.path].len(),
    ensures
        detail_of(marks, s, n).1 == (DetailView::Diff { key: id_of(n), path: n.path, text: seq![] }),
{
}

/// What the pane shows of a directory: one row for each node in it, in order, under its
/// path with a slash.
pub proof fn directories_show_their_rows(marks: Seq<Marks>, s: SnapshotView, n: Shape)
    requires
        n.kind is Dir,
    ensures
        detail_of(marks, s, n).0 == " "@ + n.path + "/ "@,
        detail_of(marks, s, n).1 matches DetailView::Rows(rows) && rows.len() == n.children.len()
            && forall|i: int|
            0 <= i < rows.len() ==> #[trigger] rows[i] == row_of(marks, n.children[i]),
{
}

/// The pane is about the node that is highlighted, and empty where there is none.
pub proof fn the_pane_shows_the_highlight(
    marks: Seq<Marks>,
    nodes: Seq<Shape>,
    s: SnapshotView,
    id: Seq<char>,
)
    ensures
        (find_in(nodes, id) matches Some(n) ==> pane(marks, nodes, s, Some(id)) == detail_of(
            marks,
            s,
            n,
        )),
        find_in(nodes, id) is None ==> pane(marks, nodes, s, Some(id)) == (
            " detail "@,
            DetailView::Blank,
        ),
        pane(marks, nodes, s, None) == (" detail "@, DetailView::Blank),
{
}

} // verus!
