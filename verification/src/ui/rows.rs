//! The rows of the tree views.

use vstd::prelude::*;

use crate::model::ChangeKind;
use crate::text::texts;
use crate::tree::{
    id_of, node_state, node_within, shape_children, shapes, tree_within, Marks, Node, NodeKind,
    SelectState, Shape, TreeModel,
};
use crate::ui::paint::{
    color_style, colored, plain, plain_style, span_view, strong, strong_style, Color, Line,
    SpanView,
};

verus! {

/// The checkbox of a state, and its colour.
pub open spec fn checkbox(state: SelectState) -> SpanView {
    match state {
        SelectState::All => span_view("[x]"@, colored(Color::Green)),
        SelectState::Nothing => span_view("[ ]"@, colored(Color::DarkGray)),
        SelectState::Partial => span_view("[~]"@, colored(Color::Yellow)),
    }
}

/// The letter of a change, and its colour.
pub open spec fn glyph(kind: ChangeKind) -> (char, Color) {
    match kind {
        ChangeKind::Added => ('A', Color::Green),
        ChangeKind::Modified => ('M', Color::Yellow),
        ChangeKind::Deleted => ('D', Color::Red),
        ChangeKind::Renamed => ('R', Color::Cyan),
        ChangeKind::Untracked => ('?', Color::Magenta),
    }
}

/// The row of a node: its checkbox, and behind that `dir/`, or the letter of the
/// change and the file's name, or the header of the hunk.
pub open spec fn row_of(marks: Seq<Marks>, n: Shape) -> Seq<SpanView> {
    let start = seq![checkbox(node_state(marks, n)), span_view(" "@, plain())];
    match n.kind {
        NodeKind::Dir => start.push(span_view(n.label + "/"@, strong(Color::Blue))),
        NodeKind::File { kind, .. } => start.push(
            span_view(seq![glyph(kind).0] + " "@, colored(glyph(kind).1)),
        ).push(span_view(n.label, plain())),
        NodeKind::Hunk { .. } => start.push(span_view(n.label, colored(Color::Cyan))),
    }
}

/// The letter of a change, and its colour.
pub fn glyph_style(kind: ChangeKind) -> (r: (char, Color))
    ensures
        r == glyph(kind),
{
    match kind {
        ChangeKind::Added => ('A', Color::Green),
        ChangeKind::Modified => ('M', Color::Yellow),
        ChangeKind::Deleted => ('D', Color::Red),
        ChangeKind::Renamed => ('R', Color::Cyan),
        ChangeKind::Untracked => ('?', Color::Magenta),
    }
}

/// The row of a node.
pub fn node_line(tree: &TreeModel, node: &Node) -> (r: Line)
    requires
        node_within(node.shape(), tree.marks().len() as int),
    ensures
        r@ == row_of(tree.marks(), node.shape()),
{
    let mut line = Line::new();
    match tree.state_of(node) {
        SelectState::All => line.push("[x]".to_string(), color_style(Color::Green)),
        SelectState::Nothing => line.push("[ ]".to_string(), color_style(Color::DarkGray)),
        SelectState::Partial => line.push("[~]".to_string(), color_style(Color::Yellow)),
    }
    line.push(" ".to_string(), plain_style());
    match node.kind {
        NodeKind::Dir => {
            let mut label = node.label.clone();
            label.append("/");
            line.push(label, strong_style(Color::Blue));
        },
        NodeKind::File { kind, .. } => {
            let (letter, color) = glyph_style(kind);
            let mut mark = String::new();
            mark.push(letter);
            mark.append(" ");
            proof {
                assert(mark@ =~= seq![letter] + " "@);
            }
            line.push(mark, color_style(color));
            line.push(node.label.clone(), plain_style());
        },
        NodeKind::Hunk { .. } => line.push(node.label.clone(), color_style(Color::Cyan)),
    }
    proof {
        assert(line@ =~= row_of(tree.marks(), node.shape()));
    }
    line
}

// ----- the rows of a tree --------------------------------------------------------------------

/// A row with the rows below it.
pub struct Row {
    pub id: String,
    pub line: Line,
    pub children: Vec<Row>,
}

/// A row as a mathematical value.
pub struct RowView {
    pub id: Seq<char>,
    pub line: Seq<SpanView>,
    pub children: Seq<RowView>,
}

impl Row {
    /// The row as a mathematical value.
    pub open spec fn row(self) -> RowView
        decreases self,
    {
        RowView {
            id: self.id@,
            line: self.line@,
            children: Seq::new(
                self.children@.len(),
                |i: int|
                    if 0 <= i < self.children@.len() {
                        self.children@[i].row()
                    } else {
                        arbitrary()
                    },
            ),
        }
    }
}

/// The rows as mathematical values.
pub open spec fn row_views(rows: Seq<Row>) -> Seq<RowView> {
    rows.map_values(|r: Row| r.row())
}

/// The rows of the nodes, each with its identifier, and those below it.
pub open spec fn tree_rows(marks: Seq<Marks>, nodes: Seq<Shape>) -> Seq<RowView>
    decreases nodes,
{
    Seq::new(
        nodes.len(),
        |i: int|
            if 0 <= i < nodes.len() {
                RowView {
                    id: id_of(nodes[i]),
                    line: row_of(marks, nodes[i]),
                    children: tree_rows(marks, nodes[i].children),
                }
            } else {
                arbitrary()
            },
    )
}

/// The rows of the nodes.
pub fn items_of(tree: &TreeModel, nodes: &Vec<Node>) -> (r: Vec<Row>)
    requires
        tree_within(shapes(nodes@), tree.marks().len() as int),
    ensures
        row_views(r@) == tree_rows(tree.marks(), shapes(nodes@)),
    decreases nodes,
{
    let ghost all = shapes(nodes@);
    let ghost want = tree_rows(tree.marks(), all);
    let mut out: Vec<Row> = Vec::new();
    let mut i: usize = 0;
    while i < nodes.len()
        invariant
            i <= nodes@.len(),
            all == shapes(nodes@),
            want == tree_rows(tree.marks(), all),
            tree_within(all, tree.marks().len() as int),
            row_views(out@) == want.take(i as int),
        decreases nodes@.len() - i,
    {
        let ghost before = out@;
        let node = &nodes[i];
        proof {
            assert(all[i as int] == node.shape());
            assert(node_within(all[i as int], tree.marks().len() as int) && tree_within(
                all[i as int].children,
                tree.marks().len() as int,
            ));
            shape_children(*node);
        }
        let row = Row {
            id: node.id(),
            line: node_line(tree, node),
            children: items_of(tree, &node.children),
        };
        out.push(row);
        proof {
            assert(row.row().children =~= row_views(row.children@));
            assert(row.row() == want[i as int]);
            assert(row_views(out@) =~= row_views(before).push(row.row()));
            assert(want.take(i + 1) =~= want.take(i as int).push(want[i as int]));
        }
        i = i + 1;
    }
    proof {
        assert(want.take(i as int) =~= want);
    }
    out
}

// ----- what is open at first -------------------------------------------------------------------

/// The chains of identifiers as mathematical values.
pub open spec fn chain_views(chains: Seq<Vec<String>>) -> Seq<Seq<Seq<char>>> {
    chains.map_values(|c: Vec<String>| texts(c@))
}

/// The chain of identifiers that leads to each directory, from `prefix` on.
pub open spec fn dir_chains(nodes: Seq<Shape>, prefix: Seq<Seq<char>>) -> Seq<Seq<Seq<char>>>
    decreases nodes,
{
    if nodes.len() == 0 {
        seq![]
    } else {
        let n = nodes.last();
        let before = dir_chains(nodes.drop_last(), prefix);
        if n.kind is Dir {
            let chain = prefix.push(id_of(n));
            before.push(chain) + dir_chains(n.children, chain)
        } else {
            before
        }
    }
}

/// A copy of the texts.
fn copied(list: &Vec<String>) -> (r: Vec<String>)
    ensures
        texts(r@) == texts(list@),
{
    let mut out: Vec<String> = Vec::new();
    crate::partial::extend(&mut out, list);
    proof {
        assert(texts(out@) =~= texts(list@));
    }
    out
}

/// Append the chains of the directories to `out`.
fn walk(nodes: &Vec<Node>, prefix: &Vec<String>, out: &mut Vec<Vec<String>>)
    ensures
        chain_views(final(out)@) == chain_views(old(out)@) + dir_chains(
            shapes(nodes@),
            texts(prefix@),
        ),
    decreases nodes,
{
    let ghost all = shapes(nodes@);
    let ghost start = chain_views(out@);
    let ghost from = texts(prefix@);
    let mut i: usize = 0;
    proof {
        assert(start + dir_chains(all.take(0), from) =~= start);
    }
    while i < nodes.len()
        invariant
            i <= nodes@.len(),
            all == shapes(nodes@),
            from == texts(prefix@),
            chain_views(out@) == start + dir_chains(all.take(i as int), from),
        decreases nodes@.len() - i,
    {
        let node = &nodes[i];
        proof {
            assert(all.take(i + 1).drop_last() =~= all.take(i as int));
            assert(all.take(i + 1).last() == node.shape());
            shape_children(*node);
        }
        if node.is_dir() {
            let mut chain = copied(prefix);
            let ghost short = chain@;
            chain.push(node.id());
            proof {
                assert(texts(chain@) =~= texts(short).push(id_of(node.shape())));
            }
            let ghost before = out@;
            let entry = copied(&chain);
            out.push(entry);
            proof {
                assert(chain_views(out@) =~= chain_views(before).push(texts(chain@)));
            }
            walk(&node.children, &chain, out);
        }
        proof {
            assert(chain_views(out@) =~= start + dir_chains(all.take(i + 1), from));
        }
        i = i + 1;
    }
    proof {
        assert(all.take(i as int) =~= all);
    }
}

/// The chain of identifiers that leads to each directory: what to open to expand
/// the tree.
pub fn open_chains(nodes: &Vec<Node>) -> (r: Vec<Vec<String>>)
    ensures
        chain_views(r@) == dir_chains(shapes(nodes@), seq![]),
{
    let mut out: Vec<Vec<String>> = Vec::new();
    let prefix: Vec<String> = Vec::new();
    walk(nodes, &prefix, &mut out);
    proof {
        assert(texts(prefix@) =~= seq![]);
        assert(chain_views(out@) =~= dir_chains(shapes(nodes@), seq![]));
    }
    out
}

// ----- what the rows show ------------------------------------------------------------------------------

/// A row starts with a checkbox that tells how much below it is selected: all of it,
/// some of it, or nothing.
pub proof fn checkboxes_tell_the_state(marks: Seq<Marks>, n: Shape)
    ensures
        row_of(marks, n).len() >= 3,
        node_state(marks, n) == SelectState::All ==> row_of(marks, n)[0].text == "[x]"@ && row_of(
            marks,
            n,
        )[0].style == colored(Color::Green),
        node_state(marks, n) == SelectState::Nothing ==> row_of(marks, n)[0].text == "[ ]"@
            && row_of(marks, n)[0].style == colored(Color::DarkGray),
        node_state(marks, n) == SelectState::Partial ==> row_of(marks, n)[0].text == "[~]"@
            && row_of(marks, n)[0].style == colored(Color::Yellow),
        row_of(marks, n)[1] == (SpanView { text: " "@, style: plain() }),
{
}

/// What stands behind the checkbox: a directory with a slash, a file with the letter of
/// its change in front, or the header of a hunk.
pub proof fn rows_name_the_node(marks: Seq<Marks>, n: Shape)
    ensures
        ({
            let row = row_of(marks, n);
            &&& n.kind is Dir ==> row.len() == 3 && row[2] == (SpanView {
                text: n.label + "/"@,
                style: strong(Color::Blue),
            })
            &&& n.kind is Hunk ==> row.len() == 3 && row[2] == (SpanView {
                text: n.label,
                style: colored(Color::Cyan),
            })
            &&& (n.kind matches NodeKind::File { kind, .. } ==> row.len() == 4 && row[3]
                == (SpanView { text: n.label, style: plain() }) && row[2] == (match kind {
                ChangeKind::Added => SpanView {
                    text: seq!['A'] + " "@,
                    style: colored(Color::Green),
                },
                ChangeKind::Modified => SpanView {
                    text: seq!['M'] + " "@,
                    style: colored(Color::Yellow),
                },
                ChangeKind::Deleted => SpanView {
                    text: seq!['D'] + " "@,
                    style: colored(Color::Red),
                },
                ChangeKind::Renamed => SpanView {
                    text: seq!['R'] + " "@,
                    style: colored(Color::Cyan),
                },
                ChangeKind::Untracked => SpanView {
                    text: seq!['?'] + " "@,
                    style: colored(Color::Magenta),
                },
            }))
        }),
{
}

/// The rows stand like the nodes: one for each, in order, with the rows of what is below
/// the node below it.
pub proof fn rows_stand_like_the_nodes(marks: Seq<Marks>, nodes: Seq<Shape>, i: int)
    requires
        0 <= i < nodes.len(),
    ensures
        tree_rows(marks, nodes).len() == nodes.len(),
        tree_rows(marks, nodes)[i].id == id_of(nodes[i]),
        tree_rows(marks, nodes)[i].line == row_of(marks, nodes[i]),
        tree_rows(marks, nodes)[i].children == tree_rows(marks, nodes[i].children),
{
}

/// What is open at first: every directory, each below those that hold it, and a
/// directory before what it holds; files open nothing.
pub proof fn directories_are_open(
    a: Seq<Shape>,
    b: Seq<Shape>,
    n: Shape,
    prefix: Seq<Seq<char>>,
)
    ensures
        dir_chains(a + b, prefix) == dir_chains(a, prefix) + dir_chains(b, prefix),
        n.kind is Dir ==> dir_chains(seq![n], prefix) == seq![prefix.push(id_of(n))] + dir_chains(
            n.children,
            prefix.push(id_of(n)),
        ),
        !(n.kind is Dir) ==> dir_chains(seq![n], prefix).len() == 0,
        dir_chains(seq![], prefix).len() == 0,
    decreases b.len(),
{
    let none: Seq<Shape> = seq![];
    assert(seq![n].drop_last() =~= none);
    assert(seq![n].last() == n);
    assert(dir_chains(none, prefix) =~= seq![]);
    if n.kind is Dir {
        assert(dir_chains(seq![n], prefix) =~= seq![prefix.push(id_of(n))] + dir_chains(
            n.children,
            prefix.push(id_of(n)),
        ));
    }
    if b.len() == 0 {
        assert(a + b =~= a);
        assert(dir_chains(a, prefix) + dir_chains(b, prefix) =~= dir_chains(a, prefix));
    } else {
        directories_are_open(a, b.drop_last(), n, prefix);
        assert((a + b).drop_last() =~= a + b.drop_last());
        assert((a + b).last() == b.last());
        assert(dir_chains(a + b, prefix) =~= dir_chains(a, prefix) + dir_chains(b, prefix));
    }
}

/// A row is seen with all that it holds: its identifier, its line, and the rows below it,
/// in order.
pub proof fn rows_are_seen_whole(r: Row, i: int)
    requires
        0 <= i < r.children@.len(),
    ensures
        r.row().id == r.id@,
        r.row().line == r.line@,
        r.row().children.len() == r.children@.len(),
        r.row().children[i] == r.children@[i].row(),
{
}

} // verus!
