//! The compressed forest over a list of changed files: what it is, and how it
//! is built.
//!
//! Compression rule: a directory whose only child is itself a directory is
//! merged with that child (`aa` + `bb` becomes `aa/bb`). Files never merge. So
//! files all under `aa/bb/cc` collapse to a single `aa/bb/cc` node, while files
//! split between `aa/bb` and `aa/bb/cc` give an `aa/bb` node with a `cc` node
//! and the loose files in it.

use vstd::prelude::*;

use crate::model::{ChangeKind, FileChange};
use crate::text;
use crate::text::{pieces, text_le, texts};
use crate::tree::{shape_children, shapes, Node, NodeKind, Shape};

verus! {

// ----- entries -----------------------------------------------------------------

/// A file to place: the components of its path that are still below the
/// directory at hand, and its index in the change list.
pub struct Entry {
    pub parts: Seq<Seq<char>>,
    pub index: usize,
}

/// The non-empty components of a path.
pub open spec fn path_parts(path: Seq<char>) -> Seq<Seq<char>> {
    pieces(path, '/').filter(|p: Seq<char>| p.len() > 0)
}

/// The entry of change `i`.
pub open spec fn entry_at(changes: Seq<FileChange>, i: usize) -> Entry {
    Entry { parts: path_parts(changes[i as int].path@), index: i }
}

/// The entries of the changes whose indices are in `keep`.
pub open spec fn entries_of(changes: Seq<FileChange>, keep: Seq<usize>) -> Seq<Entry> {
    keep.map_values(|i: usize| entry_at(changes, i))
}

/// The entry stands directly in the directory at hand.
pub open spec fn is_leaf(e: Entry) -> bool {
    e.parts.len() <= 1
}

/// The file name of a leaf; empty for a path without components.
pub open spec fn leaf_name(e: Entry) -> Seq<char> {
    if e.parts.len() == 0 {
        seq![]
    } else {
        e.parts[0]
    }
}

/// What of `entries` lies in the directory `name`, seen from there.
pub open spec fn under(entries: Seq<Entry>, name: Seq<char>) -> Seq<Entry>
    decreases entries.len(),
{
    if entries.len() == 0 {
        seq![]
    } else {
        let before = under(entries.drop_last(), name);
        let e = entries.last();
        if !is_leaf(e) && e.parts[0] == name {
            before.push(Entry { parts: e.parts.drop_first(), index: e.index })
        } else {
            before
        }
    }
}

/// How many components the entries have together.
pub open spec fn weight(entries: Seq<Entry>) -> nat
    decreases entries.len(),
{
    if entries.len() == 0 {
        0
    } else {
        weight(entries.drop_last()) + entries.last().parts.len()
    }
}

/// One directory down, every entry has a component less.
pub proof fn under_is_lighter(entries: Seq<Entry>, name: Seq<char>)
    ensures
        weight(under(entries, name)) + under(entries, name).len() <= weight(entries),
    decreases entries.len(),
{
    if entries.len() > 0 {
        let rest = entries.drop_last();
        under_is_lighter(rest, name);
        let e = entries.last();
        if !is_leaf(e) && e.parts[0] == name {
            let below = under(rest, name);
            let x = Entry { parts: e.parts.drop_first(), index: e.index };
            assert(below.push(x).drop_last() =~= below);
        }
    }
}

// ----- order ---------------------------------------------------------------------

/// `names`, which is in order, with `x` at its place; unchanged if `x` is there.
pub open spec fn with_name(names: Seq<Seq<char>>, x: Seq<char>) -> Seq<Seq<char>>
    decreases names.len(),
{
    if names.len() == 0 {
        seq![x]
    } else if names.last() == x {
        names
    } else if text_le(names.last(), x) {
        names.push(x)
    } else {
        with_name(names.drop_last(), x).push(names.last())
    }
}

/// The directories in which entries lie, in order and each once.
pub open spec fn dir_names(entries: Seq<Entry>) -> Seq<Seq<char>>
    decreases entries.len(),
{
    if entries.len() == 0 {
        seq![]
    } else {
        let before = dir_names(entries.drop_last());
        let e = entries.last();
        if is_leaf(e) {
            before
        } else {
            with_name(before, e.parts[0])
        }
    }
}

/// A loose file: its name and its index.
pub struct Leaf {
    pub name: Seq<char>,
    pub index: usize,
}

/// By name, and by index among equal names.
pub open spec fn leaf_le(a: Leaf, b: Leaf) -> bool {
    if a.name == b.name {
        a.index <= b.index
    } else {
        text_le(a.name, b.name)
    }
}

/// `leaves`, which is in order, with `x` at its place.
pub open spec fn with_leaf(leaves: Seq<Leaf>, x: Leaf) -> Seq<Leaf>
    decreases leaves.len(),
{
    if leaves.len() == 0 || leaf_le(leaves.last(), x) {
        leaves.push(x)
    } else {
        with_leaf(leaves.drop_last(), x).push(leaves.last())
    }
}

/// The loose files among the entries, in order.
pub open spec fn leaves_of(entries: Seq<Entry>) -> Seq<Leaf>
    decreases entries.len(),
{
    if entries.len() == 0 {
        seq![]
    } else {
        let before = leaves_of(entries.drop_last());
        let e = entries.last();
        if is_leaf(e) {
            with_leaf(before, Leaf { name: leaf_name(e), index: e.index })
        } else {
            before
        }
    }
}

// ----- nodes ---------------------------------------------------------------------

/// The path of `name` in the directory `prefix`.
pub open spec fn child_path(prefix: Seq<char>, name: Seq<char>) -> Seq<char> {
    if prefix.len() == 0 {
        name
    } else {
        prefix + seq!['/'] + name
    }
}

/// The hunk rows of a file.
pub open spec fn hunk_shapes(path: Seq<char>, index: usize, labels: Seq<Seq<char>>) -> Seq<Shape> {
    Seq::new(
        labels.len(),
        |k: int|
            Shape {
                label: labels[k],
                path,
                kind: NodeKind::Hunk { file_index: index, hunk_index: k as usize },
                children: seq![],
                files: seq![index],
            },
    )
}

/// The node of a file, with a row for each of its hunk labels.
pub open spec fn file_shape(
    prefix: Seq<char>,
    leaf: Leaf,
    changes: Seq<FileChange>,
    labels: Seq<Seq<Seq<char>>>,
) -> Shape {
    Shape {
        label: leaf.name,
        path: child_path(prefix, leaf.name),
        kind: NodeKind::File { index: leaf.index, kind: changes[leaf.index as int].kind },
        children: hunk_shapes(
            child_path(prefix, leaf.name),
            leaf.index,
            labels[leaf.index as int],
        ),
        files: seq![leaf.index],
    }
}

/// The file nodes of a directory.
pub open spec fn file_shapes(
    prefix: Seq<char>,
    leaves: Seq<Leaf>,
    changes: Seq<FileChange>,
    labels: Seq<Seq<Seq<char>>>,
) -> Seq<Shape> {
    leaves.map_values(|leaf: Leaf| file_shape(prefix, leaf, changes, labels))
}

/// The files below a node, in the order in which they are shown.
pub open spec fn files_of(n: Shape) -> Seq<usize>
    decreases n,
{
    match n.kind {
        NodeKind::File { index, .. } => seq![index],
        NodeKind::Dir => files_in(n.children),
        NodeKind::Hunk { .. } => seq![],
    }
}

/// The files below the nodes, in the order in which they are shown.
pub open spec fn files_in(nodes: Seq<Shape>) -> Seq<usize>
    decreases nodes,
{
    if nodes.len() == 0 {
        seq![]
    } else {
        files_in(nodes.drop_last()) + files_of(nodes.last())
    }
}

/// A directory node; merged with its child if that is its only one and a
/// directory.
pub open spec fn dir_shape(name: Seq<char>, path: Seq<char>, children: Seq<Shape>) -> Shape {
    if children.len() == 1 && children[0].kind is Dir {
        Shape {
            label: name + seq!['/'] + children[0].label,
            path: children[0].path,
            kind: NodeKind::Dir,
            children: children[0].children,
            files: files_in(children),
        }
    } else {
        Shape { label: name, path, kind: NodeKind::Dir, children, files: files_in(children) }
    }
}

/// The nodes of the named directories in `prefix`.
pub open spec fn dir_shapes(
    prefix: Seq<char>,
    entries: Seq<Entry>,
    names: Seq<Seq<char>>,
    changes: Seq<FileChange>,
    labels: Seq<Seq<Seq<char>>>,
) -> Seq<Shape>
    decreases weight(entries), 0nat, names.len(),
{
    if names.len() == 0 {
        seq![]
    } else {
        let before = dir_shapes(prefix, entries, names.drop_last(), changes, labels);
        let name = names.last();
        let path = child_path(prefix, name);
        proof {
            under_is_lighter(entries, name);
        }
        if under(entries, name).len() > 0 {
            before.push(dir_shape(name, path, forest(path, under(entries, name), changes, labels)))
        } else {
            before
        }
    }
}

/// The nodes below `prefix`: the directories, then the loose files.
pub open spec fn forest(
    prefix: Seq<char>,
    entries: Seq<Entry>,
    changes: Seq<FileChange>,
    labels: Seq<Seq<Seq<char>>>,
) -> Seq<Shape>
    decreases weight(entries), 1nat, 0nat,
{
    dir_shapes(prefix, entries, dir_names(entries), changes, labels) + file_shapes(
        prefix,
        leaves_of(entries),
        changes,
        labels,
    )
}

/// The forest over the changes whose indices are in `keep`.
pub open spec fn view_of(
    changes: Seq<FileChange>,
    keep: Seq<usize>,
    labels: Seq<Seq<Seq<char>>>,
) -> Seq<Shape> {
    forest(seq![], entries_of(changes, keep), changes, labels)
}

// ----- facts about the order -----------------------------------------------------

/// `a` comes before `b`.
pub open spec fn name_lt(a: Seq<char>, b: Seq<char>) -> bool {
    text_le(a, b) && a != b
}

/// The names are in order and no two are the same.
pub open spec fn names_in_order(names: Seq<Seq<char>>) -> bool {
    forall|i: int, j: int| 0 <= i < j < names.len() ==> #[trigger] name_lt(names[i], names[j])
}

/// The leaves are in order.
pub open spec fn leaves_in_order(leaves: Seq<Leaf>) -> bool {
    forall|i: int, j: int| 0 <= i < j < leaves.len() ==> #[trigger] leaf_le(leaves[i], leaves[j])
}

/// The place of `x`: everything before it comes before `x`, and nothing from it
/// on does.
pub open spec fn name_place(names: Seq<Seq<char>>, x: Seq<char>, p: int) -> bool {
    &&& 0 <= p <= names.len()
    &&& forall|i: int| 0 <= i < p ==> #[trigger] name_lt(names[i], x)
    &&& forall|i: int| p <= i < names.len() ==> !(#[trigger] name_lt(names[i], x))
}

/// Of two different names one comes before the other, and before what the other
/// comes before.
pub proof fn name_lt_facts(a: Seq<char>, b: Seq<char>, c: Seq<char>)
    ensures
        name_lt(a, b) || a == b || name_lt(b, a),
        !(name_lt(a, b) && name_lt(b, a)),
        name_lt(a, b) && name_lt(b, c) ==> name_lt(a, c),
{
    text::text_le_total(a, b);
    if name_lt(a, b) && name_lt(b, a) {
        text::text_le_antisymmetric(a, b);
    }
    if name_lt(a, b) && name_lt(b, c) {
        text::text_le_transitive(a, b, c);
        if a == c {
            text::text_le_antisymmetric(a, b);
        }
    }
}

proof fn drop_last_in_order(names: Seq<Seq<char>>)
    requires
        names_in_order(names),
        names.len() > 0,
    ensures
        names_in_order(names.drop_last()),
{
    let rest = names.drop_last();
    assert forall|i: int, j: int| 0 <= i < j < rest.len() implies #[trigger] name_lt(rest[i], rest[j]) by {
        assert(name_lt(names[i], names[j]));
    }
}

/// Putting a name at its place.
pub proof fn with_name_at(names: Seq<Seq<char>>, x: Seq<char>, p: int)
    requires
        names_in_order(names),
        name_place(names, x, p),
    ensures
        with_name(names, x) == if p < names.len() && names[p] == x {
            names
        } else {
            names.insert(p, x)
        },
    decreases names.len(),
{
    if names.len() == 0 {
        assert(names.insert(p, x) =~= seq![x]);
    } else {
        let n = names.len() - 1;
        let last = names[n];
        if last == x {
            if p > n {
                assert(name_lt(names[n], x));
            } else if p < n {
                assert(name_lt(names[p], names[n]));
                assert(!name_lt(names[p], x));
            }
        } else if text_le(last, x) {
            assert(name_lt(names[n], x));
            assert(names.insert(p, x) =~= names.push(x));
        } else {
            assert(!name_lt(names[n], x));
            if p > n {
                assert(name_lt(names[n], x));
            }
            let rest = names.drop_last();
            assert forall|i: int| 0 <= i < p implies #[trigger] name_lt(rest[i], x) by {
                assert(name_lt(names[i], x));
            }
            assert forall|i: int| p <= i < rest.len() implies !(#[trigger] name_lt(rest[i], x)) by {
                assert(!name_lt(names[i], x));
            }
            drop_last_in_order(names);
            with_name_at(rest, x, p);
            if p < rest.len() && rest[p] == x {
                assert(rest.push(last) =~= names);
            } else {
                assert(rest.insert(p, x).push(last) =~= names.insert(p, x));
            }
        }
    }
}

/// Every name has a place in an ordered list.
pub proof fn name_has_place(names: Seq<Seq<char>>, x: Seq<char>) -> (p: int)
    requires
        names_in_order(names),
    ensures
        name_place(names, x, p),
    decreases names.len(),
{
    if names.len() == 0 {
        0
    } else {
        let n = names.len() - 1;
        if name_lt(names[n], x) {
            assert forall|i: int| 0 <= i < names.len() implies #[trigger] name_lt(names[i], x) by {
                if i < n {
                    assert(name_lt(names[i], names[n]));
                    name_lt_facts(names[i], names[n], x);
                }
            }
            names.len() as int
        } else {
            let rest = names.drop_last();
            drop_last_in_order(names);
            let p = name_has_place(rest, x);
            assert forall|i: int| 0 <= i < p implies #[trigger] name_lt(names[i], x) by {
                assert(name_lt(rest[i], x));
            }
            assert forall|i: int| p <= i < names.len() implies !(#[trigger] name_lt(names[i], x)) by {
                if i < n {
                    assert(!name_lt(rest[i], x));
                }
            }
            p
        }
    }
}

/// Adding a name keeps the order and adds nothing else.
pub proof fn with_name_facts(names: Seq<Seq<char>>, x: Seq<char>)
    requires
        names_in_order(names),
    ensures
        names_in_order(with_name(names, x)),
        forall|y: Seq<char>| #[trigger] with_name(names, x).contains(y) <==> names.contains(y) || y == x,
{
    let p = name_has_place(names, x);
    with_name_at(names, x, p);
    let out = with_name(names, x);
    if p < names.len() && names[p] == x {
    } else {
        assert forall|i: int, j: int| 0 <= i < j < out.len() implies #[trigger] name_lt(out[i], out[j]) by {
            let a = if i < p { i } else { i - 1 };
            let b = if j < p { j } else { j - 1 };
            if i == p {
                assert(!name_lt(names[b], x));
                name_lt_facts(x, names[b], x);
                if names[b] == x && p < b {
                    assert(name_lt(names[p], names[b]));
                    assert(!name_lt(names[p], x));
                }
            } else if j == p {
                assert(name_lt(names[a], x));
            } else {
                assert(name_lt(names[a], names[b]));
            }
        }
        assert forall|y: Seq<char>| #[trigger] out.contains(y) <==> names.contains(y) || y == x by {
            if names.contains(y) {
                let k = choose|k: int| 0 <= k < names.len() && names[k] == y;
                if k < p {
                    assert(out[k] == y);
                } else {
                    assert(out[k + 1] == y);
                }
            }
            if y == x {
                assert(out[p] == x);
            }
            if out.contains(y) {
                let k = choose|k: int| 0 <= k < out.len() && out[k] == y;
                if k < p {
                    assert(names[k] == y);
                } else if k > p {
                    assert(names[k - 1] == y);
                }
            }
        }
    }
}

/// The directory names are in order, each once, and exactly those in which
/// something lies.
pub proof fn dir_names_facts(entries: Seq<Entry>)
    ensures
        names_in_order(dir_names(entries)),
        forall|x: Seq<char>| #[trigger] dir_names(entries).contains(x) <==> under(entries, x).len() > 0,
    decreases entries.len(),
{
    if entries.len() > 0 {
        let rest = entries.drop_last();
        dir_names_facts(rest);
        let e = entries.last();
        if !is_leaf(e) {
            with_name_facts(dir_names(rest), e.parts[0]);
        }
        assert forall|x: Seq<char>| #[trigger] dir_names(entries).contains(x) <==> under(entries, x).len() > 0 by {
            assert(dir_names(rest).contains(x) <==> under(rest, x).len() > 0);
        }
    }
}

/// The order of leaves is total and transitive.
proof fn leaf_le_facts(a: Leaf, b: Leaf, c: Leaf)
    ensures
        leaf_le(a, a),
        leaf_le(a, b) || leaf_le(b, a),
        leaf_le(a, b) && leaf_le(b, a) ==> a == b,
        leaf_le(a, b) && leaf_le(b, c) ==> leaf_le(a, c),
{
    text::text_le_total(a.name, b.name);
    if leaf_le(a, b) && leaf_le(b, a) && a.name != b.name {
        text::text_le_antisymmetric(a.name, b.name);
    }
    if leaf_le(a, b) && leaf_le(b, c) && a.name != b.name && b.name != c.name {
        text::text_le_transitive(a.name, b.name, c.name);
        if a.name == c.name {
            text::text_le_antisymmetric(a.name, b.name);
        }
    }
}

/// The place of `x` after everything that does not come after it.
pub open spec fn leaf_place(leaves: Seq<Leaf>, x: Leaf, p: int) -> bool {
    &&& 0 <= p <= leaves.len()
    &&& forall|i: int| 0 <= i < p ==> #[trigger] leaf_le(leaves[i], x)
    &&& forall|i: int| p <= i < leaves.len() ==> !(#[trigger] leaf_le(leaves[i], x))
}

/// Putting a leaf at its place.
pub proof fn with_leaf_at(leaves: Seq<Leaf>, x: Leaf, p: int)
    requires
        leaf_place(leaves, x, p),
    ensures
        with_leaf(leaves, x) == leaves.insert(p, x),
    decreases leaves.len(),
{
    if leaves.len() == 0 || leaf_le(leaves.last(), x) {
        if leaves.len() > 0 && p < leaves.len() {
            assert(!leaf_le(leaves[leaves.len() - 1], x));
        }
        assert(leaves.insert(p, x) =~= leaves.push(x));
    } else {
        let n = leaves.len() - 1;
        let rest = leaves.drop_last();
        if p > n {
            assert(leaf_le(leaves[n], x));
        }
        assert forall|i: int| 0 <= i < p implies #[trigger] leaf_le(rest[i], x) by {
            assert(leaf_le(leaves[i], x));
        }
        assert forall|i: int| p <= i < rest.len() implies !(#[trigger] leaf_le(rest[i], x)) by {
            assert(!leaf_le(leaves[i], x));
        }
        with_leaf_at(rest, x, p);
        assert(rest.insert(p, x).push(leaves.last()) =~= leaves.insert(p, x));
    }
}

/// Inserting a leaf at its place keeps the order.
proof fn insert_leaf_in_order(leaves: Seq<Leaf>, x: Leaf, p: int)
    requires
        leaves_in_order(leaves),
        leaf_place(leaves, x, p),
    ensures
        leaves_in_order(leaves.insert(p, x)),
{
    let out = leaves.insert(p, x);
    assert forall|i: int, j: int| 0 <= i < j < out.len() implies #[trigger] leaf_le(out[i], out[j]) by {
        let a = if i < p { i } else { i - 1 };
        let b = if j < p { j } else { j - 1 };
        if i == p {
            assert(!leaf_le(leaves[b], x));
            leaf_le_facts(leaves[b], x, x);
        } else if j == p {
            assert(leaf_le(leaves[a], x));
        } else {
            assert(leaf_le(leaves[a], leaves[b]));
        }
    }
}

/// Every leaf has a place in an ordered list.
pub proof fn leaf_has_place(leaves: Seq<Leaf>, x: Leaf) -> (p: int)
    requires
        leaves_in_order(leaves),
    ensures
        leaf_place(leaves, x, p),
    decreases leaves.len(),
{
    if leaves.len() == 0 {
        0
    } else {
        let n = leaves.len() - 1;
        if leaf_le(leaves[n], x) {
            assert forall|i: int| 0 <= i < leaves.len() implies #[trigger] leaf_le(leaves[i], x) by {
                if i < n {
                    assert(leaf_le(leaves[i], leaves[n]));
                    leaf_le_facts(leaves[i], leaves[n], x);
                }
            }
            leaves.len() as int
        } else {
            let rest = leaves.drop_last();
            assert(leaves_in_order(rest)) by {
                assert forall|i: int, j: int| 0 <= i < j < rest.len() implies #[trigger] leaf_le(rest[i], rest[j]) by {
                    assert(leaf_le(leaves[i], leaves[j]));
                }
            }
            let p = leaf_has_place(rest, x);
            assert forall|i: int| 0 <= i < p implies #[trigger] leaf_le(leaves[i], x) by {
                assert(leaf_le(rest[i], x));
            }
            assert forall|i: int| p <= i < leaves.len() implies !(#[trigger] leaf_le(leaves[i], x)) by {
                if i < n {
                    assert(!leaf_le(rest[i], x));
                }
            }
            p
        }
    }
}

/// The loose files are in order.
pub proof fn leaves_facts(entries: Seq<Entry>)
    ensures
        leaves_in_order(leaves_of(entries)),
    decreases entries.len(),
{
    if entries.len() > 0 {
        let rest = entries.drop_last();
        leaves_facts(rest);
        let e = entries.last();
        if is_leaf(e) {
            let x = Leaf { name: leaf_name(e), index: e.index };
            let p = leaf_has_place(leaves_of(rest), x);
            with_leaf_at(leaves_of(rest), x, p);
            insert_leaf_in_order(leaves_of(rest), x, p);
        }
    }
}

// ----- building --------------------------------------------------------------------

/// The label lists as character sequences.
pub open spec fn label_lists(labels: Seq<Vec<String>>) -> Seq<Seq<Seq<char>>> {
    labels.map_values(|l: Vec<String>| texts(l@))
}

/// An entry in memory.
struct PathEntry {
    parts: Vec<Vec<char>>,
    index: usize,
}

/// The names as character sequences.
spec fn part_list(parts: Seq<Vec<char>>) -> Seq<Seq<char>> {
    parts.map_values(|p: Vec<char>| p@)
}

impl PathEntry {
    spec fn entry(self) -> Entry {
        Entry { parts: part_list(self.parts@), index: self.index }
    }
}

spec fn entry_list(items: Seq<PathEntry>) -> Seq<Entry> {
    items.map_values(|e: PathEntry| e.entry())
}

/// The entries that share their first component.
struct DirGroup {
    name: Vec<char>,
    items: Vec<PathEntry>,
}

spec fn group_names(groups: Seq<DirGroup>) -> Seq<Seq<char>> {
    groups.map_values(|g: DirGroup| g.name@)
}

/// A loose file in memory.
struct FileName {
    name: Vec<char>,
    index: usize,
}

impl FileName {
    spec fn leaf(self) -> Leaf {
        Leaf { name: self.name@, index: self.index }
    }
}

spec fn leaf_list(items: Seq<FileName>) -> Seq<Leaf> {
    items.map_values(|f: FileName| f.leaf())
}

/// The non-empty components of a path.
fn split_path(path: &str) -> (r: Vec<Vec<char>>)
    ensures
        part_list(r@) == path_parts(path@),
{
    let all = text::chars(path);
    let ps = text::split(&all, '/');
    let mut out: Vec<Vec<char>> = Vec::new();
    let mut i: usize = 0;
    let ghost list = text::slices(ps@);
    let ghost keeps = |p: Seq<char>| p.len() > 0;
    proof {
        reveal(Seq::filter);
        assert(part_list(out@) =~= list.take(0).filter(keeps));
    }
    while i < ps.len()
        invariant
            i <= ps@.len(),
            list == text::slices(ps@),
            keeps == (|p: Seq<char>| p.len() > 0),
            part_list(out@) == list.take(i as int).filter(keeps),
        decreases ps@.len() - i,
    {
        let p = ps[i];
        let ghost before = out@;
        proof {
            reveal(Seq::filter);
            assert(list.take(i + 1).drop_last() =~= list.take(i as int));
            assert(list.take(i + 1).last() == p@);
        }
        if p.len() > 0 {
            let mut part: Vec<char> = Vec::new();
            text::push_all(&mut part, p);
            proof {
                assert(part@ =~= p@);
            }
            out.push(part);
            proof {
                assert(part_list(out@) =~= part_list(before).push(p@));
            }
        }
        i = i + 1;
    }
    proof {
        assert(list.take(i as int) =~= list);
    }
    out
}

/// Where the directory `name` stands, or would stand, among the groups.
fn group_place(groups: &Vec<DirGroup>, name: &[char]) -> (p: usize)
    requires
        names_in_order(group_names(groups@)),
    ensures
        name_place(group_names(groups@), name@, p as int),
{
    let ghost names = group_names(groups@);
    let mut lo: usize = 0;
    let mut hi: usize = groups.len();
    while lo < hi
        invariant
            names == group_names(groups@),
            names_in_order(names),
            lo <= hi <= groups@.len(),
            forall|i: int| 0 <= i < lo ==> #[trigger] name_lt(names[i], name@),
            forall|i: int| hi <= i < names.len() ==> !(#[trigger] name_lt(names[i], name@)),
        decreases hi - lo,
    {
        let mid: usize = lo + (hi - lo) / 2;
        let here = &groups[mid].name;
        proof {
            assert(names[mid as int] == here@);
        }
        if text::not_after(here, name) && !text::same_chars(here, name) {
            proof {
                assert forall|i: int| 0 <= i < mid + 1 implies #[trigger] name_lt(names[i], name@) by {
                    if i < mid {
                        assert(name_lt(names[i], names[mid as int]));
                        name_lt_facts(names[i], names[mid as int], name@);
                    }
                }
            }
            lo = mid + 1;
        } else {
            proof {
                assert forall|i: int| mid <= i < names.len() implies !(#[trigger] name_lt(names[i], name@)) by {
                    if i > mid && name_lt(names[i], name@) {
                        assert(name_lt(names[mid as int], names[i]));
                        name_lt_facts(names[mid as int], names[i], name@);
                    }
                }
            }
            hi = mid;
        }
    }
    lo
}

/// Whether leaf `a` does not come after leaf `b`.
fn leaf_not_after(a: &FileName, b: &FileName) -> (r: bool)
    ensures
        r == leaf_le(a.leaf(), b.leaf()),
{
    if text::same_chars(&a.name, &b.name) {
        a.index <= b.index
    } else {
        text::not_after(&a.name, &b.name)
    }
}

/// Put a loose file at its place.
fn insert_leaf(items: &mut Vec<FileName>, x: FileName)
    requires
        leaves_in_order(leaf_list(old(items)@)),
    ensures
        leaf_list(final(items)@) == with_leaf(leaf_list(old(items)@), x.leaf()),
{
    let ghost leaves = leaf_list(items@);
    let mut lo: usize = 0;
    let mut hi: usize = items.len();
    while lo < hi
        invariant
            leaves == leaf_list(items@),
            leaves_in_order(leaves),
            lo <= hi <= items@.len(),
            forall|i: int| 0 <= i < lo ==> #[trigger] leaf_le(leaves[i], x.leaf()),
            forall|i: int| hi <= i < leaves.len() ==> !(#[trigger] leaf_le(leaves[i], x.leaf())),
        decreases hi - lo,
    {
        let mid: usize = lo + (hi - lo) / 2;
        proof {
            assert(leaves[mid as int] == items@[mid as int].leaf());
        }
        if leaf_not_after(&items[mid], &x) {
            proof {
                assert forall|i: int| 0 <= i < mid + 1 implies #[trigger] leaf_le(leaves[i], x.leaf()) by {
                    if i < mid {
                        assert(leaf_le(leaves[i], leaves[mid as int]));
                        leaf_le_facts(leaves[i], leaves[mid as int], x.leaf());
                    }
                }
            }
            lo = mid + 1;
        } else {
            proof {
                assert forall|i: int| mid <= i < leaves.len() implies !(#[trigger] leaf_le(leaves[i], x.leaf())) by {
                    if i > mid && leaf_le(leaves[i], x.leaf()) {
                        assert(leaf_le(leaves[mid as int], leaves[i]));
                        leaf_le_facts(leaves[mid as int], leaves[i], x.leaf());
                    }
                }
            }
            hi = mid;
        }
    }
    proof {
        with_leaf_at(leaves, x.leaf(), lo as int);
    }
    items.insert(lo, x);
    proof {
        assert(leaf_list(items@) =~= leaves.insert(lo as int, x.leaf()));
    }
}

/// Append the files below the nodes to `out`, in the order in which they are
/// shown. A hunk adds nothing: its file has.
pub fn collect_files(nodes: &Vec<Node>, out: &mut Vec<usize>)
    ensures
        final(out)@ == old(out)@ + files_in(shapes(nodes@)),
    decreases nodes,
{
    let ghost before = out@;
    let ghost all = shapes(nodes@);
    let mut i: usize = 0;
    while i < nodes.len()
        invariant
            i <= nodes@.len(),
            all == shapes(nodes@),
            out@ == before + files_in(all.take(i as int)),
        decreases nodes@.len() - i,
    {
        let n = &nodes[i];
        proof {
            assert(all.take(i + 1).drop_last() =~= all.take(i as int));
            assert(all.take(i + 1).last() == n.shape());
            shape_children(*n);
            assert(files_in(all.take(i + 1)) == files_in(all.take(i as int)) + files_of(n.shape()));
            assert(files_of(n.shape()) == match n.kind {
                NodeKind::File { index, .. } => seq![index],
                NodeKind::Dir => files_in(shapes(n.children@)),
                NodeKind::Hunk { .. } => seq![],
            });
        }
        match n.kind {
            NodeKind::File { index, .. } => out.push(index),
            NodeKind::Dir => {
                collect_files(&n.children, out);
            },
            NodeKind::Hunk { .. } => {},
        }
        proof {
            assert(out@ =~= before + files_in(all.take(i + 1)));
        }
        i = i + 1;
    }
    proof {
        assert(all.take(i as int) =~= all);
    }
}

/// A directory node; merged with its child if that is its only one and a
/// directory.
fn dir_node(name: &[char], path: &[char], children: Vec<Node>) -> (r: Node)
    ensures
        r.shape() == dir_shape(name@, path@, shapes(children@)),
{
    let mut children = children;
    let ghost kids = shapes(children@);
    let mut files: Vec<usize> = Vec::new();
    collect_files(&children, &mut files);
    let mut label = text::text(name);
    proof {
        assert(files@ =~= files_in(kids));
    }
    if children.len() == 1 && children[0].is_dir() {
        let child = children.remove(0);
        label.push('/');
        label.append(child.label.as_str());
        proof {
            assert(kids[0] == child.shape());
            assert(label@ =~= name@ + seq!['/'] + child.label@);
            shape_children(child);
        }
        let r = Node {
            label,
            path: child.path,
            kind: NodeKind::Dir,
            children: child.children,
            files,
        };
        proof {
            shape_children(r);
        }
        r
    } else {
        let r = Node { label, path: text::text(path), kind: NodeKind::Dir, children, files };
        proof {
            shape_children(r);
            if kids.len() == 1 {
                assert(kids[0] == children@[0].shape());
            }
        }
        r
    }
}

/// The path of `name` in the directory `prefix`.
fn path_in(prefix: &[char], name: &[char]) -> (r: Vec<char>)
    ensures
        r@ == child_path(prefix@, name@),
{
    let mut out: Vec<char> = Vec::new();
    text::push_all(&mut out, prefix);
    if prefix.len() > 0 {
        out.push('/');
    }
    text::push_all(&mut out, name);
    proof {
        assert(out@ =~= child_path(prefix@, name@));
    }
    out
}

/// The node of a file, with a row for each of its hunk labels.
fn file_node(prefix: &[char], file: &FileName, kind: ChangeKind, labels: &Vec<String>) -> (r: Node)
    ensures
        r.shape() == (Shape {
            label: file.name@,
            path: child_path(prefix@, file.name@),
            kind: NodeKind::File { index: file.index, kind },
            children: hunk_shapes(child_path(prefix@, file.name@), file.index, texts(labels@)),
            files: seq![file.index],
        }),
{
    let path = text::text(&path_in(prefix, &file.name));
    let mut rows: Vec<Node> = Vec::new();
    let ghost all = hunk_shapes(path@, file.index, texts(labels@));
    let mut k: usize = 0;
    while k < labels.len()
        invariant
            k <= labels@.len(),
            all == hunk_shapes(path@, file.index, texts(labels@)),
            shapes(rows@) == all.take(k as int),
        decreases labels@.len() - k,
    {
        let ghost before = rows@;
        let row = Node {
            label: labels[k].clone(),
            path: path.clone(),
            kind: NodeKind::Hunk { file_index: file.index, hunk_index: k },
            children: Vec::new(),
            files: vec![file.index],
        };
        rows.push(row);
        proof {
            shape_children(row);
            assert(shapes(row.children@) =~= seq![]);
            assert(row.files@ =~= seq![file.index]);
            assert(row.shape() == all[k as int]);
            assert(shapes(rows@) =~= shapes(before).push(row.shape()));
            assert(all.take(k + 1) =~= all.take(k as int).push(all[k as int]));
        }
        k = k + 1;
    }
    let r = Node {
        label: text::text(&file.name),
        path,
        kind: NodeKind::File { index: file.index, kind },
        children: rows,
        files: vec![file.index],
    };
    proof {
        assert(all.take(k as int) =~= all);
        shape_children(r);
        assert(r.files@ =~= seq![file.index]);
    }
    r
}

/// The groups hold what lies in their directories.
spec fn groups_hold(groups: Seq<DirGroup>, entries: Seq<Entry>) -> bool {
    forall|k: int|
        0 <= k < groups.len() ==> entry_list((#[trigger] groups[k]).items@) == under(
            entries,
            groups[k].name@,
        )
}

/// Sort the entries into the directories they lie in and the loose files.
fn group_entries(entries: Vec<PathEntry>) -> (r: (Vec<DirGroup>, Vec<FileName>))
    ensures
        group_names(r.0@) == dir_names(entry_list(entries@)),
        groups_hold(r.0@, entry_list(entries@)),
        leaf_list(r.1@) == leaves_of(entry_list(entries@)),
{
    let ghost list = entry_list(entries@);
    let mut groups: Vec<DirGroup> = Vec::new();
    let mut files: Vec<FileName> = Vec::new();
    proof {
        assert(group_names(groups@) =~= dir_names(list.take(0)));
        assert(leaf_list(files@) =~= leaves_of(list.take(0)));
    }
    for e in it: entries
        invariant
            it.seq() == entries@,
            list == entry_list(entries@),
            group_names(groups@) == dir_names(list.take(it.index())),
            groups_hold(groups@, list.take(it.index())),
            leaf_list(files@) == leaves_of(list.take(it.index())),
    {
        let ghost i = it.index();
        let ghost done = list.take(i);
        let ghost next = list.take(i + 1);
        let ghost x = e.entry();
        proof {
            assert(next.drop_last() =~= done);
            assert(next.last() == x);
            dir_names_facts(done);
            leaves_facts(done);
        }
        let mut parts = e.parts;
        let index = e.index;
        if parts.len() <= 1 {
            let name: Vec<char> = if parts.len() == 1 {
                parts.remove(0)
            } else {
                Vec::new()
            };
            proof {
                assert(name@ =~= leaf_name(x));
            }
            insert_leaf(&mut files, FileName { name, index });
            proof {
                assert forall|k: int| 0 <= k < groups@.len() implies entry_list((#[trigger] groups@[k]).items@)
                    == under(next, groups@[k].name@) by {
                    assert(entry_list(groups@[k].items@) == under(done, groups@[k].name@));
                }
            }
        } else {
            let head = parts.remove(0);
            let ghost tail = Entry { parts: x.parts.drop_first(), index: x.index };
            let p = group_place(&groups, &head);
            let ghost names = group_names(groups@);
            let ghost before = groups@;
            let rest = PathEntry { parts, index };
            proof {
                assert(head@ == x.parts[0]);
                assert(part_list(parts@) =~= x.parts.drop_first());
                assert(rest.entry() == tail);
                with_name_at(names, head@, p as int);
            }
            if p < groups.len() && text::same_chars(&groups[p].name, &head) {
                groups[p].items.push(rest);
                proof {
                    assert(names[p as int] == head@);
                    assert(group_names(groups@) =~= names);
                    assert forall|k: int| 0 <= k < groups@.len() implies entry_list((#[trigger] groups@[k]).items@)
                        == under(next, groups@[k].name@) by {
                        assert(entry_list(before[k].items@) == under(done, before[k].name@));
                        if k == p {
                            assert(entry_list(groups@[k].items@) =~= entry_list(before[k].items@).push(tail));
                        } else if k < p {
                            assert(name_lt(names[k], names[p as int]));
                        } else {
                            assert(name_lt(names[p as int], names[k]));
                        }
                    }
                }
            } else {
                proof {
                    if p < groups@.len() {
                        assert(names[p as int] == before[p as int].name@);
                    }
                    assert(!names.contains(head@)) by {
                        if names.contains(head@) {
                            let k = choose|k: int| 0 <= k < names.len() && names[k] == head@;
                            if k < p {
                                assert(name_lt(names[k], head@));
                            } else if k > p {
                                assert(name_lt(names[p as int], names[k]));
                                assert(!name_lt(names[p as int], head@));
                            }
                        }
                    }
                    assert(under(done, head@).len() == 0);
                }
                let mut items: Vec<PathEntry> = Vec::new();
                items.push(rest);
                let group = DirGroup { name: head, items };
                groups.insert(p, group);
                proof {
                    assert(group_names(groups@) =~= names.insert(p as int, head@));
                    assert(entry_list(items@) =~= under(done, head@).push(tail));
                    assert forall|k: int| 0 <= k < groups@.len() implies entry_list((#[trigger] groups@[k]).items@)
                        == under(next, groups@[k].name@) by {
                        if k != p {
                            let j = if k < p { k } else { k - 1 };
                            assert(groups@[k] == before[j]);
                            assert(entry_list(before[j].items@) == under(done, before[j].name@));
                            assert(names[j] == before[j].name@);
                        }
                    }
                }
            }
        }
    }
    proof {
        assert(list.take(list.len() as int) =~= list);
    }
    (groups, files)
}

/// The nodes below `prefix`: the directories in order, then the loose files in
/// order.
fn build_nodes(
    prefix: &[char],
    entries: Vec<PathEntry>,
    changes: &[FileChange],
    labels: &[Vec<String>],
) -> (r: Vec<Node>)
    requires
        labels@.len() >= changes@.len(),
        forall|k: int| 0 <= k < entries@.len() ==> (#[trigger] entries@[k]).index < changes@.len(),
    ensures
        shapes(r@) == forest(prefix@, entry_list(entries@), changes@, label_lists(labels@)),
    decreases weight(entry_list(entries@)),
{
    let ghost list = entry_list(entries@);
    let ghost lists = label_lists(labels@);
    let ghost ends = changes@;
    proof {
        assert forall|k: int| 0 <= k < list.len() implies (#[trigger] list[k]).index < ends.len() by {
            assert(entries@[k].index < changes@.len());
        }
        leaves_bounded(list, changes@.len() as int);
        dir_names_facts(list);
    }
    let (groups, files) = group_entries(entries);
    let ghost names = dir_names(list);
    let mut nodes: Vec<Node> = Vec::new();
    proof {
        assert(shapes(nodes@) =~= dir_shapes(prefix@, list, names.take(0), ends, lists));
        assert(group_names(groups@).len() == names.len());
    }
    for g in it: groups
        invariant
            it.seq() == groups@,
            group_names(groups@) == names,
            groups_hold(groups@, list),
            names == dir_names(list),
            forall|x: Seq<char>| #[trigger] names.contains(x) <==> under(list, x).len() > 0,
            list == entry_list(entries@),
            lists == label_lists(labels@),
            ends == changes@,
            labels@.len() >= changes@.len(),
            forall|k: int| 0 <= k < list.len() ==> (#[trigger] list[k]).index < ends.len(),
            shapes(nodes@) == dir_shapes(prefix@, list, names.take(it.index()), ends, lists),
    {
        let ghost i = it.index();
        let ghost before = nodes@;
        proof {
            assert(groups@[i] == g);
            assert(names[i] == g.name@);
            assert(names.contains(g.name@));
            assert(names.take(i + 1).drop_last() =~= names.take(i));
            under_is_lighter(list, g.name@);
            under_bounded(list, g.name@, changes@.len() as int);
            let inner = under(list, g.name@);
            assert forall|k: int| 0 <= k < g.items@.len() implies (#[trigger] g.items@[k]).index < changes@.len() by {
                assert(entry_list(g.items@)[k] == g.items@[k].entry());
                assert(inner[k].index < changes@.len());
            }
        }
        let path = path_in(prefix, &g.name);
        let children = build_nodes(&path, g.items, changes, labels);
        let node = dir_node(&g.name, &path, children);
        nodes.push(node);
        proof {
            assert(shapes(nodes@) =~= shapes(before).push(node.shape()));
        }
    }
    proof {
        assert(names.take(names.len() as int) =~= names);
    }
    let ghost dirs = shapes(nodes@);
    let ghost leaves = leaves_of(list);
    let ghost rows = file_shapes(prefix@, leaves, ends, lists);
    let mut k: usize = 0;
    proof {
        assert(leaf_list(files@).len() == leaves.len());
        assert(dirs + rows.take(0) =~= dirs);
    }
    while k < files.len()
        invariant
            k <= files@.len(),
            leaf_list(files@) == leaves,
            rows == file_shapes(prefix@, leaves, changes@, label_lists(labels@)),
            shapes(nodes@) == dirs + rows.take(k as int),
            labels@.len() >= changes@.len(),
            forall|j: int| 0 <= j < leaves.len() ==> (#[trigger] leaves[j]).index < changes@.len(),
        decreases files@.len() - k,
    {
        let ghost before = nodes@;
        let file = &files[k];
        proof {
            assert(leaves[k as int] == file.leaf());
        }
        let node = file_node(prefix, file, changes[file.index].kind, &labels[file.index]);
        nodes.push(node);
        proof {
            assert(shapes(nodes@) =~= shapes(before).push(node.shape()));
            assert(rows[k as int] == node.shape());
            assert(dirs + rows.take(k + 1) =~= (dirs + rows.take(k as int)).push(rows[k as int]));
        }
        k = k + 1;
    }
    proof {
        assert(rows.take(k as int) =~= rows);
    }
    nodes
}

/// A bound on the indices of the entries holds of the leaves.
pub proof fn leaves_bounded(entries: Seq<Entry>, n: int)
    requires
        forall|k: int| 0 <= k < entries.len() ==> (#[trigger] entries[k]).index < n,
    ensures
        forall|k: int| 0 <= k < leaves_of(entries).len() ==> (#[trigger] leaves_of(entries)[k]).index < n,
    decreases entries.len(),
{
    if entries.len() > 0 {
        let rest = entries.drop_last();
        assert forall|k: int| 0 <= k < rest.len() implies (#[trigger] rest[k]).index < n by {
            assert(entries[k].index < n);
        }
        leaves_bounded(rest, n);
        let e = entries.last();
        assert(entries[entries.len() - 1].index < n);
        if is_leaf(e) {
            leaves_facts(rest);
            let x = Leaf { name: leaf_name(e), index: e.index };
            let p = leaf_has_place(leaves_of(rest), x);
            with_leaf_at(leaves_of(rest), x, p);
            let out = leaves_of(entries);
            assert forall|k: int| 0 <= k < out.len() implies (#[trigger] out[k]).index < n by {
                if k < p {
                    assert(leaves_of(rest)[k].index < n);
                } else if k > p {
                    assert(leaves_of(rest)[k - 1].index < n);
                }
            }
        }
    }
}

/// A bound on the indices of the entries holds one directory down.
pub proof fn under_bounded(entries: Seq<Entry>, name: Seq<char>, n: int)
    requires
        forall|k: int| 0 <= k < entries.len() ==> (#[trigger] entries[k]).index < n,
    ensures
        forall|k: int| 0 <= k < under(entries, name).len() ==> (#[trigger] under(entries, name)[k]).index < n,
    decreases entries.len(),
{
    if entries.len() > 0 {
        let rest = entries.drop_last();
        assert forall|k: int| 0 <= k < rest.len() implies (#[trigger] rest[k]).index < n by {
            assert(entries[k].index < n);
        }
        under_bounded(rest, name, n);
        assert(entries[entries.len() - 1].index < n);
        let out = under(entries, name);
        let before = under(rest, name);
        assert forall|k: int| 0 <= k < out.len() implies (#[trigger] out[k]).index < n by {
            if k < before.len() {
                assert(before[k].index < n);
            }
        }
    }
}

/// The forest over the changes whose indices are in `keep`.
pub fn build_view(changes: &[FileChange], keep: &[usize], labels: &[Vec<String>]) -> (r: Vec<Node>)
    requires
        labels@.len() >= changes@.len(),
        forall|k: int| 0 <= k < keep@.len() ==> #[trigger] keep@[k] < changes@.len(),
    ensures
        shapes(r@) == view_of(changes@, keep@, label_lists(labels@)),
{
    let mut entries: Vec<PathEntry> = Vec::new();
    let mut k: usize = 0;
    let ghost all = entries_of(changes@, keep@);
    while k < keep.len()
        invariant
            k <= keep@.len(),
            all == entries_of(changes@, keep@),
            forall|j: int| 0 <= j < keep@.len() ==> #[trigger] keep@[j] < changes@.len(),
            entry_list(entries@) == all.take(k as int),
            forall|j: int| 0 <= j < entries@.len() ==> (#[trigger] entries@[j]).index < changes@.len(),
        decreases keep@.len() - k,
    {
        let ghost before = entries@;
        let index = keep[k];
        let entry = PathEntry { parts: split_path(changes[index].path.as_str()), index };
        entries.push(entry);
        proof {
            assert(entry_list(entries@) =~= entry_list(before).push(entry.entry()));
            assert(all[k as int] == entry.entry());
            assert(all.take(k + 1) =~= all.take(k as int).push(all[k as int]));
        }
        k = k + 1;
    }
    proof {
        assert(all.take(k as int) =~= all);
    }
    let prefix: Vec<char> = Vec::new();
    proof {
        assert(prefix@ =~= seq![]);
    }
    build_nodes(&prefix, entries, changes, labels)
}

} // verus!
