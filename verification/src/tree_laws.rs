//! What holds of every forest: its directories are compressed and listed before
//! the loose files, each file stands in it once and under its path, no two nodes share an
//! identifier, and a search by identifier finds the node it belongs to.

use vstd::prelude::*;
use vstd::multiset::Multiset;

use crate::forest::{
    child_path, dir_names, dir_names_facts, dir_shape, dir_shapes, entries_of, file_shape,
    file_shapes, files_in, files_of, forest, hunk_shapes, is_leaf, leaf_has_place, leaf_le,
    leaf_name, leaves_bounded, leaves_facts, leaves_in_order, leaves_of, name_lt, names_in_order,
    path_parts, under, under_bounded, under_is_lighter, view_of, weight, with_leaf_at, Entry, Leaf,
};
use crate::model::FileChange;
use crate::text::{
    decimal_facts, decimal_injective, decimal_of, has_prefix, joined, joined_front, pieces,
    pieces_join_back, position, position_facts, position_is,
};
use crate::tree::{descends, find_in, id_of, node_within, tree_within, NodeKind, Shape};

verus! {

// ----- each file once --------------------------------------------------------------

/// The indices of the entries.
pub open spec fn indices(entries: Seq<Entry>) -> Seq<usize> {
    entries.map_values(|e: Entry| e.index)
}

/// The indices of the leaves.
pub open spec fn leaf_indices(leaves: Seq<Leaf>) -> Seq<usize> {
    leaves.map_values(|l: Leaf| l.index)
}

/// The files below two lists of nodes.
pub proof fn files_in_concat(a: Seq<Shape>, b: Seq<Shape>)
    ensures
        files_in(a + b) == files_in(a) + files_in(b),
    decreases b.len(),
{
    if b.len() == 0 {
        assert(a + b =~= a);
        assert(files_in(a) + files_in(b) =~= files_in(a));
    } else {
        files_in_concat(a, b.drop_last());
        assert((a + b).drop_last() =~= a + b.drop_last());
        assert((a + b).last() == b.last());
        assert(files_in(a + b) =~= files_in(a) + files_in(b));
    }
}

/// The files below one node.
proof fn files_in_one(n: Shape)
    ensures
        files_in(seq![n]) == files_of(n),
{
    let s = seq![n];
    assert(s.drop_last() =~= seq![]);
    assert(files_in(s.drop_last()) =~= seq![]);
    assert(files_in(s) == files_in(s.drop_last()) + files_of(s.last()));
    assert(files_in(s) =~= files_of(n));
}

/// Merging a directory with its only child loses no file.
proof fn dir_shape_files(name: Seq<char>, path: Seq<char>, kids: Seq<Shape>)
    ensures
        files_of(dir_shape(name, path, kids)) == files_in(kids),
        dir_shape(name, path, kids).files == files_in(kids),
        dir_shape(name, path, kids).kind is Dir,
{
    if kids.len() == 1 && kids[0].kind is Dir {
        assert(kids =~= seq![kids[0]]);
        files_in_one(kids[0]);
    }
}

/// The file nodes hold the files of the leaves.
proof fn file_shapes_files(
    prefix: Seq<char>,
    leaves: Seq<Leaf>,
    changes: Seq<FileChange>,
    labels: Seq<Seq<Seq<char>>>,
)
    ensures
        files_in(file_shapes(prefix, leaves, changes, labels)) == leaf_indices(leaves),
    decreases leaves.len(),
{
    let all = file_shapes(prefix, leaves, changes, labels);
    if leaves.len() == 0 {
        assert(files_in(all) =~= leaf_indices(leaves));
    } else {
        file_shapes_files(prefix, leaves.drop_last(), changes, labels);
        assert(all.drop_last() =~= file_shapes(prefix, leaves.drop_last(), changes, labels));
        assert(files_of(all.last()) == seq![leaves.last().index]);
        assert(files_in(all) =~= leaf_indices(leaves));
    }
}

/// The indices that lie in the named directories.
spec fn dir_sum(entries: Seq<Entry>, names: Seq<Seq<char>>) -> Multiset<usize>
    decreases names.len(),
{
    if names.len() == 0 {
        Multiset::empty()
    } else {
        dir_sum(entries, names.drop_last()).add(
            indices(under(entries, names.last())).to_multiset(),
        )
    }
}

/// The sum over directories after one more entry.
proof fn dir_sum_step(entries: Seq<Entry>, e: Entry, names: Seq<Seq<char>>)
    requires
        names.no_duplicates(),
    ensures
        dir_sum(entries.push(e), names) == if !is_leaf(e) && names.contains(e.parts[0]) {
            dir_sum(entries, names).insert(e.index)
        } else {
            dir_sum(entries, names)
        },
    decreases names.len(),
{
    broadcast use vstd::seq_lib::group_to_multiset_ensures;

    let all = entries.push(e);
    assert(all.drop_last() =~= entries);
    if names.len() > 0 {
        let rest = names.drop_last();
        let name = names.last();
        dir_sum_step(entries, e, rest);
        assert(names =~= rest.push(name));
        if !is_leaf(e) && e.parts[0] == name {
            let x = Entry { parts: e.parts.drop_first(), index: e.index };
            assert(under(all, name) == under(entries, name).push(x));
            assert(indices(under(all, name)) =~= indices(under(entries, name)).push(e.index));
            if rest.contains(name) {
                let k = choose|k: int| 0 <= k < rest.len() && rest[k] == name;
                assert(names[k] == names[names.len() - 1]);
            }
            assert(names[names.len() - 1] == name);
            assert(names.contains(name));
            assert(dir_sum(all, names) =~= dir_sum(entries, names).insert(e.index));
        } else {
            assert(under(all, name) == under(entries, name));
            if !is_leaf(e) {
                if rest.contains(e.parts[0]) {
                    let k = choose|k: int| 0 <= k < rest.len() && rest[k] == e.parts[0];
                    assert(names[k] == e.parts[0]);
                    assert(names.contains(e.parts[0]));
                    assert(dir_sum(all, names) =~= dir_sum(entries, names).insert(e.index));
                } else if names.contains(e.parts[0]) {
                    let k = choose|k: int| 0 <= k < names.len() && names[k] == e.parts[0];
                    assert(rest[k] == e.parts[0]);
                }
            }
        }
    }
}

/// Of no entries nothing lies anywhere.
proof fn dir_sum_empty(names: Seq<Seq<char>>)
    ensures
        dir_sum(seq![], names) == Multiset::<usize>::empty(),
    decreases names.len(),
{
    broadcast use vstd::seq_lib::group_to_multiset_ensures;

    if names.len() > 0 {
        dir_sum_empty(names.drop_last());
        let none = indices(under(seq![], names.last()));
        assert(none =~= seq![]);
        assert(none.to_multiset() =~= Multiset::<usize>::empty());
        assert(dir_sum(seq![], names) =~= Multiset::<usize>::empty());
    }
}

/// Every entry is a loose file, or lies in one of the named directories.
proof fn entries_add_up(entries: Seq<Entry>, names: Seq<Seq<char>>)
    requires
        names.no_duplicates(),
        forall|k: int|
            0 <= k < entries.len() && !is_leaf(#[trigger] entries[k]) ==> names.contains(
                entries[k].parts[0],
            ),
    ensures
        dir_sum(entries, names).add(leaf_indices(leaves_of(entries)).to_multiset()) == indices(
            entries,
        ).to_multiset(),
    decreases entries.len(),
{
    broadcast use vstd::seq_lib::group_to_multiset_ensures;

    if entries.len() == 0 {
        assert(entries =~= seq![]);
        dir_sum_empty(names);
        assert(leaf_indices(leaves_of(entries)) =~= seq![]);
        assert(indices(entries) =~= seq![]);
        let no: Seq<usize> = seq![];
        assert(no.to_multiset() =~= Multiset::<usize>::empty());
        assert(dir_sum(entries, names).add(no.to_multiset()) =~= no.to_multiset());
    } else {
        let rest = entries.drop_last();
        let e = entries.last();
        assert(entries =~= rest.push(e));
        assert forall|k: int| 0 <= k < rest.len() && !is_leaf(#[trigger] rest[k]) implies names.contains(
            rest[k].parts[0],
        ) by {
            assert(entries[k] == rest[k]);
        }
        entries_add_up(rest, names);
        dir_sum_step(rest, e, names);
        assert(indices(entries) =~= indices(rest).push(e.index));
        let all = dir_sum(entries, names).add(leaf_indices(leaves_of(entries)).to_multiset());
        assert(entries[entries.len() - 1] == e);
        if is_leaf(e) {
            let x = Leaf { name: leaf_name(e), index: e.index };
            let before = leaves_of(rest);
            leaves_facts(rest);
            let p = leaf_has_place(before, x);
            with_leaf_at(before, x, p);
            assert(leaf_indices(leaves_of(entries)) =~= leaf_indices(before).insert(p, e.index));
            vstd::seq_lib::to_multiset_insert(leaf_indices(before), p, e.index);
            assert(all =~= indices(entries).to_multiset());
        } else {
            assert(all =~= indices(entries).to_multiset());
        }
    }
}

/// The directory names are without repetition and cover every entry that is no
/// loose file.
proof fn dir_names_cover(entries: Seq<Entry>)
    ensures
        dir_names(entries).no_duplicates(),
        forall|k: int|
            0 <= k < entries.len() && !is_leaf(#[trigger] entries[k]) ==> dir_names(
                entries,
            ).contains(entries[k].parts[0]),
{
    dir_names_facts(entries);
    let names = dir_names(entries);
    assert forall|i: int, j: int| 0 <= i < names.len() && 0 <= j < names.len() && i != j implies names[i]
        != names[j] by {
        if i < j {
            assert(name_lt(names[i], names[j]));
        } else {
            assert(name_lt(names[j], names[i]));
        }
    }
    assert forall|k: int| 0 <= k < entries.len() && !is_leaf(#[trigger] entries[k]) implies names.contains(
        entries[k].parts[0],
    ) by {
        under_has(entries, k);
    }
}

/// What lies in a directory is found there.
proof fn under_has(entries: Seq<Entry>, k: int)
    requires
        0 <= k < entries.len(),
        !is_leaf(entries[k]),
    ensures
        under(entries, entries[k].parts[0]).len() > 0,
    decreases entries.len(),
{
    if k < entries.len() - 1 {
        under_has(entries.drop_last(), k);
    }
}

/// The named directories hold the files that lie in them.
proof fn dirs_files(
    prefix: Seq<char>,
    entries: Seq<Entry>,
    names: Seq<Seq<char>>,
    changes: Seq<FileChange>,
    labels: Seq<Seq<Seq<char>>>,
)
    ensures
        files_in(dir_shapes(prefix, entries, names, changes, labels)).to_multiset() == dir_sum(
            entries,
            names,
        ),
    decreases weight(entries), 0nat, names.len(),
{
    broadcast use vstd::seq_lib::group_to_multiset_ensures;

    let none: Seq<usize> = seq![];
    assert(none.to_multiset() =~= Multiset::<usize>::empty());
    let all = dir_shapes(prefix, entries, names, changes, labels);
    if names.len() == 0 {
        assert(files_in(all) =~= none);
    } else {
        let rest = names.drop_last();
        let name = names.last();
        let path = child_path(prefix, name);
        let before = dir_shapes(prefix, entries, rest, changes, labels);
        dirs_files(prefix, entries, rest, changes, labels);
        under_is_lighter(entries, name);
        if under(entries, name).len() > 0 {
            let kids = forest(path, under(entries, name), changes, labels);
            forest_files(path, under(entries, name), changes, labels);
            dir_shape_files(name, path, kids);
            let node = dir_shape(name, path, kids);
            assert(all =~= before.push(node));
            assert(all.drop_last() =~= before);
            assert(files_in(all) == files_in(before) + files_in(kids));
            vstd::seq_lib::lemma_multiset_commutative(files_in(before), files_in(kids));
        } else {
            assert(indices(under(entries, name)) =~= none);
            assert(dir_sum(entries, names) =~= dir_sum(entries, rest));
        }
    }
}

/// A forest holds the files of its entries, each as often as it is an entry.
proof fn forest_files(
    prefix: Seq<char>,
    entries: Seq<Entry>,
    changes: Seq<FileChange>,
    labels: Seq<Seq<Seq<char>>>,
)
    ensures
        files_in(forest(prefix, entries, changes, labels)).to_multiset() == indices(
            entries,
        ).to_multiset(),
    decreases weight(entries), 1nat, 0nat,
{
    let names = dir_names(entries);
    let dirs = dir_shapes(prefix, entries, names, changes, labels);
    let files = file_shapes(prefix, leaves_of(entries), changes, labels);
    dirs_files(prefix, entries, names, changes, labels);
    file_shapes_files(prefix, leaves_of(entries), changes, labels);
    files_in_concat(dirs, files);
    vstd::seq_lib::lemma_multiset_commutative(files_in(dirs), files_in(files));
    dir_names_cover(entries);
    entries_add_up(entries, names);
}

/// In a view each kept file stands once, under its own index: narrowing the view
/// renumbers nothing.
pub proof fn view_holds_each_file(
    changes: Seq<FileChange>,
    keep: Seq<usize>,
    labels: Seq<Seq<Seq<char>>>,
)
    ensures
        files_in(view_of(changes, keep, labels)).to_multiset() == keep.to_multiset(),
        files_in(view_of(changes, keep, labels)).len() == keep.len(),
        forall|i: usize|
            #[trigger] files_in(view_of(changes, keep, labels)).contains(i) <==> keep.contains(i),
{
    broadcast use vstd::seq_lib::group_to_multiset_ensures;

    let entries = entries_of(changes, keep);
    let shown = files_in(view_of(changes, keep, labels));
    forest_files(seq![], entries, changes, labels);
    assert(indices(entries) =~= keep);
    assert(shown.len() == shown.to_multiset().len());
    assert(keep.len() == keep.to_multiset().len());
    assert forall|i: usize| #[trigger] shown.contains(i) <==> keep.contains(i) by {
        assert(shown.contains(i) <==> shown.to_multiset().count(i) > 0);
        assert(keep.contains(i) <==> keep.to_multiset().count(i) > 0);
    }
}

// ----- shape -------------------------------------------------------------------------

/// None of the nodes is the row of a hunk.
pub open spec fn no_rows(nodes: Seq<Shape>) -> bool {
    forall|k: int| 0 <= k < nodes.len() ==> !((#[trigger] nodes[k]).kind is Hunk)
}

/// The node refers to files below `len` only. A directory knows the files below
/// it, is not empty, holds directories and files only and is no mere step to another
/// directory. A file has hunk rows only, its own, in order. A hunk has nothing below it.
pub open spec fn node_tidy(n: Shape, len: int) -> bool {
    &&& node_within(n, len)
    &&& match n.kind {
        NodeKind::Dir => {
            &&& n.files == files_in(n.children)
            &&& n.children.len() > 0
            &&& !(n.children.len() == 1 && n.children[0].kind is Dir)
            &&& no_rows(n.children)
        },
        NodeKind::File { index, .. } => {
            &&& n.files == seq![index]
            &&& forall|k: int|
                0 <= k < n.children.len() ==> (#[trigger] n.children[k]).kind == (NodeKind::Hunk {
                    file_index: index,
                    hunk_index: k as usize,
                }) && n.children[k].path == n.path
        },
        NodeKind::Hunk { file_index, .. } => n.files == seq![file_index] && n.children.len() == 0,
    }
}

/// Directories come before everything else.
pub open spec fn dirs_first(nodes: Seq<Shape>) -> bool {
    forall|i: int, j: int|
        0 <= i < j < nodes.len() && (#[trigger] nodes[j]).kind is Dir ==> (
        #[trigger] nodes[i]).kind is Dir
}

/// Every list of nodes in the tree has its directories first and tidy nodes only.
pub open spec fn tidy(nodes: Seq<Shape>, len: int) -> bool
    decreases nodes,
{
    &&& dirs_first(nodes)
    &&& forall|k: int|
        0 <= k < nodes.len() ==> node_tidy(#[trigger] nodes[k], len) && tidy(nodes[k].children, len)
}

/// A tidy tree refers to files below `len` only.
pub proof fn tidy_within(nodes: Seq<Shape>, len: int)
    requires
        tidy(nodes, len),
    ensures
        tree_within(nodes, len),
    decreases nodes,
{
    assert forall|k: int| 0 <= k < nodes.len() implies node_within(#[trigger] nodes[k], len)
        && tree_within(nodes[k].children, len) by {
        assert(node_tidy(nodes[k], len));
        tidy_within(nodes[k].children, len);
    }
}

/// The file nodes are tidy.
proof fn files_tidy(
    prefix: Seq<char>,
    leaves: Seq<Leaf>,
    changes: Seq<FileChange>,
    labels: Seq<Seq<Seq<char>>>,
    len: int,
)
    requires
        forall|k: int| 0 <= k < leaves.len() ==> (#[trigger] leaves[k]).index < len,
    ensures
        tidy(file_shapes(prefix, leaves, changes, labels), len),
        forall|k: int|
            0 <= k < leaves.len() ==> (#[trigger] file_shapes(prefix, leaves, changes, labels)[k]).kind is File,
{
    let all = file_shapes(prefix, leaves, changes, labels);
    assert forall|k: int| 0 <= k < all.len() implies node_tidy(#[trigger] all[k], len) && tidy(
        all[k].children,
        len,
    ) by {
        assert(leaves[k].index < len);
        let kids = all[k].children;
        assert forall|j: int| 0 <= j < kids.len() implies node_tidy(#[trigger] kids[j], len) && tidy(
            kids[j].children,
            len,
        ) by {
            assert(kids[j].children =~= seq![]);
        }
    }
}

proof fn dirs_tidy(
    prefix: Seq<char>,
    entries: Seq<Entry>,
    names: Seq<Seq<char>>,
    changes: Seq<FileChange>,
    labels: Seq<Seq<Seq<char>>>,
    len: int,
)
    requires
        forall|k: int| 0 <= k < entries.len() ==> (#[trigger] entries[k]).index < len,
    ensures
        tidy(dir_shapes(prefix, entries, names, changes, labels), len),
        forall|k: int|
            0 <= k < dir_shapes(prefix, entries, names, changes, labels).len() ==> (
            #[trigger] dir_shapes(prefix, entries, names, changes, labels)[k]).kind is Dir,
    decreases weight(entries), 0nat, names.len(),
{
    if names.len() > 0 {
        let rest = names.drop_last();
        let name = names.last();
        let path = child_path(prefix, name);
        let before = dir_shapes(prefix, entries, rest, changes, labels);
        dirs_tidy(prefix, entries, rest, changes, labels, len);
        under_is_lighter(entries, name);
        let inner = under(entries, name);
        if inner.len() > 0 {
            let all = dir_shapes(prefix, entries, names, changes, labels);
            let kids = forest(path, inner, changes, labels);
            let node = dir_shape(name, path, kids);
            under_bounded(entries, name, len);
            forest_tidy(path, inner, changes, labels, len);
            forest_files(path, inner, changes, labels);
            dir_shape_files(name, path, kids);
            assert(all =~= before.push(node));
            broadcast use vstd::seq_lib::group_to_multiset_ensures;

            assert(indices(inner).to_multiset().len() == inner.len());
            assert(files_in(kids).to_multiset().len() == files_in(kids).len());
            if kids.len() == 0 {
                assert(files_in(kids) =~= seq![]);
            }
            assert forall|k: int| 0 <= k < files_in(kids).len() implies #[trigger] files_in(kids)[k] < len by {
                let i = files_in(kids)[k];
                assert(files_in(kids).contains(i));
                assert(indices(inner).to_multiset().count(i) > 0);
                assert(indices(inner).contains(i));
                let j = choose|j: int| 0 <= j < inner.len() && indices(inner)[j] == i;
                assert(inner[j].index == i);
            }
            if kids.len() == 1 && kids[0].kind is Dir {
                assert(node_tidy(kids[0], len) && tidy(kids[0].children, len));
                assert(kids =~= seq![kids[0]]);
                files_in_one(kids[0]);
            }
            assert(node_tidy(node, len) && tidy(node.children, len));
            assert forall|k: int| 0 <= k < all.len() implies node_tidy(#[trigger] all[k], len) && tidy(
                all[k].children,
                len,
            ) && all[k].kind is Dir by {
                if k < before.len() {
                    assert(node_tidy(before[k], len) && tidy(before[k].children, len));
                }
            }
        }
    }
}

proof fn forest_tidy(
    prefix: Seq<char>,
    entries: Seq<Entry>,
    changes: Seq<FileChange>,
    labels: Seq<Seq<Seq<char>>>,
    len: int,
)
    requires
        forall|k: int| 0 <= k < entries.len() ==> (#[trigger] entries[k]).index < len,
    ensures
        tidy(forest(prefix, entries, changes, labels), len),
        no_rows(forest(prefix, entries, changes, labels)),
    decreases weight(entries), 1nat, 0nat,
{
    let names = dir_names(entries);
    let dirs = dir_shapes(prefix, entries, names, changes, labels);
    let leaves = leaves_of(entries);
    let files = file_shapes(prefix, leaves, changes, labels);
    dirs_tidy(prefix, entries, names, changes, labels, len);
    leaves_bounded(entries, len);
    files_tidy(prefix, leaves, changes, labels, len);
    let all = forest(prefix, entries, changes, labels);
    assert(all =~= dirs + files);
    assert forall|k: int| 0 <= k < all.len() implies node_tidy(#[trigger] all[k], len) && tidy(
        all[k].children,
        len,
    ) by {
        if k < dirs.len() {
            assert(node_tidy(dirs[k], len) && tidy(dirs[k].children, len));
        } else {
            assert(node_tidy(files[k - dirs.len()], len) && tidy(files[k - dirs.len()].children, len));
        }
    }
    assert forall|i: int, j: int| 0 <= i < j < all.len() && (#[trigger] all[j]).kind is Dir implies (
    #[trigger] all[i]).kind is Dir by {
        if j >= dirs.len() {
            assert(files[j - dirs.len()].kind is File);
        }
        assert(dirs[i].kind is Dir);
    }
    assert forall|k: int| 0 <= k < all.len() implies !((#[trigger] all[k]).kind is Hunk) by {
        if k < dirs.len() {
            assert(dirs[k].kind is Dir);
        } else {
            assert(files[k - dirs.len()].kind is File);
        }
    }
}

/// In a view every directory knows the files below it, none is empty and none
/// has a directory for its only child; hunk rows stand below their files only; directories come before files; and only
/// kept files are referred to.
pub proof fn view_is_tidy(
    changes: Seq<FileChange>,
    keep: Seq<usize>,
    labels: Seq<Seq<Seq<char>>>,
)
    requires
        forall|k: int| 0 <= k < keep.len() ==> #[trigger] keep[k] < changes.len(),
    ensures
        tidy(view_of(changes, keep, labels), changes.len() as int),
        no_rows(view_of(changes, keep, labels)),
{
    let entries = entries_of(changes, keep);
    assert forall|k: int| 0 <= k < entries.len() implies (#[trigger] entries[k]).index < changes.len() by {
        assert(keep[k] < changes.len());
    }
    forest_tidy(seq![], entries, changes, labels, changes.len() as int);
}

/// What is tidy for some number of files is so for more of them.
pub proof fn tidy_more(nodes: Seq<Shape>, a: int, b: int)
    requires
        tidy(nodes, a),
        a <= b,
    ensures
        tidy(nodes, b),
    decreases nodes,
{
    assert forall|k: int| 0 <= k < nodes.len() implies node_tidy(#[trigger] nodes[k], b) && tidy(
        nodes[k].children,
        b,
    ) by {
        assert(node_tidy(nodes[k], a) && tidy(nodes[k].children, a));
        tidy_more(nodes[k].children, a, b);
    }
}

/// A hunk row stands for a hunk that its file has.
pub open spec fn row_known(n: Shape, labels: Seq<Seq<Seq<char>>>) -> bool {
    n.kind matches NodeKind::Hunk { file_index, hunk_index } ==> file_index < labels.len()
        && hunk_index < labels[file_index as int].len()
}

/// Every hunk row in the tree stands for a hunk that its file has.
pub open spec fn rows_known(nodes: Seq<Shape>, labels: Seq<Seq<Seq<char>>>) -> bool
    decreases nodes,
{
    forall|k: int|
        0 <= k < nodes.len() ==> row_known(#[trigger] nodes[k], labels) && rows_known(
            nodes[k].children,
            labels,
        )
}

proof fn files_rows_known(
    prefix: Seq<char>,
    leaves: Seq<Leaf>,
    changes: Seq<FileChange>,
    labels: Seq<Seq<Seq<char>>>,
)
    requires
        labels_fit(labels),
        forall|q: int| 0 <= q < leaves.len() ==> (#[trigger] leaves[q]).index < labels.len(),
    ensures
        rows_known(file_shapes(prefix, leaves, changes, labels), labels),
{
    let all = file_shapes(prefix, leaves, changes, labels);
    assert forall|k: int| 0 <= k < all.len() implies row_known(#[trigger] all[k], labels)
        && rows_known(all[k].children, labels) by {
        let index = leaves[k].index;
        assert(index < labels.len());
        assert(labels[index as int].len() <= usize::MAX);
        let kids = all[k].children;
        assert forall|j: int| 0 <= j < kids.len() implies row_known(#[trigger] kids[j], labels)
            && rows_known(kids[j].children, labels) by {
            assert(kids[j].children =~= seq![]);
        }
    }
}

proof fn dirs_rows_known(
    prefix: Seq<char>,
    entries: Seq<Entry>,
    names: Seq<Seq<char>>,
    changes: Seq<FileChange>,
    labels: Seq<Seq<Seq<char>>>,
)
    requires
        labels_fit(labels),
        forall|k: int| 0 <= k < entries.len() ==> (#[trigger] entries[k]).index < labels.len(),
    ensures
        rows_known(dir_shapes(prefix, entries, names, changes, labels), labels),
    decreases weight(entries), 0nat, names.len(),
{
    let all = dir_shapes(prefix, entries, names, changes, labels);
    if names.len() > 0 {
        let rest = names.drop_last();
        let name = names.last();
        let before = dir_shapes(prefix, entries, rest, changes, labels);
        dirs_rows_known(prefix, entries, rest, changes, labels);
        let inner = under(entries, name);
        if inner.len() > 0 {
            let path = child_path(prefix, name);
            under_is_lighter(entries, name);
            under_bounded(entries, name, labels.len() as int);
            let kids = forest(path, inner, changes, labels);
            forest_rows_known(path, inner, changes, labels);
            let node = dir_shape(name, path, kids);
            assert(all =~= before.push(node));
            if kids.len() == 1 && kids[0].kind is Dir {
                assert(rows_known(kids[0].children, labels));
            }
            assert forall|k: int| 0 <= k < all.len() implies row_known(#[trigger] all[k], labels)
                && rows_known(all[k].children, labels) by {
                if k < before.len() {
                    assert(row_known(before[k], labels) && rows_known(before[k].children, labels));
                }
            }
        }
    }
}

proof fn forest_rows_known(
    prefix: Seq<char>,
    entries: Seq<Entry>,
    changes: Seq<FileChange>,
    labels: Seq<Seq<Seq<char>>>,
)
    requires
        labels_fit(labels),
        forall|k: int| 0 <= k < entries.len() ==> (#[trigger] entries[k]).index < labels.len(),
    ensures
        rows_known(forest(prefix, entries, changes, labels), labels),
    decreases weight(entries), 1nat, 0nat,
{
    let names = dir_names(entries);
    let leaves = leaves_of(entries);
    let dirs = dir_shapes(prefix, entries, names, changes, labels);
    let files = file_shapes(prefix, leaves, changes, labels);
    let all = forest(prefix, entries, changes, labels);
    dirs_rows_known(prefix, entries, names, changes, labels);
    leaves_bounded(entries, labels.len() as int);
    files_rows_known(prefix, leaves, changes, labels);
    assert forall|k: int| 0 <= k < all.len() implies row_known(#[trigger] all[k], labels)
        && rows_known(all[k].children, labels) by {
        if k < dirs.len() {
            assert(all[k] == dirs[k]);
        } else {
            assert(all[k] == files[k - dirs.len()]);
        }
    }
}

/// In a view every hunk row stands for a hunk that its file has.
pub proof fn view_rows_are_known(
    changes: Seq<FileChange>,
    keep: Seq<usize>,
    labels: Seq<Seq<Seq<char>>>,
)
    requires
        labels.len() >= changes.len(),
        labels_fit(labels),
        forall|k: int| 0 <= k < keep.len() ==> #[trigger] keep[k] < changes.len(),
    ensures
        rows_known(view_of(changes, keep, labels), labels),
{
    let entries = entries_of(changes, keep);
    assert forall|k: int| 0 <= k < entries.len() implies (#[trigger] entries[k]).index < labels.len() by {
        assert(keep[k] < changes.len());
    }
    forest_rows_known(seq![], entries, changes, labels);
}

// ----- identifiers -------------------------------------------------------------------

/// The nodes of a tree, each before what is below it.
pub open spec fn listed(nodes: Seq<Shape>) -> Seq<Shape>
    decreases nodes,
{
    if nodes.len() == 0 {
        seq![]
    } else {
        seq![nodes[0]] + listed(nodes[0].children) + listed(nodes.drop_first())
    }
}

/// The identifiers of the nodes of a tree.
pub open spec fn ids(nodes: Seq<Shape>) -> Seq<Seq<char>> {
    listed(nodes).map_values(|n: Shape| id_of(n))
}

/// What a path in the directory `prefix` starts with.
pub open spec fn base(prefix: Seq<char>) -> Seq<char> {
    if prefix.len() == 0 {
        seq![]
    } else {
        prefix.push('/')
    }
}

/// What the identifier of hunk `k` has behind that of its file.
pub open spec fn tag(k: nat) -> Seq<char> {
    seq!['#'] + decimal_of(k)
}

/// The text is not empty and has no slash.
pub open spec fn plain(part: Seq<char>) -> bool {
    part.len() > 0 && !part.contains('/')
}

/// Every component of every entry is plain.
pub open spec fn all_plain(entries: Seq<Entry>) -> bool {
    forall|k: int, j: int|
        0 <= k < entries.len() && 0 <= j < entries[k].parts.len() ==> plain(
            #[trigger] entries[k].parts[j],
        )
}

/// Every entry has a component.
pub open spec fn all_named(entries: Seq<Entry>) -> bool {
    forall|k: int| 0 <= k < entries.len() ==> (#[trigger] entries[k]).parts.len() > 0
}

/// All components but the last.
pub open spec fn dir_part(parts: Seq<Seq<char>>) -> Seq<Seq<char>> {
    if parts.len() == 0 {
        parts
    } else {
        parts.drop_last()
    }
}

/// The last component; empty if there is none.
pub open spec fn name_part(parts: Seq<Seq<char>>) -> Seq<char> {
    if parts.len() == 0 {
        seq![]
    } else {
        parts.last()
    }
}

/// The file at `a` is named like hunk `k` of the file at `b` is identified.
pub open spec fn clash(a: Seq<Seq<char>>, b: Seq<Seq<char>>, k: nat) -> bool {
    dir_part(a) == dir_part(b) && name_part(a) == name_part(b) + tag(k)
}

/// No two entries are the same file.
pub open spec fn all_apart(entries: Seq<Entry>) -> bool {
    forall|i: int, j: int|
        0 <= i < entries.len() && 0 <= j < entries.len() && i != j ==> (#[trigger] entries[i]).parts
            != (#[trigger] entries[j]).parts
}

/// No file is named like a hunk of another is identified.
pub open spec fn no_clash(entries: Seq<Entry>, labels: Seq<Seq<Seq<char>>>) -> bool {
    forall|i: int, j: int, k: nat|
        0 <= i < entries.len() && 0 <= j < entries.len() && k < labels[entries[j].index as int].len()
            ==> !(#[trigger] clash(entries[i].parts, entries[j].parts, k))
}

proof fn listed_concat(a: Seq<Shape>, b: Seq<Shape>)
    ensures
        listed(a + b) == listed(a) + listed(b),
    decreases a.len(),
{
    if a.len() == 0 {
        assert(a + b =~= b);
        assert(listed(a) + listed(b) =~= listed(b));
    } else {
        listed_concat(a.drop_first(), b);
        assert((a + b).drop_first() =~= a.drop_first() + b);
        assert((a + b)[0] == a[0]);
        assert(listed(a + b) =~= listed(a) + listed(b));
    }
}

/// The identifiers of two lists of nodes.
pub proof fn ids_concat(a: Seq<Shape>, b: Seq<Shape>)
    ensures
        ids(a + b) == ids(a) + ids(b),
{
    listed_concat(a, b);
    assert(ids(a + b) =~= ids(a) + ids(b));
}

/// The identifiers of one node and what is below it.
pub proof fn ids_one(n: Shape)
    ensures
        ids(seq![n]) == seq![id_of(n)] + ids(n.children),
{
    let s = seq![n];
    assert(s.drop_first() =~= seq![]);
    assert(listed(s.drop_first()) =~= seq![]);
    assert(listed(s) == seq![n] + listed(n.children) + listed(s.drop_first()));
    assert(listed(s) =~= seq![n] + listed(n.children));
    assert(ids(s) =~= seq![id_of(n)] + ids(n.children));
}

/// Merging a directory with its only child keeps the identifiers below it.
proof fn dir_shape_ids(name: Seq<char>, path: Seq<char>, kids: Seq<Shape>)
    ensures
        ids(seq![dir_shape(name, path, kids)]) == if kids.len() == 1 && kids[0].kind is Dir {
            ids(kids)
        } else {
            seq![path.push('/')] + ids(kids)
        },
{
    let node = dir_shape(name, path, kids);
    ids_one(node);
    if kids.len() == 1 && kids[0].kind is Dir {
        assert(kids =~= seq![kids[0]]);
        ids_one(kids[0]);
    } else {
        assert(path + seq!['/'] =~= path.push('/'));
    }
}

proof fn child_path_base(prefix: Seq<char>, name: Seq<char>)
    ensures
        child_path(prefix, name) == base(prefix) + name,
{
    assert(child_path(prefix, name) =~= base(prefix) + name);
}

/// Everything starts with `head` and is longer.
pub open spec fn all_below(list: Seq<Seq<char>>, head: Seq<char>) -> bool {
    forall|i: int|
        0 <= i < list.len() ==> has_prefix(#[trigger] list[i], head) && list[i].len() > head.len()
}

/// The source of each entry that lies in the directory `name`.
proof fn under_source(entries: Seq<Entry>, name: Seq<char>) -> (src: Seq<int>)
    ensures
        src.len() == under(entries, name).len(),
        forall|q: int|
            0 <= q < src.len() ==> 0 <= #[trigger] src[q] < entries.len() && !is_leaf(
                entries[src[q]],
            ) && entries[src[q]].parts[0] == name && under(entries, name)[q] == (Entry {
                parts: entries[src[q]].parts.drop_first(),
                index: entries[src[q]].index,
            }),
        forall|p: int, q: int| 0 <= p < q < src.len() ==> #[trigger] src[p] < #[trigger] src[q],
    decreases entries.len(),
{
    if entries.len() == 0 {
        seq![]
    } else {
        let rest = entries.drop_last();
        let before = under_source(rest, name);
        let e = entries.last();
        let n = entries.len() - 1;
        if !is_leaf(e) && e.parts[0] == name {
            let src = before.push(n);
            assert forall|q: int| 0 <= q < src.len() implies 0 <= #[trigger] src[q] < entries.len()
                && !is_leaf(entries[src[q]]) && entries[src[q]].parts[0] == name && under(
                entries,
                name,
            )[q] == (Entry {
                parts: entries[src[q]].parts.drop_first(),
                index: entries[src[q]].index,
            }) by {
                if q < before.len() {
                    assert(rest[before[q]] == entries[before[q]]);
                }
            }
            src
        } else {
            assert forall|q: int| 0 <= q < before.len() implies 0 <= #[trigger] before[q] < entries.len()
                && !is_leaf(entries[before[q]]) && entries[before[q]].parts[0] == name && under(
                entries,
                name,
            )[q] == (Entry {
                parts: entries[before[q]].parts.drop_first(),
                index: entries[before[q]].index,
            }) by {
                assert(rest[before[q]] == entries[before[q]]);
            }
            before
        }
    }
}

/// The source of each loose file.
proof fn leaves_source(entries: Seq<Entry>) -> (src: Seq<int>)
    ensures
        src.len() == leaves_of(entries).len(),
        src.no_duplicates(),
        forall|q: int|
            0 <= q < src.len() ==> 0 <= #[trigger] src[q] < entries.len() && is_leaf(
                entries[src[q]],
            ) && leaves_of(entries)[q] == (Leaf {
                name: leaf_name(entries[src[q]]),
                index: entries[src[q]].index,
            }),
    decreases entries.len(),
{
    if entries.len() == 0 {
        seq![]
    } else {
        let rest = entries.drop_last();
        let before = leaves_source(rest);
        let e = entries.last();
        let n = entries.len() - 1;
        if is_leaf(e) {
            let x = Leaf { name: leaf_name(e), index: e.index };
            leaves_facts(rest);
            let p = leaf_has_place(leaves_of(rest), x);
            with_leaf_at(leaves_of(rest), x, p);
            let src = before.insert(p, n);
            let all = leaves_of(entries);
            assert forall|q: int| 0 <= q < src.len() implies 0 <= #[trigger] src[q] < entries.len()
                && is_leaf(entries[src[q]]) && all[q] == (Leaf {
                name: leaf_name(entries[src[q]]),
                index: entries[src[q]].index,
            }) by {
                if q != p {
                    let j = if q < p { q } else { q - 1 };
                    assert(src[q] == before[j]);
                    assert(rest[before[j]] == entries[before[j]]);
                    assert(all[q] == leaves_of(rest)[j]);
                }
            }
            assert(src.no_duplicates()) by {
                assert forall|i: int, j: int| 0 <= i < src.len() && 0 <= j < src.len() && i != j implies src[i]
                    != src[j] by {
                    let a = if i < p { i } else { i - 1 };
                    let b = if j < p { j } else { j - 1 };
                    if i == p {
                        assert(src[j] == before[b]);
                    } else if j == p {
                        assert(src[i] == before[a]);
                    } else {
                        assert(src[i] == before[a] && src[j] == before[b]);
                    }
                }
            }
            src
        } else {
            assert forall|q: int| 0 <= q < before.len() implies 0 <= #[trigger] before[q] < entries.len()
                && is_leaf(entries[before[q]]) && leaves_of(entries)[q] == (Leaf {
                name: leaf_name(entries[before[q]]),
                index: entries[before[q]].index,
            }) by {
                assert(rest[before[q]] == entries[before[q]]);
            }
            before
        }
    }
}

/// What is asked of the entries holds one directory down.
proof fn under_keeps(entries: Seq<Entry>, name: Seq<char>, labels: Seq<Seq<Seq<char>>>)
    requires
        all_plain(entries),
    ensures
        all_plain(under(entries, name)),
        all_named(under(entries, name)),
        under(entries, name).len() > 0 ==> plain(name),
        all_apart(entries) ==> all_apart(under(entries, name)),
        no_clash(entries, labels) ==> no_clash(under(entries, name), labels),
{
    let src = under_source(entries, name);
    let inner = under(entries, name);
    assert forall|k: int, j: int| 0 <= k < inner.len() && 0 <= j < inner[k].parts.len() implies plain(
        #[trigger] inner[k].parts[j],
    ) by {
        assert(plain(entries[src[k]].parts[j + 1]));
    }
    assert forall|k: int| 0 <= k < inner.len() implies (#[trigger] inner[k]).parts.len() > 0 by {
        assert(!is_leaf(entries[src[k]]));
    }
    if inner.len() > 0 {
        assert(plain(entries[src[0]].parts[0]));
    }
    if all_apart(entries) {
        assert forall|i: int, j: int| 0 <= i < inner.len() && 0 <= j < inner.len() && i != j implies (
        #[trigger] inner[i]).parts != (#[trigger] inner[j]).parts by {
            let a = entries[src[i]];
            let b = entries[src[j]];
            assert(src[i] != src[j]);
            assert(a.parts =~= seq![name] + inner[i].parts);
            assert(b.parts =~= seq![name] + inner[j].parts);
        }
    }
    if no_clash(entries, labels) {
        assert forall|i: int, j: int, k: nat|
            0 <= i < inner.len() && 0 <= j < inner.len() && k < labels[inner[j].index as int].len() implies !(
        #[trigger] clash(inner[i].parts, inner[j].parts, k)) by {
            let a = entries[src[i]];
            let b = entries[src[j]];
            if clash(inner[i].parts, inner[j].parts, k) {
                assert(a.parts.drop_last() =~= seq![name] + inner[i].parts.drop_last());
                assert(b.parts.drop_last() =~= seq![name] + inner[j].parts.drop_last());
                assert(clash(a.parts, b.parts, k));
            }
        }
    }
}

/// The identifier of one of the files, or of one of their hunks.
spec fn leaf_id(
    x: Seq<char>,
    head: Seq<char>,
    leaves: Seq<Leaf>,
    labels: Seq<Seq<Seq<char>>>,
    q: int,
    k: int,
) -> bool {
    &&& 0 <= q < leaves.len()
    &&& if k < 0 {
        x == head + leaves[q].name
    } else {
        k < labels[leaves[q].index as int].len() && k <= usize::MAX && x == head + leaves[q].name + tag(k as nat)
    }
}

/// The identifier belongs to one of the files, or to one of their hunks.
spec fn of_leaves(
    x: Seq<char>,
    head: Seq<char>,
    leaves: Seq<Leaf>,
    labels: Seq<Seq<Seq<char>>>,
) -> bool {
    exists|q: int, k: int| leaf_id(x, head, leaves, labels, q, k)
}

/// The hunk rows have the identifier of their file with a tag.
proof fn hunk_ids(path: Seq<char>, index: usize, rows: Seq<Seq<char>>)
    requires
        rows.len() <= usize::MAX,
    ensures
        ids(hunk_shapes(path, index, rows)) == Seq::new(rows.len(), |k: int| path + tag(k as nat)),
    decreases rows.len(),
{
    let all = hunk_shapes(path, index, rows);
    let want = Seq::new(rows.len(), |k: int| path + tag(k as nat));
    if rows.len() == 0 {
        assert(ids(all) =~= want);
    } else {
        let n = rows.len() - 1;
        let rest = rows.drop_last();
        hunk_ids(path, index, rest);
        let last = all[n];
        assert(all =~= hunk_shapes(path, index, rest) + seq![last]);
        ids_concat(hunk_shapes(path, index, rest), seq![last]);
        ids_one(last);
        assert(ids(last.children) =~= seq![]);
        assert(id_of(last) =~= path + tag(n as nat));
        assert(ids(all) =~= want);
    }
}

/// The identifiers of one file node.
proof fn file_ids(
    prefix: Seq<char>,
    leaf: Leaf,
    changes: Seq<FileChange>,
    labels: Seq<Seq<Seq<char>>>,
)
    requires
        labels[leaf.index as int].len() <= usize::MAX,
    ensures
        ({
            let path = base(prefix) + leaf.name;
            ids(seq![file_shape(prefix, leaf, changes, labels)]) == seq![path] + Seq::new(
                labels[leaf.index as int].len(),
                |k: int| path + tag(k as nat),
            )
        }),
{
    child_path_base(prefix, leaf.name);
    let node = file_shape(prefix, leaf, changes, labels);
    ids_one(node);
    hunk_ids(node.path, leaf.index, labels[leaf.index as int]);
}

/// A file and a hunk tag tell the file and the hunk.
proof fn tag_unique(a: Seq<char>, j: nat, b: Seq<char>, k: nat)
    requires
        a + tag(j) == b + tag(k),
    ensures
        a == b,
        j == k,
{
    decimal_facts(j);
    decimal_facts(k);
    let x = a + tag(j);
    let y = b + tag(k);
    assert(x[a.len() as int] == '#');
    assert(y[b.len() as int] == '#');
    assert(x.len() == a.len() + 1 + decimal_of(j).len());
    assert(y.len() == b.len() + 1 + decimal_of(k).len());
    if a.len() < b.len() {
        let i = b.len() - a.len() - 1;
        assert(x[b.len() as int] == decimal_of(j)[i]);
        assert('0' <= decimal_of(j)[i]);
    } else if b.len() < a.len() {
        let i = a.len() - b.len() - 1;
        assert(y[a.len() as int] == decimal_of(k)[i]);
        assert('0' <= decimal_of(k)[i]);
    }
    assert(a =~= x.take(a.len() as int));
    assert(b =~= y.take(b.len() as int));
    assert(decimal_of(j) =~= x.skip((a.len() + 1) as int));
    assert(decimal_of(k) =~= y.skip((b.len() + 1) as int));
    decimal_injective(j, k);
}

/// The hunk labels fit in memory.
pub open spec fn labels_fit(labels: Seq<Seq<Seq<char>>>) -> bool {
    forall|i: int| 0 <= i < labels.len() ==> (#[trigger] labels[i]).len() <= usize::MAX
}

/// One leaf is named like a hunk of the other is identified.
spec fn leaf_clash(a: Leaf, b: Leaf, k: nat) -> bool {
    a.name == b.name + tag(k)
}

/// The leaves have different names, none like a hunk's identifier.
spec fn leaves_apart(leaves: Seq<Leaf>, labels: Seq<Seq<Seq<char>>>) -> bool {
    &&& forall|i: int, j: int|
        0 <= i < leaves.len() && 0 <= j < leaves.len() && i != j ==> (#[trigger] leaves[i]).name != (
        #[trigger] leaves[j]).name
    &&& forall|i: int, j: int, k: nat|
        0 <= i < leaves.len() && 0 <= j < leaves.len() && k < labels[leaves[j].index as int].len()
            ==> !(#[trigger] leaf_clash(leaves[i], leaves[j], k))
}

/// Every identifier among the file nodes belongs to a file or one of its hunks.
proof fn files_ids(
    prefix: Seq<char>,
    leaves: Seq<Leaf>,
    changes: Seq<FileChange>,
    labels: Seq<Seq<Seq<char>>>,
)
    requires
        labels_fit(labels),
        forall|q: int| 0 <= q < leaves.len() ==> (#[trigger] leaves[q]).index < labels.len(),
    ensures
        forall|i: int|
            0 <= i < ids(file_shapes(prefix, leaves, changes, labels)).len() ==> #[trigger] of_leaves(
                ids(file_shapes(prefix, leaves, changes, labels))[i],
                base(prefix),
                leaves,
                labels,
            ),
        leaves_apart(leaves, labels) ==> ids(
            file_shapes(prefix, leaves, changes, labels),
        ).no_duplicates(),
    decreases leaves.len(),
{
    let all = file_shapes(prefix, leaves, changes, labels);
    let list = ids(all);
    let head = base(prefix);
    if leaves.len() > 0 {
        let n = leaves.len() - 1;
        let rest = leaves.drop_last();
        let leaf = leaves.last();
        assert forall|q: int| 0 <= q < rest.len() implies (#[trigger] rest[q]).index < labels.len() by {
            assert(leaves[q].index < labels.len());
        }
        assert(leaves[n].index < labels.len());
        assert(labels[leaf.index as int].len() <= usize::MAX);
        files_ids(prefix, rest, changes, labels);
        let before = file_shapes(prefix, rest, changes, labels);
        let node = file_shape(prefix, leaf, changes, labels);
        assert(all =~= before + seq![node]);
        ids_concat(before, seq![node]);
        file_ids(prefix, leaf, changes, labels);
        let path = head + leaf.name;
        let one = ids(seq![node]);
        let rows = Seq::new(labels[leaf.index as int].len(), |k: int| path + tag(k as nat));
        assert(one == seq![path] + rows);
        assert forall|i: int| 0 <= i < list.len() implies #[trigger] of_leaves(
            list[i],
            head,
            leaves,
            labels,
        ) by {
            if i < ids(before).len() {
                assert(list[i] == ids(before)[i]);
                assert(of_leaves(ids(before)[i], head, rest, labels));
                let (q, k) = choose|q: int, k: int| #[trigger] leaf_id(ids(before)[i], head, rest, labels, q, k);
                assert(leaf_id(list[i], head, leaves, labels, q, k));
            } else {
                let j = i - ids(before).len();
                assert(list[i] == one[j]);
                assert(leaf_id(list[i], head, leaves, labels, n, j - 1));
            }
        }
        if leaves_apart(leaves, labels) {
            assert(leaves_apart(rest, labels)) by {
                assert forall|i: int, j: int, k: nat|
                    0 <= i < rest.len() && 0 <= j < rest.len() && k < labels[rest[j].index as int].len() implies !(
                #[trigger] leaf_clash(rest[i], rest[j], k)) by {
                    assert(!leaf_clash(leaves[i], leaves[j], k));
                }
                assert forall|i: int, j: int| 0 <= i < rest.len() && 0 <= j < rest.len() && i != j implies (
                #[trigger] rest[i]).name != (#[trigger] rest[j]).name by {
                    assert(leaves[i].name != leaves[j].name);
                }
            }
            assert(one.no_duplicates()) by {
                assert forall|i: int, j: int| 0 <= i < one.len() && 0 <= j < one.len() && i != j implies one[i]
                    != one[j] by {
                    if i > 0 && j > 0 {
                        assert(one[i] == path + tag((i - 1) as nat));
                        assert(one[j] == path + tag((j - 1) as nat));
                        if one[i] == one[j] {
                            tag_unique(path, (i - 1) as nat, path, (j - 1) as nat);
                        }
                    } else if i > 0 {
                        assert(one[i].len() > path.len());
                    } else {
                        assert(one[j].len() > path.len());
                    }
                }
            }
            assert forall|i: int, j: int| 0 <= i < ids(before).len() && 0 <= j < one.len() implies ids(
                before,
            )[i] != one[j] by {
                let x = ids(before)[i];
                assert(of_leaves(ids(before)[i], head, rest, labels));
                let (q, k) = choose|q: int, k: int| #[trigger] leaf_id(x, head, rest, labels, q, k);
                let other = leaves[q];
                assert(other.name != leaves[n].name);
                if x == one[j] {
                    if k < 0 && j == 0 {
                        assert(other.name =~= x.skip(head.len() as int));
                        assert(leaf.name =~= one[j].skip(head.len() as int));
                    } else if k < 0 {
                        assert(one[j] == path + tag((j - 1) as nat));
                        assert(other.name =~= x.skip(head.len() as int));
                        assert(leaf.name + tag((j - 1) as nat) =~= one[j].skip(head.len() as int));
                        assert(leaf_clash(leaves[q], leaves[n], (j - 1) as nat));
                    } else if j == 0 {
                        assert(leaf.name =~= one[j].skip(head.len() as int));
                        assert(other.name + tag(k as nat) =~= x.skip(head.len() as int));
                        assert(leaf_clash(leaves[n], leaves[q], k as nat));
                    } else {
                        assert(one[j] == path + tag((j - 1) as nat));
                        tag_unique(head + other.name, k as nat, path, (j - 1) as nat);
                        assert(other.name =~= (head + other.name).skip(head.len() as int));
                        assert(leaf.name =~= path.skip(head.len() as int));
                    }
                }
            }
            vstd::seq_lib::lemma_no_dup_in_concat(ids(before), one);
        }
    } else {
        assert(all =~= seq![]);
        assert(listed(all) =~= seq![]);
        assert(list =~= seq![]);
    }
}

/// What is asked of the entries holds of the leaves.
proof fn leaves_keep(entries: Seq<Entry>, labels: Seq<Seq<Seq<char>>>)
    requires
        all_plain(entries),
    ensures
        all_named(entries) ==> forall|q: int|
            0 <= q < leaves_of(entries).len() ==> (#[trigger] leaves_of(entries)[q]).name.len() > 0,
        forall|q: int|
            0 <= q < leaves_of(entries).len() ==> !(#[trigger] leaves_of(entries)[q]).name.contains('/'),
        all_apart(entries) && no_clash(entries, labels) ==> leaves_apart(leaves_of(entries), labels),
{
    let src = leaves_source(entries);
    let leaves = leaves_of(entries);
    assert forall|q: int| 0 <= q < leaves.len() implies !(#[trigger] leaves[q]).name.contains('/') && (
    all_named(entries) ==> leaves[q].name.len() > 0) by {
        let e = entries[src[q]];
        if e.parts.len() == 1 {
            assert(plain(entries[src[q]].parts[0]));
        }
    }
    if all_apart(entries) && no_clash(entries, labels) {
        assert forall|i: int, j: int| 0 <= i < leaves.len() && 0 <= j < leaves.len() && i != j implies (
        #[trigger] leaves[i]).name != (#[trigger] leaves[j]).name by {
            let a = entries[src[i]];
            let b = entries[src[j]];
            assert(src[i] != src[j]);
            assert(a.parts != b.parts);
            if leaves[i].name == leaves[j].name {
                if a.parts.len() == 1 {
                    assert(plain(entries[src[i]].parts[0]));
                }
                if b.parts.len() == 1 {
                    assert(plain(entries[src[j]].parts[0]));
                }
                assert(a.parts =~= b.parts);
            }
        }
        assert forall|i: int, j: int, k: nat|
            0 <= i < leaves.len() && 0 <= j < leaves.len() && k < labels[leaves[j].index as int].len() implies !(
        #[trigger] leaf_clash(leaves[i], leaves[j], k)) by {
            let a = entries[src[i]];
            let b = entries[src[j]];
            if leaf_clash(leaves[i], leaves[j], k) {
                assert(dir_part(a.parts) =~= seq![]);
                assert(dir_part(b.parts) =~= seq![]);
                assert(clash(a.parts, b.parts, k));
            }
        }
    }
}

/// Everything in a forest is identified by a text that starts with its directory
/// and a slash, and goes on.
proof fn forest_below(
    prefix: Seq<char>,
    entries: Seq<Entry>,
    changes: Seq<FileChange>,
    labels: Seq<Seq<Seq<char>>>,
)
    requires
        all_plain(entries),
        all_named(entries),
        labels_fit(labels),
        forall|k: int| 0 <= k < entries.len() ==> (#[trigger] entries[k]).index < labels.len(),
    ensures
        all_below(ids(forest(prefix, entries, changes, labels)), base(prefix)),
    decreases weight(entries), 1nat, 0nat,
{
    let names = dir_names(entries);
    let leaves = leaves_of(entries);
    let dirs = dir_shapes(prefix, entries, names, changes, labels);
    let files = file_shapes(prefix, leaves, changes, labels);
    let head = base(prefix);
    dirs_below(prefix, entries, names, changes, labels);
    leaves_bounded(entries, labels.len() as int);
    leaves_keep(entries, labels);
    files_ids(prefix, leaves, changes, labels);
    ids_concat(dirs, files);
    let list = ids(forest(prefix, entries, changes, labels));
    assert forall|i: int| 0 <= i < list.len() implies has_prefix(#[trigger] list[i], head) && list[i].len()
        > head.len() by {
        if i < ids(dirs).len() {
            assert(list[i] == ids(dirs)[i]);
        } else {
            let j = i - ids(dirs).len();
            assert(list[i] == ids(files)[j]);
            assert(of_leaves(ids(files)[j], head, leaves, labels));
            let (q, k) = choose|q: int, k: int| leaf_id(list[i], head, leaves, labels, q, k);
            assert(leaves[q].name.len() > 0);
            assert(list[i].take(head.len() as int) =~= head);
        }
    }
}

proof fn dirs_below(
    prefix: Seq<char>,
    entries: Seq<Entry>,
    names: Seq<Seq<char>>,
    changes: Seq<FileChange>,
    labels: Seq<Seq<Seq<char>>>,
)
    requires
        all_plain(entries),
        labels_fit(labels),
        forall|k: int| 0 <= k < entries.len() ==> (#[trigger] entries[k]).index < labels.len(),
    ensures
        all_below(ids(dir_shapes(prefix, entries, names, changes, labels)), base(prefix)),
    decreases weight(entries), 0nat, names.len(),
{
    let all = dir_shapes(prefix, entries, names, changes, labels);
    let list = ids(all);
    let head = base(prefix);
    if names.len() > 0 {
        let rest = names.drop_last();
        let name = names.last();
        let before = dir_shapes(prefix, entries, rest, changes, labels);
        dirs_below(prefix, entries, rest, changes, labels);
        if under(entries, name).len() > 0 {
            let node = dir_node_ids(prefix, entries, name, changes, labels);
            assert(all =~= before + seq![node]);
            ids_concat(before, seq![node]);
            let one = ids(seq![node]);
            assert forall|i: int| 0 <= i < list.len() implies has_prefix(#[trigger] list[i], head)
                && list[i].len() > head.len() by {
                if i < ids(before).len() {
                    assert(list[i] == ids(before)[i]);
                } else {
                    let j = i - ids(before).len();
                    let inner = head + name.push('/');
                    assert(list[i] == one[j]);
                    assert(has_prefix(one[j], inner));
                    assert(one[j].take(head.len() as int) =~= one[j].take(inner.len() as int).take(
                        head.len() as int,
                    ));
                    assert(inner.take(head.len() as int) =~= head);
                }
            }
        }
    } else {
        assert(all =~= seq![]);
        assert(listed(all) =~= seq![]);
        assert(list =~= seq![]);
    }
}

/// The node of directory `name`, and that everything in it is identified by a
/// text that starts with the directory and a slash.
proof fn dir_node_ids(
    prefix: Seq<char>,
    entries: Seq<Entry>,
    name: Seq<char>,
    changes: Seq<FileChange>,
    labels: Seq<Seq<Seq<char>>>,
) -> (node: Shape)
    requires
        all_plain(entries),
        labels_fit(labels),
        under(entries, name).len() > 0,
        forall|k: int| 0 <= k < entries.len() ==> (#[trigger] entries[k]).index < labels.len(),
    ensures
        ({
            let path = child_path(prefix, name);
            node == dir_shape(name, path, forest(path, under(entries, name), changes, labels))
        }),
        plain(name),
        forall|i: int|
            0 <= i < ids(seq![node]).len() ==> has_prefix(
                #[trigger] ids(seq![node])[i],
                base(prefix) + name.push('/'),
            ),
        ids(forest(child_path(prefix, name), under(entries, name), changes, labels)).no_duplicates()
            ==> ids(seq![node]).no_duplicates(),
    decreases weight(entries), 0nat, 0nat,
{
    let path = child_path(prefix, name);
    let inner = under(entries, name);
    let kids = forest(path, inner, changes, labels);
    let node = dir_shape(name, path, kids);
    let start = path.push('/');
    under_keeps(entries, name, labels);
    under_is_lighter(entries, name);
    under_bounded(entries, name, labels.len() as int);
    forest_below(path, inner, changes, labels);
    child_path_base(prefix, name);
    assert(start =~= base(prefix) + name.push('/'));
    dir_shape_ids(name, path, kids);
    let one = ids(seq![node]);
    assert(all_below(ids(kids), start));
    if kids.len() == 1 && kids[0].kind is Dir {
    } else {
        assert(one == seq![start] + ids(kids));
        assert forall|i: int| 0 <= i < one.len() implies has_prefix(#[trigger] one[i], start) by {
            if i > 0 {
                assert(one[i] == ids(kids)[i - 1]);
            } else {
                assert(start.take(start.len() as int) =~= start);
            }
        }
        if ids(kids).no_duplicates() {
            let first = seq![start];
            assert forall|i: int, j: int| 0 <= i < first.len() && 0 <= j < ids(kids).len() implies first[i]
                != ids(kids)[j] by {
                assert(ids(kids)[j].len() > start.len());
            }
            vstd::seq_lib::lemma_no_dup_in_concat(first, ids(kids));
        }
    }
    node
}

/// What lies in two directories with different names is told apart.
proof fn slash_tells(head: Seq<char>, a: Seq<char>, b: Seq<char>, x: Seq<char>)
    requires
        !a.contains('/'),
        !b.contains('/'),
        has_prefix(x, head + a.push('/')),
        has_prefix(x, head + b.push('/')),
    ensures
        a == b,
{
    let s = head + a.push('/');
    let t = head + b.push('/');
    let n = head.len() as int;
    assert forall|i: int| 0 <= i < s.len() implies #[trigger] s[i] == x[i] by {
        assert(x.take(s.len() as int)[i] == x[i]);
    }
    assert forall|i: int| 0 <= i < t.len() implies #[trigger] t[i] == x[i] by {
        assert(x.take(t.len() as int)[i] == x[i]);
    }
    if a.len() < b.len() {
        assert(s[n + a.len()] == '/');
        assert(t[n + a.len()] == b[a.len() as int]);
        assert(b.contains('/'));
    } else if b.len() < a.len() {
        assert(t[n + b.len()] == '/');
        assert(s[n + b.len()] == a[b.len() as int]);
        assert(a.contains('/'));
    } else {
        assert forall|i: int| 0 <= i < a.len() implies a[i] == b[i] by {
            assert(s[n + i] == a[i]);
            assert(t[n + i] == b[i]);
        }
        assert(a =~= b);
    }
}

/// Where the identifiers among directories come from.
spec fn of_dirs(x: Seq<char>, head: Seq<char>, names: Seq<Seq<char>>) -> bool {
    exists|k: int|
        0 <= k < names.len() && plain(names[k]) && #[trigger] has_prefix(x, head + names[k].push('/'))
}

proof fn dirs_unique(
    prefix: Seq<char>,
    entries: Seq<Entry>,
    names: Seq<Seq<char>>,
    changes: Seq<FileChange>,
    labels: Seq<Seq<Seq<char>>>,
)
    requires
        all_plain(entries),
        all_apart(entries),
        no_clash(entries, labels),
        labels_fit(labels),
        names.no_duplicates(),
        forall|k: int| 0 <= k < entries.len() ==> (#[trigger] entries[k]).index < labels.len(),
    ensures
        ids(dir_shapes(prefix, entries, names, changes, labels)).no_duplicates(),
        forall|i: int|
            0 <= i < ids(dir_shapes(prefix, entries, names, changes, labels)).len()
                ==> #[trigger] of_dirs(
                ids(dir_shapes(prefix, entries, names, changes, labels))[i],
                base(prefix),
                names,
            ),
    decreases weight(entries), 0nat, names.len(),
{
    let all = dir_shapes(prefix, entries, names, changes, labels);
    let list = ids(all);
    let head = base(prefix);
    if names.len() > 0 {
        let n = names.len() - 1;
        let rest = names.drop_last();
        let name = names.last();
        let before = dir_shapes(prefix, entries, rest, changes, labels);
        assert(rest.no_duplicates()) by {
            assert forall|i: int, j: int| 0 <= i < rest.len() && 0 <= j < rest.len() && i != j implies rest[i]
                != rest[j] by {
                assert(names[i] != names[j]);
            }
        }
        dirs_unique(prefix, entries, rest, changes, labels);
        assert forall|i: int| 0 <= i < ids(before).len() implies #[trigger] of_dirs(ids(before)[i], head, names) by {
            assert(of_dirs(ids(before)[i], head, rest));
            let k = choose|k: int|
                0 <= k < rest.len() && plain(rest[k]) && #[trigger] has_prefix(
                    ids(before)[i],
                    head + rest[k].push('/'),
                );
            assert(names[k] == rest[k]);
        }
        if under(entries, name).len() > 0 {
            under_keeps(entries, name, labels);
            under_is_lighter(entries, name);
            under_bounded(entries, name, labels.len() as int);
            forest_unique(child_path(prefix, name), under(entries, name), changes, labels);
            let node = dir_node_ids(prefix, entries, name, changes, labels);
            let one = ids(seq![node]);
            assert(all =~= before + seq![node]);
            ids_concat(before, seq![node]);
            assert forall|i: int, j: int| 0 <= i < ids(before).len() && 0 <= j < one.len() implies ids(
                before,
            )[i] != one[j] by {
                assert(of_dirs(ids(before)[i], head, rest));
                let k = choose|k: int|
                    0 <= k < rest.len() && plain(rest[k]) && #[trigger] has_prefix(
                        ids(before)[i],
                        head + rest[k].push('/'),
                    );
                assert(has_prefix(one[j], head + name.push('/')));
                if ids(before)[i] == one[j] {
                    slash_tells(head, rest[k], name, one[j]);
                    assert(names[k] == names[n]);
                }
            }
            vstd::seq_lib::lemma_no_dup_in_concat(ids(before), one);
            assert forall|i: int| 0 <= i < list.len() implies #[trigger] of_dirs(list[i], head, names) by {
                if i < ids(before).len() {
                    assert(of_dirs(ids(before)[i], head, names));
                } else {
                    assert(has_prefix(one[i - ids(before).len()], head + names[n].push('/')));
                }
            }
        }
    } else {
        assert(all =~= seq![]);
        assert(listed(all) =~= seq![]);
        assert(list =~= seq![]);
    }
}

proof fn forest_unique(
    prefix: Seq<char>,
    entries: Seq<Entry>,
    changes: Seq<FileChange>,
    labels: Seq<Seq<Seq<char>>>,
)
    requires
        all_plain(entries),
        all_apart(entries),
        no_clash(entries, labels),
        labels_fit(labels),
        forall|k: int| 0 <= k < entries.len() ==> (#[trigger] entries[k]).index < labels.len(),
    ensures
        ids(forest(prefix, entries, changes, labels)).no_duplicates(),
    decreases weight(entries), 1nat, 0nat,
{
    let names = dir_names(entries);
    let leaves = leaves_of(entries);
    let dirs = dir_shapes(prefix, entries, names, changes, labels);
    let files = file_shapes(prefix, leaves, changes, labels);
    let head = base(prefix);
    let n = head.len() as int;
    dir_names_cover(entries);
    dirs_unique(prefix, entries, names, changes, labels);
    leaves_bounded(entries, labels.len() as int);
    leaves_keep(entries, labels);
    files_ids(prefix, leaves, changes, labels);
    ids_concat(dirs, files);
    assert forall|i: int, j: int| 0 <= i < ids(dirs).len() && 0 <= j < ids(files).len() implies ids(dirs)[i]
        != ids(files)[j] by {
        let x = ids(dirs)[i];
        let y = ids(files)[j];
        assert(of_dirs(ids(dirs)[i], head, names));
        let d = choose|k: int|
            0 <= k < names.len() && plain(names[k]) && #[trigger] has_prefix(
                x,
                head + names[k].push('/'),
            );
        let start = head + names[d].push('/');
        let at = n + names[d].len();
        assert(x.take(start.len() as int)[at] == '/');
        assert(x[at] == '/');
        assert(of_leaves(ids(files)[j], head, leaves, labels));
        let (q, k) = choose|q: int, k: int| leaf_id(y, head, leaves, labels, q, k);
        let name = leaves[q].name;
        assert(!name.contains('/'));
        if x == y {
            if at < n + name.len() {
                assert(y[at] == name[at - n]);
                assert(name.contains('/'));
            } else {
                assert(k >= 0);
                decimal_facts(k as nat);
                let i = at - n - name.len();
                assert(y[at] == tag(k as nat)[i]);
                if i > 0 {
                    assert(tag(k as nat)[i] == decimal_of(k as nat)[i - 1]);
                    assert('0' <= decimal_of(k as nat)[i - 1]);
                }
            }
        }
    }
    vstd::seq_lib::lemma_no_dup_in_concat(ids(dirs), ids(files));
}

/// The components of a path are plain.
pub proof fn path_parts_plain(path: Seq<char>)
    ensures
        forall|j: int| 0 <= j < path_parts(path).len() ==> plain(#[trigger] path_parts(path)[j]),
{
    let all = pieces(path, '/');
    let keeps = |p: Seq<char>| p.len() > 0;
    pieces_free(path, '/');
    let parts = path_parts(path);
    assert forall|j: int| 0 <= j < parts.len() implies plain(#[trigger] parts[j]) by {
        all.lemma_filter_pred(keeps, j);
        assert(all.filter(keeps).contains(parts[j]));
        all.lemma_filter_contains_rev(keeps, parts[j]);
        let k = choose|k: int| 0 <= k < all.len() && all[k] == parts[j];
        assert(!all[k].contains('/'));
    }
}

/// The pieces between the occurrences of a character are free of it.
proof fn pieces_free(s: Seq<char>, c: char)
    ensures
        forall|k: int| 0 <= k < pieces(s, c).len() ==> !(#[trigger] pieces(s, c)[k]).contains(c),
    decreases s.len(),
{
    position_facts(s, c);
    let k = position(s, c);
    let all = pieces(s, c);
    if k < s.len() {
        let tail = s.skip(k + 1);
        pieces_free(tail, c);
        assert forall|i: int| 0 <= i < all.len() implies !(#[trigger] all[i]).contains(c) by {
            if i > 0 {
                assert(all[i] == pieces(tail, c)[i - 1]);
            } else {
                assert(all[0] == s.take(k));
            }
        }
    } else {
        assert(all =~= seq![s]);
    }
}

/// No two kept changes are the same file.
pub open spec fn paths_apart(changes: Seq<FileChange>, keep: Seq<usize>) -> bool {
    forall|i: int, j: int|
        0 <= i < keep.len() && 0 <= j < keep.len() && i != j ==> path_parts(
            changes[#[trigger] keep[i] as int].path@,
        ) != path_parts(changes[#[trigger] keep[j] as int].path@)
}

/// No kept file is named like a hunk of another kept file is identified.
pub open spec fn hunks_apart(
    changes: Seq<FileChange>,
    keep: Seq<usize>,
    labels: Seq<Seq<Seq<char>>>,
) -> bool {
    forall|i: int, j: int, k: nat|
        0 <= i < keep.len() && 0 <= j < keep.len() && k < labels[keep[j] as int].len() ==> !(
        #[trigger] clash(
            path_parts(changes[keep[i] as int].path@),
            path_parts(changes[keep[j] as int].path@),
            k,
        ))
}

/// In a view no two nodes share an identifier, if the kept changes are different
/// files and none is named like a hunk of another is identified (`x#1` beside a
/// file `x` that is split into hunks).
pub proof fn view_ids_are_unique(
    changes: Seq<FileChange>,
    keep: Seq<usize>,
    labels: Seq<Seq<Seq<char>>>,
)
    requires
        labels.len() >= changes.len(),
        labels_fit(labels),
        forall|k: int| 0 <= k < keep.len() ==> #[trigger] keep[k] < changes.len(),
        paths_apart(changes, keep),
        hunks_apart(changes, keep, labels),
    ensures
        ids(view_of(changes, keep, labels)).no_duplicates(),
{
    view_entries(changes, keep, labels);
    forest_unique(seq![], entries_of(changes, keep), changes, labels);
}

/// What is asked of the kept changes holds of their entries.
proof fn view_entries(changes: Seq<FileChange>, keep: Seq<usize>, labels: Seq<Seq<Seq<char>>>)
    requires
        forall|k: int| 0 <= k < keep.len() ==> #[trigger] keep[k] < changes.len(),
    ensures
        all_plain(entries_of(changes, keep)),
        forall|k: int|
            0 <= k < keep.len() ==> (#[trigger] entries_of(changes, keep)[k]).index < changes.len(),
        paths_apart(changes, keep) ==> all_apart(entries_of(changes, keep)),
        hunks_apart(changes, keep, labels) ==> no_clash(entries_of(changes, keep), labels),
{
    let entries = entries_of(changes, keep);
    assert forall|k: int, j: int| 0 <= k < entries.len() && 0 <= j < entries[k].parts.len() implies plain(
        #[trigger] entries[k].parts[j],
    ) by {
        path_parts_plain(changes[keep[k] as int].path@);
    }
    assert forall|k: int| 0 <= k < keep.len() implies (#[trigger] entries[k]).index < changes.len() by {
        assert(keep[k] < changes.len());
    }
    if paths_apart(changes, keep) {
        assert forall|i: int, j: int| 0 <= i < entries.len() && 0 <= j < entries.len() && i != j implies (
        #[trigger] entries[i]).parts != (#[trigger] entries[j]).parts by {
            assert(path_parts(changes[keep[i] as int].path@) != path_parts(
                changes[keep[j] as int].path@,
            ));
        }
    }
    if hunks_apart(changes, keep, labels) {
        assert forall|i: int, j: int, k: nat|
            0 <= i < entries.len() && 0 <= j < entries.len() && k < labels[entries[j].index as int].len() implies !(
        #[trigger] clash(entries[i].parts, entries[j].parts, k)) by {
            assert(!clash(
                path_parts(changes[keep[i] as int].path@),
                path_parts(changes[keep[j] as int].path@),
                k,
            ));
        }
    }
}

// ----- order ----------------------------------------------------------------------------

/// The first component of what a directory is labelled with.
pub open spec fn first_part(label: Seq<char>) -> Seq<char> {
    label.take(position(label, '/'))
}

/// How two nodes of one list stand, `a` before `b`: directories by their first
/// component, no two with the same; then files by name; and hunks by number.
pub open spec fn stands_before(a: Shape, b: Shape) -> bool {
    match (a.kind, b.kind) {
        (NodeKind::Dir, NodeKind::Dir) => name_lt(first_part(a.label), first_part(b.label)),
        (NodeKind::Dir, NodeKind::File { .. }) => true,
        (NodeKind::File { index: i, .. }, NodeKind::File { index: j, .. }) => leaf_le(
            Leaf { name: a.label, index: i },
            Leaf { name: b.label, index: j },
        ),
        (NodeKind::Hunk { hunk_index: i, .. }, NodeKind::Hunk { hunk_index: j, .. }) => i < j,
        _ => false,
    }
}

/// Every list of nodes in the tree is in order.
pub open spec fn ordered(nodes: Seq<Shape>) -> bool
    decreases nodes,
{
    &&& forall|i: int, j: int|
        0 <= i < j < nodes.len() ==> stands_before(#[trigger] nodes[i], #[trigger] nodes[j])
    &&& forall|k: int| 0 <= k < nodes.len() ==> ordered((#[trigger] nodes[k]).children)
}

/// The file nodes are in order.
proof fn files_ordered(
    prefix: Seq<char>,
    leaves: Seq<Leaf>,
    changes: Seq<FileChange>,
    labels: Seq<Seq<Seq<char>>>,
)
    requires
        leaves_in_order(leaves),
        labels_fit(labels),
        forall|k: int| 0 <= k < leaves.len() ==> (#[trigger] leaves[k]).index < labels.len(),
    ensures
        ordered(file_shapes(prefix, leaves, changes, labels)),
{
    let all = file_shapes(prefix, leaves, changes, labels);
    assert forall|i: int, j: int| 0 <= i < j < all.len() implies stands_before(
        #[trigger] all[i],
        #[trigger] all[j],
    ) by {
        assert(leaf_le(leaves[i], leaves[j]));
    }
    assert forall|k: int| 0 <= k < all.len() implies ordered((#[trigger] all[k]).children) by {
        let kids = all[k].children;
        assert(leaves[k].index < labels.len());
        assert forall|j: int| 0 <= j < kids.len() implies ordered((#[trigger] kids[j]).children) by {
            assert(kids[j].children =~= seq![]);
        }
    }
}

/// The label of a directory starts with its name.
proof fn dir_label(name: Seq<char>, path: Seq<char>, kids: Seq<Shape>)
    requires
        plain(name),
    ensures
        first_part(dir_shape(name, path, kids).label) == name,
{
    let label = dir_shape(name, path, kids).label;
    let k = name.len() as int;
    assert forall|j: int| 0 <= j < k implies label[j] != '/' by {
        assert(label[j] == name[j]);
    }
    position_is(label, '/', k);
    assert(label.take(k) =~= name);
}

/// The nodes of directories are in order, if the names are.
proof fn dirs_ordered(
    prefix: Seq<char>,
    entries: Seq<Entry>,
    names: Seq<Seq<char>>,
    changes: Seq<FileChange>,
    labels: Seq<Seq<Seq<char>>>,
)
    requires
        all_plain(entries),
        names_in_order(names),
        labels_fit(labels),
        forall|k: int| 0 <= k < entries.len() ==> (#[trigger] entries[k]).index < labels.len(),
    ensures
        ordered(dir_shapes(prefix, entries, names, changes, labels)),
        forall|k: int|
            0 <= k < dir_shapes(prefix, entries, names, changes, labels).len() ==> (
            #[trigger] dir_shapes(prefix, entries, names, changes, labels)[k]).kind is Dir
                && names.contains(
                first_part(dir_shapes(prefix, entries, names, changes, labels)[k].label),
            ),
    decreases weight(entries), 0nat, names.len(),
{
    if names.len() > 0 {
        let rest = names.drop_last();
        let name = names.last();
        let path = child_path(prefix, name);
        let before = dir_shapes(prefix, entries, rest, changes, labels);
        assert forall|i: int, j: int| 0 <= i < j < rest.len() implies #[trigger] name_lt(
            rest[i],
            rest[j],
        ) by {
            assert(name_lt(names[i], names[j]));
        }
        dirs_ordered(prefix, entries, rest, changes, labels);
        under_is_lighter(entries, name);
        let inner = under(entries, name);
        let all = dir_shapes(prefix, entries, names, changes, labels);
        assert forall|k: int| 0 <= k < before.len() implies names.contains(
            first_part((#[trigger] before[k]).label),
        ) && name_lt(first_part(before[k].label), name) by {
            let i = choose|i: int| 0 <= i < rest.len() && rest[i] == first_part(before[k].label);
            assert(names[i] == rest[i]);
            assert(name_lt(names[i], names[names.len() - 1]));
        }
        if inner.len() > 0 {
            let kids = forest(path, inner, changes, labels);
            let node = dir_shape(name, path, kids);
            under_keeps(entries, name, labels);
            under_bounded(entries, name, labels.len() as int);
            forest_ordered(path, inner, changes, labels);
            dir_label(name, path, kids);
            assert(all =~= before.push(node));
            assert(names[names.len() - 1] == name);
            assert(ordered(node.children)) by {
                if kids.len() == 1 && kids[0].kind is Dir {
                    assert(ordered(kids[0].children));
                }
            }
            assert forall|k: int| 0 <= k < all.len() implies ordered(
                (#[trigger] all[k]).children,
            ) && all[k].kind is Dir && names.contains(first_part(all[k].label)) by {
                if k < before.len() {
                    assert(all[k] == before[k]);
                }
            }
            assert forall|i: int, j: int| 0 <= i < j < all.len() implies stands_before(
                #[trigger] all[i],
                #[trigger] all[j],
            ) by {
                assert(all[i] == before[i]);
                if j < before.len() {
                    assert(all[j] == before[j]);
                }
            }
        } else {
            assert forall|k: int| 0 <= k < all.len() implies (#[trigger] all[k]).kind is Dir
                && names.contains(first_part(all[k].label)) by {
                assert(all[k] == before[k]);
            }
        }
    }
}

/// A forest is in order.
proof fn forest_ordered(
    prefix: Seq<char>,
    entries: Seq<Entry>,
    changes: Seq<FileChange>,
    labels: Seq<Seq<Seq<char>>>,
)
    requires
        all_plain(entries),
        labels_fit(labels),
        forall|k: int| 0 <= k < entries.len() ==> (#[trigger] entries[k]).index < labels.len(),
    ensures
        ordered(forest(prefix, entries, changes, labels)),
    decreases weight(entries), 1nat, 0nat,
{
    let names = dir_names(entries);
    let dirs = dir_shapes(prefix, entries, names, changes, labels);
    let leaves = leaves_of(entries);
    let files = file_shapes(prefix, leaves, changes, labels);
    dir_names_facts(entries);
    dirs_ordered(prefix, entries, names, changes, labels);
    leaves_facts(entries);
    leaves_bounded(entries, labels.len() as int);
    files_ordered(prefix, leaves, changes, labels);
    let all = forest(prefix, entries, changes, labels);
    assert(all =~= dirs + files);
    assert forall|i: int, j: int| 0 <= i < j < all.len() implies stands_before(
        #[trigger] all[i],
        #[trigger] all[j],
    ) by {
        if i < dirs.len() {
            assert(all[i] == dirs[i]);
            if j < dirs.len() {
                assert(all[j] == dirs[j]);
            } else {
                assert(all[j] == files[j - dirs.len()]);
            }
        } else {
            assert(all[i] == files[i - dirs.len()]);
            assert(all[j] == files[j - dirs.len()]);
        }
    }
    assert forall|k: int| 0 <= k < all.len() implies ordered((#[trigger] all[k]).children) by {
        if k < dirs.len() {
            assert(all[k] == dirs[k]);
        } else {
            assert(all[k] == files[k - dirs.len()]);
        }
    }
}

/// In a view every list of nodes is in order: the directories by their first
/// component, no two with the same one; then the files by name; and the hunks of a
/// file by number.
pub proof fn view_is_ordered(
    changes: Seq<FileChange>,
    keep: Seq<usize>,
    labels: Seq<Seq<Seq<char>>>,
)
    requires
        labels.len() >= changes.len(),
        labels_fit(labels),
        forall|k: int| 0 <= k < keep.len() ==> #[trigger] keep[k] < changes.len(),
    ensures
        ordered(view_of(changes, keep, labels)),
{
    view_entries(changes, keep, labels);
    let entries = entries_of(changes, keep);
    assert forall|k: int| 0 <= k < entries.len() implies (#[trigger] entries[k]).index < labels.len() by {
        assert(entries[k].index < changes.len());
    }
    forest_ordered(seq![], entries, changes, labels);
}

// ----- what stands below a node ------------------------------------------------------------

/// The node has files, all among `files`; a hunk row has that of its hunk, which the
/// file has.
pub open spec fn stands_in(
    n: Shape,
    files: Seq<usize>,
    len: int,
    labels: Seq<Seq<Seq<char>>>,
) -> bool {
    &&& n.files.len() > 0
    &&& forall|k: int| 0 <= k < n.files.len() ==> files.contains(#[trigger] n.files[k])
    &&& node_within(n, len)
    &&& row_known(n, labels)
    &&& (n.kind matches NodeKind::Hunk { file_index, .. } ==> n.files == seq![file_index])
}

/// Nodes with nothing below them are listed as they are.
proof fn listed_flat(nodes: Seq<Shape>)
    requires
        forall|k: int| 0 <= k < nodes.len() ==> (#[trigger] nodes[k]).children.len() == 0,
    ensures
        listed(nodes) == nodes,
    decreases nodes.len(),
{
    if nodes.len() > 0 {
        let rest = nodes.drop_first();
        assert forall|k: int| 0 <= k < rest.len() implies (#[trigger] rest[k]).children.len() == 0 by {
            assert(rest[k] == nodes[k + 1]);
        }
        listed_flat(rest);
        assert(nodes[0].children =~= seq![]);
        assert(listed(nodes[0].children) =~= seq![]);
        assert(listed(nodes) =~= nodes);
    } else {
        assert(listed(nodes) =~= nodes);
    }
}

/// What holds of a list of nodes holds behind the first of them.
proof fn rest_is_tidy(nodes: Seq<Shape>, len: int, labels: Seq<Seq<Seq<char>>>)
    requires
        nodes.len() > 0,
        tidy(nodes, len),
        rows_known(nodes, labels),
    ensures
        tidy(nodes.drop_first(), len),
        rows_known(nodes.drop_first(), labels),
        no_rows(nodes) ==> no_rows(nodes.drop_first()),
{
    let rest = nodes.drop_first();
    assert forall|k: int| 0 <= k < rest.len() implies node_tidy(#[trigger] rest[k], len) && tidy(
        rest[k].children,
        len,
    ) && row_known(rest[k], labels) && rows_known(rest[k].children, labels) && rest[k] == nodes[k
        + 1] by {
        assert(node_tidy(nodes[k + 1], len) && row_known(nodes[k + 1], labels));
    }
    assert(dirs_first(rest)) by {
        assert forall|i: int, j: int| 0 <= i < j < rest.len() && (#[trigger] rest[j]).kind is Dir implies (
        #[trigger] rest[i]).kind is Dir by {
            assert(nodes[j + 1].kind is Dir);
            assert(nodes[i + 1].kind is Dir);
        }
    }
}

/// In a tidy tree every node stands among the files of the tree.
pub proof fn listed_nodes_stand(nodes: Seq<Shape>, len: int, labels: Seq<Seq<Seq<char>>>)
    requires
        tidy(nodes, len),
        no_rows(nodes),
        rows_known(nodes, labels),
    ensures
        forall|m: Shape| #[trigger]
            listed(nodes).contains(m) ==> stands_in(m, files_in(nodes), len, labels),
    decreases nodes,
{
    if nodes.len() > 0 {
        let n = nodes[0];
        let rest = nodes.drop_first();
        let all = files_in(nodes);
        let here = files_of(n);
        let behind = files_in(rest);
        assert(nodes =~= seq![n] + rest);
        files_in_concat(seq![n], rest);
        files_in_one(n);
        assert(all == here + behind);
        rest_is_tidy(nodes, len, labels);
        listed_nodes_stand(rest, len, labels);
        assert(node_tidy(n, len) && tidy(n.children, len));
        assert(row_known(n, labels) && rows_known(n.children, labels));
        let inner = listed(n.children);
        assert(forall|m: Shape| #[trigger] inner.contains(m) ==> stands_in(m, here, len, labels)) by {
            match n.kind {
                NodeKind::Dir => {
                    listed_nodes_stand(n.children, len, labels);
                },
                NodeKind::File { index, .. } => {
                    let kids = n.children;
                    assert forall|k: int| 0 <= k < kids.len() implies (#[trigger] kids[k]).children.len()
                        == 0 && stands_in(kids[k], here, len, labels) by {
                        assert(node_tidy(kids[k], len) && row_known(kids[k], labels));
                        assert(kids[k].files == seq![index]);
                        assert(here[0] == index);
                        assert forall|j: int| 0 <= j < kids[k].files.len() implies here.contains(
                            #[trigger] kids[k].files[j],
                        ) by {
                            assert(kids[k].files[j] == here[0]);
                        }
                    }
                    listed_flat(kids);
                },
                NodeKind::Hunk { .. } => {},
            }
        }
        assert(stands_in(n, here, len, labels)) by {
            assert(n.files == here);
            assert forall|k: int| 0 <= k < n.files.len() implies here.contains(#[trigger] n.files[k]) by {
                assert(here[k] == n.files[k]);
            }
            if n.kind is Dir {
                let c = n.children[0];
                assert(inner =~= seq![c] + listed(c.children) + listed(n.children.drop_first()));
                assert(inner[0] == c);
                assert(inner.contains(c));
                assert(here.contains(c.files[0]));
            }
        }
        assert(listed(nodes) =~= seq![n] + inner + listed(rest));
        assert forall|m: Shape| #[trigger] listed(nodes).contains(m) implies stands_in(
            m,
            all,
            len,
            labels,
        ) by {
            let p = choose|p: int| 0 <= p < listed(nodes).len() && listed(nodes)[p] == m;
            let narrow = if p <= inner.len() {
                here
            } else {
                behind
            };
            if p == 0 {
                assert(m == n);
            } else if p <= inner.len() {
                assert(inner[p - 1] == m);
                assert(inner.contains(m));
            } else {
                assert(listed(rest)[p - 1 - inner.len()] == m);
                assert(listed(rest).contains(m));
            }
            assert(stands_in(m, narrow, len, labels));
            assert forall|k: int| 0 <= k < m.files.len() implies all.contains(#[trigger] m.files[k]) by {
                let x = m.files[k];
                assert(narrow.contains(x));
                let q = choose|q: int| 0 <= q < narrow.len() && narrow[q] == x;
                if p <= inner.len() {
                    assert(all[q] == x);
                } else {
                    assert(all[here.len() + q] == x);
                }
            }
        }
    } else {
        assert(listed(nodes) =~= seq![]);
    }
}

/// A node that a search finds in a tidy tree is tidy, and so is what is below it.
pub proof fn found_is_tidy(
    nodes: Seq<Shape>,
    id: Seq<char>,
    len: int,
    labels: Seq<Seq<Seq<char>>>,
)
    requires
        tidy(nodes, len),
        rows_known(nodes, labels),
    ensures
        find_in(nodes, id) matches Some(n) ==> node_tidy(n, len) && tidy(n.children, len)
            && row_known(n, labels) && rows_known(n.children, labels),
    decreases nodes,
{
    if nodes.len() > 0 {
        assert(node_tidy(nodes[0], len) && tidy(nodes[0].children, len));
        assert(row_known(nodes[0], labels) && rows_known(nodes[0].children, labels));
        rest_is_tidy(nodes, len, labels);
        found_is_tidy(nodes[0].children, id, len, labels);
        found_is_tidy(nodes.drop_first(), id, len, labels);
    }
}

/// A directory or a file that a search finds in a tidy tree has files, and every node
/// below it stands among them.
pub proof fn found_holds_what_is_below(
    nodes: Seq<Shape>,
    id: Seq<char>,
    len: int,
    labels: Seq<Seq<Seq<char>>>,
)
    requires
        tidy(nodes, len),
        rows_known(nodes, labels),
    ensures
        find_in(nodes, id) matches Some(n) ==> (n.kind is Hunk || (stands_in(
            n,
            n.files,
            len,
            labels,
        ) && forall|m: Shape| #[trigger]
            listed(n.children).contains(m) ==> stands_in(m, n.files, len, labels))),
{
    if let Some(n) = find_in(nodes, id) {
        if !(n.kind is Hunk) {
            found_is_tidy(nodes, id, len, labels);
            let one = seq![n];
            assert(tidy(one, len));
            listed_nodes_stand(one, len, labels);
            files_in_one(n);
            assert(files_in(one) == n.files);
            assert(one.drop_first() =~= seq![]);
            assert(listed(one.drop_first()) =~= seq![]);
            assert(listed(one) =~= one + listed(n.children));
            assert(listed(one)[0] == n);
            assert(listed(one).contains(n));
            assert forall|m: Shape| #[trigger] listed(n.children).contains(m) implies stands_in(
                m,
                n.files,
                len,
                labels,
            ) by {
                let p = choose|p: int|
                    0 <= p < listed(n.children).len() && listed(n.children)[p] == m;
                assert(listed(one)[p + 1] == m);
                assert(listed(one).contains(m));
            }
        }
    }
}

// ----- paths ---------------------------------------------------------------------------------

/// A path without its empty components.
pub open spec fn tidy_path(path: Seq<char>) -> Seq<char> {
    joined(path_parts(path), seq!['/'])
}

/// The node of a file, or of one of its hunks, has the path of its change, and a file
/// the kind of it.
pub open spec fn node_placed(n: Shape, changes: Seq<FileChange>) -> bool {
    match n.kind {
        NodeKind::Dir => true,
        NodeKind::File { index, kind } => n.path == tidy_path(changes[index as int].path@) && kind
            == changes[index as int].kind,
        NodeKind::Hunk { file_index, .. } => n.path == tidy_path(changes[file_index as int].path@),
    }
}

/// Every node in the tree has the path of its change.
pub open spec fn placed(nodes: Seq<Shape>, changes: Seq<FileChange>) -> bool
    decreases nodes,
{
    forall|k: int|
        0 <= k < nodes.len() ==> node_placed(#[trigger] nodes[k], changes) && placed(
            nodes[k].children,
            changes,
        )
}

/// What is left of the entries leads from `prefix` to the paths of their changes.
spec fn leads_to(prefix: Seq<char>, entries: Seq<Entry>, changes: Seq<FileChange>) -> bool {
    forall|k: int|
        0 <= k < entries.len() ==> child_path(
            prefix,
            joined((#[trigger] entries[k]).parts, seq!['/']),
        ) == tidy_path(changes[entries[k].index as int].path@)
}

/// One directory down, the entries lead on to the same paths.
proof fn under_leads_on(
    prefix: Seq<char>,
    entries: Seq<Entry>,
    name: Seq<char>,
    changes: Seq<FileChange>,
)
    requires
        all_plain(entries),
        leads_to(prefix, entries, changes),
    ensures
        leads_to(child_path(prefix, name), under(entries, name), changes),
{
    let src = under_source(entries, name);
    let inner = under(entries, name);
    let path = child_path(prefix, name);
    let sep = seq!['/'];
    assert forall|k: int| 0 <= k < inner.len() implies child_path(
        path,
        joined((#[trigger] inner[k]).parts, sep),
    ) == tidy_path(changes[inner[k].index as int].path@) by {
        let e = entries[src[k]];
        let tail = inner[k].parts;
        assert(plain(entries[src[k]].parts[0]));
        assert(e.parts =~= seq![name] + tail);
        joined_front(name, tail, sep);
        assert(child_path(path, joined(tail, sep)) =~= child_path(prefix, joined(e.parts, sep)));
    }
}

proof fn files_placed(
    prefix: Seq<char>,
    entries: Seq<Entry>,
    changes: Seq<FileChange>,
    labels: Seq<Seq<Seq<char>>>,
)
    requires
        leads_to(prefix, entries, changes),
    ensures
        placed(file_shapes(prefix, leaves_of(entries), changes, labels), changes),
{
    let src = leaves_source(entries);
    let leaves = leaves_of(entries);
    let all = file_shapes(prefix, leaves, changes, labels);
    assert forall|k: int| 0 <= k < all.len() implies node_placed(#[trigger] all[k], changes)
        && placed(all[k].children, changes) by {
        let e = entries[src[k]];
        assert(joined(e.parts, seq!['/']) =~= leaf_name(e));
        let kids = all[k].children;
        assert forall|j: int| 0 <= j < kids.len() implies node_placed(#[trigger] kids[j], changes)
            && placed(kids[j].children, changes) by {
            assert(kids[j].children =~= seq![]);
        }
    }
}

proof fn dirs_placed(
    prefix: Seq<char>,
    entries: Seq<Entry>,
    names: Seq<Seq<char>>,
    changes: Seq<FileChange>,
    labels: Seq<Seq<Seq<char>>>,
)
    requires
        all_plain(entries),
        leads_to(prefix, entries, changes),
    ensures
        placed(dir_shapes(prefix, entries, names, changes, labels), changes),
    decreases weight(entries), 0nat, names.len(),
{
    let all = dir_shapes(prefix, entries, names, changes, labels);
    if names.len() > 0 {
        let rest = names.drop_last();
        let name = names.last();
        let before = dir_shapes(prefix, entries, rest, changes, labels);
        dirs_placed(prefix, entries, rest, changes, labels);
        let inner = under(entries, name);
        if inner.len() > 0 {
            let path = child_path(prefix, name);
            under_keeps(entries, name, labels);
            under_is_lighter(entries, name);
            under_leads_on(prefix, entries, name, changes);
            let kids = forest(path, inner, changes, labels);
            forest_placed(path, inner, changes, labels);
            let node = dir_shape(name, path, kids);
            assert(all =~= before.push(node));
            if kids.len() == 1 && kids[0].kind is Dir {
                assert(placed(kids[0].children, changes));
            }
            assert forall|k: int| 0 <= k < all.len() implies node_placed(#[trigger] all[k], changes)
                && placed(all[k].children, changes) by {
                if k < before.len() {
                    assert(node_placed(before[k], changes) && placed(before[k].children, changes));
                }
            }
        }
    }
}

proof fn forest_placed(
    prefix: Seq<char>,
    entries: Seq<Entry>,
    changes: Seq<FileChange>,
    labels: Seq<Seq<Seq<char>>>,
)
    requires
        all_plain(entries),
        leads_to(prefix, entries, changes),
    ensures
        placed(forest(prefix, entries, changes, labels), changes),
    decreases weight(entries), 1nat, 0nat,
{
    let names = dir_names(entries);
    let dirs = dir_shapes(prefix, entries, names, changes, labels);
    let files = file_shapes(prefix, leaves_of(entries), changes, labels);
    let all = forest(prefix, entries, changes, labels);
    dirs_placed(prefix, entries, names, changes, labels);
    files_placed(prefix, entries, changes, labels);
    assert forall|k: int| 0 <= k < all.len() implies node_placed(#[trigger] all[k], changes)
        && placed(all[k].children, changes) by {
        if k < dirs.len() {
            assert(all[k] == dirs[k]);
        } else {
            assert(all[k] == files[k - dirs.len()]);
        }
    }
}

/// What holds of a tree in which every node is placed holds of each node listed.
proof fn listed_placed(nodes: Seq<Shape>, changes: Seq<FileChange>)
    requires
        placed(nodes, changes),
    ensures
        forall|n: Shape| #[trigger] listed(nodes).contains(n) ==> node_placed(n, changes),
    decreases nodes,
{
    if nodes.len() > 0 {
        let first = nodes[0];
        let rest = nodes.drop_first();
        let inner = listed(first.children);
        let all = listed(nodes);
        assert(node_placed(first, changes) && placed(first.children, changes));
        assert(placed(rest, changes)) by {
            assert forall|k: int| 0 <= k < rest.len() implies node_placed(
                #[trigger] rest[k],
                changes,
            ) && placed(rest[k].children, changes) by {
                assert(rest[k] == nodes[k + 1]);
            }
        }
        listed_placed(first.children, changes);
        listed_placed(rest, changes);
        assert(all =~= seq![first] + inner + listed(rest));
        assert forall|n: Shape| #[trigger] all.contains(n) implies node_placed(n, changes) by {
            let p = choose|p: int| 0 <= p < all.len() && all[p] == n;
            if p == 0 {
            } else if p <= inner.len() {
                assert(inner[p - 1] == n);
                assert(inner.contains(n));
            } else {
                assert(listed(rest)[p - 1 - inner.len()] == n);
                assert(listed(rest).contains(n));
            }
        }
    } else {
        assert(listed(nodes) =~= seq![]);
    }
}

/// The path has no empty component.
pub open spec fn is_tidy_path(path: Seq<char>) -> bool {
    forall|k: int| 0 <= k < pieces(path, '/').len() ==> (#[trigger] pieces(path, '/')[k]).len() > 0
}

/// A path without empty components stays as it is.
proof fn tidy_path_stays(path: Seq<char>)
    requires
        is_tidy_path(path),
    ensures
        tidy_path(path) == path,
{
    let all = pieces(path, '/');
    keeps_all(all, |p: Seq<char>| p.len() > 0);
    pieces_join_back(path, '/');
}

/// A filter that everything passes keeps everything.
proof fn keeps_all(all: Seq<Seq<char>>, keeps: spec_fn(Seq<char>) -> bool)
    requires
        forall|k: int| 0 <= k < all.len() ==> keeps(#[trigger] all[k]),
    ensures
        all.filter(keeps) == all,
    decreases all.len(),
{
    reveal(Seq::filter);
    if all.len() > 0 {
        keeps_all(all.drop_last(), keeps);
        assert(keeps(all[all.len() - 1]));
        assert(all.filter(keeps) =~= all);
    } else {
        assert(all.filter(keeps) =~= all);
    }
}

/// In a view the node of a file has the path of its change, apart from empty
/// components, and its kind; so have the rows of its hunks the path.
pub proof fn view_paths_are_those_of_the_changes(
    changes: Seq<FileChange>,
    keep: Seq<usize>,
    labels: Seq<Seq<Seq<char>>>,
    n: Shape,
)
    requires
        forall|k: int| 0 <= k < keep.len() ==> #[trigger] keep[k] < changes.len(),
        listed(view_of(changes, keep, labels)).contains(n),
    ensures
        node_placed(n, changes),
        n.kind matches NodeKind::File { index, .. } ==> is_tidy_path(changes[index as int].path@)
            ==> n.path == changes[index as int].path@,
        n.kind matches NodeKind::Hunk { file_index, .. } ==> is_tidy_path(
            changes[file_index as int].path@,
        ) ==> n.path == changes[file_index as int].path@,
{
    let entries = entries_of(changes, keep);
    view_entries(changes, keep, labels);
    assert forall|k: int| 0 <= k < entries.len() implies child_path(
        seq![],
        joined((#[trigger] entries[k]).parts, seq!['/']),
    ) == tidy_path(changes[entries[k].index as int].path@) by {}
    forest_placed(seq![], entries, changes, labels);
    listed_placed(view_of(changes, keep, labels), changes);
    match n.kind {
        NodeKind::Dir => {},
        NodeKind::File { index, .. } => {
            if is_tidy_path(changes[index as int].path@) {
                tidy_path_stays(changes[index as int].path@);
            }
        },
        NodeKind::Hunk { file_index, .. } => {
            if is_tidy_path(changes[file_index as int].path@) {
                tidy_path_stays(changes[file_index as int].path@);
            }
        },
    }
}

// ----- searching -----------------------------------------------------------------------

/// What is below a node is identified by a text at which a search goes on.
pub open spec fn well_named(nodes: Seq<Shape>) -> bool
    decreases nodes,
{
    forall|k: int|
        0 <= k < nodes.len() ==> well_named((#[trigger] nodes[k]).children) && forall|i: int|
            0 <= i < ids(nodes[k].children).len() ==> descends(
                nodes[k],
                #[trigger] ids(nodes[k].children)[i],
            )
}

proof fn well_named_concat(a: Seq<Shape>, b: Seq<Shape>)
    requires
        well_named(a),
        well_named(b),
    ensures
        well_named(a + b),
{
    let all = a + b;
    assert forall|k: int| 0 <= k < all.len() implies well_named((#[trigger] all[k]).children) && forall|i: int|
        0 <= i < ids(all[k].children).len() ==> descends(all[k], #[trigger] ids(all[k].children)[i]) by {
        if k < a.len() {
            assert(all[k] == a[k]);
        } else {
            assert(all[k] == b[k - a.len()]);
        }
    }
}

proof fn files_well_named(
    prefix: Seq<char>,
    leaves: Seq<Leaf>,
    changes: Seq<FileChange>,
    labels: Seq<Seq<Seq<char>>>,
)
    requires
        labels_fit(labels),
        forall|q: int| 0 <= q < leaves.len() ==> (#[trigger] leaves[q]).index < labels.len(),
    ensures
        well_named(file_shapes(prefix, leaves, changes, labels)),
{
    let all = file_shapes(prefix, leaves, changes, labels);
    assert forall|k: int| 0 <= k < all.len() implies well_named((#[trigger] all[k]).children) && forall|i: int|
        0 <= i < ids(all[k].children).len() ==> descends(all[k], #[trigger] ids(all[k].children)[i]) by {
        let n = all[k];
        let index = leaves[k].index;
        assert(index < labels.len());
        assert(labels[index as int].len() <= usize::MAX);
        let kids = n.children;
        assert forall|j: int| 0 <= j < kids.len() implies well_named((#[trigger] kids[j]).children) && forall|i: int|
            0 <= i < ids(kids[j].children).len() ==> descends(kids[j], #[trigger] ids(kids[j].children)[i]) by {
            assert(kids[j].children =~= seq![]);
            assert(listed(kids[j].children) =~= seq![]);
        }
        hunk_ids(n.path, index, labels[index as int]);
        let own = n.path.push('#');
        assert forall|i: int| 0 <= i < ids(kids).len() implies descends(n, #[trigger] ids(kids)[i]) by {
            assert(ids(kids)[i] == n.path + tag(i as nat));
            assert(ids(kids)[i].take(own.len() as int) =~= own);
            if kids.len() == 0 {
                assert(listed(kids) =~= seq![]);
            }
        }
    }
}

proof fn dirs_well_named(
    prefix: Seq<char>,
    entries: Seq<Entry>,
    names: Seq<Seq<char>>,
    changes: Seq<FileChange>,
    labels: Seq<Seq<Seq<char>>>,
)
    requires
        all_plain(entries),
        labels_fit(labels),
        forall|k: int| 0 <= k < entries.len() ==> (#[trigger] entries[k]).index < labels.len(),
    ensures
        well_named(dir_shapes(prefix, entries, names, changes, labels)),
    decreases weight(entries), 0nat, names.len(),
{
    let all = dir_shapes(prefix, entries, names, changes, labels);
    if names.len() > 0 {
        let rest = names.drop_last();
        let name = names.last();
        let before = dir_shapes(prefix, entries, rest, changes, labels);
        dirs_well_named(prefix, entries, rest, changes, labels);
        let inner = under(entries, name);
        if inner.len() > 0 {
            let path = child_path(prefix, name);
            under_keeps(entries, name, labels);
            under_is_lighter(entries, name);
            under_bounded(entries, name, labels.len() as int);
            let kids = forest(path, inner, changes, labels);
            forest_well_named(path, inner, changes, labels);
            forest_below(path, inner, changes, labels);
            let node = dir_shape(name, path, kids);
            let one = seq![node];
            assert(all =~= before + one);
            assert(path.push('/') =~= path + seq!['/']);
            child_path_base(prefix, name);
            if kids.len() == 1 && kids[0].kind is Dir {
                assert(well_named(kids[0].children));
                assert(id_of(node) == id_of(kids[0]));
                assert forall|i: int| 0 <= i < ids(node.children).len() implies descends(
                    node,
                    #[trigger] ids(node.children)[i],
                ) by {
                    assert(descends(kids[0], ids(kids[0].children)[i]));
                }
            } else {
                assert forall|i: int| 0 <= i < ids(node.children).len() implies descends(
                    node,
                    #[trigger] ids(node.children)[i],
                ) by {
                    assert(has_prefix(ids(kids)[i], path.push('/')));
                }
            }
            assert(well_named(one));
            well_named_concat(before, one);
        }
    }
}

proof fn forest_well_named(
    prefix: Seq<char>,
    entries: Seq<Entry>,
    changes: Seq<FileChange>,
    labels: Seq<Seq<Seq<char>>>,
)
    requires
        all_plain(entries),
        labels_fit(labels),
        forall|k: int| 0 <= k < entries.len() ==> (#[trigger] entries[k]).index < labels.len(),
    ensures
        well_named(forest(prefix, entries, changes, labels)),
    decreases weight(entries), 1nat, 0nat,
{
    let names = dir_names(entries);
    let leaves = leaves_of(entries);
    dirs_well_named(prefix, entries, names, changes, labels);
    leaves_bounded(entries, labels.len() as int);
    files_well_named(prefix, leaves, changes, labels);
    well_named_concat(
        dir_shapes(prefix, entries, names, changes, labels),
        file_shapes(prefix, leaves, changes, labels),
    );
}

/// A search gives only a node that is there and has the identifier.
pub proof fn found_is_listed(nodes: Seq<Shape>, id: Seq<char>)
    ensures
        find_in(nodes, id) matches Some(n) ==> listed(nodes).contains(n) && id_of(n) == id,
    decreases nodes,
{
    if nodes.len() > 0 {
        let n = nodes[0];
        let rest = nodes.drop_first();
        let inner = listed(n.children);
        let all = listed(nodes);
        assert(all =~= seq![n] + inner + listed(rest));
        found_is_listed(n.children, id);
        found_is_listed(rest, id);
        if id_of(n) == id {
            assert(all[0] == n);
        } else if descends(n, id) && find_in(n.children, id) is Some {
            let x = find_in(n.children, id)->0;
            let k = choose|k: int| 0 <= k < inner.len() && inner[k] == x;
            assert(all[k + 1] == x);
        } else if find_in(rest, id) is Some {
            let x = find_in(rest, id)->0;
            let k = choose|k: int| 0 <= k < listed(rest).len() && listed(rest)[k] == x;
            assert(all[k + 1 + inner.len()] == x);
        }
    }
}

/// Where identifiers are unique and well named, a search finds every node.
pub proof fn search_finds(nodes: Seq<Shape>, p: int)
    requires
        well_named(nodes),
        ids(nodes).no_duplicates(),
        0 <= p < listed(nodes).len(),
    ensures
        find_in(nodes, id_of(listed(nodes)[p])) == Some(listed(nodes)[p]),
    decreases nodes,
{
    let all = listed(nodes);
    let x = all[p];
    let id = id_of(x);
    let n = nodes[0];
    let rest = nodes.drop_first();
    let inner = listed(n.children);
    let m = inner.len() as int;
    assert(all =~= seq![n] + inner + listed(rest));
    assert forall|i: int| 0 <= i < all.len() && i != p implies id_of(#[trigger] all[i]) != id by {
        assert(ids(nodes)[i] != ids(nodes)[p]);
    }
    assert(well_named(n.children));
    if p == 0 {
    } else if p <= m {
        assert(all[0] == n);
        assert(inner[p - 1] == x);
        assert(ids(n.children)[p - 1] == id);
        assert(descends(n, ids(n.children)[p - 1]));
        assert(ids(n.children).no_duplicates()) by {
            assert forall|i: int, j: int|
                0 <= i < ids(n.children).len() && 0 <= j < ids(n.children).len() && i != j implies ids(
                n.children,
            )[i] != ids(n.children)[j] by {
                assert(ids(nodes)[i + 1] == ids(n.children)[i]);
                assert(ids(nodes)[j + 1] == ids(n.children)[j]);
            }
        }
        search_finds(n.children, p - 1);
    } else {
        assert(all[0] == n);
        let q = p - 1 - m;
        assert(listed(rest)[q] == x);
        found_is_listed(n.children, id);
        if find_in(n.children, id) is Some {
            let y = find_in(n.children, id)->0;
            let k = choose|k: int| 0 <= k < inner.len() && inner[k] == y;
            assert(all[k + 1] == y);
        }
        assert(well_named(rest)) by {
            assert forall|k: int| 0 <= k < rest.len() implies well_named((#[trigger] rest[k]).children) && forall|i: int|
                0 <= i < ids(rest[k].children).len() ==> descends(rest[k], #[trigger] ids(rest[k].children)[i]) by {
                assert(rest[k] == nodes[k + 1]);
            }
        }
        assert(ids(rest).no_duplicates()) by {
            assert forall|i: int, j: int|
                0 <= i < ids(rest).len() && 0 <= j < ids(rest).len() && i != j implies ids(rest)[i] != ids(
                rest,
            )[j] by {
                assert(ids(nodes)[i + 1 + m] == ids(rest)[i]);
                assert(ids(nodes)[j + 1 + m] == ids(rest)[j]);
            }
        }
        search_finds(rest, q);
    }
}

/// Where what is below a node is well named, a search for the identifier of a node
/// never comes back empty.
pub proof fn search_comes_back(nodes: Seq<Shape>, p: int)
    requires
        well_named(nodes),
        0 <= p < listed(nodes).len(),
    ensures
        find_in(nodes, id_of(listed(nodes)[p])) is Some,
    decreases nodes,
{
    let all = listed(nodes);
    let x = all[p];
    let n = nodes[0];
    let rest = nodes.drop_first();
    let inner = listed(n.children);
    let m = inner.len() as int;
    assert(all =~= seq![n] + inner + listed(rest));
    assert(well_named(n.children));
    if p == 0 {
    } else if p <= m {
        assert(inner[p - 1] == x);
        assert(ids(n.children)[p - 1] == id_of(x));
        assert(descends(n, ids(n.children)[p - 1]));
        search_comes_back(n.children, p - 1);
    } else {
        assert(listed(rest)[p - 1 - m] == x);
        assert(well_named(rest)) by {
            assert forall|k: int| 0 <= k < rest.len() implies well_named((#[trigger] rest[k]).children) && forall|i: int|
                0 <= i < ids(rest[k].children).len() ==> descends(rest[k], #[trigger] ids(rest[k].children)[i]) by {
                assert(rest[k] == nodes[k + 1]);
            }
        }
        search_comes_back(rest, p - 1 - m);
    }
}

/// In a view a search finds a node with the identifier exactly if there is one, and
/// what it finds has that identifier. Nothing is asked of the changes: where two nodes
/// share an identifier, one of them is found.
pub proof fn view_search_misses_nothing(
    changes: Seq<FileChange>,
    keep: Seq<usize>,
    labels: Seq<Seq<Seq<char>>>,
    id: Seq<char>,
)
    requires
        labels.len() >= changes.len(),
        labels_fit(labels),
        forall|k: int| 0 <= k < keep.len() ==> #[trigger] keep[k] < changes.len(),
    ensures
        find_in(view_of(changes, keep, labels), id) is Some <==> ids(
            view_of(changes, keep, labels),
        ).contains(id),
        find_in(view_of(changes, keep, labels), id) matches Some(n) ==> listed(
            view_of(changes, keep, labels),
        ).contains(n) && id_of(n) == id,
        forall|n: Shape| #[trigger]
            listed(view_of(changes, keep, labels)).contains(n) ==> find_in(
                view_of(changes, keep, labels),
                id_of(n),
            ) is Some,
{
    let nodes = view_of(changes, keep, labels);
    let all = listed(nodes);
    view_entries(changes, keep, labels);
    forest_well_named(seq![], entries_of(changes, keep), changes, labels);
    found_is_listed(nodes, id);
    if let Some(n) = find_in(nodes, id) {
        let p = choose|p: int| 0 <= p < all.len() && all[p] == n;
        assert(ids(nodes)[p] == id);
    }
    if ids(nodes).contains(id) {
        let p = choose|p: int| 0 <= p < ids(nodes).len() && ids(nodes)[p] == id;
        assert(id_of(all[p]) == id);
        search_comes_back(nodes, p);
    }
    assert forall|n: Shape| #[trigger] all.contains(n) implies find_in(nodes, id_of(n)) is Some by {
        let p = choose|p: int| 0 <= p < all.len() && all[p] == n;
        search_comes_back(nodes, p);
    }
}

/// In a view a search for the identifier of a node finds that node, if the kept
/// changes are different files and none is named like a hunk of another is
/// identified.
pub proof fn view_search_finds(
    changes: Seq<FileChange>,
    keep: Seq<usize>,
    labels: Seq<Seq<Seq<char>>>,
    n: Shape,
)
    requires
        labels.len() >= changes.len(),
        labels_fit(labels),
        forall|k: int| 0 <= k < keep.len() ==> #[trigger] keep[k] < changes.len(),
        paths_apart(changes, keep),
        hunks_apart(changes, keep, labels),
        listed(view_of(changes, keep, labels)).contains(n),
    ensures
        find_in(view_of(changes, keep, labels), id_of(n)) == Some(n),
{
    let nodes = view_of(changes, keep, labels);
    view_ids_are_unique(changes, keep, labels);
    view_entries(changes, keep, labels);
    forest_well_named(seq![], entries_of(changes, keep), changes, labels);
    let p = choose|p: int| 0 <= p < listed(nodes).len() && listed(nodes)[p] == n;
    search_finds(nodes, p);
}

// ----- labels ------------------------------------------------------------------------------

/// The labels of the nodes lead to their paths from that of the directory they stand in,
/// which is empty at the top; and the rows below a file show the labels of its hunks.
pub open spec fn seated(nodes: Seq<Shape>, prefix: Seq<char>, labels: Seq<Seq<Seq<char>>>) -> bool
    decreases nodes,
{
    forall|k: int|
        0 <= k < nodes.len() ==> match (#[trigger] nodes[k]).kind {
            NodeKind::Dir => {
                &&& prefix.len() == 0 ==> nodes[k].path == nodes[k].label
                &&& prefix.len() > 0 ==> nodes[k].path == prefix + seq!['/'] + nodes[k].label
                &&& seated(nodes[k].children, nodes[k].path, labels)
            },
            NodeKind::File { index, .. } => {
                &&& prefix.len() == 0 ==> nodes[k].path == nodes[k].label
                &&& prefix.len() > 0 ==> nodes[k].path == prefix + seq!['/'] + nodes[k].label
                &&& !nodes[k].label.contains('/')
                &&& nodes[k].children.len() == labels[index as int].len()
                &&& forall|j: int|
                    0 <= j < nodes[k].children.len() ==> (#[trigger] nodes[k].children[j]).label
                        == labels[index as int][j]
            },
            NodeKind::Hunk { .. } => true,
        }
}

/// The names of leaves have no slash.
proof fn leaf_names_plain(entries: Seq<Entry>)
    requires
        all_plain(entries),
    ensures
        forall|q: int|
            0 <= q < leaves_of(entries).len() ==> !(#[trigger] leaves_of(entries)[q]).name.contains(
                '/',
            ),
{
    let leaves = leaves_of(entries);
    let src = leaves_source(entries);
    assert forall|q: int| 0 <= q < leaves.len() implies !(#[trigger] leaves[q]).name.contains('/') by {
        let e = entries[src[q]];
        if e.parts.len() > 0 {
            assert(plain(entries[src[q]].parts[0]));
        }
    }
}

/// The nodes of directories are seated.
proof fn dirs_seated(
    prefix: Seq<char>,
    entries: Seq<Entry>,
    names: Seq<Seq<char>>,
    changes: Seq<FileChange>,
    labels: Seq<Seq<Seq<char>>>,
)
    requires
        all_plain(entries),
    ensures
        seated(dir_shapes(prefix, entries, names, changes, labels), prefix, labels),
        forall|k: int|
            0 <= k < dir_shapes(prefix, entries, names, changes, labels).len() ==> (
            #[trigger] dir_shapes(prefix, entries, names, changes, labels)[k]).kind is Dir,
    decreases weight(entries), 0nat, names.len(),
{
    if names.len() > 0 {
        let rest = names.drop_last();
        let name = names.last();
        let path = child_path(prefix, name);
        let before = dir_shapes(prefix, entries, rest, changes, labels);
        let all = dir_shapes(prefix, entries, names, changes, labels);
        dirs_seated(prefix, entries, rest, changes, labels);
        under_is_lighter(entries, name);
        let inner = under(entries, name);
        if inner.len() > 0 {
            let kids = forest(path, inner, changes, labels);
            let node = dir_shape(name, path, kids);
            under_keeps(entries, name, labels);
            forest_seated(path, inner, changes, labels);
            assert(all =~= before.push(node));
            if kids.len() == 1 && kids[0].kind is Dir {
                assert(path.len() > 0);
                assert(kids[0].path == path + seq!['/'] + kids[0].label);
                assert(seated(kids[0].children, kids[0].path, labels));
                if prefix.len() == 0 {
                    assert(node.path =~= node.label);
                } else {
                    assert(node.path =~= prefix + seq!['/'] + node.label);
                }
            }
            assert forall|k: int| 0 <= k < all.len() implies match (#[trigger] all[k]).kind {
                NodeKind::Dir => {
                    &&& prefix.len() == 0 ==> all[k].path == all[k].label
                    &&& prefix.len() > 0 ==> all[k].path == prefix + seq!['/'] + all[k].label
                    &&& seated(all[k].children, all[k].path, labels)
                },
                _ => false,
            } by {
                if k < before.len() {
                    assert(all[k] == before[k]);
                }
            }
        }
    }
}

/// A forest is seated.
proof fn forest_seated(
    prefix: Seq<char>,
    entries: Seq<Entry>,
    changes: Seq<FileChange>,
    labels: Seq<Seq<Seq<char>>>,
)
    requires
        all_plain(entries),
    ensures
        seated(forest(prefix, entries, changes, labels), prefix, labels),
    decreases weight(entries), 1nat, 0nat,
{
    let names = dir_names(entries);
    let dirs = dir_shapes(prefix, entries, names, changes, labels);
    let leaves = leaves_of(entries);
    let files = file_shapes(prefix, leaves, changes, labels);
    let all = forest(prefix, entries, changes, labels);
    dirs_seated(prefix, entries, names, changes, labels);
    leaf_names_plain(entries);
    assert(all =~= dirs + files);
    assert forall|k: int| 0 <= k < all.len() implies match (#[trigger] all[k]).kind {
        NodeKind::Dir => {
            &&& prefix.len() == 0 ==> all[k].path == all[k].label
            &&& prefix.len() > 0 ==> all[k].path == prefix + seq!['/'] + all[k].label
            &&& seated(all[k].children, all[k].path, labels)
        },
        NodeKind::File { index, .. } => {
            &&& prefix.len() == 0 ==> all[k].path == all[k].label
            &&& prefix.len() > 0 ==> all[k].path == prefix + seq!['/'] + all[k].label
            &&& !all[k].label.contains('/')
            &&& all[k].children.len() == labels[index as int].len()
            &&& forall|j: int|
                0 <= j < all[k].children.len() ==> (#[trigger] all[k].children[j]).label
                    == labels[index as int][j]
        },
        NodeKind::Hunk { .. } => true,
    } by {
        if k < dirs.len() {
            assert(all[k] == dirs[k]);
        } else {
            assert(all[k] == files[k - dirs.len()]);
            assert(files[k - dirs.len()] == file_shape(
                prefix,
                leaves[k - dirs.len()],
                changes,
                labels,
            ));
        }
    }
}

/// In a view the labels are what is left of the paths below the directory that a node
/// stands in, so that a file is labelled with its name alone; and the rows below a file
/// show the labels of its hunks, one for each, in order.
pub proof fn view_labels_lead_to_the_paths(
    changes: Seq<FileChange>,
    keep: Seq<usize>,
    labels: Seq<Seq<Seq<char>>>,
)
    requires
        forall|k: int| 0 <= k < keep.len() ==> #[trigger] keep[k] < changes.len(),
    ensures
        seated(view_of(changes, keep, labels), seq![], labels),
{
    view_entries(changes, keep, labels);
    forest_seated(seq![], entries_of(changes, keep), changes, labels);
}

/// The identifiers: a directory's is its path with a slash, a file's its path, and a
/// hunk's that of its file with its number behind it.
pub proof fn identifiers(n: Shape)
    ensures
        n.kind is Dir ==> id_of(n) == n.path + seq!['/'],
        n.kind is File ==> id_of(n) == n.path,
        (n.kind matches NodeKind::Hunk { hunk_index, .. } ==> id_of(n) == n.path + seq!['#']
            + decimal_of(hunk_index as nat)),
{
}

} // verus!
