//! What holds of the selection, whatever the forest looks like.

use vstd::prelude::*;

use crate::forest::{files_in, view_of};
use crate::model::{FileChange, HunkInfo};
use crate::tree::{
    all_on, any_on, every_on, find_in, flagged_paths, flipped, is_partial, labelled, labels_with,
    marked, marks_set, marks_with, node_state, node_within, partials, paths_of, set_indices,
    some_on, toggled, touched, units, upto, whole, Marks, NodeKind, SelectState, Shape, TreeModel,
};
use crate::tree_laws::{
    found_holds_what_is_below, found_is_tidy, listed, stands_in, view_holds_each_file,
};

verus! {

/// What setting a file's units makes of it.
proof fn marked_units(m: Marks, value: bool)
    requires
        m.hunks matches Some(h) ==> h.len() >= 2,
    ensures
        any_on(marked(m, value)) == value,
        all_on(marked(m, value)) == value,
{
    let u = units(marked(m, value));
    assert(u.len() > 0);
    assert(u[0] == value);
    assert forall|k: int| 0 <= k < u.len() implies #[trigger] u[k] == value by {}
}

/// Setting files sets the state of a node that stands among them.
proof fn set_state(
    marks: Seq<Marks>,
    labels: Seq<Seq<Seq<char>>>,
    n: Shape,
    files: Seq<usize>,
    value: bool,
)
    requires
        marks.len() == labels.len(),
        forall|i: int| 0 <= i < marks.len() ==> labelled(#[trigger] marks[i], labels[i]),
        stands_in(n, files, marks.len() as int, labels),
    ensures
        node_state(marks_set(marks, files, value), n) == if value {
            SelectState::All
        } else {
            SelectState::Nothing
        },
{
    let after = marks_set(marks, files, value);
    assert forall|k: int| 0 <= k < n.files.len() implies any_on(after[#[trigger] n.files[k] as int]) == value
        && all_on(after[n.files[k] as int]) == value by {
        let i = n.files[k];
        assert(files.contains(i));
        assert(labelled(marks[i as int], labels[i as int]));
        marked_units(marks[i as int], value);
    }
    assert(any_on(after[n.files[0] as int]) == value);
    assert(all_on(after[n.files[0] as int]) == value);
    if let NodeKind::Hunk { file_index, hunk_index } = n.kind {
        assert(n.files[0] == file_index);
        assert(files.contains(file_index));
        assert(labelled(marks[file_index as int], labels[file_index as int]));
    }
}

/// The selection after the node with identifier `id` was toggled.
pub open spec fn after_toggle(tree: TreeModel, id: Seq<char>) -> Seq<Marks> {
    match find_in(tree.shapes(), id) {
        Some(n) => toggled(tree.marks(), n),
        None => tree.marks(),
    }
}

/// Toggling a file or a directory that is selected in full clears it; toggling
/// any other selects it in full. Everything below it, files, directories and hunks,
/// ends up in the same state. So two toggles of a node that is not partly selected
/// restore its state.
pub proof fn toggle_inverts(tree: TreeModel, id: Seq<char>, n: Shape)
    requires
        tree.wf(),
        find_in(tree.shapes(), id) == Some(n),
        !(n.kind is Hunk),
    ensures
        ({
            let then = if node_state(tree.marks(), n) == SelectState::All {
                SelectState::Nothing
            } else {
                SelectState::All
            };
            &&& node_state(after_toggle(tree, id), n) == then
            &&& forall|m: Shape| #[trigger]
                listed(n.children).contains(m) ==> node_state(after_toggle(tree, id), m) == then
        }),
{
    let marks = tree.marks();
    let labels = tree.labels();
    let value = !every_on(marks, n.files);
    found_holds_what_is_below(tree.shapes(), id, marks.len() as int, labels);
    set_state(marks, labels, n, n.files, value);
    if every_on(marks, n.files) {
        let i = n.files[0];
        assert(all_on(marks[n.files[0] as int]));
        assert(labelled(marks[i as int], labels[i as int]));
        assert(units(marks[i as int])[0]);
        assert(some_on(marks, n.files));
    }
    assert forall|m: Shape| #[trigger] listed(n.children).contains(m) implies node_state(
        after_toggle(tree, id),
        m,
    ) == node_state(after_toggle(tree, id), n) by {
        set_state(marks, labels, m, n.files, value);
    }
}

/// Toggling a hunk swaps its state and no other: the other hunks of the file and all
/// other files keep theirs. Toggling it again restores the whole selection.
pub proof fn hunk_toggle_is_its_own_inverse(
    tree: TreeModel,
    id: Seq<char>,
    n: Shape,
    file_index: usize,
    hunk_index: usize,
)
    requires
        tree.wf(),
        find_in(tree.shapes(), id) == Some(n),
        n.kind == (NodeKind::Hunk { file_index, hunk_index }),
    ensures
        ({
            let before = tree.marks();
            let after = after_toggle(tree, id);
            &&& file_index < before.len()
            &&& after.len() == before.len()
            &&& node_state(after, n) == if node_state(before, n) == SelectState::All {
                SelectState::Nothing
            } else {
                SelectState::All
            }
            &&& forall|m: Shape|
                m.kind is Hunk && m.kind != n.kind && node_within(m, before.len() as int)
                    ==> #[trigger] node_state(after, m) == node_state(before, m)
            &&& forall|i: int|
                0 <= i < before.len() && i != file_index ==> #[trigger] after[i] == before[i]
            &&& after[file_index as int].whole == before[file_index as int].whole
            &&& toggled(after, n) == before
        }),
{
    let marks = tree.marks();
    found_is_tidy(tree.shapes(), id, marks.len() as int, tree.labels());
    assert(labelled(marks[file_index as int], tree.labels()[file_index as int]));
    let m = marks[file_index as int];
    let k = hunk_index as int;
    let h = m.hunks->0;
    let flip = h.update(k, !h[k]);
    assert(flip.update(k, !flip[k]) =~= h);
    assert(flipped(flipped(m, k), k) == m);
    let after = after_toggle(tree, id);
    assert(toggled(after, n) =~= marks);
}

/// A toggle reaches only the files below the node.
pub proof fn toggle_stays_below(tree: TreeModel, id: Seq<char>, n: Shape, i: usize)
    requires
        tree.wf(),
        find_in(tree.shapes(), id) == Some(n),
        i < tree.marks().len(),
        !n.files.contains(i),
    ensures
        after_toggle(tree, id)[i as int] == tree.marks()[i as int],
{
    found_is_tidy(tree.shapes(), id, tree.marks().len() as int, tree.labels());
    if let NodeKind::Hunk { file_index, .. } = n.kind {
        assert(n.files[0] == file_index);
    }
}

/// In an unfiltered view, setting what is shown sets everything.
pub proof fn full_view_sets_all(
    marks: Seq<Marks>,
    changes: Seq<FileChange>,
    labels: Seq<Seq<Seq<char>>>,
    value: bool,
)
    requires
        marks.len() == changes.len(),
        changes.len() <= usize::MAX,
    ensures
        marks_set(marks, files_in(view_of(changes, upto(changes.len()), labels)), value)
            == marks.map_values(|m: Marks| marked(m, value)),
{
    let all = upto(changes.len());
    let shown = files_in(view_of(changes, all, labels));
    view_holds_each_file(changes, all, labels);
    let out = marks_set(marks, shown, value);
    assert forall|i: int| 0 <= i < marks.len() implies #[trigger] out[i] == marked(marks[i], value) by {
        assert(all[i] == i as usize);
        assert(all.contains(i as usize));
        assert(shown.contains(i as usize));
    }
    assert(out =~= marks.map_values(|m: Marks| marked(m, value)));
}

/// In a filtered view, setting what is shown leaves every hidden file alone.
pub proof fn hidden_files_keep_their_marks(
    marks: Seq<Marks>,
    changes: Seq<FileChange>,
    keep: Seq<usize>,
    labels: Seq<Seq<Seq<char>>>,
    value: bool,
    i: int,
)
    requires
        0 <= i < marks.len() <= usize::MAX,
        !keep.contains(i as usize),
    ensures
        marks_set(marks, files_in(view_of(changes, keep, labels)), value)[i] == marks[i],
{
    view_holds_each_file(changes, keep, labels);
}

/// A file takes part in the commit in full or in part, never both, exactly if one
/// of its units is selected.
pub proof fn whole_and_partial_split_the_selection(m: Marks)
    ensures
        any_on(m) <==> (any_on(m) && all_on(m)) || is_partial(m),
        !(all_on(m) && is_partial(m)),
{
    if any_on(m) && m.hunks is None {
        assert(units(m)[0] == m.whole);
        assert forall|k: int| 0 <= k < units(m).len() implies #[trigger] units(m)[k] by {}
    }
}

/// The change at `i` is flagged and touches the path.
pub open spec fn touches(changes: Seq<FileChange>, flags: Seq<bool>, i: int, path: Seq<char>) -> bool {
    0 <= i < changes.len() && flags[i] && paths_of(changes[i]).contains(path)
}

/// The paths of a selection are exactly those that the selected changes touch: of a
/// rename the new one and the old one, so that both sides are committed.
pub proof fn both_sides_of_a_rename_are_taken(
    changes: Seq<FileChange>,
    flags: Seq<bool>,
    path: Seq<char>,
)
    ensures
        flagged_paths(changes, flags).contains(path) <==> exists|i: int|
            #[trigger] touches(changes, flags, i, path),
    decreases changes.len(),
{
    let out = flagged_paths(changes, flags);
    if changes.len() == 0 {
        assert(!out.contains(path));
    } else {
        let rest = changes.drop_last();
        let last = changes.len() - 1;
        let before = flagged_paths(rest, flags);
        let own = paths_of(changes.last());
        both_sides_of_a_rename_are_taken(rest, flags, path);
        if out.contains(path) {
            let k = choose|k: int| 0 <= k < out.len() && out[k] == path;
            if k < before.len() {
                assert(before[k] == path);
                let i = choose|i: int| #[trigger] touches(rest, flags, i, path);
                assert(touches(changes, flags, i, path));
            } else {
                assert(own[k - before.len()] == path);
                assert(touches(changes, flags, last, path));
            }
        }
        if exists|i: int| #[trigger] touches(changes, flags, i, path) {
            let i = choose|i: int| #[trigger] touches(changes, flags, i, path);
            if i < last {
                assert(touches(rest, flags, i, path));
                let k = choose|k: int| 0 <= k < before.len() && before[k] == path;
                assert(out[k] == path);
            } else {
                let k = choose|k: int| 0 <= k < own.len() && own[k] == path;
                assert(out[before.len() + k] == path);
            }
        }
    }
}

/// The state of a node, in terms of what is selected: nothing if no file below it has
/// anything selected, neither as a whole nor in a hunk; everything if some has, and none
/// lacks anything; and else some of it.
pub proof fn states_tell_what_is_selected(marks: Seq<Marks>, n: Shape)
    requires
        !(n.kind is Hunk),
    ensures
        ({
            let on = exists|k: int, j: int|
                0 <= k < n.files.len() && #[trigger] chosen_in(marks[n.files[k] as int], j);
            let off = exists|k: int, j: int|
                0 <= k < n.files.len() && #[trigger] left_out_of(marks[n.files[k] as int], j);
            &&& node_state(marks, n) == SelectState::Nothing <==> !on
            &&& node_state(marks, n) == SelectState::All <==> on && !off
            &&& node_state(marks, n) == SelectState::Partial <==> on && off
        }),
{
    assert forall|k: int| 0 <= k < n.files.len() implies (any_on(marks[#[trigger] n.files[k] as int])
        <==> exists|j: int| #[trigger] chosen_in(marks[n.files[k] as int], j)) && (all_on(
        marks[n.files[k] as int],
    ) <==> !exists|j: int| #[trigger] left_out_of(marks[n.files[k] as int], j)) by {
        units_are(marks[n.files[k] as int]);
    }
    if some_on(marks, n.files) {
        let k = choose|k: int|
            0 <= k < n.files.len() && any_on(marks[#[trigger] n.files[k] as int]);
        let j = choose|j: int| #[trigger] chosen_in(marks[n.files[k] as int], j);
        assert(chosen_in(marks[n.files[k] as int], j));
    }
    if !every_on(marks, n.files) {
        let k = choose|k: int|
            0 <= k < n.files.len() && !all_on(marks[#[trigger] n.files[k] as int]);
        let j = choose|j: int| #[trigger] left_out_of(marks[n.files[k] as int], j);
        assert(left_out_of(marks[n.files[k] as int], j));
    }
}

/// Hunk `j` of the file is selected, or the file where it has no hunks of its own.
pub open spec fn chosen_in(m: Marks, j: int) -> bool {
    match m.hunks {
        Some(h) => 0 <= j < h.len() && h[j],
        None => m.whole,
    }
}

/// Hunk `j` of the file is not selected, or the file where it has no hunks of its own.
pub open spec fn left_out_of(m: Marks, j: int) -> bool {
    match m.hunks {
        Some(h) => 0 <= j < h.len() && !h[j],
        None => !m.whole,
    }
}

/// The units of a file that is split are its hunks; of one that is not, the file.
proof fn units_are(m: Marks)
    ensures
        any_on(m) <==> exists|j: int| #[trigger] chosen_in(m, j),
        all_on(m) <==> !exists|j: int| #[trigger] left_out_of(m, j),
{
    match m.hunks {
        Some(h) => {
            if any_on(m) {
                let k = choose|k: int| 0 <= k < units(m).len() && #[trigger] units(m)[k];
                assert(chosen_in(m, k));
            }
            if exists|j: int| #[trigger] chosen_in(m, j) {
                let j = choose|j: int| #[trigger] chosen_in(m, j);
                assert(units(m)[j]);
            }
            if !all_on(m) {
                let k = choose|k: int| 0 <= k < units(m).len() && !(#[trigger] units(m)[k]);
                assert(left_out_of(m, k));
            }
            if exists|j: int| #[trigger] left_out_of(m, j) {
                let j = choose|j: int| #[trigger] left_out_of(m, j);
                assert(!units(m)[j]);
            }
        },
        None => {
            assert(units(m)[0] == m.whole);
            if m.whole {
                assert(chosen_in(m, 0));
            } else {
                assert(left_out_of(m, 0));
            }
        },
    }
}

/// The state of a hunk row is that of its hunk; without such a hunk it is not selected.
pub proof fn hunk_states_are_their_marks(
    marks: Seq<Marks>,
    n: Shape,
    file_index: usize,
    hunk_index: usize,
)
    requires
        n.kind == (NodeKind::Hunk { file_index, hunk_index }),
    ensures
        ({
            let on = marks[file_index as int].hunks matches Some(h) && hunk_index < h.len()
                && h[hunk_index as int];
            &&& on ==> node_state(marks, n) == SelectState::All
            &&& !on ==> node_state(marks, n) == SelectState::Nothing
        }),
{
}

/// Which files take part in a commit, in full and at all: in full those that have
/// something selected and lack nothing, and at all those that have something selected.
pub proof fn selected_files_have_something_selected(marks: Seq<Marks>, i: int)
    requires
        0 <= i < marks.len(),
    ensures
        touched(marks).len() == marks.len() && whole(marks).len() == marks.len(),
        touched(marks)[i] <==> exists|j: int| #[trigger] chosen_in(marks[i], j),
        whole(marks)[i] <==> (exists|j: int| #[trigger] chosen_in(marks[i], j)) && !exists|j: int|
            #[trigger]
            left_out_of(marks[i], j),
        is_partial(marks[i]) <==> (exists|j: int| #[trigger] chosen_in(marks[i], j)) && (exists|
            j: int,
        | #[trigger] left_out_of(marks[i], j)),
        marks[i].hunks is None ==> touched(marks)[i] == marks[i].whole && whole(marks)[i]
            == marks[i].whole,
{
    units_are(marks[i]);
    if marks[i].hunks is None {
        assert(units(marks[i])[0] == marks[i].whole);
        if marks[i].whole {
            assert(chosen_in(marks[i], 0));
        } else {
            assert(left_out_of(marks[i], 0));
        }
    }
}

/// The indices of the set flags are those of the set flags, in order.
pub proof fn set_indices_are_those_of_the_set_flags(flags: Seq<bool>)
    requires
        flags.len() <= usize::MAX,
    ensures
        forall|k: int|
            0 <= k < set_indices(flags).len() ==> (#[trigger] set_indices(flags)[k]) < flags.len()
                && flags[set_indices(flags)[k] as int],
        forall|j: int, k: int|
            0 <= j < k < set_indices(flags).len() ==> (#[trigger] set_indices(flags)[j]) < (
            #[trigger] set_indices(flags)[k]),
        forall|i: int|
            0 <= i < flags.len() && #[trigger] flags[i] ==> set_indices(flags).contains(i as usize),
    decreases flags.len(),
{
    if flags.len() > 0 {
        let rest = flags.drop_last();
        let n = flags.len() - 1;
        set_indices_are_those_of_the_set_flags(rest);
        let before = set_indices(rest);
        let out = set_indices(flags);
        assert forall|k: int| 0 <= k < out.len() implies (#[trigger] out[k]) < flags.len()
            && flags[out[k] as int] by {
            if k < before.len() {
                assert(before[k] < rest.len());
                assert(rest[before[k] as int]);
            }
        }
        assert forall|j: int, k: int| 0 <= j < k < out.len() implies (#[trigger] out[j]) < (
        #[trigger] out[k]) by {
            assert(before[j] < rest.len());
            if k < before.len() {
                assert(before[j] < before[k]);
            }
        }
        assert forall|i: int| 0 <= i < flags.len() && #[trigger] flags[i] implies out.contains(
            i as usize,
        ) by {
            if i < n {
                assert(rest[i]);
                let k = choose|k: int| 0 <= k < before.len() && before[k] == i as usize;
                assert(out[k] == i as usize);
            } else {
                assert(out[before.len() as int] == i as usize);
            }
        }
    }
}

/// The files that are committed in part are those with some hunks selected and some
/// not, in the order of the changes, each with the numbers of its selected hunks: `at`
/// tells which change each is.
pub proof fn partial_files_in_order(changes: Seq<FileChange>, marks: Seq<Marks>) -> (at: Seq<int>)
    requires
        changes.len() <= marks.len(),
    ensures
        at.len() == partials(changes, marks).len(),
        forall|k: int|
            0 <= k < at.len() ==> 0 <= #[trigger] at[k] < changes.len() && is_partial(marks[at[k]])
                && partials(changes, marks)[k].0 == changes[at[k]].path@ && (
            marks[at[k]].hunks matches Some(h) && partials(changes, marks)[k].1 == set_indices(h)),
        forall|j: int, k: int| 0 <= j < k < at.len() ==> #[trigger] at[j] < #[trigger] at[k],
        forall|i: int|
            0 <= i < changes.len() && is_partial(#[trigger] marks[i]) ==> at.contains(i),
    decreases changes.len(),
{
    if changes.len() == 0 {
        seq![]
    } else {
        let short = changes.drop_last();
        let before = partial_files_in_order(short, marks);
        let n = changes.len() - 1;
        let shorter = partials(short, marks);
        let out = partials(changes, marks);
        let at = if is_partial(marks[n]) {
            before.push(n)
        } else {
            before
        };
        assert forall|k: int| 0 <= k < at.len() implies 0 <= #[trigger] at[k] < changes.len()
            && is_partial(marks[at[k]]) && out[k].0 == changes[at[k]].path@ && (
        marks[at[k]].hunks matches Some(h) && out[k].1 == set_indices(h)) by {
            if k < before.len() {
                assert(at[k] == before[k]);
                assert(short[at[k]] == changes[at[k]]);
                assert(out[k] == shorter[k]);
            }
        }
        assert forall|j: int, k: int| 0 <= j < k < at.len() implies #[trigger] at[j] < #[trigger] at[k] by {
            assert(at[j] == before[j]);
            if k < before.len() {
                assert(at[k] == before[k]);
            }
        }
        assert forall|i: int| 0 <= i < changes.len() && is_partial(#[trigger] marks[i]) implies at.contains(
            i,
        ) by {
            if i < n {
                let k = choose|k: int| 0 <= k < before.len() && before[k] == i;
                assert(at[k] == i);
            } else {
                assert(at[before.len() as int] == i);
            }
        }
        at
    }
}

/// The paths of a selection stand in the order of the changes: of a rename first the new
/// path, then the old one.
pub proof fn selected_paths_in_order(changes: Seq<FileChange>, c: FileChange, flags: Seq<bool>)
    ensures
        ({
            let before = flagged_paths(changes, flags);
            let out = flagged_paths(changes.push(c), flags);
            &&& !flags[changes.len() as int] ==> out == before
            &&& flags[changes.len() as int] && c.old_path is None ==> out == before + seq![c.path@]
            &&& flags[changes.len() as int] ==> (c.old_path matches Some(old) ==> out == before
                + seq![c.path@, old@])
        }),
        flagged_paths(seq![], flags).len() == 0,
{
    assert(changes.push(c).drop_last() =~= changes);
}

/// Setting files sets every hunk of them, and the mark of the file as a whole; the other
/// files keep their marks.
pub proof fn setting_sets_every_unit(
    marks: Seq<Marks>,
    files: Seq<usize>,
    value: bool,
    i: usize,
)
    requires
        i < marks.len(),
    ensures
        ({
            let after = marks_set(marks, files, value);
            let before = marks[i as int];
            let m = after[i as int];
            &&& after.len() == marks.len()
            &&& !files.contains(i) ==> m == before
            &&& files.contains(i) ==> m.whole == value && (m.hunks is Some <==> before.hunks is Some)
            &&& files.contains(i) ==> (m.hunks matches Some(h) ==> h.len() == before.hunks->0.len()
                && forall|k: int| 0 <= k < h.len() ==> #[trigger] h[k] == value)
        }),
{
}

/// What splitting does to a file: with two or more known hunks it gets one row for each,
/// labelled with the header of the hunk, and all of them selected; with less it stays as
/// it was.
pub proof fn splitting_shows_the_hunks(
    labels: Seq<Seq<Seq<char>>>,
    marks: Seq<Marks>,
    changes: Seq<FileChange>,
    hunks: Map<Seq<char>, Vec<HunkInfo>>,
    i: int,
)
    requires
        0 <= i < changes.len() <= marks.len(),
        marks.len() == labels.len(),
    ensures
        ({
            let path = changes[i].path@;
            let m = marks_with(marks, changes, hunks)[i];
            let rows = labels_with(labels, changes, hunks)[i];
            &&& marks_with(marks, changes, hunks).len() == marks.len()
            &&& labels_with(labels, changes, hunks).len() == labels.len()
            &&& hunks.contains_key(path) && hunks[path]@.len() >= 2 ==> m.whole == marks[i].whole
                && m.hunks is Some && m.hunks->0.len() == hunks[path]@.len() && rows.len()
                == hunks[path]@.len() && forall|k: int|
                0 <= k < rows.len() ==> #[trigger] rows[k] == hunks[path]@[k].header@
                    && m.hunks->0[k]
            &&& !(hunks.contains_key(path) && hunks[path]@.len() >= 2) ==> m == marks[i] && rows
                == labels[i]
        }),
{
}

} // verus!
