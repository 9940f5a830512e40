//! The file picker's data model: a path-compressed tree over the changed files
//! (see [`crate::forest`]) plus tri-state selection.

use vstd::prelude::*;

use crate::forest::{
    build_view, collect_files, files_in, files_of, label_lists, view_of,
};
use crate::model::{ChangeKind, FileChange, HunkInfo};
use crate::paths::PathMap;
use crate::text;
use crate::text::{decimal_of, has_prefix, texts};
use crate::tree_laws::{
    labels_fit, no_rows, rows_known, tidy, tidy_more, tidy_within, view_is_tidy, view_rows_are_known,
};

verus! {

// ----- nodes -------------------------------------------------------------------

/// Selection status of a node, derived from the files below it.
#[derive(Debug, Clone, Copy, PartialEq, Eq, Structural)]
pub enum SelectState {
    All,
    Nothing,
    Partial,
}

/// Whether a tree node is a directory, a changed file, or one hunk of a
/// modified file (git only: a leaf child of its file node).
#[derive(Debug, Clone, Copy, PartialEq, Eq, Structural)]
pub enum NodeKind {
    Dir,
    File { index: usize, kind: ChangeKind },
    Hunk { file_index: usize, hunk_index: usize },
}

/// One node of the compressed tree.
#[derive(Debug, PartialEq, Eq)]
pub struct Node {
    /// Display label: the (possibly compressed) directory segment, or file name.
    pub label: String,
    /// Repo-relative path of this node, with forward slashes.
    pub path: String,
    pub kind: NodeKind,
    pub children: Vec<Node>,
    /// Indices (into the change list) of every file under this node. For a file
    /// node this is just its own index.
    pub files: Vec<usize>,
}

/// A node as a mathematical value.
pub struct Shape {
    pub label: Seq<char>,
    pub path: Seq<char>,
    pub kind: NodeKind,
    pub children: Seq<Shape>,
    pub files: Seq<usize>,
}

/// The nodes as mathematical values.
pub open spec fn shapes(nodes: Seq<Node>) -> Seq<Shape> {
    nodes.map_values(|n: Node| n.shape())
}

/// The identifier of a node. Directories get a trailing slash and hunks append
/// `#<index>` to the identifier of their file, so that a file and a directory
/// that share a path differ.
pub open spec fn id_of(n: Shape) -> Seq<char> {
    match n.kind {
        NodeKind::Dir => n.path + seq!['/'],
        NodeKind::File { .. } => n.path,
        NodeKind::Hunk { hunk_index, .. } => n.path + seq!['#'] + decimal_of(hunk_index as nat),
    }
}

impl Node {
    /// The node as a mathematical value.
    pub open spec fn shape(self) -> Shape
        decreases self,
    {
        Shape {
            label: self.label@,
            path: self.path@,
            kind: self.kind,
            children: Seq::new(
                self.children@.len(),
                |i: int|
                    if 0 <= i < self.children@.len() {
                        self.children@[i].shape()
                    } else {
                        arbitrary()
                    },
            ),
            files: self.files@,
        }
    }

    /// Whether the node is a directory.
    pub fn is_dir(&self) -> (r: bool)
        ensures
            r == (self.kind is Dir),
    {
        matches!(self.kind, NodeKind::Dir)
    }

    /// The identifier of the node, by which the tree is searched.
    pub fn id(&self) -> (r: String)
        ensures
            r@ == id_of(self.shape()),
    {
        let mut out = self.path.clone();
        match self.kind {
            NodeKind::Dir => out.push('/'),
            NodeKind::File { .. } => {},
            NodeKind::Hunk { hunk_index, .. } => {
                out.push('#');
                text::push_decimal(&mut out, hunk_index as u128);
            },
        }
        proof {
            assert(out@ =~= id_of(self.shape()));
        }
        out
    }
}

/// The children of a node as mathematical values.
pub proof fn shape_children(n: Node)
    ensures
        n.shape().children == shapes(n.children@),
{
    assert(n.shape().children =~= shapes(n.children@));
}

impl Clone for Node {
    fn clone(&self) -> (r: Self)
        ensures
            r.shape() == self.shape(),
        decreases self,
    {
        let mut children: Vec<Node> = Vec::new();
        let mut i: usize = 0;
        let ghost all = shapes(self.children@);
        while i < self.children.len()
            invariant
                i <= self.children@.len(),
                all == shapes(self.children@),
                shapes(children@) == all.take(i as int),
            decreases self.children@.len() - i,
        {
            let ghost before = children@;
            let child = self.children[i].clone();
            children.push(child);
            proof {
                assert(shapes(children@) =~= shapes(before).push(child.shape()));
                assert(all.take(i + 1) =~= all.take(i as int).push(all[i as int]));
            }
            i = i + 1;
        }
        let r = Node {
            label: self.label.clone(),
            path: self.path.clone(),
            kind: self.kind,
            children,
            files: self.files.clone(),
        };
        proof {
            assert(all.take(i as int) =~= all);
            shape_children(r);
            shape_children(*self);
            assert(r.files@ =~= self.files@);
        }
        r
    }
}

// ----- searching -----------------------------------------------------------------

/// Whether a search for `id` goes on below `n`: an identifier below a directory
/// starts with that of the directory, and that of a hunk is that of its file
/// with `#` and an index behind it.
pub open spec fn descends(n: Shape, id: Seq<char>) -> bool {
    let own = id_of(n);
    match n.kind {
        NodeKind::Dir => has_prefix(id, own),
        NodeKind::File { .. } => n.children.len() > 0 && has_prefix(id, own.push('#')),
        NodeKind::Hunk { .. } => false,
    }
}

/// The first node with the identifier: a node before its children, and those
/// before the nodes behind it.
pub open spec fn find_in(nodes: Seq<Shape>, id: Seq<char>) -> Option<Shape>
    decreases nodes,
{
    if nodes.len() == 0 {
        None
    } else {
        let n = nodes[0];
        if id_of(n) == id {
            Some(n)
        } else if descends(n, id) && find_in(n.children, id) is Some {
            find_in(n.children, id)
        } else {
            find_in(nodes.drop_first(), id)
        }
    }
}

/// The first node with the identifier.
fn walk<'a>(nodes: &'a Vec<Node>, id: &String) -> (r: Option<&'a Node>)
    ensures
        match r {
            Some(n) => find_in(shapes(nodes@), id@) == Some(n.shape()),
            None => find_in(shapes(nodes@), id@) is None,
        },
    decreases nodes,
{
    let ghost all = shapes(nodes@);
    let mut i: usize = 0;
    proof {
        assert(all.skip(0) =~= all);
    }
    while i < nodes.len()
        invariant
            i <= nodes@.len(),
            all == shapes(nodes@),
            find_in(all, id@) == find_in(all.skip(i as int), id@),
        decreases nodes@.len() - i,
    {
        let n = &nodes[i];
        let own = n.id();
        proof {
            assert(all.skip(i as int)[0] == n.shape());
            assert(all.skip(i as int).drop_first() =~= all.skip(i + 1));
            shape_children(*n);
        }
        if own == *id {
            return Some(n);
        }
        let mut start = own;
        let below: bool = match n.kind {
            NodeKind::Dir => true,
            NodeKind::File { .. } => {
                start.push('#');
                n.children.len() > 0
            },
            NodeKind::Hunk { .. } => false,
        };
        if below && text::starts_with(&text::chars(id.as_str()), &text::chars(start.as_str())) {
            if let Some(found) = walk(&n.children, id) {
                return Some(found);
            }
        }
        i = i + 1;
    }
    None
}

// ----- marks ---------------------------------------------------------------------

/// What is selected of one file: the file as a whole, or hunk by hunk.
pub struct Marks {
    pub whole: bool,
    pub hunks: Option<Seq<bool>>,
}

/// The selection units of a file: its hunks where it is split, else the file.
pub open spec fn units(m: Marks) -> Seq<bool> {
    match m.hunks {
        Some(h) => h,
        None => seq![m.whole],
    }
}

/// Some unit of the file is selected.
pub open spec fn any_on(m: Marks) -> bool {
    exists|k: int| 0 <= k < units(m).len() && #[trigger] units(m)[k]
}

/// Every unit of the file is selected.
pub open spec fn all_on(m: Marks) -> bool {
    forall|k: int| 0 <= k < units(m).len() ==> #[trigger] units(m)[k]
}

/// The marks with every unit set to `value`.
pub open spec fn marked(m: Marks, value: bool) -> Marks {
    Marks {
        whole: value,
        hunks: match m.hunks {
            Some(h) => Some(Seq::new(h.len(), |k: int| value)),
            None => None,
        },
    }
}

/// The marks with hunk `k` flipped; unchanged if there is no such hunk.
pub open spec fn flipped(m: Marks, k: int) -> Marks {
    match m.hunks {
        Some(h) => if 0 <= k < h.len() {
            Marks { hunks: Some(h.update(k, !h[k])), ..m }
        } else {
            m
        },
        None => m,
    }
}

/// The marks with those of the listed files set to `value`.
pub open spec fn marks_set(marks: Seq<Marks>, files: Seq<usize>, value: bool) -> Seq<Marks> {
    Seq::new(
        marks.len(),
        |i: int|
            if files.contains(i as usize) {
                marked(marks[i], value)
            } else {
                marks[i]
            },
    )
}

/// The selection status of a node under the given marks.
pub open spec fn node_state(marks: Seq<Marks>, n: Shape) -> SelectState {
    match n.kind {
        NodeKind::Hunk { file_index, hunk_index } => match marks[file_index as int].hunks {
            Some(h) => if hunk_index < h.len() && h[hunk_index as int] {
                SelectState::All
            } else {
                SelectState::Nothing
            },
            None => SelectState::Nothing,
        },
        _ => if !some_on(marks, n.files) {
            SelectState::Nothing
        } else if every_on(marks, n.files) {
            SelectState::All
        } else {
            SelectState::Partial
        },
    }
}

/// Some unit of the listed files is selected.
pub open spec fn some_on(marks: Seq<Marks>, files: Seq<usize>) -> bool {
    exists|k: int| 0 <= k < files.len() && any_on(marks[#[trigger] files[k] as int])
}

/// Every unit of the listed files is selected.
pub open spec fn every_on(marks: Seq<Marks>, files: Seq<usize>) -> bool {
    forall|k: int| 0 <= k < files.len() ==> all_on(marks[#[trigger] files[k] as int])
}

/// The marks after node `n` was toggled: a hunk flips alone; a file or a
/// directory that is fully selected is cleared, and any other is selected.
pub open spec fn toggled(marks: Seq<Marks>, n: Shape) -> Seq<Marks> {
    match n.kind {
        NodeKind::Hunk { file_index, hunk_index } => marks.update(
            file_index as int,
            flipped(marks[file_index as int], hunk_index as int),
        ),
        _ => marks_set(marks, n.files, !every_on(marks, n.files)),
    }
}

/// The indices that the node itself refers to are below `len`.
pub open spec fn node_within(n: Shape, len: int) -> bool {
    &&& forall|k: int| 0 <= k < n.files.len() ==> #[trigger] n.files[k] < len
    &&& match n.kind {
        NodeKind::Dir => true,
        NodeKind::File { index, .. } => index < len,
        NodeKind::Hunk { file_index, .. } => file_index < len,
    }
}

/// The indices in the whole tree are below `len`.
pub open spec fn tree_within(nodes: Seq<Shape>, len: int) -> bool
    decreases nodes,
{
    forall|k: int|
        0 <= k < nodes.len() ==> node_within(#[trigger] nodes[k], len) && tree_within(
            nodes[k].children,
            len,
        )
}

/// Selection of one file in memory.
#[derive(Debug, Clone)]
struct FileSel {
    whole: bool,
    hunks: Option<Vec<bool>>,
}

impl FileSel {
    spec fn marks(self) -> Marks {
        Marks {
            whole: self.whole,
            hunks: match self.hunks {
                Some(h) => Some(h@),
                None => None,
            },
        }
    }

    /// Whether some unit is selected.
    fn any(&self) -> (r: bool)
        ensures
            r == any_on(self.marks()),
    {
        match &self.hunks {
            Some(h) => {
                let mut k: usize = 0;
                while k < h.len()
                    invariant
                        k <= h@.len(),
                        units(self.marks()) == h@,
                        forall|j: int| 0 <= j < k ==> !(#[trigger] h@[j]),
                    decreases h@.len() - k,
                {
                    if h[k] {
                        proof {
                            assert(units(self.marks())[k as int]);
                        }
                        return true;
                    }
                    k = k + 1;
                }
                false
            },
            None => {
                proof {
                    assert(units(self.marks())[0] == self.whole);
                }
                self.whole
            },
        }
    }

    /// Whether every unit is selected.
    fn all(&self) -> (r: bool)
        ensures
            r == all_on(self.marks()),
    {
        match &self.hunks {
            Some(h) => {
                let mut k: usize = 0;
                while k < h.len()
                    invariant
                        k <= h@.len(),
                        units(self.marks()) == h@,
                        forall|j: int| 0 <= j < k ==> #[trigger] h@[j],
                    decreases h@.len() - k,
                {
                    if !h[k] {
                        proof {
                            assert(!units(self.marks())[k as int]);
                        }
                        return false;
                    }
                    k = k + 1;
                }
                true
            },
            None => {
                proof {
                    assert(units(self.marks())[0] == self.whole);
                }
                self.whole
            },
        }
    }

    /// Set every unit to `value`.
    fn set(&mut self, value: bool)
        ensures
            final(self).marks() == marked(old(self).marks(), value),
    {
        self.whole = value;
        if let Some(h) = &self.hunks {
            let all: Vec<bool> = vec![value; h.len()];
            proof {
                assert(all@ =~= Seq::new(h@.len(), |k: int| value));
            }
            self.hunks = Some(all);
        }
    }

    /// Flip hunk `k`, if there is one.
    fn flip(&mut self, k: usize)
        ensures
            final(self).marks() == flipped(old(self).marks(), k as int),
    {
        if let Some(h) = &self.hunks {
            if k < h.len() {
                let mut next: Vec<bool> = h.clone();
                let value = !h[k];
                next.set(k, value);
                proof {
                    assert(next@ =~= h@.update(k as int, !h@[k as int]));
                }
                self.hunks = Some(next);
            }
        }
    }
}

// ----- what is selected ------------------------------------------------------------

/// The paths that a change touches: the new one, and the old one of a rename.
pub open spec fn paths_of(c: FileChange) -> Seq<Seq<char>> {
    match c.old_path {
        Some(old) => seq![c.path@, old@],
        None => seq![c.path@],
    }
}

/// The paths that the flagged changes touch.
pub open spec fn flagged_paths(changes: Seq<FileChange>, flags: Seq<bool>) -> Seq<Seq<char>>
    decreases changes.len(),
{
    if changes.len() == 0 {
        seq![]
    } else {
        let before = flagged_paths(changes.drop_last(), flags);
        if flags[changes.len() - 1] {
            before + paths_of(changes.last())
        } else {
            before
        }
    }
}

/// Which files have a selected unit.
pub open spec fn touched(marks: Seq<Marks>) -> Seq<bool> {
    marks.map_values(|m: Marks| any_on(m))
}

/// Which files are selected in full.
pub open spec fn whole(marks: Seq<Marks>) -> Seq<bool> {
    marks.map_values(|m: Marks| any_on(m) && all_on(m))
}

/// The indices of the set flags, in order.
pub open spec fn set_indices(flags: Seq<bool>) -> Seq<usize>
    decreases flags.len(),
{
    if flags.len() == 0 {
        seq![]
    } else {
        let before = set_indices(flags.drop_last());
        if flags.last() {
            before.push((flags.len() - 1) as usize)
        } else {
            before
        }
    }
}

/// The file is split and some of its hunks are selected, but not all.
pub open spec fn is_partial(m: Marks) -> bool {
    m.hunks is Some && any_on(m) && !all_on(m)
}

/// The partly selected changes, each with the indices of its selected hunks.
pub open spec fn partials(changes: Seq<FileChange>, marks: Seq<Marks>) -> Seq<
    (Seq<char>, Seq<usize>),
>
    decreases changes.len(),
{
    if changes.len() == 0 {
        seq![]
    } else {
        let before = partials(changes.drop_last(), marks);
        let m = marks[changes.len() - 1];
        if is_partial(m) {
            before.push((changes.last().path@, set_indices(units(m))))
        } else {
            before
        }
    }
}

/// The list of partly selected files as mathematical values.
pub open spec fn partial_views(v: Seq<(String, Vec<usize>)>) -> Seq<(Seq<char>, Seq<usize>)> {
    v.map_values(|p: (String, Vec<usize>)| (p.0@, p.1@))
}

// ----- the model -------------------------------------------------------------------

/// The indices `0..n`.
pub open spec fn upto(n: nat) -> Seq<usize> {
    Seq::new(n, |i: int| i as usize)
}

/// The hunk labels that a file gets from what is known of its hunks: those of a
/// file with at least two of them. A single hunk is the whole change, with
/// nothing to subdivide.
pub open spec fn is_split(path: Seq<char>, hunks: Map<Seq<char>, Vec<HunkInfo>>) -> bool {
    hunks.contains_key(path) && hunks[path]@.len() >= 2
}

/// The headers of the hunks.
pub open spec fn headers(hunks: Seq<HunkInfo>) -> Seq<Seq<char>> {
    hunks.map_values(|h: HunkInfo| h.header@)
}

/// The labels with those of the split files entered.
pub open spec fn labels_with(
    labels: Seq<Seq<Seq<char>>>,
    changes: Seq<FileChange>,
    hunks: Map<Seq<char>, Vec<HunkInfo>>,
) -> Seq<Seq<Seq<char>>> {
    Seq::new(
        labels.len(),
        |i: int|
            if i < changes.len() && is_split(changes[i].path@, hunks) {
                headers(hunks[changes[i].path@]@)
            } else {
                labels[i]
            },
    )
}

/// The marks with every hunk of the split files selected.
pub open spec fn marks_with(
    marks: Seq<Marks>,
    changes: Seq<FileChange>,
    hunks: Map<Seq<char>, Vec<HunkInfo>>,
) -> Seq<Marks> {
    Seq::new(
        marks.len(),
        |i: int|
            if i < changes.len() && is_split(changes[i].path@, hunks) {
                Marks {
                    hunks: Some(Seq::new(hunks[changes[i].path@]@.len(), |k: int| true)),
                    ..marks[i]
                }
            } else {
                marks[i]
            },
    )
}

/// A file is marked hunk by hunk exactly if it has hunk labels, one for each,
/// and at least two.
pub open spec fn labelled(m: Marks, labels: Seq<Seq<char>>) -> bool {
    match m.hunks {
        Some(h) => h.len() == labels.len() && h.len() >= 2,
        None => labels.len() == 0,
    }
}

/// The picker: the compressed forest, and what is selected of each file.
#[derive(Debug, Clone)]
pub struct TreeModel {
    pub roots: Vec<Node>,
    /// Selection per file, by index in the change list.
    selected: Vec<FileSel>,
    /// Hunk row labels per file (empty: the file has no hunk rows).
    hunk_labels: Vec<Vec<String>>,
}

impl TreeModel {
    /// What is selected of each file.
    pub closed spec fn marks(self) -> Seq<Marks> {
        self.selected@.map_values(|s: FileSel| s.marks())
    }

    /// The hunk labels of each file.
    pub closed spec fn labels(self) -> Seq<Seq<Seq<char>>> {
        label_lists(self.hunk_labels@)
    }

    /// The visible forest.
    pub closed spec fn shapes(self) -> Seq<Shape> {
        shapes(self.roots@)
    }

    /// Every file has its marks and its labels.
    pub open spec fn marks_wf(self) -> bool {
        &&& self.marks().len() == self.labels().len()
        &&& forall|i: int|
            0 <= i < self.marks().len() ==> labelled(#[trigger] self.marks()[i], self.labels()[i])
    }

    /// Every file has its marks and its labels. The forest is tidy and refers to no
    /// other files, and its hunk rows stand below their files, each for a hunk that
    /// the file has.
    pub open spec fn wf(self) -> bool {
        &&& self.marks_wf()
        &&& tidy(self.shapes(), self.marks().len() as int)
        &&& no_rows(self.shapes())
        &&& rows_known(self.shapes(), self.labels())
    }
}

impl TreeModel {
    /// The compressed tree over all changes, with everything selected.
    pub fn build(changes: &[FileChange]) -> (r: Self)
        ensures
            r.wf(),
            r.marks() == Seq::new(changes@.len(), |i: int| Marks { whole: true, hunks: None }),
            r.labels() == Seq::new(changes@.len(), |i: int| Seq::<Seq<char>>::empty()),
            r.shapes() == view_of(changes@, upto(changes@.len()), r.labels()),
    {
        let mut selected: Vec<FileSel> = Vec::new();
        let mut hunk_labels: Vec<Vec<String>> = Vec::new();
        let mut i: usize = 0;
        while i < changes.len()
            invariant
                i <= changes@.len(),
                selected@.len() == i,
                hunk_labels@.len() == i,
                forall|k: int| 0 <= k < i ==> (#[trigger] selected@[k]).marks() == (Marks {
                    whole: true,
                    hunks: None,
                }),
                forall|k: int| 0 <= k < i ==> (#[trigger] hunk_labels@[k])@.len() == 0,
            decreases changes@.len() - i,
        {
            selected.push(FileSel { whole: true, hunks: None });
            hunk_labels.push(Vec::new());
            i = i + 1;
        }
        let mut model = TreeModel { roots: Vec::new(), selected, hunk_labels };
        proof {
            let want = Seq::new(changes@.len(), |i: int| Seq::<Seq<char>>::empty());
            assert forall|k: int| 0 <= k < want.len() implies #[trigger] model.labels()[k] == want[k] by {
                assert(hunk_labels@[k]@.len() == 0);
                assert(model.labels()[k] =~= want[k]);
            }
            assert(model.labels() =~= want);
            assert(model.marks() =~= Seq::new(
                changes@.len(),
                |i: int| Marks { whole: true, hunks: None },
            ));
        }
        let all = every_index(changes.len());
        model.show(changes, &all);
        model
    }

    /// Split the files with at least two known hunks (git only): each gets a row
    /// per hunk, and every hunk starts selected. The view shows all changes again.
    pub fn with_hunks(&mut self, changes: &[FileChange], hunks: &PathMap<Vec<HunkInfo>>)
        requires
            old(self).wf(),
            changes@.len() <= old(self).marks().len(),
        ensures
            final(self).wf(),
            final(self).marks() == marks_with(old(self).marks(), changes@, hunks@),
            final(self).labels() == labels_with(old(self).labels(), changes@, hunks@),
            final(self).shapes() == view_of(
                changes@,
                upto(changes@.len()),
                labels_with(old(self).labels(), changes@, hunks@),
            ),
    {
        let ghost marks = self.marks();
        let ghost labels = self.labels();
        let ghost want_marks = marks_with(marks, changes@, hunks@);
        let ghost want_labels = labels_with(labels, changes@, hunks@);
        let mut i: usize = 0;
        while i < changes.len()
            invariant
                i <= changes@.len() <= marks.len(),
                marks.len() == labels.len(),
                want_marks == marks_with(marks, changes@, hunks@),
                want_labels == labels_with(labels, changes@, hunks@),
                self.marks().len() == marks.len(),
                self.labels().len() == labels.len(),
                self.shapes() == old(self).shapes(),
                forall|k: int| 0 <= k < i ==> #[trigger] self.marks()[k] == want_marks[k],
                forall|k: int| i <= k < marks.len() ==> #[trigger] self.marks()[k] == marks[k],
                forall|k: int| 0 <= k < i ==> #[trigger] self.labels()[k] == want_labels[k],
                forall|k: int| i <= k < labels.len() ==> #[trigger] self.labels()[k] == labels[k],
            decreases changes@.len() - i,
        {
            let ghost marks_before = self.marks();
            let ghost labels_before = self.labels();
            if let Some(list) = hunks.get(changes[i].path.as_str()) {
                if list.len() >= 2 {
                    let heads = header_list(list);
                    let flags: Vec<bool> = vec![true; list.len()];
                    let ghost sel = FileSel {
                        whole: self.selected@[i as int].whole,
                        hunks: Some(flags),
                    };
                    proof {
                        assert(marks_before[i as int] == self.selected@[i as int].marks());
                        assert(flags@ =~= Seq::new(list@.len(), |k: int| true));
                        assert(sel.marks() == want_marks[i as int]);
                        assert(texts(heads@) == want_labels[i as int]);
                    }
                    let whole = self.selected[i].whole;
                    self.hunk_labels.set(i, heads);
                    self.selected.set(i, FileSel { whole, hunks: Some(flags) });
                    proof {
                        assert(self.marks() =~= marks_before.update(i as int, want_marks[i as int]));
                        assert(self.labels() =~= labels_before.update(
                            i as int,
                            want_labels[i as int],
                        ));
                    }
                }
            }
            i = i + 1;
        }
        proof {
            assert(self.marks() =~= want_marks);
            assert(self.labels() =~= want_labels);
            assert forall|k: int| 0 <= k < want_marks.len() implies labelled(
                #[trigger] want_marks[k],
                want_labels[k],
            ) by {
                assert(labelled(marks[k], labels[k]));
            }
        }
        let all = every_index(changes.len());
        self.show(changes, &all);
    }

    /// Show only the changes whose indices are in `keep`. The marks stay as they
    /// are: files keep their index, whatever is shown. Every index shows all.
    pub fn rebuild_view(&mut self, changes: &[FileChange], keep: &[usize])
        requires
            old(self).wf(),
            changes@.len() <= old(self).marks().len(),
            forall|k: int| 0 <= k < keep@.len() ==> #[trigger] keep@[k] < changes@.len(),
        ensures
            final(self).wf(),
            final(self).marks() == old(self).marks(),
            final(self).labels() == old(self).labels(),
            final(self).shapes() == view_of(changes@, keep@, old(self).labels()),
    {
        self.show(changes, keep);
    }

    /// Show only the changes whose indices are in `keep`, whatever was shown before.
    fn show(&mut self, changes: &[FileChange], keep: &[usize])
        requires
            old(self).marks_wf(),
            changes@.len() <= old(self).marks().len(),
            forall|k: int| 0 <= k < keep@.len() ==> #[trigger] keep@[k] < changes@.len(),
        ensures
            final(self).wf(),
            final(self).marks() == old(self).marks(),
            final(self).labels() == old(self).labels(),
            final(self).shapes() == view_of(changes@, keep@, old(self).labels()),
    {
        let roots = build_view(changes, keep, &self.hunk_labels);
        self.roots = roots;
        proof {
            let labels = self.labels();
            assert(labels_fit(labels)) by {
                assert forall|i: int| 0 <= i < labels.len() implies (#[trigger] labels[i]).len()
                    <= usize::MAX by {
                    assert(labels[i].len() == self.hunk_labels@[i].len());
                }
            }
            view_is_tidy(changes@, keep@, labels);
            view_rows_are_known(changes@, keep@, labels);
            tidy_more(self.shapes(), changes@.len() as int, self.marks().len() as int);
        }
    }
}

/// The indices `0..n`.
fn every_index(n: usize) -> (r: Vec<usize>)
    ensures
        r@ == upto(n as nat),
{
    let mut out: Vec<usize> = Vec::new();
    let mut i: usize = 0;
    while i < n
        invariant
            i <= n,
            out@ == upto(i as nat),
        decreases n - i,
    {
        out.push(i);
        i = i + 1;
        proof {
            assert(out@ =~= upto(i as nat));
        }
    }
    out
}

/// The headers of the hunks.
fn header_list(hunks: &Vec<HunkInfo>) -> (r: Vec<String>)
    ensures
        texts(r@) == headers(hunks@),
{
    let mut out: Vec<String> = Vec::new();
    let mut i: usize = 0;
    while i < hunks.len()
        invariant
            i <= hunks@.len(),
            texts(out@) == headers(hunks@).take(i as int),
        decreases hunks@.len() - i,
    {
        let ghost before = out@;
        out.push(hunks[i].header.clone());
        proof {
            assert(texts(out@) =~= texts(before).push(hunks@[i as int].header@));
            assert(headers(hunks@).take(i + 1) =~= headers(hunks@).take(i as int).push(
                headers(hunks@)[i as int],
            ));
        }
        i = i + 1;
    }
    proof {
        assert(headers(hunks@).take(i as int) =~= headers(hunks@));
    }
    out
}

impl TreeModel {
    /// The visible forest.
    pub fn view(&self) -> (r: &Vec<Node>)
        ensures
            shapes(r@) == self.shapes(),
    {
        &self.roots
    }

    /// Find a node by its identifier (see [`Node::id`]).
    pub fn find(&self, id: &str) -> (r: Option<&Node>)
        requires
            self.wf(),
        ensures
            match r {
                Some(n) => find_in(self.shapes(), id@) == Some(n.shape()) && node_within(
                    n.shape(),
                    self.marks().len() as int,
                ),
                None => find_in(self.shapes(), id@) is None,
            },
    {
        proof {
            tidy_within(self.shapes(), self.marks().len() as int);
            found_within(self.shapes(), id@, self.marks().len() as int);
        }
        walk(&self.roots, &id.to_string())
    }

    /// Selection status of a node, from its hunk or from the units of the files
    /// below it.
    pub fn state_of(&self, node: &Node) -> (r: SelectState)
        requires
            node_within(node.shape(), self.marks().len() as int),
        ensures
            r == node_state(self.marks(), node.shape()),
    {
        if let NodeKind::Hunk { file_index, hunk_index } = node.kind {
            proof {
                assert(self.marks()[file_index as int] == self.selected@[file_index as int].marks());
            }
            return match &self.selected[file_index].hunks {
                Some(h) => if hunk_index < h.len() && h[hunk_index] {
                    SelectState::All
                } else {
                    SelectState::Nothing
                },
                None => SelectState::Nothing,
            };
        }
        let ghost marks = self.marks();
        let files = &node.files;
        let mut some: bool = false;
        let mut every: bool = true;
        let mut k: usize = 0;
        while k < files.len()
            invariant
                k <= files@.len(),
                marks == self.marks(),
                files@ == node.shape().files,
                node_within(node.shape(), marks.len() as int),
                some == exists|j: int| 0 <= j < k && any_on(marks[#[trigger] files@[j] as int]),
                every == forall|j: int| 0 <= j < k ==> all_on(marks[#[trigger] files@[j] as int]),
            decreases files@.len() - k,
        {
            let i = files[k];
            let ghost was = some;
            proof {
                assert(node.shape().files[k as int] < marks.len());
                assert(marks[i as int] == self.selected@[i as int].marks());
            }
            if self.selected[i].any() {
                some = true;
                proof {
                    assert(any_on(marks[files@[k as int] as int]));
                }
            }
            if !self.selected[i].all() {
                every = false;
                proof {
                    assert(!all_on(marks[files@[k as int] as int]));
                }
            }
            k = k + 1;
        }
        if !some {
            SelectState::Nothing
        } else if every {
            SelectState::All
        } else {
            SelectState::Partial
        }
    }

    /// Set every unit of the listed files.
    fn set_files(&mut self, files: &Vec<usize>, value: bool)
        requires
            forall|k: int| 0 <= k < files@.len() ==> #[trigger] files@[k] < old(self).marks().len(),
        ensures
            final(self).marks() == marks_set(old(self).marks(), files@, value),
            final(self).labels() == old(self).labels(),
            final(self).shapes() == old(self).shapes(),
    {
        let ghost marks = self.marks();
        let mut k: usize = 0;
        proof {
            assert(marks_set(marks, files@.take(0), value) =~= marks);
        }
        while k < files.len()
            invariant
                k <= files@.len(),
                forall|j: int| 0 <= j < files@.len() ==> #[trigger] files@[j] < marks.len(),
                self.marks() == marks_set(marks, files@.take(k as int), value),
                self.labels() == old(self).labels(),
                self.shapes() == old(self).shapes(),
            decreases files@.len() - k,
        {
            let i = files[k];
            let ghost before = self.marks();
            let ghost done = files@.take(k as int);
            let ghost next = files@.take(k + 1);
            proof {
                assert(files@[k as int] < marks.len());
                assert(before.len() == marks.len());
                assert(self.selected.len() == marks.len());
                assert(self.selected@[i as int].marks() == before[i as int]);
            }
            self.selected[i].set(value);
            proof {
                assert(next =~= done.push(i));
                assert(self.marks() =~= before.update(i as int, marked(before[i as int], value)));
                let want = marks_set(marks, next, value);
                assert forall|j: int| 0 <= j < marks.len() implies #[trigger] self.marks()[j] == want[j] by {
                    if j == i {
                        assert(next[k as int] == i);
                        assert(next.contains(j as usize));
                        marked_twice(marks[j], value);
                    } else if done.contains(j as usize) {
                        let m = choose|m: int| 0 <= m < done.len() && done[m] == j as usize;
                        assert(next[m] == j as usize);
                    } else if next.contains(j as usize) {
                        let m = choose|m: int| 0 <= m < next.len() && next[m] == j as usize;
                        if m < k {
                            assert(done[m] == j as usize);
                        }
                    }
                }
                assert(self.marks() =~= want);
            }
            k = k + 1;
        }
        proof {
            assert(files@.take(k as int) =~= files@);
        }
    }

    /// Toggle the node with identifier `id` (see [`Node::id`]), if there is one.
    /// A hunk flips alone; a file or directory that is selected in full is
    /// cleared, and any other is selected in full.
    pub fn toggle(&mut self, id: &str)
        requires
            old(self).wf(),
        ensures
            final(self).wf(),
            final(self).marks() == match find_in(old(self).shapes(), id@) {
                Some(n) => toggled(old(self).marks(), n),
                None => old(self).marks(),
            },
            final(self).labels() == old(self).labels(),
            final(self).shapes() == old(self).shapes(),
    {
        let ghost marks = self.marks();
        let (kind, files) = match self.find(id) {
            Some(node) => (node.kind, node.files.clone()),
            None => {
                return;
            },
        };
        let ghost n = find_in(self.shapes(), id@)->0;
        proof {
            assert(files@ =~= n.files);
        }
        match kind {
            NodeKind::Hunk { file_index, hunk_index } => {
                proof {
                    assert(self.selected@[file_index as int].marks() == marks[file_index as int]);
                }
                self.selected[file_index].flip(hunk_index);
                proof {
                    assert(self.marks() =~= toggled(marks, n));
                }
            },
            _ => {
                let mut fully: bool = true;
                let mut k: usize = 0;
                while k < files.len()
                    invariant
                        k <= files@.len(),
                        marks == self.marks(),
                        files@ == n.files,
                        node_within(n, marks.len() as int),
                        fully == forall|j: int| 0 <= j < k ==> all_on(marks[#[trigger] files@[j] as int]),
                    decreases files@.len() - k,
                {
                    let i = files[k];
                    proof {
                        assert(n.files[k as int] < marks.len());
                        assert(marks[i as int] == self.selected@[i as int].marks());
                    }
                    if !self.selected[i].all() {
                        fully = false;
                        proof {
                            assert(!all_on(marks[files@[k as int] as int]));
                        }
                    }
                    k = k + 1;
                }
                proof {
                    assert forall|k: int| 0 <= k < files@.len() implies #[trigger] files@[k] < marks.len() by {
                        assert(n.files[k] < marks.len());
                    }
                }
                self.set_files(&files, !fully);
            },
        }
        proof {
            assert forall|i: int| 0 <= i < self.marks().len() implies labelled(
                #[trigger] self.marks()[i],
                self.labels()[i],
            ) by {
                assert(labelled(marks[i], old(self).labels()[i]));
            }
        }
    }

    /// Select or clear every file, whether it is shown or not.
    pub fn set_all(&mut self, value: bool)
        requires
            old(self).wf(),
        ensures
            final(self).wf(),
            final(self).marks() == old(self).marks().map_values(|m: Marks| marked(m, value)),
            final(self).labels() == old(self).labels(),
            final(self).shapes() == old(self).shapes(),
    {
        let ghost marks = self.marks();
        let ghost want = marks.map_values(|m: Marks| marked(m, value));
        let mut i: usize = 0;
        while i < self.selected.len()
            invariant
                i <= self.selected@.len() == marks.len(),
                want == marks.map_values(|m: Marks| marked(m, value)),
                forall|k: int| 0 <= k < i ==> #[trigger] self.marks()[k] == want[k],
                forall|k: int| i <= k < marks.len() ==> #[trigger] self.marks()[k] == marks[k],
                self.labels() == old(self).labels(),
                self.shapes() == old(self).shapes(),
            decreases self.selected@.len() - i,
        {
            let ghost before = self.marks();
            proof {
                assert(self.selected@[i as int].marks() == before[i as int]);
            }
            self.selected[i].set(value);
            proof {
                assert(self.marks() =~= before.update(i as int, want[i as int]));
            }
            i = i + 1;
        }
        proof {
            assert(self.marks() =~= want);
            assert forall|i: int| 0 <= i < want.len() implies labelled(
                #[trigger] want[i],
                self.labels()[i],
            ) by {
                assert(labelled(marks[i], old(self).labels()[i]));
            }
        }
    }

    /// Select or clear the files that are shown, and no others.
    pub fn set_view(&mut self, value: bool)
        requires
            old(self).wf(),
        ensures
            final(self).wf(),
            final(self).marks() == marks_set(
                old(self).marks(),
                files_in(old(self).shapes()),
                value,
            ),
            final(self).labels() == old(self).labels(),
            final(self).shapes() == old(self).shapes(),
    {
        let ghost marks = self.marks();
        let mut files: Vec<usize> = Vec::new();
        collect_files(&self.roots, &mut files);
        proof {
            assert(files@ =~= files_in(self.shapes()));
            tidy_within(self.shapes(), marks.len() as int);
            files_within(self.shapes(), marks.len() as int);
        }
        self.set_files(&files, value);
        proof {
            assert forall|i: int| 0 <= i < self.marks().len() implies labelled(
                #[trigger] self.marks()[i],
                self.labels()[i],
            ) by {
                assert(labelled(marks[i], old(self).labels()[i]));
            }
        }
    }
}

/// Setting the units twice sets them once.
proof fn marked_twice(m: Marks, value: bool)
    ensures
        marked(marked(m, value), value) == marked(m, value),
{
    if m.hunks is Some {
        let h = m.hunks->0;
        let once = Seq::new(h.len(), |k: int| value);
        assert(Seq::new(once.len(), |k: int| value) =~= once);
    }
}

/// A node that is found refers to files below `len` only.
proof fn found_within(nodes: Seq<Shape>, id: Seq<char>, len: int)
    requires
        tree_within(nodes, len),
    ensures
        find_in(nodes, id) matches Some(n) ==> node_within(n, len),
    decreases nodes,
{
    if nodes.len() > 0 {
        let rest = nodes.drop_first();
        assert(node_within(nodes[0], len) && tree_within(nodes[0].children, len));
        assert(tree_within(rest, len)) by {
            assert forall|k: int| 0 <= k < rest.len() implies node_within(#[trigger] rest[k], len)
                && tree_within(rest[k].children, len) by {
                assert(rest[k] == nodes[k + 1]);
            }
        }
        found_within(nodes[0].children, id, len);
        found_within(rest, id, len);
    }
}

/// The files below the nodes of a tree are below `len`.
proof fn files_within(nodes: Seq<Shape>, len: int)
    requires
        tree_within(nodes, len),
    ensures
        forall|k: int| 0 <= k < files_in(nodes).len() ==> #[trigger] files_in(nodes)[k] < len,
    decreases nodes,
{
    if nodes.len() > 0 {
        let rest = nodes.drop_last();
        let last = nodes[nodes.len() - 1];
        assert(node_within(last, len) && tree_within(last.children, len));
        assert(tree_within(rest, len)) by {
            assert forall|k: int| 0 <= k < rest.len() implies node_within(#[trigger] rest[k], len)
                && tree_within(rest[k].children, len) by {
                assert(rest[k] == nodes[k]);
            }
        }
        files_within(rest, len);
        files_within(last.children, len);
        let before = files_in(rest);
        let here = files_of(last);
        assert(files_in(nodes) == before + here);
        assert(here == match last.kind {
            NodeKind::File { index, .. } => seq![index],
            NodeKind::Dir => files_in(last.children),
            NodeKind::Hunk { .. } => seq![],
        });
        assert forall|k: int| 0 <= k < files_in(nodes).len() implies #[trigger] files_in(nodes)[k] < len by {
            if k < before.len() {
                assert(before[k] < len);
            } else {
                assert(files_in(nodes)[k] == here[k - before.len()]);
                if last.kind is Dir {
                    assert(files_in(last.children)[k - before.len()] < len);
                }
            }
        }
    }
}

impl TreeModel {
    /// Paths of every file that takes part in the commit, in full or with some of
    /// its hunks. A renamed file adds its old path, so that the removal of that
    /// is committed with it.
    pub fn selected_paths(&self, changes: &[FileChange]) -> (r: Vec<String>)
        requires
            changes@.len() <= self.marks().len(),
        ensures
            texts(r@) == flagged_paths(changes@, touched(self.marks())),
    {
        self.paths_where(changes, false)
    }

    /// Paths of the files that are committed in full: a split file counts once
    /// every hunk is selected.
    pub fn selected_whole_paths(&self, changes: &[FileChange]) -> (r: Vec<String>)
        requires
            changes@.len() <= self.marks().len(),
        ensures
            texts(r@) == flagged_paths(changes@, whole(self.marks())),
    {
        self.paths_where(changes, true)
    }

    /// Paths of the files with a selected unit; with `full`, of those without
    /// another.
    fn paths_where(&self, changes: &[FileChange], full: bool) -> (r: Vec<String>)
        requires
            changes@.len() <= self.marks().len(),
        ensures
            texts(r@) == flagged_paths(
                changes@,
                if full {
                    whole(self.marks())
                } else {
                    touched(self.marks())
                },
            ),
    {
        let ghost flags = if full {
            whole(self.marks())
        } else {
            touched(self.marks())
        };
        let mut out: Vec<String> = Vec::new();
        let mut i: usize = 0;
        proof {
            assert(texts(out@) =~= flagged_paths(changes@.take(0), flags));
        }
        while i < changes.len()
            invariant
                i <= changes@.len() <= self.marks().len(),
                flags == if full {
                    whole(self.marks())
                } else {
                    touched(self.marks())
                },
                texts(out@) == flagged_paths(changes@.take(i as int), flags),
            decreases changes@.len() - i,
        {
            let ghost before = out@;
            let ghost next = changes@.take(i + 1);
            let c = &changes[i];
            proof {
                assert(next.drop_last() =~= changes@.take(i as int));
                assert(next.last() == *c);
                assert(self.marks()[i as int] == self.selected@[i as int].marks());
            }
            if self.selected[i].any() && (!full || self.selected[i].all()) {
                out.push(c.path.clone());
                if let Some(old) = &c.old_path {
                    out.push(old.clone());
                }
                proof {
                    assert(texts(out@) =~= texts(before) + paths_of(*c));
                }
            }
            i = i + 1;
        }
        proof {
            assert(changes@.take(i as int) =~= changes@);
        }
        out
    }

    /// The files of which only some hunks are selected, each with the indices of
    /// those.
    pub fn selected_partial(&self, changes: &[FileChange]) -> (r: Vec<(String, Vec<usize>)>)
        requires
            changes@.len() <= self.marks().len(),
        ensures
            partial_views(r@) == partials(changes@, self.marks()),
    {
        let ghost marks = self.marks();
        let mut out: Vec<(String, Vec<usize>)> = Vec::new();
        let mut i: usize = 0;
        proof {
            assert(partial_views(out@) =~= partials(changes@.take(0), marks));
        }
        while i < changes.len()
            invariant
                i <= changes@.len() <= marks.len(),
                marks == self.marks(),
                partial_views(out@) == partials(changes@.take(i as int), marks),
            decreases changes@.len() - i,
        {
            let ghost before = out@;
            let ghost next = changes@.take(i + 1);
            let s = &self.selected[i];
            proof {
                assert(next.drop_last() =~= changes@.take(i as int));
                assert(next.last() == changes@[i as int]);
                assert(marks[i as int] == s.marks());
            }
            if let Some(h) = &s.hunks {
                if s.any() && !s.all() {
                    let on = set_list(h);
                    let path = changes[i].path.clone();
                    out.push((path, on));
                    proof {
                        assert(partial_views(out@) =~= partial_views(before).push((path@, on@)));
                    }
                }
            }
            i = i + 1;
        }
        proof {
            assert(changes@.take(i as int) =~= changes@);
        }
        out
    }

    /// How many files have a selected unit.
    pub fn selected_count(&self) -> (r: usize)
        ensures
            r == set_indices(touched(self.marks())).len(),
    {
        let ghost flags = touched(self.marks());
        let mut n: usize = 0;
        let mut i: usize = 0;
        proof {
            assert(flags.take(0) =~= seq![]);
        }
        while i < self.selected.len()
            invariant
                n <= i <= self.selected@.len(),
                flags == touched(self.marks()),
                n == set_indices(flags.take(i as int)).len(),
            decreases self.selected@.len() - i,
        {
            proof {
                assert(flags.take(i + 1).drop_last() =~= flags.take(i as int));
                assert(self.marks()[i as int] == self.selected@[i as int].marks());
            }
            if self.selected[i].any() {
                n = n + 1;
            }
            i = i + 1;
        }
        proof {
            assert(flags.take(i as int) =~= flags);
        }
        n
    }
}

/// The indices of the set flags.
fn set_list(flags: &Vec<bool>) -> (r: Vec<usize>)
    ensures
        r@ == set_indices(flags@),
{
    let mut out: Vec<usize> = Vec::new();
    let mut i: usize = 0;
    proof {
        assert(flags@.take(0) =~= seq![]);
    }
    while i < flags.len()
        invariant
            i <= flags@.len(),
            out@ == set_indices(flags@.take(i as int)),
        decreases flags@.len() - i,
    {
        proof {
            assert(flags@.take(i + 1).drop_last() =~= flags@.take(i as int));
        }
        if flags[i] {
            out.push(i);
        }
        i = i + 1;
    }
    proof {
        assert(flags@.take(i as int) =~= flags@);
    }
    out
}

} // verus!
