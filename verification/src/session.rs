//! A session: rounds of picking changes, writing a message and committing, and the
//! offer to push at its end.

use vstd::prelude::*;

use crate::model::{
    hunk_views, opt_view, target_views, BackendKind, ChangeView, FileChange, HunkInfo, HunkView,
    Target, TargetView,
};
use crate::prompt;
use crate::prompt::insists;
use crate::selection_laws::{both_sides_of_a_rename_are_taken, touches};
use crate::text;
use crate::text::{decimal_of, joined, line_list, position, texts, trimmed};
use crate::tree::{
    all_on, any_on, flagged_paths, is_partial, partial_views, partials, paths_of, set_indices,
    touched, units, whole, Marks, TreeModel,
};
use crate::ui::filter::{Pick, PickView};
use crate::ui::select::SelectResult;
use crate::vcs::{holds, Snapshot, SnapshotView};

verus! {

// ----- what is drafted from --------------------------------------------------------------------

/// The texts of the hunks that are selected; an index without a hunk adds nothing.
pub open spec fn hunk_texts(hunks: Seq<HunkView>, selected: Seq<usize>) -> Seq<char>
    decreases selected.len(),
{
    if selected.len() == 0 {
        seq![]
    } else {
        let before = hunk_texts(hunks, selected.drop_last());
        let k = selected.last() as int;
        if k < hunks.len() {
            before + hunks[k].text
        } else {
            before
        }
    }
}

/// The hunks that are selected of the file at `path`.
pub open spec fn selected_of(partial: Seq<(Seq<char>, Seq<usize>)>, path: Seq<char>) -> Option<
    Seq<usize>,
>
    decreases partial.len(),
{
    if partial.len() == 0 {
        None
    } else if partial.last().0 == path {
        Some(partial.last().1)
    } else {
        selected_of(partial.drop_last(), path)
    }
}

/// The heading of a file of which some hunks are selected.
pub open spec fn partial_heading(path: Seq<char>) -> Seq<char> {
    "diff --git a/"@ + path + " b/"@ + path + " (selected hunks)\n"@
}

/// What the diff shows of one changed file: all of it if the file is selected in
/// full, the selected hunks if it is selected in part, and else nothing.
pub open spec fn part_of(
    s: SnapshotView,
    full: Seq<Seq<char>>,
    partial: Seq<(Seq<char>, Seq<usize>)>,
    path: Seq<char>,
) -> Option<Seq<char>> {
    if full.contains(path) {
        if s.diffs.contains_key(path) {
            Some(s.diffs[path])
        } else {
            None
        }
    } else {
        match selected_of(partial, path) {
            Some(selected) => if s.hunks.contains_key(path) {
                Some(partial_heading(path) + hunk_texts(s.hunks[path], selected))
            } else {
                None
            },
            None => None,
        }
    }
}

/// What the diff shows of the changed files, in order.
pub open spec fn parts_of(
    s: SnapshotView,
    full: Seq<Seq<char>>,
    partial: Seq<(Seq<char>, Seq<usize>)>,
    changes: Seq<ChangeView>,
) -> Seq<Seq<char>>
    decreases changes.len(),
{
    if changes.len() == 0 {
        seq![]
    } else {
        let before = parts_of(s, full, partial, changes.drop_last());
        match part_of(s, full, partial, changes.last().path) {
            Some(part) => before.push(part),
            None => before,
        }
    }
}

/// The hunks that are selected of the file at `path`.
fn find_selected<'a>(partial: &'a Vec<(String, Vec<usize>)>, path: &str) -> (r: Option<
    &'a Vec<usize>,
>)
    ensures
        match r {
            Some(v) => selected_of(partial_views(partial@), path@) == Some(v@),
            None => selected_of(partial_views(partial@), path@) is None,
        },
{
    let ghost all = partial_views(partial@);
    let mut i: usize = partial.len();
    proof {
        assert(all.take(i as int) =~= all);
    }
    while i > 0
        invariant
            i <= partial@.len(),
            all == partial_views(partial@),
            selected_of(all, path@) == selected_of(all.take(i as int), path@),
        decreases i,
    {
        proof {
            assert(all.take(i as int).drop_last() =~= all.take(i - 1));
            assert(all.take(i as int).last() == all[i - 1]);
        }
        if text::same(partial[i - 1].0.as_str(), path) {
            return Some(&partial[i - 1].1);
        }
        i = i - 1;
    }
    None
}

/// The selected hunks of a file, under its heading.
fn partial_text(path: &str, hunks: &Vec<HunkInfo>, selected: &Vec<usize>) -> (r: String)
    ensures
        r@ == partial_heading(path@) + hunk_texts(hunk_views(hunks@), selected@),
{
    let ghost list = hunk_views(hunks@);
    let mut out = "diff --git a/".to_string();
    out.append(path);
    out.append(" b/");
    out.append(path);
    out.append(" (selected hunks)\n");
    let ghost start = out@;
    let mut i: usize = 0;
    proof {
        assert(start + hunk_texts(list, selected@.take(0)) =~= start);
    }
    while i < selected.len()
        invariant
            i <= selected@.len(),
            list == hunk_views(hunks@),
            out@ == start + hunk_texts(list, selected@.take(i as int)),
        decreases selected@.len() - i,
    {
        proof {
            assert(selected@.take(i + 1).drop_last() =~= selected@.take(i as int));
            assert(selected@.take(i + 1).last() == selected@[i as int]);
        }
        let k: usize = selected[i];
        if k < hunks.len() {
            out.append(hunks[k].text.as_str());
        }
        proof {
            assert(out@ =~= start + hunk_texts(list, selected@.take(i + 1)));
        }
        i = i + 1;
    }
    proof {
        assert(selected@.take(i as int) =~= selected@);
    }
    out
}

/// The diff of exactly what is committed: all of the files that are selected in full,
/// and of the others the selected hunks alone.
pub fn selected_diff(snapshot: &Snapshot, tree: &TreeModel) -> (r: String)
    requires
        snapshot.changes@.len() <= tree.marks().len(),
    ensures
        r@ == joined(
            parts_of(
                snapshot@,
                flagged_paths(snapshot.changes@, whole(tree.marks())),
                partials(snapshot.changes@, tree.marks()),
                snapshot@.changes,
            ),
            seq!['\n'],
        ),
{
    let full = tree.selected_whole_paths(&snapshot.changes);
    let partial = tree.selected_partial(&snapshot.changes);
    let ghost s = snapshot@;
    let ghost f = texts(full@);
    let ghost p = partial_views(partial@);
    let mut out = String::new();
    let mut first = true;
    let mut i: usize = 0;
    proof {
        assert(s.changes.take(0) =~= seq![]);
        assert(out@ =~= joined(parts_of(s, f, p, s.changes.take(0)), seq!['\n']));
    }
    while i < snapshot.changes.len()
        invariant
            i <= snapshot.changes@.len(),
            s == snapshot@,
            f == texts(full@),
            p == partial_views(partial@),
            first == (parts_of(s, f, p, s.changes.take(i as int)).len() == 0),
            out@ == joined(parts_of(s, f, p, s.changes.take(i as int)), seq!['\n']),
        decreases snapshot.changes@.len() - i,
    {
        let ghost before = parts_of(s, f, p, s.changes.take(i as int));
        let path = snapshot.changes[i].path.as_str();
        proof {
            assert(s.changes.take(i + 1).drop_last() =~= s.changes.take(i as int));
            assert(s.changes.take(i + 1).last().path == path@);
        }
        let part: Option<String> = if holds(&full, path) {
            match snapshot.diffs.get(path) {
                Some(d) => Some(d.clone()),
                None => None,
            }
        } else {
            match find_selected(&partial, path) {
                Some(selected) => match snapshot.hunks.get(path) {
                    Some(hunks) => Some(partial_text(path, hunks, selected)),
                    None => None,
                },
                None => None,
            }
        };
        proof {
            assert(opt_view(part) == part_of(s, f, p, path@));
        }
        if let Some(t) = part {
            if !first {
                out.append("\n");
            }
            out.append(t.as_str());
            first = false;
            proof {
                reveal_strlit("\n");
                let now = before.push(t@);
                assert(now.drop_last() =~= before);
                assert(out@ =~= joined(now, seq!['\n']));
            }
        }
        i = i + 1;
    }
    proof {
        assert(s.changes.take(i as int) =~= s.changes);
    }
    out
}

/// The entry of a partly selected file is found, if no other file has its path; and
/// what is found belongs to a partly selected file.
pub proof fn partial_facts(changes: Seq<FileChange>, marks: Seq<Marks>, path: Seq<char>)
    requires
        changes.len() <= marks.len(),
    ensures
        selected_of(partials(changes, marks), path) is Some ==> exists|i: int|
            0 <= i < changes.len() && (#[trigger] changes[i]).path@ == path && is_partial(marks[i]),
        forall|i: int|
            0 <= i < changes.len() && (#[trigger] changes[i]).path@ == path && is_partial(marks[i])
                && (forall|j: int|
                0 <= j < changes.len() && j != i ==> (#[trigger] changes[j]).path@ != path)
                ==> selected_of(partials(changes, marks), path) == Some(
                set_indices(units(marks[i])),
            ),
    decreases changes.len(),
{
    let out = partials(changes, marks);
    if changes.len() > 0 {
        let last = changes.len() - 1;
        let shorter = changes.drop_last();
        let before = partials(shorter, marks);
        partial_facts(shorter, marks, path);
        if is_partial(marks[last]) {
            assert(out.drop_last() =~= before);
        }
        if selected_of(out, path) is Some {
            if is_partial(marks[last]) && changes[last].path@ == path {
                assert(changes[last].path@ == path);
            } else {
                let i = choose|i: int|
                    0 <= i < shorter.len() && (#[trigger] shorter[i]).path@ == path && is_partial(
                        marks[i],
                    );
                assert(changes[i].path@ == path);
            }
        }
        assert forall|i: int|
            0 <= i < changes.len() && (#[trigger] changes[i]).path@ == path && is_partial(marks[i])
                && (forall|j: int|
                0 <= j < changes.len() && j != i ==> (#[trigger] changes[j]).path@
                    != path) implies selected_of(out, path) == Some(
            set_indices(units(marks[i])),
        ) by {
            if i < last {
                assert(changes[last].path@ != path);
                assert(shorter[i].path@ == path);
                assert forall|j: int| 0 <= j < shorter.len() && j != i implies (
                #[trigger] shorter[j]).path@ != path by {
                    assert(changes[j].path@ != path);
                }
            }
        }
    }
}

/// The message is drafted from what is committed, and from nothing else: a file that
/// the diff shows is among the selected paths.
pub proof fn diff_shows_the_selection_alone(
    s: SnapshotView,
    changes: Seq<FileChange>,
    marks: Seq<Marks>,
    path: Seq<char>,
)
    requires
        changes.len() <= marks.len(),
    ensures
        part_of(s, flagged_paths(changes, whole(marks)), partials(changes, marks), path) is Some
            ==> flagged_paths(changes, touched(marks)).contains(path),
{
    let full = flagged_paths(changes, whole(marks));
    both_sides_of_a_rename_are_taken(changes, whole(marks), path);
    both_sides_of_a_rename_are_taken(changes, touched(marks), path);
    partial_facts(changes, marks, path);
    if part_of(s, full, partials(changes, marks), path) is Some {
        if full.contains(path) {
            let i = choose|i: int| #[trigger] touches(changes, whole(marks), i, path);
            assert(touches(changes, touched(marks), i, path));
        } else {
            let i = choose|i: int|
                0 <= i < changes.len() && (#[trigger] changes[i]).path@ == path && is_partial(
                    marks[i],
                );
            assert(paths_of(changes[i])[0] == path);
            assert(touches(changes, touched(marks), i, path));
        }
    }
}

/// A file that is selected in full is drafted from with its whole diff. One that is
/// selected in part, and shares its path with no other file that is selected, is
/// drafted from with its selected hunks.
pub proof fn diff_shows_all_of_the_selection(
    s: SnapshotView,
    changes: Seq<FileChange>,
    marks: Seq<Marks>,
    i: int,
)
    requires
        changes.len() <= marks.len(),
        0 <= i < changes.len(),
        forall|j: int|
            0 <= j < changes.len() && j != i ==> (#[trigger] changes[j]).path@ != changes[i].path@,
    ensures
        ({
            let path = changes[i].path@;
            let full = flagged_paths(changes, whole(marks));
            let part = part_of(s, full, partials(changes, marks), path);
            &&& any_on(marks[i]) && all_on(marks[i]) && s.diffs.contains_key(path) ==> part
                == Some(s.diffs[path])
            &&& is_partial(marks[i]) && s.hunks.contains_key(path) && !full.contains(path)
                ==> part == Some(
                partial_heading(path) + hunk_texts(s.hunks[path], set_indices(units(marks[i]))),
            )
        }),
{
    let path = changes[i].path@;
    both_sides_of_a_rename_are_taken(changes, whole(marks), path);
    partial_facts(changes, marks, path);
    if any_on(marks[i]) && all_on(marks[i]) {
        assert(paths_of(changes[i])[0] == path);
        assert(touches(changes, whole(marks), i, path));
    }
    if is_partial(marks[i]) {
        assert(changes[i].path@ == path);
    }
}

// ----- Conventional Commits --------------------------------------------------------------------

/// The types of Conventional Commits.
pub open spec fn cc_types() -> Seq<Seq<char>> {
    seq![
        "feat"@,
        "fix"@,
        "docs"@,
        "refactor"@,
        "test"@,
        "chore"@,
        "build"@,
        "ci"@,
        "perf"@,
        "style"@,
        "revert"@,
    ]
}

/// The types of Conventional Commits.
pub fn conventional_types() -> (r: Vec<String>)
    ensures
        texts(r@) == cc_types(),
{
    let types = text::owned(
        &[
            "feat",
            "fix",
            "docs",
            "refactor",
            "test",
            "chore",
            "build",
            "ci",
            "perf",
            "style",
            "revert",
        ],
    );
    proof {
        assert(texts(types@) =~= cc_types());
    }
    types
}

/// `s` without the exclamation marks at its end.
pub open spec fn unmarked(s: Seq<char>) -> Seq<char>
    decreases s.len(),
{
    if s.len() > 0 && s.last() == '!' {
        unmarked(s.drop_last())
    } else {
        s
    }
}

/// The first line; empty if there is none.
pub open spec fn first_line(s: Seq<char>) -> Seq<char> {
    let lines = line_list(s);
    if lines.len() == 0 {
        seq![]
    } else {
        lines[0]
    }
}

/// The type that stands before the colon of the first line, without what can follow
/// it: a scope in round brackets, and exclamation marks.
pub open spec fn type_in(message: Seq<char>) -> Option<Seq<char>> {
    let first = first_line(message);
    let colon = position(first, ':');
    if colon < first.len() {
        let head = unmarked(first.take(colon));
        Some(head.take(position(head, '(')))
    } else {
        None
    }
}

/// The first line starts like a Conventional Commit of a known type.
pub open spec fn is_conventional(message: Seq<char>) -> bool {
    type_in(message) matches Some(t) && cc_types().contains(t)
}

/// Whether the first line starts like a Conventional Commit of a known type.
pub fn has_conventional_prefix(message: &str) -> (r: bool)
    ensures
        r == is_conventional(message@),
{
    let all = text::chars(message);
    let lines = text::lines(&all);
    if lines.len() == 0 {
        proof {
            assert(text::slices(lines@).len() == 0);
            let none: Seq<char> = seq![];
            assert(first_line(message@) == none);
            assert(position(none, ':') == 0);
        }
        return false;
    }
    let first = lines[0];
    proof {
        assert(text::slices(lines@)[0] == first@);
    }
    let colon: usize = text::find(first, ':');
    if colon >= first.len() {
        return false;
    }
    let ghost before = first@.take(colon as int);
    let mut n: usize = colon;
    while n > 0 && first[n - 1] == '!'
        invariant
            n <= colon < first@.len(),
            before == first@.take(colon as int),
            unmarked(before) == unmarked(first@.take(n as int)),
        decreases n,
    {
        proof {
            assert(first@.take(n as int).drop_last() =~= first@.take(n - 1));
            assert(first@.take(n as int).last() == first@[n - 1]);
        }
        n = n - 1;
    }
    proof {
        if n > 0 {
            assert(first@.take(n as int).last() == first@[n - 1]);
        }
        assert(unmarked(before) == first@.take(n as int));
    }
    let mut head: Vec<char> = Vec::new();
    let mut i: usize = 0;
    while i < n
        invariant
            i <= n <= first@.len(),
            head@ == first@.take(i as int),
        decreases n - i,
    {
        head.push(first[i]);
        proof {
            assert(head@ =~= first@.take(i + 1));
        }
        i = i + 1;
    }
    let bracket: usize = text::find(&head, '(');
    head.truncate(bracket);
    proof {
        assert(head@ =~= unmarked(before).take(bracket as int));
    }
    let kind = text::text(&head);
    holds(&conventional_types(), kind.as_str())
}

/// A message under one of the types that the picker offers is recognised.
pub proof fn typed_messages_are_conventional(t: Seq<char>, message: Seq<char>)
    requires
        cc_types().contains(t),
    ensures
        is_conventional(t + ": "@ + message),
{
    reveal_strlit(": ");
    let s = t + ": "@ + message;
    type_letters(t);
    let k = t.len() as int;
    assert(s[k] == ':');
    let end = position(s, '\n');
    text::position_facts(s, '\n');
    assert forall|i: int| 0 <= i < k implies s[i] != '\n' && s[i] != ':' by {
        assert(s[i] == t[i]);
    }
    assert(end > k) by {
        if end <= k {
            assert(s[end] == '\n');
        }
    }
    let raw = if end < s.len() {
        s.take(end)
    } else {
        s
    };
    let first = first_line(s);
    assert(first == text::chomped(raw) || first == raw);
    assert(raw[k] == ':');
    assert(first.len() > k && first[k] == ':' && first.take(k) =~= t) by {
        if raw.last() == '\r' {
            assert(raw.len() - 1 > k);
        }
    }
    text::position_is(first, ':', k);
    assert(unmarked(t) == t) by {
        assert(t.last() == t[k - 1]);
    }
    text::position_is(t, '(', k);
    assert(t.take(k) =~= t);
}

/// What the types are made of: letters alone.
pub proof fn type_letters(t: Seq<char>)
    requires
        cc_types().contains(t),
    ensures
        t.len() > 0,
        forall|i: int| 0 <= i < t.len() ==> 'a' <= #[trigger] t[i] <= 'z',
{
    reveal_strlit("feat");
    reveal_strlit("fix");
    reveal_strlit("docs");
    reveal_strlit("refactor");
    reveal_strlit("test");
    reveal_strlit("chore");
    reveal_strlit("build");
    reveal_strlit("ci");
    reveal_strlit("perf");
    reveal_strlit("style");
    reveal_strlit("revert");
}

// ----- texts ----------------------------------------------------------------------------------------

/// Where a commit lands, in words.
pub open spec fn place_text(kind: BackendKind, target: TargetView) -> Seq<char> {
    if target.label.len() == 0 {
        "working-copy change"@
    } else {
        match kind {
            BackendKind::Git => "branch "@ + target.label,
            BackendKind::Jj => "bookmark "@ + target.label,
        }
    }
}

/// Where a commit lands, in words.
pub fn where_to(kind: BackendKind, target: &Target) -> (r: String)
    ensures
        r@ == place_text(kind, target@),
{
    if target.label.as_str().is_empty() {
        return "working-copy change".to_string();
    }
    let mut out = match kind {
        BackendKind::Git => "branch ".to_string(),
        BackendKind::Jj => "bookmark ".to_string(),
    };
    out.append(target.label.as_str());
    out
}

/// The heading of the message editor.
pub open spec fn message_heading(kind: BackendKind, target: TargetView, amend: bool) -> Seq<char> {
    (if amend {
        "Amend"@
    } else {
        "Commit"@
    }) + " message — "@ + place_text(kind, target)
}

/// The heading of the message editor.
pub fn message_header(kind: BackendKind, target: &Target, amend: bool) -> (r: String)
    ensures
        r@ == message_heading(kind, target@, amend),
{
    let mut out = if amend {
        "Amend".to_string()
    } else {
        "Commit".to_string()
    };
    out.append(" message — ");
    out.append(where_to(kind, target).as_str());
    out
}

/// A confirmed commit, ready to be made.
#[derive(Debug)]
pub struct Plan {
    pub target: Target,
    pub amend: bool,
    pub message: String,
}

/// A confirmed commit as a mathematical value.
pub struct PlanView {
    pub target: TargetView,
    pub amend: bool,
    pub message: Seq<char>,
}

impl View for Plan {
    type V = PlanView;

    open spec fn view(&self) -> PlanView {
        PlanView { target: self.target@, amend: self.amend, message: self.message@ }
    }
}

/// An optional plan as a mathematical value.
pub open spec fn plan_view(plan: Option<Plan>) -> Option<PlanView> {
    match plan {
        Some(p) => Some(p@),
        None => None,
    }
}

/// `1 file`, `2 files`.
pub open spec fn file_noun(count: nat) -> Seq<char> {
    if count == 1 {
        "file"@
    } else {
        "files"@
    }
}

/// What is told of a commit that was made.
pub open spec fn success_text(kind: BackendKind, plan: PlanView, count: nat) -> Seq<char> {
    (if plan.amend {
        "Amended"@
    } else {
        "Committed"@
    }) + " "@ + decimal_of(count) + " "@ + file_noun(count) + " to "@ + place_text(
        kind,
        plan.target,
    ) + "."@
}

/// What is told of a commit that was made.
pub fn success_line(kind: BackendKind, plan: &Plan, count: usize) -> (r: String)
    ensures
        r@ == success_text(kind, plan@, count as nat),
{
    let mut out = if plan.amend {
        "Amended".to_string()
    } else {
        "Committed".to_string()
    };
    out.append(" ");
    text::push_decimal(&mut out, count as u128);
    out.append(" ");
    if count == 1 {
        out.append("file");
    } else {
        out.append("files");
    }
    out.append(" to ");
    out.append(where_to(kind, &plan.target).as_str());
    out.append(".");
    out
}

// ----- one round -------------------------------------------------------------------------------------

/// What to do next on the way to a plan.
#[derive(Debug)]
pub enum Step {
    /// Let the user pick one of the targets.
    PickTarget,
    /// Let the user pick the changes.
    Select,
    /// Read the message that the target has; that of the commit to amend with `amend`.
    ReadMessage { amend: bool },
    /// Draft a message from the selected diff; the existing one stands in for a draft.
    Draft { existing: String },
    /// Let the user pick a type.
    PickType { title: String, types: Vec<String> },
    /// Edit the message, under this heading.
    Edit { heading: String, text: String },
    /// The plan is made.
    Done(Plan),
    /// The user has cancelled.
    Cancelled,
    /// Stop with this report.
    Failed(String),
}

/// A step as a mathematical value.
pub enum StepView {
    PickTarget,
    Select,
    ReadMessage { amend: bool },
    Draft { existing: Seq<char> },
    PickType { title: Seq<char>, types: Seq<Seq<char>> },
    Edit { heading: Seq<char>, text: Seq<char> },
    Done(PlanView),
    Cancelled,
    Failed(Seq<char>),
}

impl View for Step {
    type V = StepView;

    open spec fn view(&self) -> StepView {
        match self {
            Step::PickTarget => StepView::PickTarget,
            Step::Select => StepView::Select,
            Step::ReadMessage { amend } => StepView::ReadMessage { amend: *amend },
            Step::Draft { existing } => StepView::Draft { existing: existing@ },
            Step::PickType { title, types } => StepView::PickType {
                title: title@,
                types: texts(types@),
            },
            Step::Edit { heading, text } => StepView::Edit { heading: heading@, text: text@ },
            Step::Done(plan) => StepView::Done(plan@),
            Step::Cancelled => StepView::Cancelled,
            Step::Failed(why) => StepView::Failed(why@),
        }
    }
}

/// What came of a step on the way to a plan.
#[derive(Debug)]
pub enum Reply {
    /// Nothing yet.
    Start,
    /// The target that was picked; `None` if that was cancelled.
    Target(Option<usize>),
    /// The changes were picked, or not.
    Selected(SelectResult),
    /// The message that the target has.
    Existing(String),
    /// The draft, and whether messages are to be Conventional Commits.
    Drafted { text: String, conventional: bool },
    /// The type that was picked.
    Type(Pick),
    /// The message from the editor; `None` if that was cancelled.
    Edited(Option<String>),
    /// It failed.
    Error(String),
}

/// The way to a plan.
pub struct Round {
    kind: BackendKind,
    targets: Vec<Target>,
    at: usize,
    amend: bool,
    draft: String,
}

/// The way to a plan, as a mathematical value.
pub struct RoundView {
    pub kind: BackendKind,
    pub targets: Seq<TargetView>,
    /// The target that was picked.
    pub at: nat,
    /// Whether the commit amends.
    pub amend: bool,
    /// The draft without a type.
    pub draft: Seq<char>,
}

impl View for Round {
    type V = RoundView;

    closed spec fn view(&self) -> RoundView {
        RoundView {
            kind: self.kind,
            targets: target_views(self.targets@),
            at: self.at as nat,
            amend: self.amend,
            draft: self.draft@,
        }
    }
}

/// Whether the commit amends: it cannot without a bookmark to amend into (jj).
pub open spec fn amends(kind: BackendKind, target: TargetView, wanted: bool) -> bool {
    wanted && !(kind == BackendKind::Jj && target.label.len() == 0)
}

/// Edit a message.
pub open spec fn to_edit(v: RoundView, text: Seq<char>) -> (RoundView, StepView) {
    (
        v,
        StepView::Edit {
            heading: message_heading(v.kind, v.targets[v.at as int], v.amend),
            text,
        },
    )
}

/// The reply picks a target that there is, and nothing but that and a failure comes
/// before there is a target.
pub open spec fn fits(v: RoundView, reply: Reply) -> bool {
    match reply {
        Reply::Start => true,
        Reply::Target(Some(i)) => i < v.targets.len(),
        Reply::Target(None) => true,
        Reply::Error(_) => true,
        _ => v.at < v.targets.len(),
    }
}

/// What to do after a reply.
pub open spec fn round_next(v: RoundView, reply: Reply) -> (RoundView, StepView) {
    match reply {
        Reply::Start => if v.targets.len() > 1 {
            (v, StepView::PickTarget)
        } else if v.targets.len() == 1 {
            (RoundView { at: 0, ..v }, StepView::Select)
        } else {
            (v, StepView::Failed("no commit target found"@))
        },
        Reply::Target(Some(i)) => (RoundView { at: i as nat, ..v }, StepView::Select),
        Reply::Target(None) => (v, StepView::Cancelled),
        Reply::Selected(result) => if result.confirmed {
            let amend = amends(v.kind, v.targets[v.at as int], result.amend);
            (RoundView { amend, ..v }, StepView::ReadMessage { amend })
        } else {
            (v, StepView::Cancelled)
        },
        Reply::Existing(existing) => if v.amend {
            to_edit(v, existing@)
        } else {
            (v, StepView::Draft { existing: existing@ })
        },
        Reply::Drafted { text, conventional } => if conventional && !is_conventional(text@) {
            (
                RoundView { draft: text@, ..v },
                StepView::PickType {
                    title: "Conventional Commit type (Esc — none):"@,
                    types: cc_types(),
                },
            )
        } else {
            to_edit(v, text@)
        },
        Reply::Type(pick) => match pick@ {
            PickView::Existing(t) => to_edit(v, t + ": "@ + v.draft),
            _ => to_edit(v, v.draft),
        },
        Reply::Edited(None) => (v, StepView::Cancelled),
        Reply::Edited(Some(message)) => if trimmed(message@).len() == 0 {
            (v, StepView::Failed("empty commit message — nothing committed"@))
        } else {
            (
                v,
                StepView::Done(
                    PlanView {
                        target: v.targets[v.at as int],
                        amend: v.amend,
                        message: message@,
                    },
                ),
            )
        },
        Reply::Error(e) => (v, StepView::Failed(e@)),
    }
}

impl Round {
    /// The way to a plan for one of these targets.
    pub fn new(kind: BackendKind, targets: Vec<Target>) -> (r: Self)
        ensures
            r@ == (RoundView {
                kind,
                targets: target_views(targets@),
                at: 0,
                amend: false,
                draft: seq![],
            }),
    {
        let r = Round { kind, targets, at: 0, amend: false, draft: String::new() };
        proof {
            assert(r.draft@ =~= seq![]);
        }
        r
    }

    /// The targets to pick from.
    pub fn targets(&self) -> (r: &Vec<Target>)
        ensures
            target_views(r@) == self@.targets,
    {
        &self.targets
    }

    /// The target that was picked.
    pub fn target(&self) -> (r: &Target)
        requires
            self@.at < self@.targets.len(),
        ensures
            r@ == self@.targets[self@.at as int],
    {
        &self.targets[self.at]
    }

    /// Edit a message.
    fn edit(&self, text: String) -> (r: Step)
        requires
            self@.at < self@.targets.len(),
        ensures
            (self@, r@) == to_edit(self@, text@),
    {
        Step::Edit { heading: message_header(self.kind, self.target(), self.amend), text }
    }
}

/// What to do after a reply, on the way to a plan.
pub fn interactive(run: &mut Round, reply: Reply) -> (r: Step)
    requires
        fits(old(run)@, reply),
    ensures
        (final(run)@, r@) == round_next(old(run)@, reply),
{
    proof {
        assert(target_views(run.targets@).len() == run.targets@.len());
    }
    match reply {
        Reply::Start => {
            if run.targets.len() > 1 {
                Step::PickTarget
            } else if run.targets.len() == 1 {
                run.at = 0;
                Step::Select
            } else {
                Step::Failed("no commit target found".to_string())
            }
        },
        Reply::Target(Some(i)) => {
            run.at = i;
            Step::Select
        },
        Reply::Target(None) => Step::Cancelled,
        Reply::Selected(result) => {
            if result.confirmed {
                let bare = run.target().label.as_str().is_empty();
                let amend = result.amend && !(run.kind == BackendKind::Jj && bare);
                run.amend = amend;
                Step::ReadMessage { amend }
            } else {
                Step::Cancelled
            }
        },
        Reply::Existing(existing) => {
            if run.amend {
                run.edit(existing)
            } else {
                Step::Draft { existing }
            }
        },
        Reply::Drafted { text, conventional } => {
            if conventional && !has_conventional_prefix(text.as_str()) {
                run.draft = text;
                Step::PickType {
                    title: "Conventional Commit type (Esc — none):".to_string(),
                    types: conventional_types(),
                }
            } else {
                run.edit(text)
            }
        },
        Reply::Type(pick) => {
            match pick {
                Pick::Existing(t) => {
                    let mut text = t;
                    text.append(": ");
                    text.append(run.draft.as_str());
                    run.edit(text)
                },
                _ => run.edit(run.draft.clone()),
            }
        },
        Reply::Edited(None) => Step::Cancelled,
        Reply::Edited(Some(message)) => {
            let all = text::chars(message.as_str());
            if text::trim(&all).len() == 0 {
                Step::Failed("empty commit message — nothing committed".to_string())
            } else {
                Step::Done(Plan { target: run.target().copy(), amend: run.amend, message })
            }
        },
        Reply::Error(e) => Step::Failed(e),
    }
}

/// A plan comes only from the editor, with a message that is not blank, and takes
/// over the target and whether to amend as they were settled.
pub proof fn plans_have_messages(v: RoundView, reply: Reply)
    ensures
        round_next(v, reply).1 matches StepView::Done(plan) ==> reply is Edited && trimmed(
            plan.message,
        ).len() > 0 && plan.target == v.targets[v.at as int] && plan.amend == v.amend,
{
}

/// There is no amending without a bookmark (jj), whatever was asked for.
pub proof fn amending_needs_a_bookmark(v: RoundView, result: SelectResult)
    requires
        v.kind == BackendKind::Jj,
        v.targets[v.at as int].label.len() == 0,
    ensures
        round_next(v, Reply::Selected(result)).1 != (StepView::ReadMessage { amend: true }),
{
}

/// Cancelling any screen cancels the round.
pub proof fn cancelling_makes_no_plan(v: RoundView, amend: bool)
    ensures
        round_next(v, Reply::Target(None)).1 == StepView::Cancelled,
        round_next(v, Reply::Selected(SelectResult { confirmed: false, amend })).1
            == StepView::Cancelled,
        round_next(v, Reply::Edited(None)).1 == StepView::Cancelled,
{
}

/// What a type was picked for is a Conventional Commit in the editor; where none is
/// picked, the draft stays as it is.
pub proof fn picked_types_take_effect(v: RoundView, t: Seq<char>, pick: Pick)
    ensures
        pick@ == PickView::Existing(t) && cc_types().contains(t) ==> (round_next(
            v,
            Reply::Type(pick),
        ).1 matches StepView::Edit { text, .. } && is_conventional(text)),
        !(pick@ is Existing) ==> (round_next(v, Reply::Type(pick)).1 matches StepView::Edit {
            text,
            ..
        } && text == v.draft),
{
    if cc_types().contains(t) {
        typed_messages_are_conventional(t, v.draft);
    }
}

// ----- the session ---------------------------------------------------------------------------------

/// What to do next in a session.
#[derive(Debug)]
pub enum Move {
    /// Tell this, if it is not empty, and take a snapshot of the changes.
    TakeSnapshot { notice: String },
    /// Ask this; declining is the default.
    AskMore(String),
    /// Make a plan. With `amend` it starts out as one that amends.
    Interact { amend: bool },
    /// Make the commit that was planned.
    Commit,
    /// Tell this, report this, and offer to push to this target; after an amend with
    /// force.
    Offer { notice: String, alarm: String, target: Target, amended: bool },
    /// Tell this: the session is over.
    Done(String),
    /// Stop with this report.
    Failed(String),
}

/// A move as a mathematical value.
pub enum MoveView {
    TakeSnapshot { notice: Seq<char> },
    AskMore(Seq<char>),
    Interact { amend: bool },
    Commit,
    Offer { notice: Seq<char>, alarm: Seq<char>, target: TargetView, amended: bool },
    Done(Seq<char>),
    Failed(Seq<char>),
}

impl View for Move {
    type V = MoveView;

    open spec fn view(&self) -> MoveView {
        match self {
            Move::TakeSnapshot { notice } => MoveView::TakeSnapshot { notice: notice@ },
            Move::AskMore(question) => MoveView::AskMore(question@),
            Move::Interact { amend } => MoveView::Interact { amend: *amend },
            Move::Commit => MoveView::Commit,
            Move::Offer { notice, alarm, target, amended } => MoveView::Offer {
                notice: notice@,
                alarm: alarm@,
                target: target@,
                amended: *amended,
            },
            Move::Done(notice) => MoveView::Done(notice@),
            Move::Failed(why) => MoveView::Failed(why@),
        }
    }
}

/// What came of a move.
#[derive(Debug)]
pub enum Event {
    /// Nothing yet.
    Start,
    /// The snapshot: how many files have changed, and whether there is a terminal to
    /// talk to.
    Snapshot { changed: usize, terminal: bool },
    /// The answer to the question; `None` at the end of input.
    Answer(Option<String>),
    /// The plan; `None` if the round was cancelled.
    Planned(Option<Plan>),
    /// The commit was made, of this many files.
    Committed { files: usize },
    /// The commit could not be made.
    CommitFailed(String),
    /// It failed.
    Error(String),
}

/// A session under way.
pub struct Session {
    kind: BackendKind,
    amend: bool,
    last: Option<Plan>,
    plan: Option<Plan>,
}

/// A session under way, as a mathematical value.
pub struct SessionView {
    pub kind: BackendKind,
    /// The first commit starts out as one that amends.
    pub amend: bool,
    /// The last commit that was made.
    pub last: Option<PlanView>,
    /// The commit that is about to be made.
    pub plan: Option<PlanView>,
}

impl View for Session {
    type V = SessionView;

    closed spec fn view(&self) -> SessionView {
        SessionView {
            kind: self.kind,
            amend: self.amend,
            last: plan_view(self.last),
            plan: plan_view(self.plan),
        }
    }
}

/// The question whether to go on.
pub open spec fn more_text(changed: nat) -> Seq<char> {
    decimal_of(changed) + " changed "@ + file_noun(changed) + " remain — commit more?"@
}

/// End the session: with an offer to push where something was committed.
pub open spec fn to_offer(v: SessionView, notice: Seq<char>, alarm: Seq<char>) -> (
    SessionView,
    MoveView,
) {
    match v.last {
        Some(plan) => (
            v,
            MoveView::Offer { notice, alarm, target: plan.target, amended: plan.amend },
        ),
        None => (v, MoveView::Done(notice)),
    }
}

/// What is reported of a commit that could not be made after others.
pub open spec fn intact_text(e: Seq<char>) -> Seq<char> {
    "commit: "@ + e
        + "\n(the session's earlier commits are intact — continuing to the push offer)"@
}

/// What to do after an event.
pub open spec fn session_next(v: SessionView, event: Event) -> (SessionView, MoveView) {
    match event {
        Event::Start => (v, MoveView::TakeSnapshot { notice: seq![] }),
        Event::Snapshot { changed, terminal } => if v.last is None {
            if changed == 0 {
                (v, MoveView::Done("Nothing to commit — no changed tracked files."@))
            } else if !terminal {
                (v, MoveView::Failed("commit is interactive; run it in a terminal"@))
            } else {
                (v, MoveView::Interact { amend: v.amend })
            }
        } else if changed == 0 {
            to_offer(v, "Nothing left to commit."@, seq![])
        } else {
            (v, MoveView::AskMore(more_text(changed as nat)))
        },
        Event::Answer(answer) => if insists(opt_view(answer)) {
            (v, MoveView::Interact { amend: false })
        } else {
            to_offer(v, seq![], seq![])
        },
        Event::Planned(None) => if v.last is None {
            (v, MoveView::Done("Aborted — nothing committed."@))
        } else {
            to_offer(v, seq![], seq![])
        },
        Event::Planned(Some(plan)) => (SessionView { plan: Some(plan@), ..v }, MoveView::Commit),
        Event::Committed { files } => match v.plan {
            Some(plan) => (
                SessionView { last: Some(plan), plan: None, ..v },
                MoveView::TakeSnapshot { notice: success_text(v.kind, plan, files as nat) },
            ),
            None => (v, MoveView::TakeSnapshot { notice: seq![] }),
        },
        Event::CommitFailed(e) => if v.last is None {
            (SessionView { plan: None, ..v }, MoveView::Failed(e@))
        } else {
            to_offer(SessionView { plan: None, ..v }, seq![], intact_text(e@))
        },
        Event::Error(e) => (v, MoveView::Failed(e@)),
    }
}

/// No text.
fn nothing() -> (r: String)
    ensures
        r@ == Seq::<char>::empty(),
{
    let none = String::new();
    proof {
        assert(none@ =~= Seq::<char>::empty());
    }
    none
}

impl Session {
    /// A session without a commit. With `amend` the first one starts out as one that
    /// amends.
    pub fn new(kind: BackendKind, amend: bool) -> (r: Self)
        ensures
            r@ == (SessionView { kind, amend, last: None, plan: None }),
    {
        Session { kind, amend, last: None, plan: None }
    }

    /// The commit that is about to be made.
    pub fn plan(&self) -> (r: Option<&Plan>)
        ensures
            match r {
                Some(plan) => self@.plan == Some(plan@),
                None => self@.plan is None,
            },
    {
        match &self.plan {
            Some(plan) => Some(plan),
            None => None,
        }
    }

    /// End the session.
    fn offer_step(&self, notice: String, alarm: String) -> (r: Move)
        ensures
            (self@, r@) == to_offer(self@, notice@, alarm@),
    {
        match &self.last {
            Some(plan) => Move::Offer {
                notice,
                alarm,
                target: plan.target.copy(),
                amended: plan.amend,
            },
            None => Move::Done(notice),
        }
    }
}

/// What to do after an event.
pub fn run(session: &mut Session, event: Event) -> (r: Move)
    ensures
        (final(session)@, r@) == session_next(old(session)@, event),
{
    match event {
        Event::Start => Move::TakeSnapshot { notice: nothing() },
        Event::Snapshot { changed, terminal } => {
            if session.last.is_none() {
                if changed == 0 {
                    Move::Done("Nothing to commit — no changed tracked files.".to_string())
                } else if !terminal {
                    Move::Failed("commit is interactive; run it in a terminal".to_string())
                } else {
                    Move::Interact { amend: session.amend }
                }
            } else if changed == 0 {
                session.offer_step("Nothing left to commit.".to_string(), nothing())
            } else {
                let mut question = text::decimal(changed as u128);
                question.append(" changed ");
                if changed == 1 {
                    question.append("file");
                } else {
                    question.append("files");
                }
                question.append(" remain — commit more?");
                Move::AskMore(question)
            }
        },
        Event::Answer(answer) => {
            let more = match &answer {
                Some(line) => prompt::confirm_no(Some(line.as_str())),
                None => prompt::confirm_no(None),
            };
            if more {
                Move::Interact { amend: false }
            } else {
                session.offer_step(nothing(), nothing())
            }
        },
        Event::Planned(None) => {
            if session.last.is_none() {
                Move::Done("Aborted — nothing committed.".to_string())
            } else {
                session.offer_step(nothing(), nothing())
            }
        },
        Event::Planned(Some(plan)) => {
            session.plan = Some(plan);
            Move::Commit
        },
        Event::Committed { files } => {
            match session.plan.take() {
                Some(plan) => {
                    let notice = success_line(session.kind, &plan, files);
                    session.last = Some(plan);
                    Move::TakeSnapshot { notice }
                },
                None => Move::TakeSnapshot { notice: nothing() },
            }
        },
        Event::CommitFailed(e) => {
            session.plan = None;
            if session.last.is_none() {
                Move::Failed(e)
            } else {
                let mut alarm = "commit: ".to_string();
                alarm.append(e.as_str());
                alarm.append(
                    "\n(the session's earlier commits are intact — continuing to the push offer)",
                );
                session.offer_step(nothing(), alarm)
            }
        },
        Event::Error(e) => Move::Failed(e),
    }
}

/// Once something was committed, neither cancelling nor declining nor a commit that
/// fails abandons it: all of them end in the offer to push the last commit, with
/// force exactly if that was an amend.
pub proof fn commits_are_never_abandoned(v: SessionView, event: Event)
    requires
        v.last is Some,
        event is CommitFailed || (event matches Event::Planned(p) && p is None) || (
        event matches Event::Answer(a) && !insists(opt_view(a))) || (event matches Event::Snapshot {
            changed,
            ..
        } && changed == 0),
    ensures
        session_next(v, event).1 matches MoveView::Offer { target, amended, .. } && target
            == v.last.unwrap().target && amended == v.last.unwrap().amend,
{
}

/// A session fails only on an actual error: a step that failed, a first commit that
/// could not be made, or changes to commit without a terminal to ask on. Nothing to
/// commit, a cancelled round and a declined question end it without one.
pub proof fn only_errors_fail(v: SessionView, event: Event)
    ensures
        session_next(v, event).1 is Failed <==> event is Error || (v.last is None && (event
            is CommitFailed || (event matches Event::Snapshot { changed, terminal } && changed > 0
            && !terminal))),
{
}

/// Without a commit there is no offer to push.
pub proof fn offers_follow_commits(v: SessionView, event: Event)
    ensures
        session_next(v, event).1 is Offer ==> v.last is Some,
        v.last is None && session_next(v, event).0.last is Some ==> event is Committed,
{
}

/// The option to amend is for the first commit of a session.
pub proof fn amend_is_for_the_first_round(v: SessionView, event: Event)
    requires
        v.last is Some,
    ensures
        session_next(v, event).1 != (MoveView::Interact { amend: true }),
{
}

/// What is committed is the plan that came last, and its commit becomes the last one.
pub proof fn plans_become_commits(v: SessionView, plan: Plan, files: usize)
    ensures
        ({
            let (w, step) = session_next(v, Event::Planned(Some(plan)));
            &&& step == MoveView::Commit
            &&& w.plan == Some(plan@)
            &&& session_next(w, Event::Committed { files }).0.last == Some(plan@)
        }),
{
}

// ----- what a round and a session come to ------------------------------------------------------------

/// The texts of the selected hunks stand in the order of the selection, each in full.
pub proof fn hunks_are_drafted_in_order(hunks: Seq<HunkView>, a: Seq<usize>, k: usize, b: Seq<usize>)
    ensures
        hunk_texts(hunks, a + b) == hunk_texts(hunks, a) + hunk_texts(hunks, b),
        k < hunks.len() ==> hunk_texts(hunks, seq![k]) == hunks[k as int].text,
        k >= hunks.len() ==> hunk_texts(hunks, seq![k]).len() == 0,
        hunk_texts(hunks, seq![]).len() == 0,
    decreases b.len(),
{
    let one = seq![k];
    assert(one.drop_last() =~= seq![]);
    assert(hunk_texts(hunks, seq![]) =~= seq![]);
    if k < hunks.len() {
        assert(hunk_texts(hunks, one) =~= hunks[k as int].text);
    }
    if b.len() == 0 {
        assert(a + b =~= a);
        assert(hunk_texts(hunks, a) + hunk_texts(hunks, b) =~= hunk_texts(hunks, a));
    } else {
        hunks_are_drafted_in_order(hunks, a, k, b.drop_last());
        assert((a + b).drop_last() =~= a + b.drop_last());
        assert((a + b).last() == b.last());
        assert(hunk_texts(hunks, a + b) =~= hunk_texts(hunks, a) + hunk_texts(hunks, b));
    }
}

/// The files stand in the diff in the order of the snapshot, each that is shown at all
/// exactly once: `at` tells which file each part shows.
pub proof fn files_are_drafted_in_order(
    s: SnapshotView,
    full: Seq<Seq<char>>,
    partial: Seq<(Seq<char>, Seq<usize>)>,
    changes: Seq<ChangeView>,
) -> (at: Seq<int>)
    ensures
        at.len() == parts_of(s, full, partial, changes).len(),
        forall|k: int|
            0 <= k < at.len() ==> 0 <= #[trigger] at[k] < changes.len() && part_of(
                s,
                full,
                partial,
                changes[at[k]].path,
            ) == Some(parts_of(s, full, partial, changes)[k]),
        forall|j: int, k: int| 0 <= j < k < at.len() ==> #[trigger] at[j] < #[trigger] at[k],
        forall|i: int|
            0 <= i < changes.len() && part_of(s, full, partial, (#[trigger] changes[i]).path) is Some
                ==> at.contains(i),
    decreases changes.len(),
{
    if changes.len() == 0 {
        seq![]
    } else {
        let short = changes.drop_last();
        let before = files_are_drafted_in_order(s, full, partial, short);
        let shorter = parts_of(s, full, partial, short);
        let out = parts_of(s, full, partial, changes);
        let n = changes.len() - 1;
        let shown = part_of(s, full, partial, changes[n].path) is Some;
        let at = if shown {
            before.push(n)
        } else {
            before
        };
        assert forall|k: int| 0 <= k < at.len() implies 0 <= #[trigger] at[k] < changes.len() && part_of(
            s,
            full,
            partial,
            changes[at[k]].path,
        ) == Some(out[k]) by {
            if k < before.len() {
                assert(at[k] == before[k]);
                assert(short[at[k]] == changes[at[k]]);
                assert(out[k] == shorter[k]);
            }
        }
        assert forall|j: int, k: int| 0 <= j < k < at.len() implies #[trigger] at[j] < #[trigger] at[k] by {
            assert(at[j] == before[j]);
            if k < before.len() {
                assert(at[k] == before[k]);
            }
        }
        assert forall|i: int|
            0 <= i < changes.len() && part_of(s, full, partial, (#[trigger] changes[i]).path) is Some implies at.contains(
            i,
        ) by {
            if i < n {
                assert(short[i] == changes[i]);
                let k = choose|k: int| 0 <= k < before.len() && before[k] == i;
                assert(at[k] == i);
            } else {
                assert(at[before.len() as int] == i);
            }
        }
        at
    }
}

/// Marks at the end are taken off, and nothing else.
proof fn unmarked_facts(head: Seq<char>, bangs: Seq<char>)
    requires
        head.len() == 0 || head.last() != '!',
        forall|i: int| 0 <= i < bangs.len() ==> #[trigger] bangs[i] == '!',
    ensures
        unmarked(head + bangs) == head,
    decreases bangs.len(),
{
    if bangs.len() == 0 {
        assert(head + bangs =~= head);
    } else {
        assert((head + bangs).last() == bangs[bangs.len() - 1]);
        assert((head + bangs).drop_last() =~= head + bangs.drop_last());
        unmarked_facts(head, bangs.drop_last());
    }
}

/// What makes a message a Conventional Commit: a known type, then at most a scope in
/// brackets, then marks, and then a colon, all of it on the first line.
pub proof fn conventional_messages(
    t: Seq<char>,
    scope: Seq<char>,
    bangs: Seq<char>,
    rest: Seq<char>,
)
    requires
        forall|i: int|
            0 <= i < t.len() ==> #[trigger] t[i] != '(' && t[i] != ':' && t[i] != '!' && t[i] != '\n',
        forall|i: int| 0 <= i < scope.len() ==> #[trigger] scope[i] != ':' && scope[i] != '\n',
        scope.len() > 0 ==> scope[0] == '(' && scope.last() != '!',
        forall|i: int| 0 <= i < bangs.len() ==> #[trigger] bangs[i] == '!',
    ensures
        is_conventional(t + scope + bangs + seq![':'] + rest) <==> t == "feat"@ || t == "fix"@ || t
            == "docs"@ || t == "refactor"@ || t == "test"@ || t == "chore"@ || t == "build"@ || t
            == "ci"@ || t == "perf"@ || t == "style"@ || t == "revert"@,
{
    let head = t + scope;
    let before = head + bangs;
    let s = t + scope + bangs + seq![':'] + rest;
    let k = before.len() as int;
    assert(s[k] == ':');
    assert forall|i: int| 0 <= i < k implies s[i] != '\n' && s[i] != ':' by {
        assert(s[i] == before[i]);
        if i < t.len() {
            assert(s[i] == t[i]);
        } else if i < head.len() {
            assert(s[i] == scope[i - t.len()]);
        } else {
            assert(s[i] == bangs[i - head.len()]);
        }
    }
    let end = position(s, '\n');
    text::position_facts(s, '\n');
    assert(end > k) by {
        if end <= k {
            assert(s[end] == '\n');
        }
    }
    let raw = if end < s.len() {
        s.take(end)
    } else {
        s
    };
    let first = first_line(s);
    assert(first == text::chomped(raw) || first == raw);
    assert(raw[k] == ':');
    assert(first.len() > k && first[k] == ':' && first.take(k) =~= before) by {
        if raw.last() == '\r' {
            assert(raw.len() - 1 > k);
        }
    }
    text::position_is(first, ':', k);
    if scope.len() > 0 {
        assert(head.last() == scope.last());
    } else if t.len() > 0 {
        assert(head.last() == t[t.len() - 1]);
    }
    unmarked_facts(head, bangs);
    let m = t.len() as int;
    assert forall|i: int| 0 <= i < m implies head[i] != '(' by {
        assert(head[i] == t[i]);
    }
    if scope.len() > 0 {
        assert(head[m] == '(');
    }
    text::position_is(head, '(', m);
    assert(head.take(m) =~= t);
    assert(type_in(s) == Some(t));
    let types = cc_types();
    assert(types[0] == "feat"@ && types[1] == "fix"@ && types[2] == "docs"@ && types[3]
        == "refactor"@ && types[4] == "test"@ && types[5] == "chore"@ && types[6] == "build"@
        && types[7] == "ci"@ && types[8] == "perf"@ && types[9] == "style"@ && types[10]
        == "revert"@);
}

/// Where every target of a round leads, in words.
pub proof fn places(target: TargetView)
    ensures
        target.label.len() == 0 ==> place_text(BackendKind::Git, target)
            == "working-copy change"@ && place_text(BackendKind::Jj, target)
            == "working-copy change"@,
        target.label.len() > 0 ==> place_text(BackendKind::Git, target) == "branch "@
            + target.label && place_text(BackendKind::Jj, target) == "bookmark "@ + target.label,
{
}

/// How a round starts: with one target it is taken, among several the user picks, and
/// without one there is nothing to do.
pub proof fn rounds_start(v: RoundView, i: usize)
    ensures
        v.targets.len() == 0 ==> round_next(v, Reply::Start).1 == StepView::Failed(
            "no commit target found"@,
        ),
        v.targets.len() == 1 ==> round_next(v, Reply::Start).1 == StepView::Select && round_next(
            v,
            Reply::Start,
        ).0.at == 0,
        v.targets.len() > 1 ==> round_next(v, Reply::Start).1 == StepView::PickTarget,
        round_next(v, Reply::Target(Some(i))).1 == StepView::Select,
        round_next(v, Reply::Target(Some(i))).0 == (RoundView { at: i as nat, ..v }),
{
}

/// A round that writes a new commit: whatever message the target has is handed to the
/// drafting, the draft is edited under the heading of the target that was picked, and
/// the plan holds that target and the message as it was edited.
pub proof fn new_commits_are_drafted(
    v: RoundView,
    i: usize,
    existing: String,
    text: String,
    message: String,
)
    requires
        i < v.targets.len(),
        trimmed(message@).len() > 0,
    ensures
        ({
            let (a, s1) = round_next(v, Reply::Target(Some(i)));
            let (b, s2) = round_next(
                a,
                Reply::Selected(SelectResult { confirmed: true, amend: false }),
            );
            let (c, s3) = round_next(b, Reply::Existing(existing));
            let (d, s4) = round_next(c, Reply::Drafted { text, conventional: false });
            let (_, s5) = round_next(d, Reply::Edited(Some(message)));
            &&& s2 == (StepView::ReadMessage { amend: false })
            &&& s3 == (StepView::Draft { existing: existing@ })
            &&& s4 == (StepView::Edit {
                heading: "Commit"@ + " message — "@ + place_text(v.kind, v.targets[i as int]),
                text: text@,
            })
            &&& s5 == StepView::Done(
                PlanView { target: v.targets[i as int], amend: false, message: message@ },
            )
        }),
{
}

/// A round that amends: the message that is amended is edited, without a draft; and the
/// plan amends. For jj without a bookmark there is nothing to amend into, and the round
/// goes on as one that writes a new commit.
pub proof fn amends_edit_the_message(v: RoundView, existing: String, message: String)
    requires
        v.at < v.targets.len(),
        trimmed(message@).len() > 0,
    ensures
        ({
            let target = v.targets[v.at as int];
            let (a, s1) = round_next(
                v,
                Reply::Selected(SelectResult { confirmed: true, amend: true }),
            );
            let (b, s2) = round_next(a, Reply::Existing(existing));
            let (_, s3) = round_next(b, Reply::Edited(Some(message)));
            &&& v.kind == BackendKind::Git || target.label.len() > 0 ==> s1
                == (StepView::ReadMessage { amend: true }) && s2 == (StepView::Edit {
                heading: "Amend"@ + " message — "@ + place_text(v.kind, target),
                text: existing@,
            }) && s3 == StepView::Done(PlanView { target, amend: true, message: message@ })
            &&& v.kind == BackendKind::Jj && target.label.len() == 0 ==> s1
                == (StepView::ReadMessage { amend: false }) && s2 == (StepView::Draft {
                existing: existing@,
            }) && s3 == StepView::Done(PlanView { target, amend: false, message: message@ })
        }),
{
}

/// Where messages are to be Conventional Commits, a draft that is none is asked a type
/// for, and the one that is picked goes in front of it; a draft that is one is edited as
/// it is.
pub proof fn drafts_get_a_type(v: RoundView, text: String, pick: Pick, t: Seq<char>)
    ensures
        ({
            let (a, s1) = round_next(v, Reply::Drafted { text, conventional: true });
            let (_, s2) = round_next(a, Reply::Type(pick));
            &&& is_conventional(text@) ==> (s1 matches StepView::Edit { text: edited, .. } && edited
                == text@)
            &&& !is_conventional(text@) ==> s1 == (StepView::PickType {
                title: "Conventional Commit type (Esc — none):"@,
                types: seq![
                    "feat"@,
                    "fix"@,
                    "docs"@,
                    "refactor"@,
                    "test"@,
                    "chore"@,
                    "build"@,
                    "ci"@,
                    "perf"@,
                    "style"@,
                    "revert"@,
                ],
            })
            &&& !is_conventional(text@) && pick@ == PickView::Existing(t) ==> (
            s2 matches StepView::Edit { text: edited, .. } && edited == t + ": "@ + text@)
            &&& !is_conventional(text@) && !(pick@ is Existing) ==> (s2 matches StepView::Edit {
                text: edited,
                ..
            } && edited == text@)
            &&& a.at == v.at && a.amend == v.amend && a.targets == v.targets
        }),
{
}

/// A blank message makes no plan, and an error ends the round with its text.
pub proof fn rounds_fail_on(v: RoundView, message: String, e: String)
    ensures
        trimmed(message@).len() == 0 ==> round_next(v, Reply::Edited(Some(message))).1
            == StepView::Failed("empty commit message — nothing committed"@),
        round_next(v, Reply::Error(e)).1 == StepView::Failed(e@),
{
}

/// How a session starts: without changes there is nothing to do, without a terminal it
/// cannot be done, and else the first round starts, as one that amends if that was asked
/// for.
pub proof fn sessions_start(kind: BackendKind, amend: bool, changed: usize, terminal: bool)
    ensures
        ({
            let v = SessionView { kind, amend, last: None, plan: None };
            let (a, s1) = session_next(v, Event::Start);
            let (_, s2) = session_next(a, Event::Snapshot { changed, terminal });
            &&& s1 == (MoveView::TakeSnapshot { notice: seq![] })
            &&& changed == 0 ==> s2 == MoveView::Done(
                "Nothing to commit — no changed tracked files."@,
            )
            &&& changed > 0 && !terminal ==> s2 == MoveView::Failed(
                "commit is interactive; run it in a terminal"@,
            )
            &&& changed > 0 && terminal ==> s2 == (MoveView::Interact { amend })
            &&& session_next(a, Event::Planned(None)).1 == MoveView::Done(
                "Aborted — nothing committed."@,
            )
        }),
{
}

/// How a session goes on after a commit: it is told, and a snapshot shows what is left.
/// Nothing left, or no wish to go on, ends it in the offer; else another round starts.
pub proof fn sessions_go_on(
    v: SessionView,
    plan: Plan,
    files: usize,
    changed: usize,
    terminal: bool,
    answer: Option<String>,
)
    ensures
        ({
            let place = place_text(v.kind, plan@.target);
            let noun = if files == 1 {
                "file"@
            } else {
                "files"@
            };
            let left = if changed == 1 {
                "file"@
            } else {
                "files"@
            };
            let (a, s1) = session_next(v, Event::Planned(Some(plan)));
            let (b, s2) = session_next(a, Event::Committed { files });
            let (c, s3) = session_next(b, Event::Snapshot { changed, terminal });
            let (_, s4) = session_next(c, Event::Answer(answer));
            &&& s1 == MoveView::Commit
            &&& s2 == (MoveView::TakeSnapshot {
                notice: (if plan@.amend {
                    "Amended"@
                } else {
                    "Committed"@
                }) + " "@ + decimal_of(files as nat) + " "@ + noun + " to "@ + place + "."@,
            })
            &&& changed == 0 ==> s3 == (MoveView::Offer {
                notice: "Nothing left to commit."@,
                alarm: seq![],
                target: plan@.target,
                amended: plan@.amend,
            })
            &&& changed > 0 ==> s3 == MoveView::AskMore(
                decimal_of(changed as nat) + " changed "@ + left + " remain — commit more?"@,
            )
            &&& changed > 0 && insists(opt_view(answer)) ==> s4 == (MoveView::Interact {
                amend: false,
            })
            &&& changed > 0 && !insists(opt_view(answer)) ==> s4 == (MoveView::Offer {
                notice: seq![],
                alarm: seq![],
                target: plan@.target,
                amended: plan@.amend,
            })
        }),
{
}

/// What a commit that could not be made comes to: a failure if it was the first, and a
/// report with the offer of the earlier ones if not; the plan is given up either way.
pub proof fn failed_commits(v: SessionView, e: String)
    ensures
        ({
            let (w, step) = session_next(v, Event::CommitFailed(e));
            &&& w.plan is None && w.last == v.last
            &&& v.last is None ==> step == MoveView::Failed(e@)
            &&& (v.last matches Some(plan) ==> step == (MoveView::Offer {
                notice: seq![],
                alarm: "commit: "@ + e@
                    + "\n(the session's earlier commits are intact — continuing to the push offer)"@,
                target: plan.target,
                amended: plan.amend,
            }))
            &&& session_next(v, Event::Error(e)).1 == MoveView::Failed(e@)
        }),
{
}

/// A file that is committed in part is drafted from under a heading with its path, which
/// says that it shows the selected hunks alone.
pub proof fn partial_files_are_headed(
    s: SnapshotView,
    full: Seq<Seq<char>>,
    partial: Seq<(Seq<char>, Seq<usize>)>,
    path: Seq<char>,
    selected: Seq<usize>,
)
    requires
        !full.contains(path),
        selected_of(partial, path) == Some(selected),
        s.hunks.contains_key(path),
    ensures
        part_of(s, full, partial, path) == Some(
            "diff --git a/"@ + path + " b/"@ + path + " (selected hunks)\n"@ + hunk_texts(
                s.hunks[path],
                selected,
            ),
        ),
{
}

} // verus!
