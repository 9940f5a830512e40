//! Shared data types: change kinds, the per-file change record, one hunk of a
//! file, and the commit target (a git branch or a jj bookmark).

use vstd::prelude::*;

verus! {

/// Which kind of change a file underwent, relative to the commit base.
#[derive(Debug, Clone, Copy, PartialEq, Eq, Structural)]
pub enum ChangeKind {
    Added,
    Modified,
    Deleted,
    Renamed,
    /// Not known to git yet (git only: jj tracks new files by itself).
    Untracked,
}

/// A single changed file, with its path relative to the repository root and
/// always using forward slashes.
#[derive(Debug, Clone, PartialEq, Eq)]
pub struct FileChange {
    pub path: String,
    /// For a detected rename, the previous path. Committing the change must
    /// cover this too, so that the removal of the old path lands with the new
    /// one. `None` for anything but a rename.
    pub old_path: Option<String>,
    pub kind: ChangeKind,
}

/// A changed file as a mathematical value.
pub struct ChangeView {
    pub path: Seq<char>,
    pub old_path: Option<Seq<char>>,
    pub kind: ChangeKind,
}

impl View for FileChange {
    type V = ChangeView;

    open spec fn view(&self) -> ChangeView {
        ChangeView { path: self.path@, old_path: opt_view(self.old_path), kind: self.kind }
    }
}

/// The characters of an optional text.
pub open spec fn opt_view(s: Option<String>) -> Option<Seq<char>> {
    match s {
        Some(t) => Some(t@),
        None => None,
    }
}

/// The changes as mathematical values.
pub open spec fn change_views(v: Seq<FileChange>) -> Seq<ChangeView> {
    v.map_values(|c: FileChange| c@)
}

/// One hunk of a modified file, for display and for drafting a message.
#[derive(Debug, Clone, PartialEq, Eq)]
pub struct HunkInfo {
    /// The `@@ -a,b +c,d @@ section` line.
    pub header: String,
    /// The header line and the prefixed body lines, each terminated.
    pub text: String,
}

/// A hunk as a mathematical value.
pub struct HunkView {
    pub header: Seq<char>,
    pub text: Seq<char>,
}

impl View for HunkInfo {
    type V = HunkView;

    open spec fn view(&self) -> HunkView {
        HunkView { header: self.header@, text: self.text@ }
    }
}

/// The hunks as mathematical values.
pub open spec fn hunk_views(v: Seq<HunkInfo>) -> Seq<HunkView> {
    v.map_values(|h: HunkInfo| h@)
}

/// Which VCS drives the repository.
#[derive(Debug, Clone, Copy, PartialEq, Eq, Structural)]
pub enum BackendKind {
    Git,
    Jj,
}

/// Where the commit will land: a git branch, or a jj bookmark.
#[derive(Debug, Clone, PartialEq, Eq)]
pub struct Target {
    /// Branch name (git) or bookmark name (jj). Empty means "no bookmark": the
    /// jj describe-only fallback.
    pub label: String,
    /// The commit the target currently points at (jj only); `None` for git.
    pub revision: Option<String>,
}

/// A target as a mathematical value.
pub struct TargetView {
    pub label: Seq<char>,
    pub revision: Option<Seq<char>>,
}

impl View for Target {
    type V = TargetView;

    open spec fn view(&self) -> TargetView {
        TargetView { label: self.label@, revision: opt_view(self.revision) }
    }
}

/// The targets as mathematical values.
pub open spec fn target_views(v: Seq<Target>) -> Seq<TargetView> {
    v.map_values(|t: Target| t@)
}

/// A copy of an optional text.
pub fn opt_clone(s: &Option<String>) -> (r: Option<String>)
    ensures
        opt_view(r) == opt_view(*s),
{
    match s {
        Some(t) => Some(t.clone()),
        None => None,
    }
}

impl Target {
    /// A copy of the target.
    pub fn copy(&self) -> (r: Target)
        ensures
            r@ == self@,
    {
        Target { label: self.label.clone(), revision: opt_clone(&self.revision) }
    }
}

/// What is said of a change is said of its path, of the path it had before a rename, and
/// of its kind.
pub proof fn changes_are_seen_whole(c: FileChange)
    ensures
        c@.path == c.path@,
        c.old_path is None ==> c@.old_path is None,
        (c.old_path matches Some(old) ==> c@.old_path == Some(old@)),
        c@.kind == c.kind,
{
}

/// What is said of a hunk is said of its header and its text, and what is said of a
/// target of its name and its revision.
pub proof fn hunks_and_targets_are_seen_whole(h: HunkInfo, t: Target)
    ensures
        h@.header == h.header@ && h@.text == h.text@,
        t@.label == t.label@,
        t.revision is None ==> t@.revision is None,
        (t.revision matches Some(rev) ==> t@.revision == Some(rev@)),
{
}

/// Lists are seen in their order, entry by entry.
pub proof fn lists_are_seen_in_order(
    changes: Seq<FileChange>,
    hunks: Seq<HunkInfo>,
    targets: Seq<Target>,
    i: int,
)
    ensures
        change_views(changes).len() == changes.len(),
        0 <= i < changes.len() ==> change_views(changes)[i] == changes[i]@,
        hunk_views(hunks).len() == hunks.len(),
        0 <= i < hunks.len() ==> hunk_views(hunks)[i] == hunks[i]@,
        target_views(targets).len() == targets.len(),
        0 <= i < targets.len() ==> target_views(targets)[i] == targets[i]@,
{
}

} // verus!
