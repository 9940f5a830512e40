//! Reverting files in the working copy to the base of a pull request.
//!
//! The patch that is going to be undone is written to a backup file before anything
//! is touched; applying that in reverse deletes what the branch added, brings back
//! what it deleted, and undoes edits and renames. The branch itself stays as it is.
//!
//! [`revert_paths`] says what to do next; what came of that is its next argument.

use vstd::prelude::*;

use crate::model::{change_views, opt_clone, ChangeView, FileChange};
use crate::partial::extend;
use crate::text;
use crate::text::texts;
use crate::vcs::{holds, review_spec, review_text, Snapshot, SnapshotView};

verus! {

/// Write the patch of the paths to the backup, byte for byte and with binary files,
/// and renames as renames.
pub open spec fn backup_argv(
    base: Seq<char>,
    head: Seq<char>,
    backup: Seq<char>,
    paths: Seq<Seq<char>>,
) -> Seq<Seq<char>> {
    seq![
        "diff"@,
        review_text(base, head),
        "--no-color"@,
        "--no-ext-diff"@,
        "--no-textconv"@,
        "--binary"@,
        "-M"@,
        "--output="@ + backup,
        "--"@,
    ] + paths
}

/// Undo the patch in the working copy.
pub open spec fn undo_argv(backup: Seq<char>) -> Seq<Seq<char>> {
    seq!["apply"@, "-R"@, backup]
}

/// What to do next.
#[derive(Debug)]
pub enum Step {
    /// Run git.
    Git(Vec<String>),
    /// Tell how large the file is; 0 if it is not there.
    Size(String),
    /// Remove the file; nothing depends on whether that works.
    Remove(String),
    /// The paths are reverted; this is the backup.
    Done(String),
    /// Stop with this report.
    Failed(String),
}

/// A step as a mathematical value.
pub enum StepView {
    Git(Seq<Seq<char>>),
    Size(Seq<char>),
    Remove(Seq<char>),
    Done(Seq<char>),
    Failed(Seq<char>),
}

impl View for Step {
    type V = StepView;

    open spec fn view(&self) -> StepView {
        match self {
            Step::Git(a) => StepView::Git(texts(a@)),
            Step::Size(p) => StepView::Size(p@),
            Step::Remove(p) => StepView::Remove(p@),
            Step::Done(p) => StepView::Done(p@),
            Step::Failed(e) => StepView::Failed(e@),
        }
    }
}

/// What came of a step.
#[derive(Debug)]
pub enum Reply {
    /// It is done (also the first argument of all).
    Finished,
    /// How large the file is.
    Bytes(u64),
    /// It failed.
    Error(String),
}

/// A reply as a mathematical value.
pub enum ReplyView {
    Finished,
    Bytes(u64),
    Error(Seq<char>),
}

impl View for Reply {
    type V = ReplyView;

    open spec fn view(&self) -> ReplyView {
        match self {
            Reply::Finished => ReplyView::Finished,
            Reply::Bytes(n) => ReplyView::Bytes(*n),
            Reply::Error(e) => ReplyView::Error(e@),
        }
    }
}

/// Which step a reply is awaited for.
#[derive(Debug, Clone, Copy, PartialEq, Eq, Structural)]
pub enum Phase {
    /// None: nothing is done yet.
    Start,
    /// Writing the backup.
    Backup,
    /// Looking at the backup.
    Inspect,
    /// Undoing the patch.
    Undo,
    /// Removing a backup of nothing.
    Tidy,
    /// None: it is over.
    Over,
}

/// A revert under way.
pub struct Revert {
    base: String,
    head: String,
    paths: Vec<String>,
    backup: String,
    phase: Phase,
    failure: String,
}

/// A revert under way as a mathematical value.
pub struct RevertView {
    pub base: Seq<char>,
    pub head: Seq<char>,
    pub paths: Seq<Seq<char>>,
    /// Where the backup goes.
    pub backup: Seq<char>,
    pub phase: Phase,
    /// Why there is nothing to undo.
    pub failure: Seq<char>,
}

impl View for Revert {
    type V = RevertView;

    closed spec fn view(&self) -> RevertView {
        RevertView {
            base: self.base@,
            head: self.head@,
            paths: texts(self.paths@),
            backup: self.backup@,
            phase: self.phase,
            failure: self.failure@,
        }
    }
}

/// The report that there is nothing to undo.
pub const NOTHING: &'static str = "nothing to revert for the selected paths";

/// Await the reply to `step` in `phase`.
pub open spec fn go(v: RevertView, phase: Phase, step: StepView) -> (RevertView, StepView) {
    (RevertView { phase, ..v }, step)
}

/// Remove the backup, and report then.
pub open spec fn tidy(v: RevertView, why: Seq<char>) -> (RevertView, StepView) {
    go(RevertView { failure: why, ..v }, Phase::Tidy, StepView::Remove(v.backup))
}

/// The reply is one that the awaited step can have.
pub open spec fn fits(phase: Phase, reply: ReplyView) -> bool {
    match phase {
        Phase::Start | Phase::Tidy => true,
        Phase::Backup | Phase::Undo => reply is Finished || reply is Error,
        Phase::Inspect => reply is Bytes,
        Phase::Over => false,
    }
}

/// What is awaited and what to do after `reply`.
pub open spec fn revert_next(v: RevertView, reply: ReplyView) -> (RevertView, StepView) {
    match (v.phase, reply) {
        (Phase::Start, _) => go(
            v,
            Phase::Backup,
            StepView::Git(backup_argv(v.base, v.head, v.backup, v.paths)),
        ),
        (Phase::Backup, ReplyView::Finished) => go(v, Phase::Inspect, StepView::Size(v.backup)),
        (Phase::Backup, ReplyView::Error(e)) => tidy(v, e),
        (Phase::Inspect, ReplyView::Bytes(n)) => if n == 0 {
            tidy(v, NOTHING@)
        } else {
            go(v, Phase::Undo, StepView::Git(undo_argv(v.backup)))
        },
        (Phase::Undo, ReplyView::Finished) => go(v, Phase::Over, StepView::Done(v.backup)),
        (Phase::Undo, ReplyView::Error(e)) => go(v, Phase::Over, StepView::Failed(e)),
        (Phase::Tidy, _) => go(v, Phase::Over, StepView::Failed(v.failure)),
        _ => go(v, Phase::Over, StepView::Failed(seq![])),
    }
}

impl Revert {
    /// A revert of `paths` to `base`, with the patch backed up to `backup`.
    pub fn new(base: &str, head: &str, paths: &Vec<String>, backup: String) -> (r: Self)
        ensures
            r@ == (RevertView {
                base: base@,
                head: head@,
                paths: texts(paths@),
                backup: backup@,
                phase: Phase::Start,
                failure: seq![],
            }),
    {
        let mut copy: Vec<String> = Vec::new();
        extend(&mut copy, paths);
        let failure = String::new();
        proof {
            assert(failure@ =~= seq![]);
            assert(texts(copy@) =~= texts(paths@));
        }
        Revert {
            base: base.to_string(),
            head: head.to_string(),
            paths: copy,
            backup,
            phase: Phase::Start,
            failure,
        }
    }

    /// Remove the backup, and report then.
    fn tidy_step(&mut self, why: String) -> (r: Step)
        ensures
            (final(self)@, r@) == tidy(old(self)@, why@),
    {
        self.failure = why;
        self.phase = Phase::Tidy;
        Step::Remove(self.backup.clone())
    }

    /// Stop with a report.
    fn fail_step(&mut self, why: String) -> (r: Step)
        ensures
            (final(self)@, r@) == go(old(self)@, Phase::Over, StepView::Failed(why@)),
    {
        self.phase = Phase::Over;
        Step::Failed(why)
    }
}

/// The next step after `reply`, which is that to the step before (for the first step
/// it does not matter). After [`Step::Done`] and [`Step::Failed`] there is none.
pub fn revert_paths(run: &mut Revert, reply: Reply) -> (r: Step)
    ensures
        (final(run)@, r@) == revert_next(old(run)@, reply@),
{
    match (run.phase, reply) {
        (Phase::Start, _) => {
            let range = review_spec(run.base.as_str(), run.head.as_str());
            let mut output = "--output=".to_string();
            output.append(run.backup.as_str());
            let mut argv = text::owned(
                &[
                    "diff",
                    range.as_str(),
                    "--no-color",
                    "--no-ext-diff",
                    "--no-textconv",
                    "--binary",
                    "-M",
                    output.as_str(),
                    "--",
                ],
            );
            let ghost start = texts(argv@);
            extend(&mut argv, &run.paths);
            proof {
                assert(start =~= seq![
                    "diff"@,
                    review_text(run@.base, run@.head),
                    "--no-color"@,
                    "--no-ext-diff"@,
                    "--no-textconv"@,
                    "--binary"@,
                    "-M"@,
                    "--output="@ + run@.backup,
                    "--"@,
                ]);
                assert(texts(argv@) == backup_argv(run@.base, run@.head, run@.backup, run@.paths));
            }
            run.phase = Phase::Backup;
            Step::Git(argv)
        },
        (Phase::Backup, Reply::Finished) => {
            run.phase = Phase::Inspect;
            Step::Size(run.backup.clone())
        },
        (Phase::Backup, Reply::Error(e)) => run.tidy_step(e),
        (Phase::Inspect, Reply::Bytes(n)) => {
            if n == 0 {
                run.tidy_step(NOTHING.to_string())
            } else {
                let argv = text::owned(&["apply", "-R", run.backup.as_str()]);
                proof {
                    assert(texts(argv@) =~= undo_argv(run@.backup));
                }
                run.phase = Phase::Undo;
                Step::Git(argv)
            }
        },
        (Phase::Undo, Reply::Finished) => {
            run.phase = Phase::Over;
            Step::Done(run.backup.clone())
        },
        (Phase::Undo, Reply::Error(e)) => run.fail_step(e),
        (Phase::Tidy, _) => {
            let why = run.failure.clone();
            run.fail_step(why)
        },
        _ => {
            let none = String::new();
            proof {
                assert(none@ =~= seq![]);
            }
            run.fail_step(none)
        },
    }
}

/// The working copy is touched only once the backup of what is undone is written and
/// holds something; and what is undone is that backup.
pub proof fn backup_comes_first(v: RevertView, reply: ReplyView)
    requires
        fits(v.phase, reply),
    ensures
        revert_next(v, reply).0.phase == Phase::Undo <==> v.phase == Phase::Inspect && (
        reply matches ReplyView::Bytes(n) && n > 0),
        revert_next(v, reply).0.phase == Phase::Undo ==> revert_next(v, reply).1 == StepView::Git(
            undo_argv(v.backup),
        ),
        revert_next(v, reply).1 is Done ==> v.phase == Phase::Undo && reply is Finished,
        revert_next(v, reply).0.backup == v.backup,
{
}

// ----- what is left to review ---------------------------------------------------------------------

/// The change was reverted, by its new or its old path.
pub open spec fn was_reverted(c: ChangeView, reverted: Seq<Seq<char>>) -> bool {
    reverted.contains(c.path) || (c.old_path matches Some(p) && reverted.contains(p))
}

/// The changes that were not reverted, in order.
pub open spec fn unreverted(changes: Seq<ChangeView>, reverted: Seq<Seq<char>>) -> Seq<ChangeView>
    decreases changes.len(),
{
    if changes.len() == 0 {
        seq![]
    } else {
        let before = unreverted(changes.drop_last(), reverted);
        if was_reverted(changes.last(), reverted) {
            before
        } else {
            before.push(changes.last())
        }
    }
}

/// Drop the changes that were reverted already. The branch's diff does not change by
/// a revert in the working copy, so it would list them again.
pub fn retain_unreverted(snap: &mut Snapshot, reverted: &Vec<String>)
    ensures
        final(snap)@ == (SnapshotView {
            changes: unreverted(old(snap)@.changes, texts(reverted@)),
            ..old(snap)@
        }),
{
    let ghost all = change_views(snap.changes@);
    let ghost gone = texts(reverted@);
    let mut left: Vec<FileChange> = Vec::new();
    let mut i: usize = 0;
    proof {
        assert(change_views(left@) =~= unreverted(all.take(0), gone));
    }
    while i < snap.changes.len()
        invariant
            i <= snap.changes@.len(),
            all == change_views(snap.changes@),
            gone == texts(reverted@),
            *snap == *old(snap),
            change_views(left@) == unreverted(all.take(i as int), gone),
        decreases snap.changes@.len() - i,
    {
        let ghost before = left@;
        let c = &snap.changes[i];
        proof {
            assert(all.take(i + 1).drop_last() =~= all.take(i as int));
            assert(all.take(i + 1).last() == c@);
        }
        let by_old = match &c.old_path {
            Some(p) => holds(reverted, p.as_str()),
            None => false,
        };
        if !by_old && !holds(reverted, c.path.as_str()) {
            let copy = FileChange {
                path: c.path.clone(),
                old_path: opt_clone(&c.old_path),
                kind: c.kind,
            };
            left.push(copy);
            proof {
                assert(change_views(left@) =~= change_views(before).push(copy@));
            }
        }
        i = i + 1;
    }
    proof {
        assert(all.take(i as int) =~= all);
    }
    snap.changes = left;
}

/// What is left was not reverted; and everything that was not is left.
pub proof fn unreverted_facts(changes: Seq<ChangeView>, reverted: Seq<Seq<char>>)
    ensures
        forall|c: ChangeView|
            #[trigger] unreverted(changes, reverted).contains(c) <==> changes.contains(c)
                && !was_reverted(c, reverted),
    decreases changes.len(),
{
    if changes.len() > 0 {
        let rest = changes.drop_last();
        let last = changes.last();
        unreverted_facts(rest, reverted);
        let before = unreverted(rest, reverted);
        let out = unreverted(changes, reverted);
        assert forall|c: ChangeView|
            #[trigger] out.contains(c) <==> changes.contains(c) && !was_reverted(c, reverted) by {
            assert(before.contains(c) <==> rest.contains(c) && !was_reverted(c, reverted));
            assert(changes =~= rest.push(last));
            if rest.contains(c) {
                let k = choose|k: int| 0 <= k < rest.len() && rest[k] == c;
                assert(changes[k] == c);
            }
            if changes.contains(c) && c != last {
                let k = choose|k: int| 0 <= k < changes.len() && changes[k] == c;
                assert(rest[k] == c);
            }
            if c == last {
                assert(changes[changes.len() - 1] == c);
            }
            if !was_reverted(last, reverted) {
                assert(out == before.push(last));
                assert(out[before.len() as int] == last);
                if before.contains(c) {
                    let k = choose|k: int| 0 <= k < before.len() && before[k] == c;
                    assert(out[k] == c);
                }
                if out.contains(c) && c != last {
                    let k = choose|k: int| 0 <= k < out.len() && out[k] == c;
                    assert(before[k] == c);
                }
            }
        }
    }
}

// ----- how a revert goes -----------------------------------------------------------------------------

/// How a revert goes: the patch of the paths, from the merge base with `base` to
/// `head`, both on the remote, is written to the backup; if that holds anything, it is
/// applied in reverse; and the backup is what the revert comes to.
pub proof fn reverts(v: RevertView, start: ReplyView, n: u64, e: Seq<char>)
    requires
        v.phase == Phase::Start,
        n > 0,
    ensures
        ({
            let (a, s1) = revert_next(v, start);
            let (b, s2) = revert_next(a, ReplyView::Finished);
            let (c, s3) = revert_next(b, ReplyView::Bytes(n));
            &&& (s1 matches StepView::Git(argv) && argv.take(9) == seq![
                "diff"@,
                "origin"@ + "/"@ + v.base + "..."@ + "origin"@ + "/"@ + v.head,
                "--no-color"@,
                "--no-ext-diff"@,
                "--no-textconv"@,
                "--binary"@,
                "-M"@,
                "--output="@ + v.backup,
                "--"@,
            ] && argv.skip(9) == v.paths)
            &&& s2 == StepView::Size(v.backup)
            &&& s3 == StepView::Git(seq!["apply"@, "-R"@, v.backup])
            &&& revert_next(c, ReplyView::Finished).1 == StepView::Done(v.backup)
            &&& revert_next(c, ReplyView::Error(e)).1 == StepView::Failed(e)
        }),
{
    let argv = backup_argv(v.base, v.head, v.backup, v.paths);
    assert(argv.skip(9) =~= v.paths);
    assert(argv.take(9) =~= seq![
        "diff"@,
        "origin"@ + "/"@ + v.base + "..."@ + "origin"@ + "/"@ + v.head,
        "--no-color"@,
        "--no-ext-diff"@,
        "--no-textconv"@,
        "--binary"@,
        "-M"@,
        "--output="@ + v.backup,
        "--"@,
    ]);
}

/// Where there is nothing to undo, or the backup could not be written, nothing is
/// undone: the backup is removed, and why is reported.
pub proof fn empty_reverts_touch_nothing(
    v: RevertView,
    start: ReplyView,
    removed: ReplyView,
    e: Seq<char>,
)
    requires
        v.phase == Phase::Start,
    ensures
        ({
            let (a, s1) = revert_next(v, start);
            let (b, s2) = revert_next(a, ReplyView::Error(e));
            let (c, s3) = revert_next(revert_next(a, ReplyView::Finished).0, ReplyView::Bytes(0));
            &&& s2 == StepView::Remove(v.backup)
            &&& revert_next(b, removed).1 == StepView::Failed(e)
            &&& s3 == StepView::Remove(v.backup)
            &&& revert_next(c, removed).1 == StepView::Failed(
                "nothing to revert for the selected paths"@,
            )
        }),
{
}

/// What is left to review are exactly the changes of which neither the new nor the old
/// path was reverted; without any reverted, all of them, in order.
pub proof fn reverted_changes_are_left_out(changes: Seq<ChangeView>, reverted: Seq<Seq<char>>)
    ensures
        forall|c: ChangeView| #[trigger]
            unreverted(changes, reverted).contains(c) <==> changes.contains(c) && !reverted.contains(
                c.path,
            ) && !(c.old_path is Some && reverted.contains(c.old_path->0)),
        unreverted(changes, seq![]) == changes,
{
    unreverted_facts(changes, reverted);
    nothing_reverted(changes);
}

proof fn nothing_reverted(changes: Seq<ChangeView>)
    ensures
        unreverted(changes, seq![]) == changes,
    decreases changes.len(),
{
    if changes.len() > 0 {
        nothing_reverted(changes.drop_last());
    }
    assert(unreverted(changes, seq![]) =~= changes);
}

} // verus!
