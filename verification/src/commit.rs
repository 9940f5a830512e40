//! Committing the selected paths, in git or jj.
//!
//! [`commit`] says what to do next; what came of that is its next argument.

use vstd::prelude::*;

use crate::model::{BackendKind, Target};
use crate::partial::extend;
use crate::text;
use crate::text::{end_trimmed, pieces, texts, trimmed};
use crate::tree::partial_views;
use crate::vcs::{
    holds, parse_untracked_z, status_argv, untracked_are_the_marked_records, untracked_args,
    untracked_in,
};

verus! {

// ----- filesets ---------------------------------------------------------------------------

/// A path between quotes of jj's fileset language: backslashes and quotes are
/// escaped.
pub open spec fn escaped(path: Seq<char>) -> Seq<char>
    decreases path.len(),
{
    if path.len() == 0 {
        seq![]
    } else {
        let before = escaped(path.drop_last());
        if path.last() == '\\' || path.last() == '"' {
            before.push('\\').push(path.last())
        } else {
            before.push(path.last())
        }
    }
}

/// The fileset of exactly one path.
pub open spec fn fileset_text(path: Seq<char>) -> Seq<char> {
    "file:\""@ + escaped(path) + "\""@
}

/// `vcs_jj::JjFileset::path`, as text: the path in quotes behind `file:`, with
/// backslashes and quotes escaped.
#[verifier::external_body]
fn fileset(path: &str) -> (r: String)
    ensures
        r@ == fileset_text(path@),
{
    vcs_jj::JjFileset::path(path).as_str().to_string()
}

/// The filesets of the paths.
pub fn filesets(paths: &Vec<String>) -> (r: Vec<String>)
    ensures
        texts(r@) == texts(paths@).map_values(|p: Seq<char>| fileset_text(p)),
{
    let ghost all = texts(paths@).map_values(|p: Seq<char>| fileset_text(p));
    let mut out: Vec<String> = Vec::new();
    let mut i: usize = 0;
    while i < paths.len()
        invariant
            i <= paths@.len(),
            all == texts(paths@).map_values(|p: Seq<char>| fileset_text(p)),
            texts(out@) == all.take(i as int),
        decreases paths@.len() - i,
    {
        let ghost before = out@;
        let f = fileset(paths[i].as_str());
        out.push(f);
        proof {
            assert(texts(out@) =~= texts(before).push(f@));
            assert(all.take(i + 1) =~= all.take(i as int).push(all[i as int]));
        }
        i = i + 1;
    }
    proof {
        assert(all.take(i as int) =~= all);
    }
    out
}

/// Different paths have different filesets: a fileset names one path only.
pub proof fn filesets_differ(a: Seq<char>, b: Seq<char>)
    requires
        fileset_text(a) == fileset_text(b),
    ensures
        a == b,
{
    let p = "file:\""@;
    let q = "\""@;
    assert(escaped(a) =~= fileset_text(a).subrange(p.len() as int, fileset_text(a).len() - q.len()));
    assert(escaped(b) =~= fileset_text(b).subrange(p.len() as int, fileset_text(b).len() - q.len()));
    escaped_injective(a, b);
}

proof fn escaped_injective(a: Seq<char>, b: Seq<char>)
    requires
        escaped(a) == escaped(b),
    ensures
        a == b,
    decreases a.len(),
{
    if a.len() == 0 || b.len() == 0 {
        if a.len() > 0 {
            assert(escaped(a).len() > 0);
        }
        if b.len() > 0 {
            assert(escaped(b).len() > 0);
        }
        assert(a =~= b);
    } else {
        let x = a.drop_last();
        let y = b.drop_last();
        let e = escaped(a);
        assert(e.last() == a.last());
        assert(e.last() == b.last());
        if a.last() == '\\' || a.last() == '"' {
            assert(e.drop_last().drop_last() =~= escaped(x));
            assert(e.drop_last().drop_last() =~= escaped(y));
        } else {
            assert(e.drop_last() =~= escaped(x));
            assert(e.drop_last() =~= escaped(y));
        }
        escaped_injective(x, y);
        assert(a =~= x.push(a.last()));
        assert(b =~= y.push(b.last()));
    }
}

// ----- the message before ------------------------------------------------------------------

/// The revision whose description the editor starts with in jj: the bookmark's
/// for an amend, else the working copy's.
pub open spec fn message_revset(label: Seq<char>, amend: bool) -> Seq<char> {
    if amend && label.len() > 0 {
        label
    } else {
        "@"@
    }
}

/// Read the description of a revision.
pub open spec fn description_argv(revset: Seq<char>) -> Seq<Seq<char>> {
    seq!["log"@, "-r"@, revset, "--no-graph"@, "-T"@, "description"@]
}

/// Where the message that the editor starts with comes from.
#[derive(Debug)]
pub enum MessageSource {
    /// There is none: a fresh git commit.
    Blank,
    /// The last git commit.
    LastCommit,
    /// What jj prints with these arguments.
    Description(Vec<String>),
}

/// Where the message that the editor starts with comes from.
pub fn message_for(kind: BackendKind, target: &Target, amend: bool) -> (r: MessageSource)
    ensures
        match kind {
            BackendKind::Git => if amend {
                r is LastCommit
            } else {
                r is Blank
            },
            BackendKind::Jj => r matches MessageSource::Description(argv) && texts(argv@)
                == description_argv(message_revset(target.label@, amend)),
        },
{
    match kind {
        BackendKind::Git => if amend {
            MessageSource::LastCommit
        } else {
            MessageSource::Blank
        },
        BackendKind::Jj => {
            let revset: &str = if amend && !target.label.as_str().is_empty() {
                target.label.as_str()
            } else {
                "@"
            };
            MessageSource::Description(read_description(revset))
        },
    }
}

/// Read the description of a revision.
fn read_description(revset: &str) -> (r: Vec<String>)
    ensures
        texts(r@) == description_argv(revset@),
{
    let argv = text::owned(&["log", "-r", revset, "--no-graph", "-T", "description"]);
    proof {
        assert(texts(argv@) =~= description_argv(revset@));
    }
    argv
}

/// A message that was read, without white space at its end.
pub fn tidy_message(out: &str) -> (r: String)
    ensures
        r@ == end_trimmed(out@),
{
    let all = text::chars(out);
    text::text(text::trim_end(&all))
}

// ----- steps and replies ---------------------------------------------------------------------

/// What to do next.
#[derive(Debug)]
pub enum Step {
    /// Commit whole files and hunks of others through a temporary index (git).
    Partial {
        whole: Vec<String>,
        partial: Vec<(String, Vec<usize>)>,
        message: String,
        amend: bool,
    },
    /// Run git.
    Git(Vec<String>),
    /// Commit exactly these paths (git).
    CommitPaths { paths: Vec<String>, message: String, amend: bool },
    /// Run jj.
    Jj(Vec<String>),
    /// Commit exactly the filesets of these paths (jj).
    CommitFilesets { paths: Vec<String>, message: String },
    /// Move the bookmark to this revision (jj).
    MoveBookmark { name: String, to: String },
    /// Everything is committed.
    Done,
    /// Stop with this report.
    Failed(String),
}

/// A step as a mathematical value.
pub enum StepView {
    Partial {
        whole: Seq<Seq<char>>,
        partial: Seq<(Seq<char>, Seq<usize>)>,
        message: Seq<char>,
        amend: bool,
    },
    Git(Seq<Seq<char>>),
    CommitPaths { paths: Seq<Seq<char>>, message: Seq<char>, amend: bool },
    Jj(Seq<Seq<char>>),
    CommitFilesets { paths: Seq<Seq<char>>, message: Seq<char> },
    MoveBookmark { name: Seq<char>, to: Seq<char> },
    Done,
    Failed(Seq<char>),
}

impl View for Step {
    type V = StepView;

    open spec fn view(&self) -> StepView {
        match self {
            Step::Partial { whole, partial, message, amend } => StepView::Partial {
                whole: texts(whole@),
                partial: partial_views(partial@),
                message: message@,
                amend: *amend,
            },
            Step::Git(a) => StepView::Git(texts(a@)),
            Step::CommitPaths { paths, message, amend } => StepView::CommitPaths {
                paths: texts(paths@),
                message: message@,
                amend: *amend,
            },
            Step::Jj(a) => StepView::Jj(texts(a@)),
            Step::CommitFilesets { paths, message } => StepView::CommitFilesets {
                paths: texts(paths@),
                message: message@,
            },
            Step::MoveBookmark { name, to } => StepView::MoveBookmark { name: name@, to: to@ },
            Step::Done => StepView::Done,
            Step::Failed(e) => StepView::Failed(e@),
        }
    }
}

/// What came of a step: what it printed, if anything, or why it failed.
#[derive(Debug)]
pub enum Reply {
    Out(String),
    Error(String),
}

/// A reply as a mathematical value.
pub enum ReplyView {
    Out(Seq<char>),
    Error(Seq<char>),
}

impl View for Reply {
    type V = ReplyView;

    open spec fn view(&self) -> ReplyView {
        match self {
            Reply::Out(s) => ReplyView::Out(s@),
            Reply::Error(e) => ReplyView::Error(e@),
        }
    }
}

/// Which step a reply is awaited for.
#[derive(Debug, Clone, Copy, PartialEq, Eq, Structural)]
pub enum Phase {
    /// None: nothing is done yet.
    Start,
    /// Committing through a temporary index.
    Partial,
    /// Listing untracked files.
    Status,
    /// Making selected untracked files known to git.
    Intent,
    /// Committing paths.
    Paths,
    /// Taking that back after the commit failed.
    Undo,
    /// Squashing filesets into the bookmark.
    Squash,
    /// Reading the bookmark's description.
    Read,
    /// Describing the bookmark's commit.
    Describe,
    /// Committing filesets.
    Filesets,
    /// Moving the bookmark.
    Bookmark,
    /// None: it is over.
    Over,
}

/// A commit on its way.
pub struct CommitRun {
    kind: BackendKind,
    paths: Vec<String>,
    partial: Vec<(String, Vec<usize>)>,
    message: String,
    amend: bool,
    label: String,
    phase: Phase,
    added: Vec<String>,
    failure: String,
}

/// A commit on its way as a mathematical value.
pub struct CommitView {
    pub kind: BackendKind,
    /// What to commit whole.
    pub paths: Seq<Seq<char>>,
    /// What to commit in part (git only).
    pub partial: Seq<(Seq<char>, Seq<usize>)>,
    pub message: Seq<char>,
    pub amend: bool,
    /// The target's label.
    pub label: Seq<char>,
    pub phase: Phase,
    /// The untracked files that were made known to git.
    pub added: Seq<Seq<char>>,
    /// Why the commit failed, while that is tidied up after.
    pub failure: Seq<char>,
}

impl View for CommitRun {
    type V = CommitView;

    closed spec fn view(&self) -> CommitView {
        CommitView {
            kind: self.kind,
            paths: texts(self.paths@),
            partial: partial_views(self.partial@),
            message: self.message@,
            amend: self.amend,
            label: self.label@,
            phase: self.phase,
            added: texts(self.added@),
            failure: self.failure@,
        }
    }
}

// ----- the order --------------------------------------------------------------------------------

/// Those of the paths that are among the others.
pub open spec fn those_in(paths: Seq<Seq<char>>, others: Seq<Seq<char>>) -> Seq<Seq<char>>
    decreases paths.len(),
{
    if paths.len() == 0 {
        seq![]
    } else {
        let before = those_in(paths.drop_last(), others);
        if others.contains(paths.last()) {
            before.push(paths.last())
        } else {
            before
        }
    }
}

/// Squash the filesets of the working copy into the bookmark, keeping the
/// bookmark's description, so that no editor opens to merge the two.
pub open spec fn squash_argv(label: Seq<char>, sets: Seq<Seq<char>>) -> Seq<Seq<char>> {
    seq!["squash"@, "--from"@, "@"@, "--into"@, label, "--use-destination-message"@] + sets
}

/// Give the bookmark's commit a description.
pub open spec fn describe_argv(label: Seq<char>, message: Seq<char>) -> Seq<Seq<char>> {
    seq!["describe"@, "-r"@, label, "-m"@, message]
}

/// The filesets of the paths.
pub open spec fn sets_of(paths: Seq<Seq<char>>) -> Seq<Seq<char>> {
    paths.map_values(|p: Seq<char>| fileset_text(p))
}

/// Await the reply to `step` in `phase`.
pub open spec fn go(v: CommitView, phase: Phase, step: StepView) -> (CommitView, StepView) {
    (CommitView { phase, ..v }, step)
}

/// Stop with a report.
pub open spec fn fail(v: CommitView, why: Seq<char>) -> (CommitView, StepView) {
    go(v, Phase::Over, StepView::Failed(why))
}

/// Commit exactly the paths.
pub open spec fn to_paths(v: CommitView) -> (CommitView, StepView) {
    go(
        v,
        Phase::Paths,
        StepView::CommitPaths { paths: v.paths, message: v.message, amend: v.amend },
    )
}

/// What is awaited and what to do after `reply`.
pub open spec fn commit_next(v: CommitView, reply: ReplyView) -> (CommitView, StepView) {
    match (v.phase, reply) {
        (Phase::Start, _) => match v.kind {
            BackendKind::Git => if v.partial.len() > 0 {
                go(
                    v,
                    Phase::Partial,
                    StepView::Partial {
                        whole: v.paths,
                        partial: v.partial,
                        message: v.message,
                        amend: v.amend,
                    },
                )
            } else {
                go(v, Phase::Status, StepView::Git(status_argv()))
            },
            BackendKind::Jj => if v.amend && v.label.len() > 0 {
                go(v, Phase::Squash, StepView::Jj(squash_argv(v.label, sets_of(v.paths))))
            } else {
                go(
                    v,
                    Phase::Filesets,
                    StepView::CommitFilesets { paths: v.paths, message: v.message },
                )
            },
        },
        (Phase::Status, ReplyView::Out(out)) => {
            let added = those_in(v.paths, untracked_in(pieces(out, '\0')));
            let w = CommitView { added, ..v };
            if added.len() > 0 {
                go(w, Phase::Intent, StepView::Git(seq!["add"@, "--intent-to-add"@, "--"@] + added))
            } else {
                to_paths(w)
            }
        },
        (Phase::Intent, ReplyView::Out(_)) => to_paths(v),
        (Phase::Paths, ReplyView::Error(e)) => if v.added.len() > 0 {
            go(
                CommitView { failure: e, ..v },
                Phase::Undo,
                StepView::Git(seq!["reset"@, "-q"@, "--"@] + v.added),
            )
        } else {
            fail(v, e)
        },
        (Phase::Undo, _) => fail(v, v.failure),
        (Phase::Squash, ReplyView::Out(_)) => go(
            v,
            Phase::Read,
            StepView::Jj(description_argv(v.label)),
        ),
        (Phase::Read, ReplyView::Out(current)) => if trimmed(end_trimmed(current)) != trimmed(v.message) {
            go(v, Phase::Describe, StepView::Jj(describe_argv(v.label, v.message)))
        } else {
            go(v, Phase::Over, StepView::Done)
        },
        (Phase::Filesets, ReplyView::Out(_)) => if v.label.len() > 0 {
            go(v, Phase::Bookmark, StepView::MoveBookmark { name: v.label, to: "@-"@ })
        } else {
            go(v, Phase::Over, StepView::Done)
        },
        (_, ReplyView::Error(e)) => fail(v, e),
        (_, ReplyView::Out(_)) => go(v, Phase::Over, StepView::Done),
    }
}

/// Copies of the texts.
fn copied(list: &Vec<String>) -> (r: Vec<String>)
    ensures
        texts(r@) == texts(list@),
{
    let mut out: Vec<String> = Vec::new();
    extend(&mut out, list);
    proof {
        assert(texts(out@) =~= texts(list@));
    }
    out
}

/// A copy of the files with their hunks.
fn copied_partial(list: &Vec<(String, Vec<usize>)>) -> (r: Vec<(String, Vec<usize>)>)
    ensures
        partial_views(r@) == partial_views(list@),
{
    let ghost all = partial_views(list@);
    let mut out: Vec<(String, Vec<usize>)> = Vec::new();
    let mut i: usize = 0;
    while i < list.len()
        invariant
            i <= list@.len(),
            all == partial_views(list@),
            partial_views(out@) == all.take(i as int),
        decreases list@.len() - i,
    {
        let ghost before = out@;
        let one = (list[i].0.clone(), list[i].1.clone());
        out.push(one);
        proof {
            assert(one.1@ =~= list@[i as int].1@);
            assert(partial_views(out@) =~= partial_views(before).push(all[i as int]));
            assert(all.take(i + 1) =~= all.take(i as int).push(all[i as int]));
        }
        i = i + 1;
    }
    proof {
        assert(all.take(i as int) =~= all);
    }
    out
}

impl CommitRun {
    /// A commit of `paths`, and of the selected hunks of `partial` files (git only),
    /// onto `target`.
    pub fn new(
        kind: BackendKind,
        paths: Vec<String>,
        partial: Vec<(String, Vec<usize>)>,
        message: String,
        amend: bool,
        target: &Target,
    ) -> (r: Self)
        ensures
            r@ == (CommitView {
                kind,
                paths: texts(paths@),
                partial: partial_views(partial@),
                message: message@,
                amend,
                label: target.label@,
                phase: Phase::Start,
                added: seq![],
                failure: seq![],
            }),
    {
        let r = CommitRun {
            kind,
            paths,
            partial,
            message,
            amend,
            label: target.label.clone(),
            phase: Phase::Start,
            added: Vec::new(),
            failure: String::new(),
        };
        proof {
            assert(texts(r.added@) =~= seq![]);
            assert(r.failure@ =~= seq![]);
        }
        r
    }

    /// Stop with a report.
    fn fail_step(&mut self, why: String) -> (r: Step)
        ensures
            (final(self)@, r@) == fail(old(self)@, why@),
    {
        self.phase = Phase::Over;
        Step::Failed(why)
    }

    /// The first step.
    fn first_step(&mut self) -> (r: Step)
        requires
            old(self)@.phase == Phase::Start,
        ensures
            forall|reply: ReplyView| (final(self)@, r@) == #[trigger] commit_next(old(self)@, reply),
    {
        match self.kind {
            BackendKind::Git => if self.partial.len() > 0 {
                self.phase = Phase::Partial;
                Step::Partial {
                    whole: copied(&self.paths),
                    partial: copied_partial(&self.partial),
                    message: self.message.clone(),
                    amend: self.amend,
                }
            } else {
                self.phase = Phase::Status;
                Step::Git(untracked_args())
            },
            BackendKind::Jj => {
                if self.amend && !self.label.as_str().is_empty() {
                    let mut argv = text::owned(
                        &[
                            "squash",
                            "--from",
                            "@",
                            "--into",
                            self.label.as_str(),
                            "--use-destination-message",
                        ],
                    );
                    proof {
                        assert(texts(argv@) =~= seq![
                            "squash"@,
                            "--from"@,
                            "@"@,
                            "--into"@,
                            self@.label,
                            "--use-destination-message"@,
                        ]);
                    }
                    extend(&mut argv, &filesets(&self.paths));
                    self.phase = Phase::Squash;
                    Step::Jj(argv)
                } else {
                    self.phase = Phase::Filesets;
                    Step::CommitFilesets {
                        paths: copied(&self.paths),
                        message: self.message.clone(),
                    }
                }
            },
        }
    }

    /// The step after the untracked files were listed.
    fn status_step(&mut self, out: &str) -> (r: Step)
        requires
            old(self)@.phase == Phase::Status,
        ensures
            (final(self)@, r@) == commit_next(old(self)@, ReplyView::Out(out@)),
    {
        let untracked = parse_untracked_z(out);
        let ghost others = texts(untracked@);
        let mut added: Vec<String> = Vec::new();
        let mut i: usize = 0;
        proof {
            assert(texts(added@) =~= those_in(self@.paths.take(0), others));
        }
        while i < self.paths.len()
            invariant
                i <= self.paths@.len(),
                others == texts(untracked@),
                texts(added@) == those_in(self@.paths.take(i as int), others),
                *self == *old(self),
            decreases self.paths@.len() - i,
        {
            let ghost before = added@;
            proof {
                assert(self@.paths.take(i + 1).drop_last() =~= self@.paths.take(i as int));
                assert(self@.paths.take(i + 1).last() == self.paths@[i as int]@);
            }
            if holds(&untracked, self.paths[i].as_str()) {
                added.push(self.paths[i].clone());
                proof {
                    assert(texts(added@) =~= texts(before).push(self.paths@[i as int]@));
                }
            }
            i = i + 1;
        }
        proof {
            assert(self@.paths.take(i as int) =~= self@.paths);
        }
        if added.len() > 0 {
            let mut argv = text::owned(&["add", "--intent-to-add", "--"]);
            proof {
                assert(texts(argv@) =~= seq!["add"@, "--intent-to-add"@, "--"@]);
            }
            extend(&mut argv, &added);
            self.added = added;
            self.phase = Phase::Intent;
            Step::Git(argv)
        } else {
            self.added = added;
            self.paths_step()
        }
    }

    /// Commit exactly the paths.
    fn paths_step(&mut self) -> (r: Step)
        ensures
            (final(self)@, r@) == to_paths(old(self)@),
    {
        self.phase = Phase::Paths;
        Step::CommitPaths {
            paths: copied(&self.paths),
            message: self.message.clone(),
            amend: self.amend,
        }
    }
}

/// The next step after `reply`, which is that to the step before (for the first
/// step it does not matter). After [`Step::Done`] and [`Step::Failed`] there is
/// none.
pub fn commit(run: &mut CommitRun, reply: Reply) -> (r: Step)
    ensures
        (final(run)@, r@) == commit_next(old(run)@, reply@),
{
    match (run.phase, reply) {
        (Phase::Start, _) => run.first_step(),
        (Phase::Status, Reply::Out(out)) => run.status_step(out.as_str()),
        (Phase::Intent, Reply::Out(_)) => run.paths_step(),
        (Phase::Paths, Reply::Error(e)) => {
            if run.added.len() > 0 {
                let mut argv = text::owned(&["reset", "-q", "--"]);
                proof {
                    assert(texts(argv@) =~= seq!["reset"@, "-q"@, "--"@]);
                }
                extend(&mut argv, &run.added);
                run.failure = e;
                run.phase = Phase::Undo;
                Step::Git(argv)
            } else {
                run.fail_step(e)
            }
        },
        (Phase::Undo, _) => {
            let why = run.failure.clone();
            run.fail_step(why)
        },
        (Phase::Squash, Reply::Out(_)) => {
            let argv = read_description(run.label.as_str());
            run.phase = Phase::Read;
            Step::Jj(argv)
        },
        (Phase::Read, Reply::Out(current)) => {
            let tidy = text::chars(tidy_message(current.as_str()).as_str());
            let message = text::chars(run.message.as_str());
            if text::same_chars(text::trim(&tidy), text::trim(&message)) {
                run.phase = Phase::Over;
                Step::Done
            } else {
                let argv = text::owned(
                    &["describe", "-r", run.label.as_str(), "-m", run.message.as_str()],
                );
                proof {
                    assert(texts(argv@) =~= describe_argv(run@.label, run@.message));
                }
                run.phase = Phase::Describe;
                Step::Jj(argv)
            }
        },
        (Phase::Filesets, Reply::Out(_)) => {
            if !run.label.as_str().is_empty() {
                run.phase = Phase::Bookmark;
                Step::MoveBookmark { name: run.label.clone(), to: "@-".to_string() }
            } else {
                run.phase = Phase::Over;
                Step::Done
            }
        },
        (_, Reply::Error(e)) => run.fail_step(e),
        (_, Reply::Out(_)) => {
            run.phase = Phase::Over;
            Step::Done
        },
    }
}

// ----- what holds of every run ---------------------------------------------------------------------

/// A commit that failed takes back what made untracked files known to git, if
/// anything did, and then reports that failure.
pub proof fn failed_commit_is_undone(v: CommitView, e: Seq<char>, reply: ReplyView)
    requires
        v.phase == Phase::Paths,
    ensures
        ({
            let (w, step) = commit_next(v, ReplyView::Error(e));
            if v.added.len() > 0 {
                &&& step == StepView::Git(seq!["reset"@, "-q"@, "--"@] + v.added)
                &&& commit_next(w, reply).1 == StepView::Failed(e)
            } else {
                step == StepView::Failed(e)
            }
        }),
{
}

/// Only selected untracked files are made known to git.
pub proof fn only_selected_files_are_added(paths: Seq<Seq<char>>, others: Seq<Seq<char>>)
    ensures
        forall|x: Seq<char>|
            #[trigger] those_in(paths, others).contains(x) <==> paths.contains(x) && others.contains(x),
    decreases paths.len(),
{
    if paths.len() > 0 {
        let rest = paths.drop_last();
        let last = paths.last();
        only_selected_files_are_added(rest, others);
        let before = those_in(rest, others);
        let out = those_in(paths, others);
        assert forall|x: Seq<char>| #[trigger] out.contains(x) <==> paths.contains(x) && others.contains(x) by {
            assert(paths =~= rest.push(last));
            assert(before.contains(x) <==> rest.contains(x) && others.contains(x));
            if rest.contains(x) {
                let k = choose|k: int| 0 <= k < rest.len() && rest[k] == x;
                assert(paths[k] == x);
            }
            if paths.contains(x) && x != last {
                let k = choose|k: int| 0 <= k < paths.len() && paths[k] == x;
                assert(rest[k] == x);
            }
            if x == last {
                assert(paths[paths.len() - 1] == x);
            }
            if others.contains(last) {
                assert(out == before.push(last));
                if before.contains(x) {
                    let k = choose|k: int| 0 <= k < before.len() && before[k] == x;
                    assert(out[k] == x);
                }
                assert(out[before.len() as int] == last);
                if out.contains(x) && x != last {
                    let k = choose|k: int| 0 <= k < out.len() && out[k] == x;
                    assert(before[k] == x);
                }
            }
        }
    }
}

/// What is committed is exactly what was selected, with the message that was given;
/// an amend in jj folds exactly the selected paths into the bookmark.
pub proof fn exactly_the_selection_is_committed(v: CommitView, reply: ReplyView)
    ensures
        match commit_next(v, reply).1 {
            StepView::Partial { whole, partial, message, amend } => whole == v.paths && partial
                == v.partial && message == v.message && amend == v.amend,
            StepView::CommitPaths { paths, message, amend } => paths == v.paths && message
                == v.message && amend == v.amend,
            StepView::CommitFilesets { paths, message } => paths == v.paths && message == v.message,
            _ => true,
        },
        v.phase == Phase::Start && v.kind == BackendKind::Jj && v.amend && v.label.len() > 0
            ==> commit_next(v, reply).1 == StepView::Jj(squash_argv(v.label, sets_of(v.paths))),
        ({
            let w = commit_next(v, reply).0;
            w.paths == v.paths && w.partial == v.partial && w.message == v.message && w.amend
                == v.amend && w.label == v.label
        }),
{
}

/// A jj commit moves the bookmark exactly if the target names one.
pub proof fn bookmark_moves_with_the_commit(v: CommitView, out: Seq<char>)
    requires
        v.phase == Phase::Filesets,
    ensures
        commit_next(v, ReplyView::Out(out)).1 == if v.label.len() > 0 {
            StepView::MoveBookmark { name: v.label, to: "@-"@ }
        } else {
            StepView::Done
        },
{
}

/// An amend in jj without a bookmark to fold into is a plain commit.
pub proof fn amend_needs_a_bookmark(v: CommitView, reply: ReplyView)
    requires
        v.phase == Phase::Start,
        v.kind == BackendKind::Jj,
        v.label.len() == 0,
    ensures
        commit_next(v, reply).1 == (StepView::CommitFilesets {
            paths: v.paths,
            message: v.message,
        }),
{
}

// ----- how a commit is made ------------------------------------------------------------------------

/// A commit that has not begun.
pub open spec fn begins(v: CommitView) -> bool {
    v.phase == Phase::Start
}

/// The first step in git, amending or not: where any file is selected in part, the
/// whole files and the selected hunks are committed together; else the untracked files
/// are listed first.
pub proof fn git_commits_begin(v: CommitView, reply: ReplyView)
    requires
        begins(v),
        v.kind == BackendKind::Git,
    ensures
        v.partial.len() > 0 ==> commit_next(v, reply).1 == (StepView::Partial {
            whole: v.paths,
            partial: v.partial,
            message: v.message,
            amend: v.amend,
        }),
        v.partial.len() == 0 ==> commit_next(v, reply).1 == StepView::Git(
            seq!["status"@, "--porcelain=v1"@, "-z"@, "--untracked-files=all"@],
        ),
{
}

/// With files that are selected in part, that one step makes the commit: it is all
/// that is done, and what it says is the end.
pub proof fn partial_commits_take_one_step(v: CommitView, start: ReplyView, reply: ReplyView)
    requires
        begins(v),
        v.kind == BackendKind::Git,
        v.partial.len() > 0,
    ensures
        commit_next(commit_next(v, start).0, reply).1 == match reply {
            ReplyView::Out(_) => StepView::Done,
            ReplyView::Error(e) => StepView::Failed(e),
        },
{
}

/// The run after some replies.
pub open spec fn after(v: CommitView, replies: Seq<ReplyView>) -> CommitView
    decreases replies.len(),
{
    if replies.len() == 0 {
        v
    } else {
        commit_next(after(v, replies.drop_last()), replies.last()).0
    }
}

/// The step after the last of some replies.
pub open spec fn last_step(v: CommitView, replies: Seq<ReplyView>) -> StepView {
    commit_next(after(v, replies.drop_last()), replies.last()).1
}

/// However a run goes: paths alone are committed in git only where no file is selected
/// in part; and what is committed, and with which message, is what was given.
pub proof fn partial_files_are_never_dropped(v: CommitView, replies: Seq<ReplyView>)
    requires
        begins(v),
        replies.len() > 0,
    ensures
        match last_step(v, replies) {
            StepView::Partial { whole, partial, message, amend } => v.kind == BackendKind::Git
                && v.partial.len() > 0 && whole == v.paths && partial == v.partial && message
                == v.message && amend == v.amend,
            StepView::CommitPaths { paths, message, amend } => v.kind == BackendKind::Git
                && v.partial.len() == 0 && paths == v.paths && message == v.message && amend
                == v.amend,
            StepView::CommitFilesets { paths, message } => v.kind == BackendKind::Jj && paths
                == v.paths && message == v.message,
            StepView::Git(_) => v.kind == BackendKind::Git && v.partial.len() == 0,
            StepView::Jj(_) => v.kind == BackendKind::Jj,
            StepView::MoveBookmark { name, to } => v.kind == BackendKind::Jj && name == v.label
                && v.label.len() > 0 && to == "@-"@,
            _ => true,
        },
{
    let before = replies.drop_last();
    runs_keep_to_their_way(v, before);
    runs_keep_to_their_way(v, replies);
}

/// The phases that a run can be in.
spec fn on_the_way(v: CommitView) -> bool {
    match v.phase {
        Phase::Start | Phase::Over => true,
        Phase::Partial => v.kind == BackendKind::Git && v.partial.len() > 0,
        Phase::Status | Phase::Intent | Phase::Paths | Phase::Undo => v.kind == BackendKind::Git
            && v.partial.len() == 0,
        Phase::Squash | Phase::Read | Phase::Describe => v.kind == BackendKind::Jj && v.amend
            && v.label.len() > 0,
        Phase::Filesets => v.kind == BackendKind::Jj,
        Phase::Bookmark => v.kind == BackendKind::Jj && v.label.len() > 0,
    }
}

proof fn runs_keep_to_their_way(v: CommitView, replies: Seq<ReplyView>)
    requires
        begins(v),
    ensures
        ({
            let w = after(v, replies);
            &&& on_the_way(w)
            &&& w.kind == v.kind && w.paths == v.paths && w.partial == v.partial && w.message
                == v.message && w.amend == v.amend && w.label == v.label
        }),
    decreases replies.len(),
{
    if replies.len() > 0 {
        runs_keep_to_their_way(v, replies.drop_last());
    }
}

/// After the status the selected files that are untracked are made known to git, all of
/// them and no others; without any, the paths are committed at once.
pub proof fn selected_untracked_files_are_added(v: CommitView, start: ReplyView, out: Seq<char>)
    requires
        begins(v),
        v.kind == BackendKind::Git,
        v.partial.len() == 0,
    ensures
        ({
            let records = pieces(out, '\0');
            let mark = seq!['?', '?', ' '];
            let (w, step) = commit_next(commit_next(v, start).0, ReplyView::Out(out));
            let commit = StepView::CommitPaths {
                paths: v.paths,
                message: v.message,
                amend: v.amend,
            };
            match step {
                StepView::Git(argv) => {
                    &&& argv.len() > 3
                    &&& argv.take(3) == seq!["add"@, "--intent-to-add"@, "--"@]
                    &&& forall|p: Seq<char>| #[trigger]
                        argv.skip(3).contains(p) <==> v.paths.contains(p) && records.contains(
                            mark + p,
                        )
                    &&& forall|x: Seq<char>| #[trigger] commit_next(w, ReplyView::Out(x)).1 == commit
                },
                _ => step == commit && forall|p: Seq<char>|
                    v.paths.contains(p) ==> !records.contains(#[trigger] (mark + p)),
            }
        }),
{
    let records = pieces(out, '\0');
    let mark = seq!['?', '?', ' '];
    let others = untracked_in(records);
    let added = those_in(v.paths, others);
    only_selected_files_are_added(v.paths, others);
    assert forall|p: Seq<char>| others.contains(p) <==> records.contains(#[trigger] (mark + p)) by {
        untracked_are_the_marked_records(records, p);
    }
    let (w, step) = commit_next(commit_next(v, start).0, ReplyView::Out(out));
    if added.len() > 0 {
        let argv = seq!["add"@, "--intent-to-add"@, "--"@] + added;
        assert(argv.take(3) =~= seq!["add"@, "--intent-to-add"@, "--"@]);
        assert(argv.skip(3) =~= added);
        assert forall|p: Seq<char>| #[trigger] argv.skip(3).contains(p) <==> v.paths.contains(p)
            && records.contains(mark + p) by {
            assert(added.contains(p) <==> v.paths.contains(p) && others.contains(p));
        }
    } else {
        assert forall|p: Seq<char>| v.paths.contains(p) implies !records.contains(
            #[trigger] (mark + p),
        ) by {
            assert(!added.contains(p));
        }
    }
}

/// Committing paths ends the run: with the commit made, or with its failure, once what
/// was made known to git is taken back.
pub proof fn committing_paths_ends_it(v: CommitView, out: Seq<char>, e: Seq<char>, reply: ReplyView)
    requires
        v.phase == Phase::Paths,
    ensures
        commit_next(v, ReplyView::Out(out)).1 == StepView::Done,
        v.added.len() == 0 ==> commit_next(v, ReplyView::Error(e)).1 == StepView::Failed(e),
        v.added.len() > 0 ==> ({
            let (w, step) = commit_next(v, ReplyView::Error(e));
            &&& step == StepView::Git(seq!["reset"@, "-q"@, "--"@] + v.added)
            &&& commit_next(w, reply).1 == StepView::Failed(e)
        }),
{
}

/// A commit in jj takes the filesets of the selected paths, and then moves the bookmark
/// to it, if there is one. That is all.
pub proof fn jj_commits(
    v: CommitView,
    start: ReplyView,
    first: Seq<char>,
    second: Seq<char>,
    e: Seq<char>,
)
    requires
        begins(v),
        v.kind == BackendKind::Jj,
        !v.amend || v.label.len() == 0,
    ensures
        ({
            let (a, s1) = commit_next(v, start);
            let (b, s2) = commit_next(a, ReplyView::Out(first));
            &&& s1 == (StepView::CommitFilesets { paths: v.paths, message: v.message })
            &&& commit_next(a, ReplyView::Error(e)).1 == StepView::Failed(e)
            &&& v.label.len() == 0 ==> s2 == StepView::Done
            &&& v.label.len() > 0 ==> {
                &&& s2 == (StepView::MoveBookmark { name: v.label, to: "@-"@ })
                &&& commit_next(b, ReplyView::Out(second)).1 == StepView::Done
                &&& commit_next(b, ReplyView::Error(e)).1 == StepView::Failed(e)
            }
        }),
{
}

/// An amend in jj squashes the filesets of the selected paths from the working copy
/// into the bookmark, and then gives that commit the message, unless it has it.
pub proof fn jj_amends(
    v: CommitView,
    start: ReplyView,
    first: Seq<char>,
    current: Seq<char>,
    last: Seq<char>,
    e: Seq<char>,
)
    requires
        begins(v),
        v.kind == BackendKind::Jj,
        v.amend,
        v.label.len() > 0,
    ensures
        ({
            let (a, s1) = commit_next(v, start);
            let (b, s2) = commit_next(a, ReplyView::Out(first));
            let (c, s3) = commit_next(b, ReplyView::Out(current));
            &&& (s1 matches StepView::Jj(argv) && argv.len() == 6 + v.paths.len() && argv.take(6)
                == seq![
                "squash"@,
                "--from"@,
                "@"@,
                "--into"@,
                v.label,
                "--use-destination-message"@,
            ] && forall|i: int|
                0 <= i < v.paths.len() ==> #[trigger] argv[6 + i] == fileset_text(v.paths[i]))
            &&& s2 == StepView::Jj(
                seq!["log"@, "-r"@, v.label, "--no-graph"@, "-T"@, "description"@],
            )
            &&& current == v.message && end_trimmed(v.message) == v.message ==> s3 == StepView::Done
            &&& trimmed(end_trimmed(current)) != trimmed(v.message) ==> s3 == StepView::Jj(
                seq!["describe"@, "-r"@, v.label, "-m"@, v.message],
            ) && commit_next(c, ReplyView::Out(last)).1 == StepView::Done
            &&& commit_next(a, ReplyView::Error(e)).1 == StepView::Failed(e)
            &&& commit_next(b, ReplyView::Error(e)).1 == StepView::Failed(e)
        }),
{
    let sets = sets_of(v.paths);
    let argv = squash_argv(v.label, sets);
    assert(argv.take(6) =~= seq![
        "squash"@,
        "--from"@,
        "@"@,
        "--into"@,
        v.label,
        "--use-destination-message"@,
    ]);
}

/// A fileset is the path in quotes behind `file:`; a path without backslashes and
/// quotes stands in it as it is, and those two stand behind a backslash.
pub proof fn filesets_name_the_path(path: Seq<char>, c: char)
    ensures
        fileset_text(path) == "file:\""@ + escaped(path) + "\""@,
        escaped(seq![]).len() == 0,
        escaped(path.push(c)) == escaped(path) + if c == '\\' || c == '"' {
            seq!['\\', c]
        } else {
            seq![c]
        },
{
    assert(path.push(c).drop_last() =~= path);
    if c == '\\' || c == '"' {
        assert(escaped(path.push(c)) =~= escaped(path) + seq!['\\', c]);
    } else {
        assert(escaped(path.push(c)) =~= escaped(path) + seq![c]);
    }
}

/// In jj the editor starts with the description of the commit that is amended, if
/// there is a bookmark for it, and else with that of the working copy.
pub proof fn descriptions_are_those_amended(label: Seq<char>)
    ensures
        label.len() > 0 ==> description_argv(message_revset(label, true)) == seq![
            "log"@,
            "-r"@,
            label,
            "--no-graph"@,
            "-T"@,
            "description"@,
        ],
        description_argv(message_revset(label, false)) == seq![
            "log"@,
            "-r"@,
            "@"@,
            "--no-graph"@,
            "-T"@,
            "description"@,
        ],
        description_argv(message_revset(seq![], true)) == description_argv(
            message_revset(label, false),
        ),
{
}

} // verus!
