//! Integrating remote commits before a push: a merge or a rebase in git, always a
//! rebase in jj. Conflicts wait for the user to resolve them.
//!
//! [`integrate`] does one attempt, or takes one up again; [`integrate_with_pause`]
//! goes on until the branch is ready to push or the user gives up. Both say what to
//! do next; what came of that is their next argument.

use vstd::prelude::*;

use crate::model::{opt_clone, opt_view, BackendKind};
use crate::prompt::{aborts, prompt_abort_or_continue};
use crate::settings::PullStrategy;
use crate::text;
use crate::text::{decimal_of, texts};
use crate::vcs::{git_remote_ref, jj_remote_bookmark, remote_bookmark, remote_ref, Integration};

verus! {

/// An outcome as a mathematical value.
pub enum IntegrationView {
    Clean,
    Conflicts(Seq<Seq<char>>),
    Unresolved(Seq<char>),
}

impl View for Integration {
    type V = IntegrationView;

    open spec fn view(&self) -> IntegrationView {
        match self {
            Integration::Clean => IntegrationView::Clean,
            Integration::Conflicts(files) => IntegrationView::Conflicts(texts(files@)),
            Integration::Unresolved(why) => IntegrationView::Unresolved(why@),
        }
    }
}

// ----- one attempt ---------------------------------------------------------------------------

/// What to do next in an attempt.
#[derive(Debug)]
pub enum Step {
    /// git: merge this branch.
    Merge(String),
    /// git: rebase onto this branch.
    Rebase(String),
    /// git: list the paths with unresolved conflicts, with these arguments.
    ListUnmerged(Vec<String>),
    /// git: tell whether a merge is under way.
    IsMerging,
    /// git: conclude the merge.
    ContinueMerge,
    /// git: take the rebase one step further.
    ContinueRebase,
    /// git: tell whether a rebase is under way.
    IsRebasing,
    /// jj: rebase the bookmark onto the remote one.
    RebaseBookmark { name: String, onto: String },
    /// jj: fold the working copy's resolution into this bookmark.
    Squash(String),
    /// jj: tell whether this bookmark is conflicted.
    IsConflicted(String),
    /// jj: list the conflicted paths of this bookmark.
    ListConflicted(String),
    /// The attempt has this outcome.
    Outcome(Integration),
    /// Stop with this report.
    Failed(String),
}

/// A step as a mathematical value.
pub enum StepView {
    Merge(Seq<char>),
    Rebase(Seq<char>),
    ListUnmerged(Seq<Seq<char>>),
    IsMerging,
    ContinueMerge,
    ContinueRebase,
    IsRebasing,
    RebaseBookmark { name: Seq<char>, onto: Seq<char> },
    Squash(Seq<char>),
    IsConflicted(Seq<char>),
    ListConflicted(Seq<char>),
    Outcome(IntegrationView),
    Failed(Seq<char>),
}

impl View for Step {
    type V = StepView;

    open spec fn view(&self) -> StepView {
        match self {
            Step::Merge(b) => StepView::Merge(b@),
            Step::Rebase(b) => StepView::Rebase(b@),
            Step::ListUnmerged(a) => StepView::ListUnmerged(texts(a@)),
            Step::IsMerging => StepView::IsMerging,
            Step::ContinueMerge => StepView::ContinueMerge,
            Step::ContinueRebase => StepView::ContinueRebase,
            Step::IsRebasing => StepView::IsRebasing,
            Step::RebaseBookmark { name, onto } => StepView::RebaseBookmark {
                name: name@,
                onto: onto@,
            },
            Step::Squash(b) => StepView::Squash(b@),
            Step::IsConflicted(b) => StepView::IsConflicted(b@),
            Step::ListConflicted(b) => StepView::ListConflicted(b@),
            Step::Outcome(o) => StepView::Outcome(o@),
            Step::Failed(e) => StepView::Failed(e@),
        }
    }
}

/// What came of a step in an attempt.
#[derive(Debug)]
pub enum Reply {
    /// It is done (also the first argument of all).
    Finished,
    /// Of a question: the answer.
    Flag(bool),
    /// Of a listing: the paths.
    Files(Vec<String>),
    /// It failed.
    Error(String),
}

/// A reply as a mathematical value.
pub enum ReplyView {
    Finished,
    Flag(bool),
    Files(Seq<Seq<char>>),
    Error(Seq<char>),
}

impl View for Reply {
    type V = ReplyView;

    open spec fn view(&self) -> ReplyView {
        match self {
            Reply::Finished => ReplyView::Finished,
            Reply::Flag(b) => ReplyView::Flag(*b),
            Reply::Files(f) => ReplyView::Files(texts(f@)),
            Reply::Error(e) => ReplyView::Error(e@),
        }
    }
}

/// Which step of an attempt a reply is awaited for.
#[derive(Debug, Clone, Copy, PartialEq, Eq, Structural)]
pub enum Phase {
    /// None: a new attempt begins.
    Fresh,
    /// None: an attempt is taken up again, after conflicts were resolved.
    Resumed,
    /// The merge or the rebase.
    Integrate,
    /// The listing after that failed.
    Inspect,
    /// The listing before going on.
    Check,
    /// The question for a merge under way.
    Merging,
    /// The conclusion of the merge.
    Conclude,
    /// The next step of the rebase.
    Advance,
    /// The question for a rebase under way.
    Rebasing,
    /// The listing after the rebase stopped again.
    Recheck,
    /// jj: the rebase.
    Move,
    /// jj: folding in the resolution.
    Fold,
    /// jj: the question for conflicts.
    Ask,
    /// jj: the listing of conflicts.
    Collect,
    /// None: it is over.
    Over,
}

/// An attempt under way.
pub struct Attempt {
    kind: BackendKind,
    strategy: PullStrategy,
    name: String,
    branch: String,
    phase: Phase,
    failure: String,
}

/// An attempt under way as a mathematical value.
pub struct AttemptView {
    pub kind: BackendKind,
    pub strategy: PullStrategy,
    /// The local branch or bookmark.
    pub name: Seq<char>,
    /// The remote branch.
    pub branch: Seq<char>,
    pub phase: Phase,
    /// Why the merge or the rebase failed.
    pub failure: Seq<char>,
}

impl View for Attempt {
    type V = AttemptView;

    closed spec fn view(&self) -> AttemptView {
        AttemptView {
            kind: self.kind,
            strategy: self.strategy,
            name: self.name@,
            branch: self.branch@,
            phase: self.phase,
            failure: self.failure@,
        }
    }
}

/// The report of a rebase that neither goes on nor conflicts.
pub const STUCK: &'static str =
    "The rebase did not advance and no conflicted files remain — finish it manually (git rebase --skip / --continue / --abort) and push yourself.";

/// List the paths with unresolved conflicts.
pub open spec fn unmerged_argv() -> Seq<Seq<char>> {
    seq!["diff"@, "--name-only"@, "--diff-filter=U"@]
}

/// Await the reply to `step` in `phase`.
pub open spec fn go(v: AttemptView, phase: Phase, step: StepView) -> (AttemptView, StepView) {
    (AttemptView { phase, ..v }, step)
}

/// The attempt has an outcome.
pub open spec fn end(v: AttemptView, outcome: IntegrationView) -> (AttemptView, StepView) {
    go(v, Phase::Over, StepView::Outcome(outcome))
}

/// The reply is one that the awaited step can have.
pub open spec fn fits(phase: Phase, reply: ReplyView) -> bool {
    match phase {
        Phase::Fresh | Phase::Resumed | Phase::Fold => true,
        Phase::Inspect | Phase::Check | Phase::Recheck | Phase::Collect => reply is Files
            || reply is Error,
        Phase::Merging | Phase::Rebasing | Phase::Ask => reply is Flag || reply is Error,
        Phase::Over => false,
        _ => reply is Finished || reply is Error,
    }
}

/// What is awaited and what to do after `reply`.
pub open spec fn attempt_next(v: AttemptView, reply: ReplyView) -> (AttemptView, StepView) {
    match (v.phase, reply) {
        (Phase::Fresh, _) => match (v.kind, v.strategy) {
            (BackendKind::Jj, _) => go(
                v,
                Phase::Move,
                StepView::RebaseBookmark { name: v.name, onto: remote_bookmark(v.branch) },
            ),
            (BackendKind::Git, PullStrategy::Merge) => go(
                v,
                Phase::Integrate,
                StepView::Merge(remote_ref(v.branch)),
            ),
            (BackendKind::Git, PullStrategy::Rebase) => go(
                v,
                Phase::Integrate,
                StepView::Rebase(remote_ref(v.branch)),
            ),
        },
        (Phase::Resumed, _) => match v.kind {
            BackendKind::Jj => go(v, Phase::Fold, StepView::Squash(v.name)),
            BackendKind::Git => go(v, Phase::Check, StepView::ListUnmerged(unmerged_argv())),
        },
        (Phase::Integrate, ReplyView::Finished) => end(v, IntegrationView::Clean),
        // What is unmerged tells a conflict from a failure, whatever git says.
        (Phase::Integrate, ReplyView::Error(e)) => go(
            AttemptView { failure: e, ..v },
            Phase::Inspect,
            StepView::ListUnmerged(unmerged_argv()),
        ),
        (Phase::Inspect, ReplyView::Files(files)) => if files.len() == 0 {
            go(v, Phase::Over, StepView::Failed(v.failure))
        } else {
            end(v, IntegrationView::Conflicts(files))
        },
        (Phase::Check, ReplyView::Files(files)) => if files.len() > 0 {
            end(v, IntegrationView::Conflicts(files))
        } else {
            match v.strategy {
                PullStrategy::Merge => go(v, Phase::Merging, StepView::IsMerging),
                PullStrategy::Rebase => go(v, Phase::Advance, StepView::ContinueRebase),
            }
        },
        (Phase::Merging, ReplyView::Flag(merging)) => if merging {
            go(v, Phase::Conclude, StepView::ContinueMerge)
        } else {
            end(v, IntegrationView::Clean)
        },
        (Phase::Conclude, ReplyView::Finished) => end(v, IntegrationView::Clean),
        (Phase::Advance, ReplyView::Finished) => go(v, Phase::Rebasing, StepView::IsRebasing),
        (Phase::Advance, ReplyView::Error(_)) => go(
            v,
            Phase::Recheck,
            StepView::ListUnmerged(unmerged_argv()),
        ),
        (Phase::Rebasing, ReplyView::Flag(rebasing)) => if rebasing {
            go(v, Phase::Recheck, StepView::ListUnmerged(unmerged_argv()))
        } else {
            end(v, IntegrationView::Clean)
        },
        (Phase::Recheck, ReplyView::Files(files)) => if files.len() == 0 {
            end(v, IntegrationView::Unresolved(STUCK@))
        } else {
            end(v, IntegrationView::Conflicts(files))
        },
        (Phase::Move, ReplyView::Finished) => go(v, Phase::Ask, StepView::IsConflicted(v.name)),
        // That there is nothing to fold in does not matter.
        (Phase::Fold, _) => go(v, Phase::Ask, StepView::IsConflicted(v.name)),
        (Phase::Ask, ReplyView::Flag(conflicted)) => if conflicted {
            go(v, Phase::Collect, StepView::ListConflicted(v.name))
        } else {
            end(v, IntegrationView::Clean)
        },
        (Phase::Collect, ReplyView::Files(files)) => end(v, IntegrationView::Conflicts(files)),
        (_, ReplyView::Error(e)) => go(v, Phase::Over, StepView::Failed(e)),
        _ => go(v, Phase::Over, StepView::Failed(seq![])),
    }
}

impl Attempt {
    /// A new attempt, or one that is taken up again.
    pub fn new(
        kind: BackendKind,
        strategy: PullStrategy,
        resumed: bool,
        name: &str,
        branch: &str,
    ) -> (r: Self)
        ensures
            r@ == (AttemptView {
                kind,
                strategy,
                name: name@,
                branch: branch@,
                phase: if resumed {
                    Phase::Resumed
                } else {
                    Phase::Fresh
                },
                failure: seq![],
            }),
    {
        let phase = if resumed {
            Phase::Resumed
        } else {
            Phase::Fresh
        };
        let failure = String::new();
        proof {
            assert(failure@ =~= seq![]);
        }
        Attempt {
            kind,
            strategy,
            name: name.to_string(),
            branch: branch.to_string(),
            phase,
            failure,
        }
    }

    /// The attempt has an outcome.
    fn end_step(&mut self, outcome: Integration) -> (r: Step)
        ensures
            (final(self)@, r@) == end(old(self)@, outcome@),
    {
        self.phase = Phase::Over;
        Step::Outcome(outcome)
    }

    /// Stop with a report.
    fn fail_step(&mut self, why: String) -> (r: Step)
        ensures
            (final(self)@, r@) == go(old(self)@, Phase::Over, StepView::Failed(why@)),
    {
        self.phase = Phase::Over;
        Step::Failed(why)
    }

    /// List the paths with unresolved conflicts.
    fn list_step(&mut self, phase: Phase) -> (r: Step)
        ensures
            (final(self)@, r@) == go(
                old(self)@,
                phase,
                StepView::ListUnmerged(unmerged_argv()),
            ),
    {
        let argv = text::owned(&["diff", "--name-only", "--diff-filter=U"]);
        proof {
            assert(texts(argv@) =~= unmerged_argv());
        }
        self.go_step(phase, Step::ListUnmerged(argv))
    }

    /// Ask whether the bookmark is conflicted.
    fn ask_step(&mut self) -> (r: Step)
        ensures
            (final(self)@, r@) == go(
                old(self)@,
                Phase::Ask,
                StepView::IsConflicted(old(self)@.name),
            ),
    {
        let name = self.name.clone();
        self.go_step(Phase::Ask, Step::IsConflicted(name))
    }

    /// Await the reply to `step` in `phase`.
    fn go_step(&mut self, phase: Phase, step: Step) -> (r: Step)
        ensures
            (final(self)@, r@) == go(old(self)@, phase, step@),
    {
        self.phase = phase;
        step
    }
}

/// The next step of an attempt after `reply`, which is that to the step before (for
/// the first step it does not matter). After [`Step::Outcome`] and [`Step::Failed`]
/// there is none.
pub fn integrate(run: &mut Attempt, reply: Reply) -> (r: Step)
    ensures
        (final(run)@, r@) == attempt_next(old(run)@, reply@),
{
    match (run.phase, reply) {
        (Phase::Fresh, _) => match (run.kind, run.strategy) {
            (BackendKind::Jj, _) => {
                let name = run.name.clone();
                let onto = jj_remote_bookmark(run.branch.as_str());
                run.go_step(Phase::Move, Step::RebaseBookmark { name, onto })
            },
            (BackendKind::Git, PullStrategy::Merge) => {
                let target = git_remote_ref(run.branch.as_str());
                run.go_step(Phase::Integrate, Step::Merge(target))
            },
            (BackendKind::Git, PullStrategy::Rebase) => {
                let target = git_remote_ref(run.branch.as_str());
                run.go_step(Phase::Integrate, Step::Rebase(target))
            },
        },
        (Phase::Resumed, _) => match run.kind {
            BackendKind::Jj => {
                let name = run.name.clone();
                run.go_step(Phase::Fold, Step::Squash(name))
            },
            BackendKind::Git => run.list_step(Phase::Check),
        },
        (Phase::Integrate, Reply::Finished) => run.end_step(Integration::Clean),
        (Phase::Integrate, Reply::Error(e)) => {
            run.failure = e;
            run.list_step(Phase::Inspect)
        },
        (Phase::Inspect, Reply::Files(files)) => {
            if files.len() == 0 {
                let why = run.failure.clone();
                run.fail_step(why)
            } else {
                run.end_step(Integration::Conflicts(files))
            }
        },
        (Phase::Check, Reply::Files(files)) => {
            if files.len() > 0 {
                run.end_step(Integration::Conflicts(files))
            } else {
                match run.strategy {
                    PullStrategy::Merge => run.go_step(Phase::Merging, Step::IsMerging),
                    PullStrategy::Rebase => run.go_step(Phase::Advance, Step::ContinueRebase),
                }
            }
        },
        (Phase::Merging, Reply::Flag(merging)) => {
            if merging {
                run.go_step(Phase::Conclude, Step::ContinueMerge)
            } else {
                run.end_step(Integration::Clean)
            }
        },
        (Phase::Conclude, Reply::Finished) => run.end_step(Integration::Clean),
        (Phase::Advance, Reply::Finished) => run.go_step(Phase::Rebasing, Step::IsRebasing),
        (Phase::Advance, Reply::Error(_)) => run.list_step(Phase::Recheck),
        (Phase::Rebasing, Reply::Flag(rebasing)) => {
            if rebasing {
                run.list_step(Phase::Recheck)
            } else {
                run.end_step(Integration::Clean)
            }
        },
        (Phase::Recheck, Reply::Files(files)) => {
            if files.len() == 0 {
                run.end_step(Integration::Unresolved(STUCK.to_string()))
            } else {
                run.end_step(Integration::Conflicts(files))
            }
        },
        (Phase::Move, Reply::Finished) => run.ask_step(),
        (Phase::Fold, _) => run.ask_step(),
        (Phase::Ask, Reply::Flag(conflicted)) => {
            if conflicted {
                let name = run.name.clone();
                run.go_step(Phase::Collect, Step::ListConflicted(name))
            } else {
                run.end_step(Integration::Clean)
            }
        },
        (Phase::Collect, Reply::Files(files)) => run.end_step(Integration::Conflicts(files)),
        (_, Reply::Error(e)) => run.fail_step(e),
        _ => run.fail_step(String::new()),
    }
}

/// How far an attempt has come.
pub open spec fn attempt_progress(phase: Phase) -> nat {
    match phase {
        Phase::Fresh | Phase::Resumed => 0,
        Phase::Integrate | Phase::Check | Phase::Move | Phase::Fold => 1,
        Phase::Inspect | Phase::Merging | Phase::Advance | Phase::Ask => 2,
        Phase::Conclude | Phase::Rebasing | Phase::Collect => 3,
        Phase::Recheck => 4,
        Phase::Over => 5,
    }
}

/// Every reply brings an attempt further, so it ends; and it has a clean outcome
/// only if its last reply shows none of: a failure, a conflict, an integration under
/// way.
pub proof fn attempts_end(v: AttemptView, reply: ReplyView)
    requires
        fits(v.phase, reply),
    ensures
        attempt_progress(v.phase) < attempt_progress(attempt_next(v, reply).0.phase) <= 5,
        attempt_next(v, reply).1 == StepView::Outcome(IntegrationView::Clean) ==> reply is Finished
            || reply == ReplyView::Flag(false),
        attempt_next(v, reply).1 matches StepView::Outcome(IntegrationView::Conflicts(files))
            ==> reply == ReplyView::Files(files),
{
}

/// An integration that is taken up again is not reported as conflicted without
/// naming a conflict in git, so the user is never asked to resolve nothing.
pub proof fn git_conflicts_are_named(v: AttemptView, reply: ReplyView)
    requires
        fits(v.phase, reply),
        v.phase == Phase::Inspect || v.phase == Phase::Check || v.phase == Phase::Recheck,
    ensures
        attempt_next(v, reply).1 matches StepView::Outcome(IntegrationView::Conflicts(files))
            ==> files.len() > 0,
{
}

// ----- giving up --------------------------------------------------------------------------------

/// How an integration is rolled back.
#[derive(Debug)]
pub enum Rollback {
    /// git: abort the merge.
    AbortMerge,
    /// git: abort the rebase.
    AbortRebase,
    /// jj: restore the operation from before.
    Restore(String),
    /// There is nothing to roll back.
    Nothing,
}

/// How an integration is rolled back; `before` is the jj operation from before it.
pub fn abort_integration(kind: BackendKind, strategy: PullStrategy, before: Option<String>) -> (r:
    Rollback)
    ensures
        match kind {
            BackendKind::Git => match strategy {
                PullStrategy::Merge => r is AbortMerge,
                PullStrategy::Rebase => r is AbortRebase,
            },
            BackendKind::Jj => match before {
                Some(op) => r matches Rollback::Restore(o) && o@ == op@,
                None => r is Nothing,
            },
        },
{
    match kind {
        BackendKind::Git => match strategy {
            PullStrategy::Merge => Rollback::AbortMerge,
            PullStrategy::Rebase => Rollback::AbortRebase,
        },
        BackendKind::Jj => match before {
            Some(op) => Rollback::Restore(op),
            None => Rollback::Nothing,
        },
    }
}

// ----- until it is ready ------------------------------------------------------------------------

/// What to do next on the way to a branch that is ready to push.
#[derive(Debug)]
pub enum Pause {
    /// Tell what is going to happen, and note where jj stands before it.
    Note(String),
    /// Make an attempt.
    Attempt,
    /// Take the attempt up again.
    Resume,
    /// Show the conflicts, and ask whether to go on or to abort.
    Ask(String),
    /// Roll the integration back, to where jj stood before it if that is known.
    Abort(Option<String>),
    /// The branch is ready to push.
    Ready,
    /// Tell this; nothing is to be pushed. An `alarm` is for the error output.
    Stop { notice: String, alarm: bool },
    /// Stop with this report.
    Failed(String),
}

/// A step as a mathematical value.
pub enum PauseView {
    Note(Seq<char>),
    Attempt,
    Resume,
    Ask(Seq<char>),
    Abort(Option<Seq<char>>),
    Ready,
    Stop { notice: Seq<char>, alarm: bool },
    Failed(Seq<char>),
}

impl View for Pause {
    type V = PauseView;

    open spec fn view(&self) -> PauseView {
        match self {
            Pause::Note(s) => PauseView::Note(s@),
            Pause::Attempt => PauseView::Attempt,
            Pause::Resume => PauseView::Resume,
            Pause::Ask(s) => PauseView::Ask(s@),
            Pause::Abort(op) => PauseView::Abort(opt_view(*op)),
            Pause::Ready => PauseView::Ready,
            Pause::Stop { notice, alarm } => PauseView::Stop { notice: notice@, alarm: *alarm },
            Pause::Failed(e) => PauseView::Failed(e@),
        }
    }
}

/// What came of a step.
#[derive(Debug)]
pub enum Heard {
    /// Nothing yet.
    Start,
    /// Where jj stands; `None` for git.
    Stands(Option<String>),
    /// The outcome of an attempt.
    Outcome(Integration),
    /// The answer to the question; `None` at the end of input.
    Answer(Option<String>),
    /// Whether rolling back worked.
    RolledBack(bool),
    /// It failed.
    Error(String),
}

/// What came of a step, as a mathematical value.
pub enum HeardView {
    Start,
    Stands(Option<Seq<char>>),
    Outcome(IntegrationView),
    Answer(Option<Seq<char>>),
    RolledBack(bool),
    Error(Seq<char>),
}

impl View for Heard {
    type V = HeardView;

    open spec fn view(&self) -> HeardView {
        match self {
            Heard::Start => HeardView::Start,
            Heard::Stands(op) => HeardView::Stands(opt_view(*op)),
            Heard::Outcome(o) => HeardView::Outcome(o@),
            Heard::Answer(a) => HeardView::Answer(opt_view(*a)),
            Heard::RolledBack(b) => HeardView::RolledBack(*b),
            Heard::Error(e) => HeardView::Error(e@),
        }
    }
}

/// How remote commits are integrated, in a word: jj always rebases.
pub open spec fn way(kind: BackendKind, strategy: PullStrategy) -> Seq<char> {
    match (kind, strategy) {
        (BackendKind::Git, PullStrategy::Merge) => "merge"@,
        _ => "rebase"@,
    }
}

/// What is told before the first attempt.
pub open spec fn behind_text(
    kind: BackendKind,
    strategy: PullStrategy,
    name: Seq<char>,
    branch: Seq<char>,
) -> Seq<char> {
    "'"@ + name + "' is behind origin/"@ + branch + " — integrating ("@ + way(kind, strategy)
        + ")…"@
}

/// The list of conflicts.
pub open spec fn conflict_lines(files: Seq<Seq<char>>) -> Seq<char>
    decreases files.len(),
{
    if files.len() == 0 {
        seq![]
    } else {
        conflict_lines(files.drop_last()) + "\n  "@ + files.last()
    }
}

/// The conflicts as they are shown.
pub open spec fn conflict_text(files: Seq<Seq<char>>) -> Seq<char> {
    "\nConflicts in "@ + decimal_of(files.len()) + " file(s):"@ + conflict_lines(files)
}

/// The way to a branch that is ready to push.
pub struct PauseRun {
    kind: BackendKind,
    strategy: PullStrategy,
    name: String,
    branch: String,
    before: Option<String>,
}

/// The way to a branch that is ready to push, as a mathematical value.
pub struct PauseRunView {
    pub kind: BackendKind,
    pub strategy: PullStrategy,
    /// The local branch or bookmark.
    pub name: Seq<char>,
    /// The remote branch.
    pub branch: Seq<char>,
    /// Where jj stood before.
    pub before: Option<Seq<char>>,
}

impl View for PauseRun {
    type V = PauseRunView;

    closed spec fn view(&self) -> PauseRunView {
        PauseRunView {
            kind: self.kind,
            strategy: self.strategy,
            name: self.name@,
            branch: self.branch@,
            before: opt_view(self.before),
        }
    }
}

/// Where jj stood before, and what to do, after what was heard.
pub open spec fn pause_next(v: PauseRunView, heard: HeardView) -> (PauseRunView, PauseView) {
    match heard {
        HeardView::Start => (v, PauseView::Note(behind_text(v.kind, v.strategy, v.name, v.branch))),
        HeardView::Stands(op) => (PauseRunView { before: op, ..v }, PauseView::Attempt),
        HeardView::Outcome(IntegrationView::Clean) => (v, PauseView::Ready),
        HeardView::Outcome(IntegrationView::Conflicts(files)) => (
            v,
            PauseView::Ask(conflict_text(files)),
        ),
        HeardView::Outcome(IntegrationView::Unresolved(why)) => (
            v,
            PauseView::Stop { notice: why, alarm: false },
        ),
        HeardView::Answer(answer) => if aborts(answer) {
            (v, PauseView::Abort(v.before))
        } else {
            (v, PauseView::Resume)
        },
        HeardView::RolledBack(true) => (
            v,
            PauseView::Stop { notice: "Integration aborted — nothing pushed."@, alarm: false },
        ),
        HeardView::RolledBack(false) => (
            v,
            PauseView::Stop {
                notice: "Could not fully roll back the integration — the repo may be mid-merge/rebase. Resolve it manually. Nothing pushed."@,
                alarm: true,
            },
        ),
        HeardView::Error(e) => (v, PauseView::Failed(e)),
    }
}

impl PauseRun {
    /// The way to `name` integrating the remote `branch`.
    pub fn new(kind: BackendKind, strategy: PullStrategy, name: String, branch: String) -> (r: Self)
        ensures
            r@ == (PauseRunView { kind, strategy, name: name@, branch: branch@, before: None }),
    {
        PauseRun { kind, strategy, name, branch, before: None }
    }

    /// What is told before the first attempt.
    fn announcement(&self) -> (r: String)
        ensures
            r@ == behind_text(self@.kind, self@.strategy, self@.name, self@.branch),
    {
        let how: &str = match (self.kind, self.strategy) {
            (BackendKind::Git, PullStrategy::Merge) => "merge",
            _ => "rebase",
        };
        let mut out = "'".to_string();
        out.append(self.name.as_str());
        out.append("' is behind origin/");
        out.append(self.branch.as_str());
        out.append(" — integrating (");
        out.append(how);
        out.append(")…");
        out
    }
}

/// The conflicts as they are shown.
fn conflict_report(files: &Vec<String>) -> (r: String)
    ensures
        r@ == conflict_text(texts(files@)),
{
    let ghost list = texts(files@);
    let mut out = "\nConflicts in ".to_string();
    text::push_decimal(&mut out, files.len() as u128);
    out.append(" file(s):");
    let ghost start = out@;
    let mut i: usize = 0;
    proof {
        assert(start + conflict_lines(list.take(0)) =~= start);
    }
    while i < files.len()
        invariant
            i <= files@.len(),
            list == texts(files@),
            out@ == start + conflict_lines(list.take(i as int)),
        decreases files@.len() - i,
    {
        proof {
            assert(list.take(i + 1).drop_last() =~= list.take(i as int));
        }
        out.append("\n  ");
        out.append(files[i].as_str());
        proof {
            assert(out@ =~= start + conflict_lines(list.take(i + 1)));
        }
        i = i + 1;
    }
    proof {
        assert(list.take(i as int) =~= list);
        assert(out@ =~= conflict_text(list));
    }
    out
}

/// What to do after what was heard. The end of input aborts, so that a closed
/// input neither repeats the check for ever nor pushes a conflict.
pub fn integrate_with_pause(run: &mut PauseRun, heard: Heard) -> (r: Pause)
    ensures
        (final(run)@, r@) == pause_next(old(run)@, heard@),
{
    match heard {
        Heard::Start => Pause::Note(run.announcement()),
        Heard::Stands(op) => {
            run.before = op;
            Pause::Attempt
        },
        Heard::Outcome(Integration::Clean) => Pause::Ready,
        Heard::Outcome(Integration::Conflicts(files)) => Pause::Ask(conflict_report(&files)),
        Heard::Outcome(Integration::Unresolved(why)) => Pause::Stop { notice: why, alarm: false },
        Heard::Answer(answer) => {
            let abort = match &answer {
                Some(line) => prompt_abort_or_continue(Some(line.as_str())),
                None => prompt_abort_or_continue(None),
            };
            if abort {
                Pause::Abort(opt_clone(&run.before))
            } else {
                Pause::Resume
            }
        },
        Heard::RolledBack(worked) => {
            if worked {
                Pause::Stop {
                    notice: "Integration aborted — nothing pushed.".to_string(),
                    alarm: false,
                }
            } else {
                Pause::Stop {
                    notice: "Could not fully roll back the integration — the repo may be mid-merge/rebase. Resolve it manually. Nothing pushed.".to_string(),
                    alarm: true,
                }
            }
        },
        Heard::Error(e) => Pause::Failed(e),
    }
}

/// The branch is ready to push exactly if an attempt came out clean; and a further
/// attempt is made only if the user said to go on.
pub proof fn ready_means_clean(v: PauseRunView, heard: HeardView)
    ensures
        pause_next(v, heard).1 is Ready <==> heard == HeardView::Outcome(IntegrationView::Clean),
        pause_next(v, heard).1 is Resume <==> (heard matches HeardView::Answer(a) && !aborts(a)),
        heard == HeardView::Answer(None) ==> pause_next(v, heard).1 == PauseView::Abort(v.before),
{
}

// ----- how an attempt goes -------------------------------------------------------------------------

/// The phases that an attempt in jj can be in.
pub open spec fn jj_phase(phase: Phase) -> bool {
    phase == Phase::Fresh || phase == Phase::Resumed || phase == Phase::Move || phase == Phase::Fold
        || phase == Phase::Ask || phase == Phase::Collect || phase == Phase::Over
}

/// An attempt in jj, new or taken up again, comes out clean only after the question
/// whether the bookmark is conflicted was answered no: jj records conflicts in the
/// commit and does not fail.
pub proof fn jj_is_clean_only_without_conflicts(v: AttemptView, reply: ReplyView)
    requires
        v.kind == BackendKind::Jj,
        jj_phase(v.phase),
    ensures
        ({
            let (w, step) = attempt_next(v, reply);
            &&& w.kind == BackendKind::Jj && jj_phase(w.phase)
            &&& w.name == v.name && w.branch == v.branch
            &&& step == StepView::Outcome(IntegrationView::Clean) <==> v.phase == Phase::Ask
                && reply == ReplyView::Flag(false)
            &&& w.phase == Phase::Ask ==> step == StepView::IsConflicted(v.name)
        }),
{
}

/// How an attempt in jj goes: the bookmark is rebased onto the remote one, and then
/// asked for conflicts; those are listed, and are the outcome.
pub proof fn jj_attempts(
    v: AttemptView,
    start: ReplyView,
    files: Seq<Seq<char>>,
    e: Seq<char>,
)
    requires
        v.kind == BackendKind::Jj,
        v.phase == Phase::Fresh,
    ensures
        ({
            let (a, s1) = attempt_next(v, start);
            let (b, s2) = attempt_next(a, ReplyView::Finished);
            let (c, s3) = attempt_next(b, ReplyView::Flag(true));
            &&& s1 == (StepView::RebaseBookmark {
                name: v.name,
                onto: v.branch + "@"@ + "origin"@,
            })
            &&& attempt_next(a, ReplyView::Error(e)).1 == StepView::Failed(e)
            &&& s2 == StepView::IsConflicted(v.name)
            &&& attempt_next(b, ReplyView::Flag(false)).1 == StepView::Outcome(
                IntegrationView::Clean,
            )
            &&& s3 == StepView::ListConflicted(v.name)
            &&& attempt_next(c, ReplyView::Files(files)).1 == StepView::Outcome(
                IntegrationView::Conflicts(files),
            )
        }),
{
}

/// How an attempt in jj is taken up again: what was resolved is folded into the
/// bookmark, which may be nothing, and then that is asked for conflicts again.
pub proof fn jj_attempts_go_on(
    v: AttemptView,
    start: ReplyView,
    folded: ReplyView,
    files: Seq<Seq<char>>,
)
    requires
        v.kind == BackendKind::Jj,
        v.phase == Phase::Resumed,
    ensures
        ({
            let (a, s1) = attempt_next(v, start);
            let (b, s2) = attempt_next(a, folded);
            let (c, s3) = attempt_next(b, ReplyView::Flag(true));
            &&& s1 == StepView::Squash(v.name)
            &&& s2 == StepView::IsConflicted(v.name)
            &&& attempt_next(b, ReplyView::Flag(false)).1 == StepView::Outcome(
                IntegrationView::Clean,
            )
            &&& s3 == StepView::ListConflicted(v.name)
            &&& attempt_next(c, ReplyView::Files(files)).1 == StepView::Outcome(
                IntegrationView::Conflicts(files),
            )
        }),
{
}

/// How an attempt in git goes: a merge of the remote branch, or a rebase onto it, by
/// the strategy. That it works is a clean outcome. Where it fails, the unmerged paths
/// tell a conflict from a failure: they are the conflicts, or the failure is reported.
pub proof fn git_attempts(
    v: AttemptView,
    start: ReplyView,
    e: Seq<char>,
    files: Seq<Seq<char>>,
)
    requires
        v.kind == BackendKind::Git,
        v.phase == Phase::Fresh,
    ensures
        ({
            let (a, s1) = attempt_next(v, start);
            let (b, s2) = attempt_next(a, ReplyView::Error(e));
            &&& s1 == match v.strategy {
                PullStrategy::Merge => StepView::Merge("origin"@ + "/"@ + v.branch),
                PullStrategy::Rebase => StepView::Rebase("origin"@ + "/"@ + v.branch),
            }
            &&& attempt_next(a, ReplyView::Finished).1 == StepView::Outcome(IntegrationView::Clean)
            &&& s2 == StepView::ListUnmerged(seq!["diff"@, "--name-only"@, "--diff-filter=U"@])
            &&& files.len() > 0 ==> attempt_next(b, ReplyView::Files(files)).1 == StepView::Outcome(
                IntegrationView::Conflicts(files),
            )
            &&& files.len() == 0 ==> attempt_next(b, ReplyView::Files(files)).1 == StepView::Failed(
                e,
            )
        }),
{
}

/// How a merge in git is taken up again: not while paths are unmerged; then it is
/// concluded, if it is still under way.
pub proof fn git_merges_go_on(v: AttemptView, start: ReplyView, files: Seq<Seq<char>>, e: Seq<char>)
    requires
        v.kind == BackendKind::Git,
        v.strategy == PullStrategy::Merge,
        v.phase == Phase::Resumed,
    ensures
        ({
            let (a, s1) = attempt_next(v, start);
            let (b, s2) = attempt_next(a, ReplyView::Files(seq![]));
            let (c, s3) = attempt_next(b, ReplyView::Flag(true));
            &&& s1 == StepView::ListUnmerged(seq!["diff"@, "--name-only"@, "--diff-filter=U"@])
            &&& files.len() > 0 ==> attempt_next(a, ReplyView::Files(files)).1 == StepView::Outcome(
                IntegrationView::Conflicts(files),
            )
            &&& s2 == StepView::IsMerging
            &&& attempt_next(b, ReplyView::Flag(false)).1 == StepView::Outcome(
                IntegrationView::Clean,
            )
            &&& s3 == StepView::ContinueMerge
            &&& attempt_next(c, ReplyView::Finished).1 == StepView::Outcome(IntegrationView::Clean)
            &&& attempt_next(c, ReplyView::Error(e)).1 == StepView::Failed(e)
        }),
{
}

/// How a rebase in git is taken up again: not while paths are unmerged; then it goes
/// one step further. It is clean once no rebase is under way any more; where it stopped
/// again, the unmerged paths are the conflicts, and without any it cannot go on by
/// itself.
pub proof fn git_rebases_go_on(
    v: AttemptView,
    start: ReplyView,
    files: Seq<Seq<char>>,
    e: Seq<char>,
)
    requires
        v.kind == BackendKind::Git,
        v.strategy == PullStrategy::Rebase,
        v.phase == Phase::Resumed,
        files.len() > 0,
    ensures
        ({
            let list = StepView::ListUnmerged(seq!["diff"@, "--name-only"@, "--diff-filter=U"@]);
            let found = StepView::Outcome(IntegrationView::Conflicts(files));
            let (a, s1) = attempt_next(v, start);
            let (b, s2) = attempt_next(a, ReplyView::Files(seq![]));
            let (c, s3) = attempt_next(b, ReplyView::Finished);
            let (d, s4) = attempt_next(c, ReplyView::Flag(true));
            let (f, s5) = attempt_next(b, ReplyView::Error(e));
            &&& s1 == list
            &&& attempt_next(a, ReplyView::Files(files)).1 == found
            &&& s2 == StepView::ContinueRebase
            &&& s3 == StepView::IsRebasing
            &&& attempt_next(c, ReplyView::Flag(false)).1 == StepView::Outcome(
                IntegrationView::Clean,
            )
            &&& s4 == list
            &&& attempt_next(d, ReplyView::Files(files)).1 == found
            &&& (attempt_next(d, ReplyView::Files(seq![])).1 matches StepView::Outcome(
                IntegrationView::Unresolved(_),
            ))
            &&& s5 == list
            &&& attempt_next(f, ReplyView::Files(files)).1 == found
            &&& (attempt_next(f, ReplyView::Files(seq![])).1 matches StepView::Outcome(
                IntegrationView::Unresolved(_),
            ))
        }),
{
}

// ----- how it goes on until the branch is ready ----------------------------------------------------

/// What is told, what is asked and what is done on the way: the attempt, the conflicts
/// by number and by name, going on, and rolling back to where jj stood before.
pub proof fn pauses(
    v: PauseRunView,
    op: Option<Seq<char>>,
    files: Seq<Seq<char>>,
    why: Seq<char>,
    answer: Option<Seq<char>>,
)
    ensures
        pause_next(v, HeardView::Start).1 == PauseView::Note(
            "'"@ + v.name + "' is behind origin/"@ + v.branch + " — integrating ("@ + if v.kind
                == BackendKind::Git && v.strategy == PullStrategy::Merge {
                "merge"@
            } else {
                "rebase"@
            } + ")…"@,
        ),
        pause_next(v, HeardView::Stands(op)).1 == PauseView::Attempt,
        pause_next(v, HeardView::Stands(op)).0.before == op,
        pause_next(v, HeardView::Outcome(IntegrationView::Clean)).1 == PauseView::Ready,
        pause_next(v, HeardView::Outcome(IntegrationView::Conflicts(files))).1 == PauseView::Ask(
            "\nConflicts in "@ + decimal_of(files.len()) + " file(s):"@ + conflict_lines(files),
        ),
        pause_next(v, HeardView::Outcome(IntegrationView::Unresolved(why))).1 == (PauseView::Stop {
            notice: why,
            alarm: false,
        }),
        aborts(answer) ==> pause_next(v, HeardView::Answer(answer)).1 == PauseView::Abort(v.before),
        !aborts(answer) ==> pause_next(v, HeardView::Answer(answer)).1 == PauseView::Resume,
        pause_next(v, HeardView::RolledBack(true)).1 == (PauseView::Stop {
            notice: "Integration aborted — nothing pushed."@,
            alarm: false,
        }),
        pause_next(v, HeardView::RolledBack(false)).1 == (PauseView::Stop {
            notice: "Could not fully roll back the integration — the repo may be mid-merge/rebase. Resolve it manually. Nothing pushed."@,
            alarm: true,
        }),
        pause_next(v, HeardView::Error(why)).1 == PauseView::Failed(why),
{
}

/// Where jj stood is kept until the end, whatever is heard in between.
pub proof fn pauses_remember_where_jj_stood(v: PauseRunView, heard: HeardView)
    requires
        !(heard is Stands),
    ensures
        pause_next(v, heard).0 == v,
{
}

/// The conflicts are listed each on a line of its own.
pub proof fn conflicts_are_listed(files: Seq<Seq<char>>, more: Seq<char>)
    ensures
        conflict_lines(seq![]).len() == 0,
        conflict_lines(files.push(more)) == conflict_lines(files) + "\n  "@ + more,
{
    assert(files.push(more).drop_last() =~= files);
}

} // verus!
