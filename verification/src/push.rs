//! Pushing what was committed: where to, what has to happen first, and what came of
//! it.
//!
//! A fresh commit is offered to be pushed. On agreement the remote branch is found
//! (the one that is tracked, else one of the same name, else one that the user
//! picks), remote commits are integrated if the local branch is behind, and the
//! branch is pushed. An amended commit rewrites the tip, so the offer for it is
//! declined by default, is made only for a branch that is on the remote, and forces
//! the push with a lease: without fetching first, since that would renew the lease.
//!
//! [`offer`] says what to do next; what came of that is its next argument.

use vstd::prelude::*;

use crate::model::{opt_view, BackendKind};
use crate::partial::{diagnosis, or_no_output};
use crate::prompt::{agrees, confirm, confirm_no, insists};
use crate::text;
use crate::text::texts;
use crate::ui::filter::{Pick, PickView};
use crate::vcs::{holds, REMOTE};

verus! {

// ----- the commands --------------------------------------------------------------------------

/// What is pushed where, for git.
pub open spec fn refspec(name: Seq<char>, branch: Seq<char>) -> Seq<char> {
    name + ":"@ + branch
}

/// The arguments of a push. A jj bookmark is pushed under its own name.
pub open spec fn push_argv(
    kind: BackendKind,
    name: Seq<char>,
    branch: Seq<char>,
    set_upstream: bool,
) -> Seq<Seq<char>> {
    match kind {
        BackendKind::Git => if set_upstream {
            seq!["push"@, "-u"@, REMOTE@, refspec(name, branch)]
        } else {
            seq!["push"@, REMOTE@, refspec(name, branch)]
        },
        BackendKind::Jj => seq!["git"@, "push"@, "-b"@, name],
    }
}

/// The arguments of a push over what is on the remote, with a lease: git refuses if
/// the remote has moved past what was last seen of it, and jj always does.
pub open spec fn force_argv(kind: BackendKind, name: Seq<char>, branch: Seq<char>) -> Seq<Seq<char>> {
    match kind {
        BackendKind::Git => seq!["push"@, "--force-with-lease"@, REMOTE@, refspec(name, branch)],
        BackendKind::Jj => seq!["git"@, "push"@, "-b"@, name],
    }
}

/// What is pushed where, for git.
fn refspec_text(name: &str, branch: &str) -> (r: String)
    ensures
        r@ == refspec(name@, branch@),
{
    let mut out = name.to_string();
    out.append(":");
    out.append(branch);
    out
}

/// The arguments of a push.
pub fn push(kind: BackendKind, name: &str, branch: &str, set_upstream: bool) -> (r: Vec<String>)
    ensures
        texts(r@) == push_argv(kind, name@, branch@, set_upstream),
{
    let spec_text = refspec_text(name, branch);
    let argv = match kind {
        BackendKind::Git => if set_upstream {
            text::owned(&["push", "-u", REMOTE, spec_text.as_str()])
        } else {
            text::owned(&["push", REMOTE, spec_text.as_str()])
        },
        BackendKind::Jj => text::owned(&["git", "push", "-b", name]),
    };
    proof {
        assert(texts(argv@) =~= push_argv(kind, name@, branch@, set_upstream));
    }
    argv
}

/// The arguments of a push over what is on the remote, with a lease.
pub fn push_force(kind: BackendKind, name: &str, branch: &str) -> (r: Vec<String>)
    ensures
        texts(r@) == force_argv(kind, name@, branch@),
{
    let spec_text = refspec_text(name, branch);
    let argv = match kind {
        BackendKind::Git => text::owned(
            &["push", "--force-with-lease", REMOTE, spec_text.as_str()],
        ),
        BackendKind::Jj => text::owned(&["git", "push", "-b", name]),
    };
    proof {
        assert(texts(argv@) =~= force_argv(kind, name@, branch@));
    }
    argv
}

// ----- steps and replies ------------------------------------------------------------------------

/// What to do next.
#[derive(Debug)]
pub enum Step {
    /// Tell what a push would advance.
    FindName,
    /// Ask this; agreeing is the default.
    Confirm(String),
    /// Ask this; declining is the default.
    ConfirmForce(String),
    /// Fetch from the remote.
    Fetch,
    /// Tell which remote branch this one tracks.
    FindUpstream(String),
    /// List the branches on the remote.
    ListBranches,
    /// Attach a local branch to a remote one.
    Attach { name: String, branch: String },
    /// Let the user pick one of the branches, or the other action.
    Choose { title: String, branches: Vec<String>, other: String },
    /// Tell whether the local branch is behind the remote one.
    CheckBehind { local: String, branch: String },
    /// Tell whether there are uncommitted changes that stand in the way.
    CheckDirty,
    /// Integrate the remote commits.
    Integrate { local: String, branch: String },
    /// Push.
    Push { local: String, branch: String, set_upstream: bool },
    /// Push over what is on the remote.
    PushForce { local: String, branch: String },
    /// Tell this, and do what follows a push.
    Pushed { notice: String, branch: String },
    /// Tell this, if it is not empty: nothing is pushed.
    Stop(String),
    /// Report this: the push was rejected.
    Rejected(String),
    /// Stop with this report.
    Failed(String),
}

/// A step as a mathematical value.
pub enum StepView {
    FindName,
    Confirm(Seq<char>),
    ConfirmForce(Seq<char>),
    Fetch,
    FindUpstream(Seq<char>),
    ListBranches,
    Attach { name: Seq<char>, branch: Seq<char> },
    Choose { title: Seq<char>, branches: Seq<Seq<char>>, other: Seq<char> },
    CheckBehind { local: Seq<char>, branch: Seq<char> },
    CheckDirty,
    Integrate { local: Seq<char>, branch: Seq<char> },
    Push { local: Seq<char>, branch: Seq<char>, set_upstream: bool },
    PushForce { local: Seq<char>, branch: Seq<char> },
    Pushed { notice: Seq<char>, branch: Seq<char> },
    Stop(Seq<char>),
    Rejected(Seq<char>),
    Failed(Seq<char>),
}

impl View for Step {
    type V = StepView;

    open spec fn view(&self) -> StepView {
        match self {
            Step::FindName => StepView::FindName,
            Step::Confirm(q) => StepView::Confirm(q@),
            Step::ConfirmForce(q) => StepView::ConfirmForce(q@),
            Step::Fetch => StepView::Fetch,
            Step::FindUpstream(n) => StepView::FindUpstream(n@),
            Step::ListBranches => StepView::ListBranches,
            Step::Attach { name, branch } => StepView::Attach { name: name@, branch: branch@ },
            Step::Choose { title, branches, other } => StepView::Choose {
                title: title@,
                branches: texts(branches@),
                other: other@,
            },
            Step::CheckBehind { local, branch } => StepView::CheckBehind {
                local: local@,
                branch: branch@,
            },
            Step::CheckDirty => StepView::CheckDirty,
            Step::Integrate { local, branch } => StepView::Integrate {
                local: local@,
                branch: branch@,
            },
            Step::Push { local, branch, set_upstream } => StepView::Push {
                local: local@,
                branch: branch@,
                set_upstream: *set_upstream,
            },
            Step::PushForce { local, branch } => StepView::PushForce {
                local: local@,
                branch: branch@,
            },
            Step::Pushed { notice, branch } => StepView::Pushed {
                notice: notice@,
                branch: branch@,
            },
            Step::Stop(s) => StepView::Stop(s@),
            Step::Rejected(s) => StepView::Rejected(s@),
            Step::Failed(s) => StepView::Failed(s@),
        }
    }
}

/// What came of a step.
#[derive(Debug)]
pub enum Reply {
    /// It is done (also the first argument of all).
    Finished,
    /// What a push would advance, or which branch is tracked; `None` if nothing.
    Name(Option<String>),
    /// The answer to a question; `None` at the end of input.
    Answer(Option<String>),
    /// The branches.
    Branches(Vec<String>),
    /// The local name after attaching.
    Attached(String),
    /// What was picked.
    Picked(Pick),
    /// Of a check: whether it is so. Of an integration: whether the branch is ready.
    Flag(bool),
    /// Of a push: whether it succeeded, and its diagnostic.
    Ran { success: bool, diagnostic: String },
    /// It failed.
    Error(String),
}

/// A reply as a mathematical value.
pub enum ReplyView {
    Finished,
    Name(Option<Seq<char>>),
    Answer(Option<Seq<char>>),
    Branches(Seq<Seq<char>>),
    Attached(Seq<char>),
    Picked(PickView),
    Flag(bool),
    Ran { success: bool, diagnostic: Seq<char> },
    Error(Seq<char>),
}

impl View for Reply {
    type V = ReplyView;

    open spec fn view(&self) -> ReplyView {
        match self {
            Reply::Finished => ReplyView::Finished,
            Reply::Name(n) => ReplyView::Name(opt_view(*n)),
            Reply::Answer(a) => ReplyView::Answer(opt_view(*a)),
            Reply::Branches(b) => ReplyView::Branches(texts(b@)),
            Reply::Attached(n) => ReplyView::Attached(n@),
            Reply::Picked(p) => ReplyView::Picked(p@),
            Reply::Flag(b) => ReplyView::Flag(*b),
            Reply::Ran { success, diagnostic } => ReplyView::Ran {
                success: *success,
                diagnostic: diagnostic@,
            },
            Reply::Error(e) => ReplyView::Error(e@),
        }
    }
}

/// Which step a reply is awaited for.
#[derive(Debug, Clone, Copy, PartialEq, Eq, Structural)]
pub enum Phase {
    /// None: nothing is done yet.
    Start,
    /// Finding what a push would advance.
    Name,
    /// Asking whether to push.
    Ask,
    /// Fetching.
    Fetch,
    /// Finding the tracked branch.
    Upstream,
    /// Listing the branches on the remote.
    List,
    /// Letting the user pick one.
    Choose,
    /// Attaching to a remote branch.
    Attach,
    /// Checking whether the branch is behind.
    Behind,
    /// Checking for uncommitted changes.
    Dirty,
    /// Integrating.
    Integrate,
    /// Finding the tracked branch of an amended one.
    Follows,
    /// Asking whether to push over what is on the remote.
    AskForce,
    /// Pushing.
    Push,
    /// None: it is over.
    Over,
}

/// An offer under way.
pub struct Offer {
    kind: BackendKind,
    amended: bool,
    phase: Phase,
    name: String,
    local: String,
    branch: String,
    set_upstream: bool,
}

/// An offer under way as a mathematical value.
pub struct OfferView {
    pub kind: BackendKind,
    /// Whether the commit was amended.
    pub amended: bool,
    pub phase: Phase,
    /// What a push would advance.
    pub name: Seq<char>,
    /// What is pushed: `name`, unless attaching renamed it.
    pub local: Seq<char>,
    /// The remote branch.
    pub branch: Seq<char>,
    /// Whether the push sets the upstream.
    pub set_upstream: bool,
}

impl View for Offer {
    type V = OfferView;

    closed spec fn view(&self) -> OfferView {
        OfferView {
            kind: self.kind,
            amended: self.amended,
            phase: self.phase,
            name: self.name@,
            local: self.local@,
            branch: self.branch@,
            set_upstream: self.set_upstream,
        }
    }
}

// ----- what is said ----------------------------------------------------------------------------

/// The offer.
pub open spec fn offer_text(name: Seq<char>) -> Seq<char> {
    "Push '"@ + name + "' to origin?"@
}

/// The offer for an amended commit.
pub open spec fn force_text(name: Seq<char>, branch: Seq<char>) -> Seq<char> {
    "Force-push the amended '"@ + name + "' over origin/"@ + branch + " (with lease)?"@
}

/// That an amended branch is not on the remote.
pub open spec fn untracked_text(name: Seq<char>) -> Seq<char> {
    "'"@ + name + "' tracks no branch on origin — nothing pushed."@
}

/// The heading of the picker.
pub open spec fn choose_text(name: Seq<char>) -> Seq<char> {
    "No remote branch named '"@ + name + "' — pick one to push to:"@
}

/// The other action of the picker.
pub open spec fn new_text(name: Seq<char>) -> Seq<char> {
    "new '"@ + name + "'"@
}

/// That uncommitted changes stand in the way.
pub open spec fn dirty_text(local: Seq<char>, branch: Seq<char>) -> Seq<char> {
    "'"@ + local + "' is behind origin/"@ + branch
        + ", but the working tree has uncommitted changes. Commit or stash them and pull manually, then push. Nothing pushed."@
}

/// That it is pushed.
pub open spec fn pushed_text(local: Seq<char>, branch: Seq<char>) -> Seq<char> {
    "Pushed '"@ + local + "' → origin/"@ + branch + "."@
}

/// That the push was rejected.
pub open spec fn rejected_text(kind: BackendKind, diagnostic: Seq<char>) -> Seq<char> {
    let report = "Push failed:\n"@ + diagnosis(diagnostic);
    match kind {
        BackendKind::Git => report
            + "\n(A non-fast-forward rejection after an amend needs a manual force push, e.g. `git push --force-with-lease`.)"@,
        BackendKind::Jj => report,
    }
}

// ----- the order -------------------------------------------------------------------------------

/// Await the reply to `step` in `phase`.
pub open spec fn go(v: OfferView, phase: Phase, step: StepView) -> (OfferView, StepView) {
    (OfferView { phase, ..v }, step)
}

/// Nothing is pushed.
pub open spec fn stop(v: OfferView, notice: Seq<char>) -> (OfferView, StepView) {
    go(v, Phase::Over, StepView::Stop(notice))
}

/// Push.
pub open spec fn to_push(v: OfferView) -> (OfferView, StepView) {
    go(
        v,
        Phase::Push,
        StepView::Push { local: v.local, branch: v.branch, set_upstream: v.set_upstream },
    )
}

/// The remote branch is known and is there: see whether it is ahead.
pub open spec fn to_behind(
    v: OfferView,
    local: Seq<char>,
    branch: Seq<char>,
    set_upstream: bool,
) -> (OfferView, StepView) {
    go(
        OfferView { local, branch, set_upstream, ..v },
        Phase::Behind,
        StepView::CheckBehind { local, branch },
    )
}

/// Attach to a remote branch.
pub open spec fn to_attach(v: OfferView, branch: Seq<char>) -> (OfferView, StepView) {
    go(
        OfferView { branch, ..v },
        Phase::Attach,
        StepView::Attach { name: v.name, branch },
    )
}

/// The reply is one that the awaited step can have.
pub open spec fn fits(phase: Phase, reply: ReplyView) -> bool {
    phase != Phase::Over && (reply is Error || match phase {
        Phase::Start => true,
        Phase::Name | Phase::Upstream | Phase::Follows => reply is Name,
        Phase::Ask | Phase::AskForce => reply is Answer,
        Phase::Fetch => reply is Finished,
        Phase::List => reply is Branches,
        Phase::Choose => reply is Picked,
        Phase::Attach => reply is Attached,
        Phase::Behind | Phase::Dirty | Phase::Integrate => reply is Flag,
        Phase::Push => reply is Ran,
        Phase::Over => false,
    })
}

/// What is awaited and what to do after `reply`.
pub open spec fn offer_next(v: OfferView, reply: ReplyView) -> (OfferView, StepView) {
    match (v.phase, reply) {
        (Phase::Start, _) => go(v, Phase::Name, StepView::FindName),
        // A detached head, or no bookmark: there is nothing to push.
        (Phase::Name, ReplyView::Name(None)) => stop(v, seq![]),
        (Phase::Name, ReplyView::Name(Some(name))) => if v.amended {
            go(OfferView { name, ..v }, Phase::Follows, StepView::FindUpstream(name))
        } else {
            go(OfferView { name, ..v }, Phase::Ask, StepView::Confirm(offer_text(name)))
        },
        (Phase::Ask, ReplyView::Answer(answer)) => if agrees(answer) {
            go(v, Phase::Fetch, StepView::Fetch)
        } else {
            stop(v, seq![])
        },
        (Phase::Fetch, ReplyView::Finished) => go(
            v,
            Phase::Upstream,
            StepView::FindUpstream(v.name),
        ),
        (Phase::Upstream, ReplyView::Name(Some(branch))) => to_behind(v, v.name, branch, false),
        (Phase::Upstream, ReplyView::Name(None)) => go(v, Phase::List, StepView::ListBranches),
        (Phase::List, ReplyView::Branches(branches)) => if branches.contains(v.name) {
            to_attach(v, v.name)
        } else {
            go(
                v,
                Phase::Choose,
                StepView::Choose {
                    title: choose_text(v.name),
                    branches,
                    other: new_text(v.name),
                },
            )
        },
        (Phase::Choose, ReplyView::Picked(PickView::Existing(branch))) => to_attach(v, branch),
        // A new branch has nothing to be behind of.
        (Phase::Choose, ReplyView::Picked(PickView::NewBranch)) => to_push(
            OfferView { local: v.name, branch: v.name, set_upstream: true, ..v },
        ),
        (Phase::Choose, ReplyView::Picked(PickView::Cancel)) => stop(v, "Push cancelled."@),
        (Phase::Attach, ReplyView::Attached(local)) => to_behind(v, local, v.branch, true),
        (Phase::Behind, ReplyView::Flag(behind)) => if behind {
            go(v, Phase::Dirty, StepView::CheckDirty)
        } else {
            to_push(v)
        },
        // An integration cannot run over uncommitted changes.
        (Phase::Dirty, ReplyView::Flag(dirty)) => if dirty {
            stop(v, dirty_text(v.local, v.branch))
        } else {
            go(
                v,
                Phase::Integrate,
                StepView::Integrate { local: v.local, branch: v.branch },
            )
        },
        (Phase::Integrate, ReplyView::Flag(ready)) => if ready {
            to_push(v)
        } else {
            stop(v, seq![])
        },
        (Phase::Follows, ReplyView::Name(Some(branch))) => go(
            OfferView { local: v.name, branch, ..v },
            Phase::AskForce,
            StepView::ConfirmForce(force_text(v.name, branch)),
        ),
        (Phase::Follows, ReplyView::Name(None)) => stop(v, untracked_text(v.name)),
        (Phase::AskForce, ReplyView::Answer(answer)) => if insists(answer) {
            go(
                v,
                Phase::Push,
                StepView::PushForce { local: v.local, branch: v.branch },
            )
        } else {
            stop(v, seq![])
        },
        (Phase::Push, ReplyView::Ran { success, diagnostic }) => if success {
            go(
                v,
                Phase::Over,
                StepView::Pushed { notice: pushed_text(v.local, v.branch), branch: v.branch },
            )
        } else {
            go(v, Phase::Over, StepView::Rejected(rejected_text(v.kind, diagnostic)))
        },
        (_, ReplyView::Error(e)) => go(v, Phase::Over, StepView::Failed(e)),
        _ => go(v, Phase::Over, StepView::Failed(seq![])),
    }
}

// ----- doing it ----------------------------------------------------------------------------------

/// Text between two others.
fn between(a: &str, b: &str, c: &str) -> (r: String)
    ensures
        r@ == a@ + b@ + c@,
{
    let mut out = a.to_string();
    out.append(b);
    out.append(c);
    out
}

impl Offer {
    /// An offer of what was committed, or amended.
    pub fn new(kind: BackendKind, amended: bool) -> (r: Self)
        ensures
            r@ == (OfferView {
                kind,
                amended,
                phase: Phase::Start,
                name: seq![],
                local: seq![],
                branch: seq![],
                set_upstream: false,
            }),
    {
        let r = Offer {
            kind,
            amended,
            phase: Phase::Start,
            name: String::new(),
            local: String::new(),
            branch: String::new(),
            set_upstream: false,
        };
        proof {
            assert(r.name@ =~= seq![]);
            assert(r.local@ =~= seq![]);
            assert(r.branch@ =~= seq![]);
        }
        r
    }

    /// Nothing is pushed.
    fn stop_step(&mut self, notice: String) -> (r: Step)
        ensures
            (final(self)@, r@) == stop(old(self)@, notice@),
    {
        self.phase = Phase::Over;
        Step::Stop(notice)
    }

    /// Nothing is pushed, and nothing is said.
    fn quiet_step(&mut self) -> (r: Step)
        ensures
            (final(self)@, r@) == stop(old(self)@, seq![]),
    {
        let none = String::new();
        proof {
            assert(none@ =~= seq![]);
        }
        self.stop_step(none)
    }

    /// Stop with a report.
    fn fail_step(&mut self, why: String) -> (r: Step)
        ensures
            (final(self)@, r@) == go(old(self)@, Phase::Over, StepView::Failed(why@)),
    {
        self.phase = Phase::Over;
        Step::Failed(why)
    }

    /// Push.
    fn push_step(&mut self) -> (r: Step)
        ensures
            (final(self)@, r@) == to_push(old(self)@),
    {
        self.phase = Phase::Push;
        Step::Push {
            local: self.local.clone(),
            branch: self.branch.clone(),
            set_upstream: self.set_upstream,
        }
    }

    /// See whether the remote branch is ahead.
    fn behind_step(&mut self, local: String, branch: String, set_upstream: bool) -> (r: Step)
        ensures
            (final(self)@, r@) == to_behind(old(self)@, local@, branch@, set_upstream),
    {
        self.local = local.clone();
        self.branch = branch.clone();
        self.set_upstream = set_upstream;
        self.phase = Phase::Behind;
        Step::CheckBehind { local, branch }
    }

    /// Attach to a remote branch.
    fn attach_step(&mut self, branch: String) -> (r: Step)
        ensures
            (final(self)@, r@) == to_attach(old(self)@, branch@),
    {
        self.branch = branch.clone();
        self.phase = Phase::Attach;
        Step::Attach { name: self.name.clone(), branch }
    }

    /// The step after a push.
    fn pushed_step(&mut self, success: bool, diagnostic: &str) -> (r: Step)
        requires
            old(self)@.phase == Phase::Push,
        ensures
            (final(self)@, r@) == offer_next(
                old(self)@,
                ReplyView::Ran { success, diagnostic: diagnostic@ },
            ),
    {
        self.phase = Phase::Over;
        if success {
            let mut notice = between("Pushed '", self.local.as_str(), "' → origin/");
            notice.append(self.branch.as_str());
            notice.append(".");
            Step::Pushed { notice, branch: self.branch.clone() }
        } else {
            let mut report = "Push failed:\n".to_string();
            report.append(or_no_output(diagnostic).as_str());
            match self.kind {
                BackendKind::Git => report.append(
                    "\n(A non-fast-forward rejection after an amend needs a manual force push, e.g. `git push --force-with-lease`.)",
                ),
                BackendKind::Jj => {},
            }
            Step::Rejected(report)
        }
    }
}

/// Whether an answer agrees, by one rule or the other.
fn answered(answer: &Option<String>, force: bool) -> (r: bool)
    ensures
        r == if force {
            insists(opt_view(*answer))
        } else {
            agrees(opt_view(*answer))
        },
{
    match answer {
        Some(line) => if force {
            confirm_no(Some(line.as_str()))
        } else {
            confirm(Some(line.as_str()))
        },
        None => false,
    }
}

/// The next step after `reply`, which is that to the step before (for the first step
/// it does not matter). After [`Step::Pushed`], [`Step::Stop`], [`Step::Rejected`]
/// and [`Step::Failed`] there is none.
pub fn offer(run: &mut Offer, reply: Reply) -> (r: Step)
    ensures
        (final(run)@, r@) == offer_next(old(run)@, reply@),
{
    match (run.phase, reply) {
        (Phase::Start, _) => {
            run.phase = Phase::Name;
            Step::FindName
        },
        (Phase::Name, Reply::Name(None)) => run.quiet_step(),
        (Phase::Name, Reply::Name(Some(name))) => {
            run.name = name;
            if run.amended {
                run.phase = Phase::Follows;
                Step::FindUpstream(run.name.clone())
            } else {
                run.phase = Phase::Ask;
                Step::Confirm(between("Push '", run.name.as_str(), "' to origin?"))
            }
        },
        (Phase::Ask, Reply::Answer(answer)) => {
            if answered(&answer, false) {
                run.phase = Phase::Fetch;
                Step::Fetch
            } else {
                run.quiet_step()
            }
        },
        (Phase::Fetch, Reply::Finished) => {
            run.phase = Phase::Upstream;
            Step::FindUpstream(run.name.clone())
        },
        (Phase::Upstream, Reply::Name(Some(branch))) => {
            let local = run.name.clone();
            run.behind_step(local, branch, false)
        },
        (Phase::Upstream, Reply::Name(None)) => {
            run.phase = Phase::List;
            Step::ListBranches
        },
        (Phase::List, Reply::Branches(branches)) => {
            if holds(&branches, run.name.as_str()) {
                let branch = run.name.clone();
                run.attach_step(branch)
            } else {
                run.phase = Phase::Choose;
                let name = run.name.as_str();
                Step::Choose {
                    title: between("No remote branch named '", name, "' — pick one to push to:"),
                    branches,
                    other: between("new '", name, "'"),
                }
            }
        },
        (Phase::Choose, Reply::Picked(Pick::Existing(branch))) => run.attach_step(branch),
        (Phase::Choose, Reply::Picked(Pick::NewBranch)) => {
            run.local = run.name.clone();
            run.branch = run.name.clone();
            run.set_upstream = true;
            run.push_step()
        },
        (Phase::Choose, Reply::Picked(Pick::Cancel)) => run.stop_step(
            "Push cancelled.".to_string(),
        ),
        (Phase::Attach, Reply::Attached(local)) => {
            let branch = run.branch.clone();
            run.behind_step(local, branch, true)
        },
        (Phase::Behind, Reply::Flag(behind)) => {
            if behind {
                run.phase = Phase::Dirty;
                Step::CheckDirty
            } else {
                run.push_step()
            }
        },
        (Phase::Dirty, Reply::Flag(dirty)) => {
            if dirty {
                let mut notice = between("'", run.local.as_str(), "' is behind origin/");
                notice.append(run.branch.as_str());
                notice.append(
                    ", but the working tree has uncommitted changes. Commit or stash them and pull manually, then push. Nothing pushed.",
                );
                run.stop_step(notice)
            } else {
                run.phase = Phase::Integrate;
                Step::Integrate { local: run.local.clone(), branch: run.branch.clone() }
            }
        },
        (Phase::Integrate, Reply::Flag(ready)) => {
            if ready {
                run.push_step()
            } else {
                run.quiet_step()
            }
        },
        (Phase::Follows, Reply::Name(Some(branch))) => {
            let mut question = between(
                "Force-push the amended '",
                run.name.as_str(),
                "' over origin/",
            );
            question.append(branch.as_str());
            question.append(" (with lease)?");
            run.local = run.name.clone();
            run.branch = branch;
            run.phase = Phase::AskForce;
            Step::ConfirmForce(question)
        },
        (Phase::Follows, Reply::Name(None)) => {
            let notice = between(
                "'",
                run.name.as_str(),
                "' tracks no branch on origin — nothing pushed.",
            );
            run.stop_step(notice)
        },
        (Phase::AskForce, Reply::Answer(answer)) => {
            if answered(&answer, true) {
                run.phase = Phase::Push;
                Step::PushForce { local: run.local.clone(), branch: run.branch.clone() }
            } else {
                run.quiet_step()
            }
        },
        (Phase::Push, Reply::Ran { success, diagnostic }) => run.pushed_step(
            success,
            diagnostic.as_str(),
        ),
        (_, Reply::Error(e)) => run.fail_step(e),
        _ => {
            let none = String::new();
            proof {
                assert(none@ =~= seq![]);
            }
            run.fail_step(none)
        },
    }
}

// ----- what holds of every offer -------------------------------------------------------------------

/// The run has the user's agreement: it is past the question.
pub open spec fn agreed(phase: Phase) -> bool {
    match phase {
        Phase::Start | Phase::Name | Phase::Ask | Phase::Follows | Phase::AskForce
            | Phase::Over => false,
        _ => true,
    }
}

/// Nothing is fetched, attached, integrated or pushed without an explicit answer:
/// the only ways past a question are an answer that agrees to an offer, and one that
/// insists on a forced one. The end of input does neither.
pub proof fn nothing_happens_without_an_answer(v: OfferView, reply: ReplyView)
    requires
        fits(v.phase, reply),
        !agreed(v.phase),
    ensures
        ({
            let (w, step) = offer_next(v, reply);
            &&& agreed(w.phase) ==> (v.phase == Phase::Ask && (
            reply matches ReplyView::Answer(a) && agrees(a))) || (v.phase == Phase::AskForce && (
            reply matches ReplyView::Answer(a) && insists(a)))
            &&& step is PushForce ==> v.phase == Phase::AskForce && reply is Answer
            &&& !(step is Push)
            &&& reply == ReplyView::Answer(None) && v.phase != Phase::Start ==> step is Stop || step
                is Failed
        }),
{
}

/// The offer after some replies.
pub open spec fn after(v: OfferView, replies: Seq<ReplyView>) -> OfferView
    decreases replies.len(),
{
    if replies.len() == 0 {
        v
    } else {
        offer_next(after(v, replies.drop_last()), replies.last()).0
    }
}

/// The step after the last of some replies.
pub open spec fn last_step(v: OfferView, replies: Seq<ReplyView>) -> StepView {
    offer_next(after(v, replies.drop_last()), replies.last()).1
}

/// Every reply is one that the step before can have.
pub open spec fn all_fit(v: OfferView, replies: Seq<ReplyView>) -> bool
    decreases replies.len(),
{
    replies.len() > 0 ==> all_fit(v, replies.drop_last()) && fits(
        after(v, replies.drop_last()).phase,
        replies.last(),
    )
}

/// Neither agrees nor insists.
pub open spec fn declines(reply: ReplyView) -> bool {
    reply matches ReplyView::Answer(a) ==> !agrees(a) && !insists(a)
}

/// However an offer runs: as long as no answer agrees or insists, nothing is fetched,
/// attached, integrated or pushed.
pub proof fn declined_offers_push_nothing(v: OfferView, replies: Seq<ReplyView>)
    requires
        v.phase == Phase::Start,
        all_fit(v, replies),
        forall|i: int| 0 <= i < replies.len() ==> declines(#[trigger] replies[i]),
    ensures
        !agreed(after(v, replies).phase),
        replies.len() > 0 ==> match last_step(v, replies) {
            StepView::Fetch | StepView::Attach { .. } | StepView::Integrate { .. }
            | StepView::Push { .. } | StepView::PushForce { .. } => false,
            _ => true,
        },
    decreases replies.len(),
{
    if replies.len() > 0 {
        let before = replies.drop_last();
        assert forall|i: int| 0 <= i < before.len() implies declines(#[trigger] before[i]) by {
            assert(replies[i] == before[i]);
        }
        declined_offers_push_nothing(v, before);
        assert(declines(replies[replies.len() - 1]));
        nothing_happens_without_an_answer(after(v, before), replies.last());
    }
}

/// The offer is on one of its two ways: that of an amended commit, or that of a fresh
/// one.
pub open spec fn on_its_way(v: OfferView) -> bool {
    match v.phase {
        Phase::Start | Phase::Name | Phase::Push | Phase::Over => true,
        Phase::Follows | Phase::AskForce => v.amended,
        _ => !v.amended,
    }
}

/// A fresh commit is never pushed over what is on the remote; and an amended one is
/// pushed in no other way, without fetching first, which would void the lease.
pub proof fn only_amends_are_forced(v: OfferView, reply: ReplyView)
    requires
        fits(v.phase, reply),
        on_its_way(v),
    ensures
        ({
            let (w, step) = offer_next(v, reply);
            &&& on_its_way(w)
            &&& w.amended == v.amended
            &&& v.amended ==> !(step is Push) && !(step is Fetch)
            &&& !v.amended ==> !(step is PushForce)
        }),
{
}

/// An offer fails only where a step failed: a declined question, a cancelled picker
/// and a rejected push end it without a failure.
pub proof fn only_failed_steps_fail(v: OfferView, reply: ReplyView)
    requires
        fits(v.phase, reply),
    ensures
        match offer_next(v, reply).1 {
            StepView::Failed(e) => reply == ReplyView::Error(e),
            _ => !(reply is Error) || v.phase == Phase::Start,
        },
{
}

/// A branch that is behind is pushed only after the remote commits were integrated;
/// and they are integrated only into a working tree without uncommitted changes.
pub proof fn behind_branches_are_integrated_first(v: OfferView, reply: ReplyView)
    requires
        fits(v.phase, reply),
    ensures
        ({
            let (w, step) = offer_next(v, reply);
            &&& step is Push ==> (v.phase == Phase::Behind && reply == ReplyView::Flag(false)) || (
            v.phase == Phase::Integrate && reply == ReplyView::Flag(true)) || (v.phase
                == Phase::Choose && reply == ReplyView::Picked(PickView::NewBranch))
            &&& step is Integrate ==> v.phase == Phase::Dirty && reply == ReplyView::Flag(false)
            &&& v.phase == Phase::Dirty && reply == ReplyView::Flag(true) ==> step is Stop
        }),
{
}

/// Where the branch goes: to the one it tracks; else to one of its own name if there
/// is one on the remote; else to the one that the user picks. The upstream is set
/// exactly if none was tracked.
pub proof fn destination_is_resolved_in_order(v: OfferView, reply: ReplyView)
    requires
        fits(v.phase, reply),
    ensures
        ({
            let (w, step) = offer_next(v, reply);
            &&& v.phase == Phase::Upstream ==> match reply {
                ReplyView::Name(Some(branch)) => w.branch == branch && w.local == v.name
                    && !w.set_upstream && w.phase == Phase::Behind,
                ReplyView::Name(None) => step is ListBranches,
                _ => true,
            }
            &&& v.phase == Phase::List ==> (reply matches ReplyView::Branches(all) ==> if all.contains(
                v.name,
            ) {
                step == (StepView::Attach { name: v.name, branch: v.name })
            } else {
                step is Choose
            })
            &&& v.phase == Phase::Attach ==> (reply is Attached ==> w.set_upstream)
        }),
{
}

/// How far an offer has come.
pub open spec fn progress(phase: Phase) -> nat {
    match phase {
        Phase::Start => 0,
        Phase::Name => 1,
        Phase::Ask | Phase::Follows => 2,
        Phase::Fetch | Phase::AskForce => 3,
        Phase::Upstream => 4,
        Phase::List => 5,
        Phase::Choose => 6,
        Phase::Attach => 7,
        Phase::Behind => 8,
        Phase::Dirty => 9,
        Phase::Integrate => 10,
        Phase::Push => 11,
        Phase::Over => 12,
    }
}

/// Every reply brings an offer further, so it ends.
pub proof fn offers_end(v: OfferView, reply: ReplyView)
    requires
        fits(v.phase, reply),
    ensures
        progress(v.phase) < progress(offer_next(v, reply).0.phase) <= 12,
{
}

// ----- where a push goes ---------------------------------------------------------------------------

/// From the check on, however it goes, the run names the local branch and the remote
/// branch that it was given, up to the push and the word that it is done.
pub proof fn pushes_go_where_they_were_bound(
    v: OfferView,
    local: Seq<char>,
    branch: Seq<char>,
    set_upstream: bool,
    diagnostic: Seq<char>,
)
    requires
        v.phase == Phase::Behind,
        v.local == local,
        v.branch == branch,
        v.set_upstream == set_upstream,
    ensures
        ({
            let push = StepView::Push { local, branch, set_upstream };
            let (even, s1) = offer_next(v, ReplyView::Flag(false));
            let (behind, s2) = offer_next(v, ReplyView::Flag(true));
            let (clean, s3) = offer_next(behind, ReplyView::Flag(false));
            let (ready, s4) = offer_next(clean, ReplyView::Flag(true));
            let done = StepView::Pushed {
                notice: "Pushed '"@ + local + "' → origin/"@ + branch + "."@,
                branch,
            };
            &&& s1 == push
            &&& offer_next(even, ReplyView::Ran { success: true, diagnostic }).1 == done
            &&& s2 == StepView::CheckDirty
            &&& offer_next(behind, ReplyView::Flag(true)).1 == StepView::Stop(
                "'"@ + local + "' is behind origin/"@ + branch
                    + ", but the working tree has uncommitted changes. Commit or stash them and pull manually, then push. Nothing pushed."@,
            )
            &&& s3 == (StepView::Integrate { local, branch })
            &&& s4 == push
            &&& offer_next(ready, ReplyView::Ran { success: true, diagnostic }).1 == done
            &&& offer_next(clean, ReplyView::Flag(false)).1 == StepView::Stop(seq![])
        }),
{
}

/// A branch that tracks one on the remote is pushed there, from its own name, and keeps
/// its upstream.
pub proof fn tracked_branches_go_to_their_upstream(v: OfferView, branch: Seq<char>)
    requires
        v.phase == Phase::Upstream,
    ensures
        ({
            let (w, step) = offer_next(v, ReplyView::Name(Some(branch)));
            &&& step == (StepView::CheckBehind { local: v.name, branch })
            &&& offer_next(w, ReplyView::Flag(false)).1 == (StepView::Push {
                local: v.name,
                branch,
                set_upstream: false,
            })
        }),
{
}

/// A branch that tracks none is attached to the remote branch of its own name, if there
/// is one, and pushed there: from the local name that attaching reports.
pub proof fn untracked_branches_go_to_their_namesake(
    v: OfferView,
    branches: Seq<Seq<char>>,
    local: Seq<char>,
)
    requires
        v.phase == Phase::Upstream,
        branches.contains(v.name),
    ensures
        ({
            let (a, s1) = offer_next(v, ReplyView::Name(None));
            let (b, s2) = offer_next(a, ReplyView::Branches(branches));
            let (c, s3) = offer_next(b, ReplyView::Attached(local));
            &&& s1 == StepView::ListBranches
            &&& s2 == (StepView::Attach { name: v.name, branch: v.name })
            &&& s3 == (StepView::CheckBehind { local, branch: v.name })
            &&& offer_next(c, ReplyView::Flag(false)).1 == (StepView::Push {
                local,
                branch: v.name,
                set_upstream: true,
            })
        }),
{
}

/// Without a namesake the user picks: a remote branch that is picked is attached to,
/// and is where the push goes, from the local name that attaching reports; a new one
/// gets the branch's own name; and a cancelled pick pushes nothing.
pub proof fn picked_branches_are_pushed_to(
    v: OfferView,
    branches: Seq<Seq<char>>,
    picked: Seq<char>,
    local: Seq<char>,
)
    requires
        v.phase == Phase::Upstream,
        !branches.contains(v.name),
    ensures
        ({
            let (a, s1) = offer_next(v, ReplyView::Name(None));
            let (b, s2) = offer_next(a, ReplyView::Branches(branches));
            let (c, s3) = offer_next(b, ReplyView::Picked(PickView::Existing(picked)));
            let (d, s4) = offer_next(c, ReplyView::Attached(local));
            &&& s1 == StepView::ListBranches
            &&& s2 == (StepView::Choose {
                title: "No remote branch named '"@ + v.name + "' — pick one to push to:"@,
                branches,
                other: "new '"@ + v.name + "'"@,
            })
            &&& s3 == (StepView::Attach { name: v.name, branch: picked })
            &&& s4 == (StepView::CheckBehind { local, branch: picked })
            &&& d.phase == Phase::Behind && d.local == local && d.branch == picked
                && d.set_upstream
            &&& offer_next(d, ReplyView::Flag(false)).1 == (StepView::Push {
                local,
                branch: picked,
                set_upstream: true,
            })
            &&& offer_next(b, ReplyView::Picked(PickView::NewBranch)).1 == (StepView::Push {
                local: v.name,
                branch: v.name,
                set_upstream: true,
            })
            &&& offer_next(b, ReplyView::Picked(PickView::Cancel)).1 == StepView::Stop(
                "Push cancelled."@,
            )
        }),
{
}

/// Once a remote branch is settled, nothing but the end of the run changes it: every
/// later step that names a branch names that one, and every later step that names what
/// is pushed names the local branch at hand.
pub proof fn settled_branches_stay(v: OfferView, reply: ReplyView)
    requires
        fits(v.phase, reply),
        v.phase == Phase::Attach || v.phase == Phase::Behind || v.phase == Phase::Dirty || v.phase
            == Phase::Integrate || v.phase == Phase::Push || v.phase == Phase::AskForce,
    ensures
        ({
            let (w, step) = offer_next(v, reply);
            &&& w.branch == v.branch
            &&& v.phase != Phase::Attach ==> w.local == v.local && w.set_upstream == v.set_upstream
            &&& (v.phase == Phase::Attach ==> (reply matches ReplyView::Attached(l) ==> w.local == l))
            &&& match step {
                StepView::CheckBehind { local, branch } | StepView::Integrate { local, branch }
                | StepView::PushForce { local, branch } => branch == v.branch && local == w.local,
                StepView::Push { local, branch, set_upstream } => branch == v.branch && local
                    == w.local && set_upstream == v.set_upstream,
                StepView::Pushed { branch, .. } => branch == v.branch,
                _ => true,
            }
        }),
{
}

/// How a fresh commit is offered: what a push would advance is found first; on
/// agreement the remote is fetched from, and then asked what the branch tracks.
pub proof fn fresh_commits_are_offered(
    v: OfferView,
    start: ReplyView,
    name: Seq<char>,
    answer: Option<Seq<char>>,
)
    requires
        v.phase == Phase::Start,
        !v.amended,
    ensures
        ({
            let (a, s1) = offer_next(v, start);
            let (b, s2) = offer_next(a, ReplyView::Name(Some(name)));
            let (c, s3) = offer_next(b, ReplyView::Answer(answer));
            let (d, s4) = offer_next(c, ReplyView::Finished);
            &&& s1 == StepView::FindName
            &&& offer_next(a, ReplyView::Name(None)).1 == StepView::Stop(seq![])
            &&& s2 == StepView::Confirm("Push '"@ + name + "' to origin?"@)
            &&& agrees(answer) ==> s3 == StepView::Fetch && s4 == StepView::FindUpstream(name)
                && d.phase == Phase::Upstream && d.name == name && d.kind == v.kind && !d.amended
            &&& !agrees(answer) ==> s3 == StepView::Stop(seq![])
        }),
{
}

/// How an amended commit is offered: only where the branch tracks one on the remote, by
/// a question of its own, and then with force and without fetching.
pub proof fn amended_commits_are_offered(
    v: OfferView,
    start: ReplyView,
    name: Seq<char>,
    branch: Seq<char>,
    answer: Option<Seq<char>>,
    diagnostic: Seq<char>,
)
    requires
        v.phase == Phase::Start,
        v.amended,
    ensures
        ({
            let (a, s1) = offer_next(v, start);
            let (b, s2) = offer_next(a, ReplyView::Name(Some(name)));
            let (c, s3) = offer_next(b, ReplyView::Name(Some(branch)));
            let (d, s4) = offer_next(c, ReplyView::Answer(answer));
            &&& s1 == StepView::FindName
            &&& offer_next(a, ReplyView::Name(None)).1 == StepView::Stop(seq![])
            &&& s2 == StepView::FindUpstream(name)
            &&& offer_next(b, ReplyView::Name(None)).1 == StepView::Stop(
                "'"@ + name + "' tracks no branch on origin — nothing pushed."@,
            )
            &&& s3 == StepView::ConfirmForce(
                "Force-push the amended '"@ + name + "' over origin/"@ + branch + " (with lease)?"@,
            )
            &&& !insists(answer) ==> s4 == StepView::Stop(seq![])
            &&& insists(answer) ==> s4 == (StepView::PushForce { local: name, branch })
                && offer_next(d, ReplyView::Ran { success: true, diagnostic }).1 == (
            StepView::Pushed {
                notice: "Pushed '"@ + name + "' → origin/"@ + branch + "."@,
                branch,
            })
        }),
{
}

/// A push that is rejected is reported with its diagnostic; in git with a hint.
pub proof fn rejections_are_reported(v: OfferView, diagnostic: Seq<char>)
    requires
        v.phase == Phase::Push,
    ensures
        ({
            let why = if diagnostic.len() == 0 {
                "(no output)"@
            } else {
                diagnostic
            };
            offer_next(v, ReplyView::Ran { success: false, diagnostic }).1 == StepView::Rejected(
                match v.kind {
                    BackendKind::Git => "Push failed:\n"@ + why
                        + "\n(A non-fast-forward rejection after an amend needs a manual force push, e.g. `git push --force-with-lease`.)"@,
                    BackendKind::Jj => "Push failed:\n"@ + why,
                },
            )
        }),
{
}

/// The commands of a push: to `origin`, from the local name to the remote branch; the
/// upstream is set only where that is asked for, and only the forced one is forced,
/// with a lease. In jj the bookmark is pushed.
pub proof fn push_commands(name: Seq<char>, branch: Seq<char>)
    ensures
        push_argv(BackendKind::Git, name, branch, false) == seq![
            "push"@,
            "origin"@,
            name + ":"@ + branch,
        ],
        push_argv(BackendKind::Git, name, branch, true) == seq![
            "push"@,
            "-u"@,
            "origin"@,
            name + ":"@ + branch,
        ],
        force_argv(BackendKind::Git, name, branch) == seq![
            "push"@,
            "--force-with-lease"@,
            "origin"@,
            name + ":"@ + branch,
        ],
        forall|set: bool| #[trigger]
            push_argv(BackendKind::Jj, name, branch, set) == seq!["git"@, "push"@, "-b"@, name],
        force_argv(BackendKind::Jj, name, branch) == seq!["git"@, "push"@, "-b"@, name],
{
}

} // verus!
