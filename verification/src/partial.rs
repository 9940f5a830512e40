//! Committing whole files together with some hunks of others, in git.
//!
//! Everything happens in a temporary index, so the user's own index and the
//! working tree stay as they are until the branch has moved: hunks that were not
//! selected simply stay in the working tree. The temporary index starts as the
//! tree of `HEAD`; the whole files are added to it, and of each other file a patch
//! of its selected hunks is applied to it; then its tree is written and committed,
//! and the branch moves from the tip it had to the new commit. Last, the entries of
//! the committed paths in the user's index are brought up to date.
//!
//! [`commit_partial_steps`] says what to do next; what came of that is its next
//! argument.

use vstd::prelude::*;

use crate::model::opt_view;
use crate::patch;
use crate::patch::{assembled, byte_lists, header_of, hunks_of, kept, subset_splits_back};
use crate::text;
use crate::text::{decimal_of, texts, trimmed, word_list};
use crate::tree::partial_views;

verus! {

// ----- one command ---------------------------------------------------------------------

/// What came of starting a command.
#[derive(Debug)]
pub enum Ran {
    /// It ran: whether it succeeded, what it printed, and its diagnostic.
    Exited { success: bool, stdout: String, diagnostic: String },
    /// It could not be started.
    NotStarted(String),
}

/// The report of a failed git command.
pub open spec fn git_failure(label: Seq<char>, why: Seq<char>) -> Seq<char> {
    "git "@ + label + ": "@ + why
}

/// The first argument, which names the command; empty if there is none.
pub open spec fn label_of(argv: Seq<Seq<char>>) -> Seq<char> {
    if argv.len() == 0 {
        seq![]
    } else {
        argv[0]
    }
}

/// The diagnostic, or a note that there is none.
pub open spec fn diagnosis(diagnostic: Seq<char>) -> Seq<char> {
    if diagnostic.len() == 0 {
        "(no output)"@
    } else {
        diagnostic
    }
}

/// The command's trimmed output, or the report of its failure.
pub open spec fn plumb_view(argv: Seq<Seq<char>>, ran: Ran) -> ReplyView {
    match ran {
        Ran::Exited { success, stdout, diagnostic } => if success {
            ReplyView::Out(trimmed(stdout@))
        } else {
            ReplyView::Error(git_failure(label_of(argv), diagnosis(diagnostic@)))
        },
        Ran::NotStarted(e) => ReplyView::Error(git_failure(label_of(argv), e@)),
    }
}

/// The command's trimmed output if it succeeded. That it did not is an answer too;
/// only that it could not be started is a failure.
pub open spec fn probe_view(argv: Seq<Seq<char>>, ran: Ran) -> ReplyView {
    match ran {
        Ran::Exited { success, stdout, .. } => ReplyView::Probed(
            if success {
                Some(trimmed(stdout@))
            } else {
                None
            },
        ),
        Ran::NotStarted(e) => ReplyView::Error(git_failure(label_of(argv), e@)),
    }
}

/// The report of a failed git command.
fn failure(argv: &Vec<String>, why: &str) -> (r: String)
    ensures
        r@ == git_failure(label_of(texts(argv@)), why@),
{
    let mut out = "git ".to_string();
    if argv.len() > 0 {
        out.append(argv[0].as_str());
    }
    out.append(": ");
    out.append(why);
    proof {
        assert(out@ =~= git_failure(label_of(texts(argv@)), why@));
    }
    out
}

/// The trimmed text.
fn trimmed_text(s: &String) -> (r: String)
    ensures
        r@ == trimmed(s@),
{
    let all = text::chars(s.as_str());
    text::text(text::trim(&all))
}

/// The diagnostic, or a note that there is none.
pub fn or_no_output(diagnostic: &str) -> (r: String)
    ensures
        r@ == diagnosis(diagnostic@),
{
    if diagnostic.is_empty() {
        "(no output)".to_string()
    } else {
        diagnostic.to_string()
    }
}

/// What a step that ran `argv` is answered.
pub fn plumb(argv: &Vec<String>, ran: &Ran) -> (r: Reply)
    ensures
        r@ == plumb_view(texts(argv@), *ran),
{
    match ran {
        Ran::Exited { success, stdout, diagnostic } => if *success {
            Reply::Out(trimmed_text(stdout))
        } else {
            Reply::Error(failure(argv, or_no_output(diagnostic.as_str()).as_str()))
        },
        Ran::NotStarted(e) => Reply::Error(failure(argv, e.as_str())),
    }
}

/// What a step that probed with `argv` is answered.
pub fn plumb_probe(argv: &Vec<String>, ran: &Ran) -> (r: Reply)
    ensures
        r@ == probe_view(texts(argv@), *ran),
{
    match ran {
        Ran::Exited { success, stdout, .. } => if *success {
            Reply::Probed(Some(trimmed_text(stdout)))
        } else {
            Reply::Probed(None)
        },
        Ran::NotStarted(e) => Reply::Error(failure(argv, e.as_str())),
    }
}

// ----- steps and replies -----------------------------------------------------------------

/// What to do next.
#[derive(Debug)]
pub enum Step {
    /// Run git with the temporary index; not to succeed is an answer.
    Probe(Vec<String>),
    /// Run git with the temporary index.
    Plumb(Vec<String>),
    /// Run git with the user's index.
    PlumbReal(Vec<String>),
    /// Read the file.
    Read(String),
    /// Write the file.
    Write(String, Vec<u8>),
    /// Remove the file; nothing depends on whether that works.
    Remove(String),
    /// Everything is committed.
    Done,
    /// Stop with this report.
    Failed(String),
}

/// A step as a mathematical value.
pub enum StepView {
    Probe(Seq<Seq<char>>),
    Plumb(Seq<Seq<char>>),
    PlumbReal(Seq<Seq<char>>),
    Read(Seq<char>),
    Write(Seq<char>, Seq<u8>),
    Remove(Seq<char>),
    Done,
    Failed(Seq<char>),
}

impl View for Step {
    type V = StepView;

    open spec fn view(&self) -> StepView {
        match self {
            Step::Probe(a) => StepView::Probe(texts(a@)),
            Step::Plumb(a) => StepView::Plumb(texts(a@)),
            Step::PlumbReal(a) => StepView::PlumbReal(texts(a@)),
            Step::Read(p) => StepView::Read(p@),
            Step::Write(p, b) => StepView::Write(p@, b@),
            Step::Remove(p) => StepView::Remove(p@),
            Step::Done => StepView::Done,
            Step::Failed(e) => StepView::Failed(e@),
        }
    }
}

/// What came of a step.
#[derive(Debug)]
pub enum Reply {
    /// Of a probe: what it printed, if it succeeded.
    Probed(Option<String>),
    /// Of a command: what it printed.
    Out(String),
    /// Of reading a file: what it holds.
    Bytes(Vec<u8>),
    /// It is done (also the first argument of all).
    Finished,
    /// It failed.
    Error(String),
}

/// A reply as a mathematical value.
pub enum ReplyView {
    Probed(Option<Seq<char>>),
    Out(Seq<char>),
    Bytes(Seq<u8>),
    Finished,
    Error(Seq<char>),
}

impl View for Reply {
    type V = ReplyView;

    open spec fn view(&self) -> ReplyView {
        match self {
            Reply::Probed(s) => ReplyView::Probed(opt_view(*s)),
            Reply::Out(s) => ReplyView::Out(s@),
            Reply::Bytes(b) => ReplyView::Bytes(b@),
            Reply::Finished => ReplyView::Finished,
            Reply::Error(e) => ReplyView::Error(e@),
        }
    }
}

/// Which step a reply is awaited for.
#[derive(Debug, Clone, Copy, PartialEq, Eq, Structural)]
pub enum Phase {
    /// None: nothing is done yet.
    Start,
    /// Looking for the current tip.
    Tip,
    /// Filling the temporary index.
    Seed,
    /// Adding the whole files.
    Whole,
    /// Writing the diff of partial file `n`.
    Diff(usize),
    /// Reading that diff.
    Load(usize),
    /// Writing the patch of its selected hunks.
    Store(usize),
    /// Applying that patch.
    Apply(usize),
    /// Removing that patch.
    Unstore(usize),
    /// Removing that diff.
    Undiff(usize),
    /// Writing the tree.
    Tree,
    /// Listing the parents of the tip.
    Parents,
    /// Creating the commit.
    Commit,
    /// Moving the branch.
    Advance,
    /// Refreshing the user's index.
    Refresh,
    /// None: it is over.
    Over,
}

/// A commit of whole files and selected hunks on its way.
pub struct PartialCommit {
    whole: Vec<String>,
    partial: Vec<(String, Vec<usize>)>,
    message: String,
    amend: bool,
    dir: String,
    stamp: String,
    phase: Phase,
    tip: Option<String>,
    tree: String,
    failure: Option<String>,
}

/// A commit on its way as a mathematical value.
pub struct PartialView {
    /// The files to commit whole.
    pub whole: Seq<Seq<char>>,
    /// The files to commit in part, each with its selected hunks.
    pub partial: Seq<(Seq<char>, Seq<usize>)>,
    pub message: Seq<char>,
    pub amend: bool,
    /// Where temporary files go, with the separator behind it.
    pub dir: Seq<char>,
    /// What tells this commit's temporary files from others.
    pub stamp: Seq<char>,
    pub phase: Phase,
    /// The tip of the branch; `None` before the first commit.
    pub tip: Option<Seq<char>>,
    /// The tree of the new commit, once it is written.
    pub tree: Seq<char>,
    /// Why the current file could not be dealt with.
    pub failure: Option<Seq<char>>,
}

impl View for PartialCommit {
    type V = PartialView;

    closed spec fn view(&self) -> PartialView {
        PartialView {
            whole: texts(self.whole@),
            partial: partial_views(self.partial@),
            message: self.message@,
            amend: self.amend,
            dir: self.dir@,
            stamp: self.stamp@,
            phase: self.phase,
            tip: opt_view(self.tip),
            tree: self.tree@,
            failure: opt_view(self.failure),
        }
    }
}

// ----- the commands -----------------------------------------------------------------------

/// The temporary file of a kind for partial file `n`.
pub open spec fn temp_file(v: PartialView, name: Seq<char>, n: nat) -> Seq<char> {
    v.dir + name + v.stamp + "-"@ + decimal_of(n) + ".patch"@
}

/// Where the diff of partial file `n` goes.
pub open spec fn diff_file(v: PartialView, n: nat) -> Seq<char> {
    temp_file(v, "hunks-"@, n)
}

/// Where the patch of the selected hunks of partial file `n` goes.
pub open spec fn apply_file(v: PartialView, n: nat) -> Seq<char> {
    temp_file(v, "apply-"@, n)
}

/// Write the diff of a file against the tip, byte for byte, to `file`.
pub open spec fn diff_argv(file: Seq<char>, path: Seq<char>) -> Seq<Seq<char>> {
    seq![
        "diff"@,
        "HEAD"@,
        "--no-color"@,
        "--no-ext-diff"@,
        "--no-textconv"@,
        "--output="@ + file,
        "--"@,
        path,
    ]
}

/// Apply a patch to the index only.
pub open spec fn apply_argv(file: Seq<char>) -> Seq<Seq<char>> {
    seq!["apply"@, "--cached"@, "--whitespace=nowarn"@, file]
}

/// The parent options of a commit.
pub open spec fn parent_argv(parents: Seq<Seq<char>>) -> Seq<Seq<char>>
    decreases parents.len(),
{
    if parents.len() == 0 {
        seq![]
    } else {
        parent_argv(parents.drop_last()).push("-p"@).push(parents.last())
    }
}

/// Create a commit of the tree with the given parents.
pub open spec fn commit_argv(
    tree: Seq<char>,
    message: Seq<char>,
    parents: Seq<Seq<char>>,
) -> Seq<Seq<char>> {
    seq!["commit-tree"@, tree, "-m"@, message] + parent_argv(parents)
}

/// Move the branch to the new commit; from the old tip only, if there was one.
pub open spec fn advance_argv(new: Seq<char>, tip: Option<Seq<char>>) -> Seq<Seq<char>> {
    match tip {
        Some(old) => seq!["update-ref"@, "HEAD"@, new, old],
        None => seq!["update-ref"@, "HEAD"@, new],
    }
}

/// The paths of the partial files.
pub open spec fn partial_paths(partial: Seq<(Seq<char>, Seq<usize>)>) -> Seq<Seq<char>> {
    partial.map_values(|p: (Seq<char>, Seq<usize>)| p.0)
}

/// Bring the committed paths in the user's index up to date.
pub open spec fn refresh_argv(v: PartialView) -> Seq<Seq<char>> {
    seq!["reset"@, "-q"@, "--"@] + v.whole + partial_paths(v.partial)
}

/// The report that a file is not what it was when it was shown.
pub open spec fn changed_text(path: Seq<char>) -> Seq<char> {
    "'"@ + path
        + "' changed since the file list was captured — nothing committed; re-run commit"@
}

/// A selected hunk is not there.
pub open spec fn hunk_missing(selected: Seq<usize>, count: nat) -> bool {
    exists|i: int| 0 <= i < selected.len() && #[trigger] selected[i] >= count
}

// ----- the order ----------------------------------------------------------------------------

/// Await the reply to `step` in `phase`.
pub open spec fn go(v: PartialView, phase: Phase, step: StepView) -> (PartialView, StepView) {
    (PartialView { phase, ..v }, step)
}

/// Stop with a report.
pub open spec fn fail(v: PartialView, why: Seq<char>) -> (PartialView, StepView) {
    go(v, Phase::Over, StepView::Failed(why))
}

/// Go on with partial file `n`, or write the tree if there is none.
pub open spec fn to_file(v: PartialView, n: nat) -> (PartialView, StepView) {
    if n < v.partial.len() {
        go(v, Phase::Diff(n as usize), StepView::Plumb(diff_argv(diff_file(v, n), v.partial[n as int].0)))
    } else {
        go(v, Phase::Tree, StepView::Plumb(seq!["write-tree"@]))
    }
}

/// Remove the diff of partial file `n`, keeping in mind what failed.
pub open spec fn to_undiff(
    v: PartialView,
    n: usize,
    failure: Option<Seq<char>>,
) -> (PartialView, StepView) {
    go(
        PartialView { failure, ..v },
        Phase::Undiff(n),
        StepView::Remove(diff_file(v, n as nat)),
    )
}

/// Remove the patch of partial file `n`, keeping in mind what failed.
pub open spec fn to_unstore(
    v: PartialView,
    n: usize,
    failure: Option<Seq<char>>,
) -> (PartialView, StepView) {
    go(
        PartialView { failure, ..v },
        Phase::Unstore(n),
        StepView::Remove(apply_file(v, n as nat)),
    )
}

/// The reply is one that the awaited step can have.
pub open spec fn fits(phase: Phase, reply: ReplyView) -> bool {
    match phase {
        Phase::Start => reply is Finished,
        Phase::Tip => reply is Probed || reply is Error,
        Phase::Load(_) => reply is Bytes || reply is Error,
        Phase::Store(_) => reply is Finished || reply is Error,
        Phase::Unstore(_) | Phase::Undiff(_) => true,
        Phase::Over => false,
        _ => reply is Out || reply is Error,
    }
}

/// What is awaited and what to do after `reply`.
pub open spec fn partial_next(v: PartialView, reply: ReplyView) -> (PartialView, StepView) {
    match (v.phase, reply) {
        (Phase::Start, _) => go(
            v,
            Phase::Tip,
            StepView::Probe(seq!["rev-parse"@, "--verify"@, "-q"@, "HEAD"@]),
        ),
        (Phase::Unstore(n), _) => to_undiff(v, n, v.failure),
        (Phase::Undiff(n), _) => match v.failure {
            Some(e) => fail(v, e),
            None => to_file(v, n as nat + 1),
        },
        (Phase::Tip, ReplyView::Probed(tip)) => go(
            PartialView { tip, ..v },
            Phase::Seed,
            StepView::Plumb(
                seq![
                    "read-tree"@,
                    if tip is Some {
                        "HEAD"@
                    } else {
                        "--empty"@
                    },
                ],
            ),
        ),
        (Phase::Seed, ReplyView::Out(_)) => if v.whole.len() > 0 {
            go(v, Phase::Whole, StepView::Plumb(seq!["add"@, "-A"@, "--"@] + v.whole))
        } else {
            to_file(v, 0)
        },
        (Phase::Whole, ReplyView::Out(_)) => to_file(v, 0),
        (Phase::Diff(n), ReplyView::Out(_)) => go(
            v,
            Phase::Load(n),
            StepView::Read(diff_file(v, n as nat)),
        ),
        (Phase::Load(n), ReplyView::Bytes(b)) => {
            let (path, selected) = v.partial[n as int];
            let hunks = hunks_of(b);
            if hunk_missing(selected, hunks.len()) {
                to_undiff(v, n, Some(changed_text(path)))
            } else {
                go(
                    v,
                    Phase::Store(n),
                    StepView::Write(
                        apply_file(v, n as nat),
                        assembled(header_of(b), hunks, selected),
                    ),
                )
            }
        },
        (Phase::Store(n), ReplyView::Finished) => go(
            v,
            Phase::Apply(n),
            StepView::Plumb(apply_argv(apply_file(v, n as nat))),
        ),
        (Phase::Apply(n), ReplyView::Out(_)) => to_unstore(v, n, None),
        (Phase::Tree, ReplyView::Out(tree)) => {
            let w = PartialView { tree, ..v };
            if v.tip is Some && v.amend {
                go(
                    w,
                    Phase::Parents,
                    StepView::Plumb(seq!["log"@, "-1"@, "--format=%P"@, "HEAD"@]),
                )
            } else {
                go(
                    w,
                    Phase::Commit,
                    StepView::Plumb(
                        commit_argv(
                            tree,
                            v.message,
                            if v.tip is Some {
                                seq!["HEAD"@]
                            } else {
                                seq![]
                            },
                        ),
                    ),
                )
            }
        },
        (Phase::Parents, ReplyView::Out(parents)) => go(
            v,
            Phase::Commit,
            StepView::Plumb(commit_argv(v.tree, v.message, word_list(parents))),
        ),
        (Phase::Commit, ReplyView::Out(new)) => go(
            v,
            Phase::Advance,
            StepView::Plumb(advance_argv(new, v.tip)),
        ),
        (Phase::Advance, ReplyView::Out(_)) => go(
            v,
            Phase::Refresh,
            StepView::PlumbReal(refresh_argv(v)),
        ),
        (Phase::Refresh, ReplyView::Out(_)) => go(v, Phase::Over, StepView::Done),
        (Phase::Diff(n), ReplyView::Error(e)) => to_undiff(v, n, Some(e)),
        (Phase::Load(n), ReplyView::Error(e)) => to_undiff(v, n, Some(e)),
        (Phase::Store(n), ReplyView::Error(e)) => to_unstore(v, n, Some(e)),
        (Phase::Apply(n), ReplyView::Error(e)) => to_unstore(v, n, Some(e)),
        (_, ReplyView::Error(e)) => fail(v, e),
        _ => fail(v, seq![]),
    }
}

/// The phase speaks of a partial file that there is.
pub open spec fn in_range(v: PartialView) -> bool {
    match v.phase {
        Phase::Diff(n) | Phase::Load(n) | Phase::Store(n) | Phase::Apply(n) | Phase::Unstore(n)
            | Phase::Undiff(n) => n < v.partial.len(),
        _ => true,
    }
}

// ----- doing it -----------------------------------------------------------------------------

/// Append copies of the texts.
pub fn extend(out: &mut Vec<String>, more: &Vec<String>)
    ensures
        texts(final(out)@) == texts(old(out)@) + texts(more@),
{
    let ghost start = texts(out@);
    let ghost list = texts(more@);
    let mut i: usize = 0;
    proof {
        assert(start + list.take(0) =~= start);
    }
    while i < more.len()
        invariant
            i <= more@.len(),
            list == texts(more@),
            texts(out@) == start + list.take(i as int),
        decreases more@.len() - i,
    {
        let ghost before = out@;
        out.push(more[i].clone());
        proof {
            assert(texts(out@) =~= texts(before).push(list[i as int]));
            assert(start + list.take(i + 1) =~= (start + list.take(i as int)).push(list[i as int]));
        }
        i = i + 1;
    }
    proof {
        assert(list.take(i as int) =~= list);
    }
}

/// Whether a selected hunk is not there.
fn lacks_hunk(selected: &Vec<usize>, count: usize) -> (r: bool)
    ensures
        r == hunk_missing(selected@, count as nat),
{
    let mut i: usize = 0;
    while i < selected.len()
        invariant
            i <= selected@.len(),
            forall|j: int| 0 <= j < i ==> #[trigger] selected@[j] < count,
        decreases selected@.len() - i,
    {
        if selected[i] >= count {
            proof {
                assert(selected@[i as int] >= count);
            }
            return true;
        }
        i = i + 1;
    }
    false
}

/// The report that a file is not what it was when it was shown.
fn changed_report(path: &str) -> (r: String)
    ensures
        r@ == changed_text(path@),
{
    let mut out = "'".to_string();
    out.append(path);
    out.append("' changed since the file list was captured — nothing committed; re-run commit");
    out
}

impl PartialCommit {
    /// A commit of `whole` files and of the selected hunks of `partial` ones. `dir`
    /// is where temporary files go, with the separator behind it; `stamp` tells
    /// them from those of other commits.
    pub fn new(
        whole: Vec<String>,
        partial: Vec<(String, Vec<usize>)>,
        message: String,
        amend: bool,
        dir: String,
        stamp: String,
    ) -> (r: Self)
        ensures
            r@ == (PartialView {
                whole: texts(whole@),
                partial: partial_views(partial@),
                message: message@,
                amend,
                dir: dir@,
                stamp: stamp@,
                phase: Phase::Start,
                tip: None,
                tree: seq![],
                failure: None,
            }),
    {
        let tree = String::new();
        proof {
            assert(tree@ =~= seq![]);
        }
        PartialCommit {
            whole,
            partial,
            message,
            amend,
            dir,
            stamp,
            phase: Phase::Start,
            tip: None,
            tree,
            failure: None,
        }
    }

    /// The temporary file of a kind for partial file `n`.
    fn temp_path(&self, name: &str, n: usize) -> (r: String)
        ensures
            r@ == temp_file(self@, name@, n as nat),
    {
        let mut out = self.dir.clone();
        out.append(name);
        out.append(self.stamp.as_str());
        out.append("-");
        text::push_decimal(&mut out, n as u128);
        out.append(".patch");
        out
    }

    /// Go on with partial file `n`, or write the tree if there is none.
    fn file_step(&mut self, n: usize) -> (r: Step)
        ensures
            (final(self)@, r@) == to_file(old(self)@, n as nat),
    {
        if n < self.partial.len() {
            let mut output = "--output=".to_string();
            let file = self.temp_path("hunks-", n);
            output.append(file.as_str());
            let argv = text::owned(
                &[
                    "diff",
                    "HEAD",
                    "--no-color",
                    "--no-ext-diff",
                    "--no-textconv",
                    output.as_str(),
                    "--",
                    self.partial[n].0.as_str(),
                ],
            );
            proof {
                assert(self@.partial[n as int].0 == self.partial@[n as int].0@);
                assert(texts(argv@) =~= diff_argv(
                    diff_file(self@, n as nat),
                    self@.partial[n as int].0,
                ));
            }
            self.phase = Phase::Diff(n);
            Step::Plumb(argv)
        } else {
            let argv = text::owned(&["write-tree"]);
            proof {
                assert(texts(argv@) =~= seq!["write-tree"@]);
            }
            self.phase = Phase::Tree;
            Step::Plumb(argv)
        }
    }

    /// Remove the diff of partial file `n`.
    fn undiff_step(&mut self, n: usize, failure: Option<String>) -> (r: Step)
        ensures
            (final(self)@, r@) == to_undiff(old(self)@, n, opt_view(failure)),
    {
        let file = self.temp_path("hunks-", n);
        self.failure = failure;
        self.phase = Phase::Undiff(n);
        Step::Remove(file)
    }

    /// Remove the patch of partial file `n`.
    fn unstore_step(&mut self, n: usize, failure: Option<String>) -> (r: Step)
        ensures
            (final(self)@, r@) == to_unstore(old(self)@, n, opt_view(failure)),
    {
        let file = self.temp_path("apply-", n);
        self.failure = failure;
        self.phase = Phase::Unstore(n);
        Step::Remove(file)
    }

    /// Stop with a report.
    fn fail_step(&mut self, why: String) -> (r: Step)
        ensures
            (final(self)@, r@) == fail(old(self)@, why@),
    {
        self.phase = Phase::Over;
        Step::Failed(why)
    }

    /// Create the commit with the given parents.
    fn commit_step(&mut self, parents: &Vec<&[char]>) -> (r: Step)
        ensures
            (final(self)@, r@) == go(
                old(self)@,
                Phase::Commit,
                StepView::Plumb(
                    commit_argv(old(self)@.tree, old(self)@.message, text::slices(parents@)),
                ),
            ),
    {
        let mut argv = text::owned(
            &["commit-tree", self.tree.as_str(), "-m", self.message.as_str()],
        );
        let ghost start = seq!["commit-tree"@, self@.tree, "-m"@, self@.message];
        let ghost list = text::slices(parents@);
        let mut i: usize = 0;
        proof {
            assert(texts(argv@) =~= start);
            assert(start + parent_argv(list.take(0)) =~= start);
        }
        while i < parents.len()
            invariant
                i <= parents@.len(),
                list == text::slices(parents@),
                texts(argv@) == start + parent_argv(list.take(i as int)),
                *self == *old(self),
            decreases parents@.len() - i,
        {
            let ghost before = argv@;
            proof {
                assert(list.take(i + 1).drop_last() =~= list.take(i as int));
            }
            argv.push("-p".to_string());
            argv.push(text::text(parents[i]));
            proof {
                assert(texts(argv@) =~= texts(before).push("-p"@).push(list[i as int]));
                assert(texts(argv@) =~= start + parent_argv(list.take(i + 1)));
            }
            i = i + 1;
        }
        proof {
            assert(list.take(i as int) =~= list);
        }
        self.phase = Phase::Commit;
        Step::Plumb(argv)
    }

    /// The step after the diff of partial file `n` was read.
    fn loaded_step(&mut self, n: usize, bytes: &Vec<u8>) -> (r: Step)
        requires
            n < old(self)@.partial.len(),
            old(self)@.phase == Phase::Load(n),
        ensures
            (final(self)@, r@) == partial_next(old(self)@, ReplyView::Bytes(bytes@)),
    {
        let (header, hunks) = patch::split(bytes);
        let ghost (path, selected) = self@.partial[n as int];
        proof {
            assert(path == self.partial@[n as int].0@);
            assert(selected == self.partial@[n as int].1@);
            assert(byte_lists(hunks@).len() == hunks@.len());
        }
        if lacks_hunk(&self.partial[n].1, hunks.len()) {
            let report = changed_report(self.partial[n].0.as_str());
            self.undiff_step(n, Some(report))
        } else {
            let part = patch::assemble(&header, &hunks, &self.partial[n].1);
            let file = self.temp_path("apply-", n);
            self.phase = Phase::Store(n);
            Step::Write(file, part)
        }
    }
}

/// The next step after `reply`, which is that to the step before. The first step
/// comes after [`Reply::Finished`]; after [`Step::Done`] and [`Step::Failed`] there
/// is none.
pub fn commit_partial_steps(run: &mut PartialCommit, reply: Reply) -> (r: Step)
    requires
        in_range(old(run)@),
    ensures
        (final(run)@, r@) == partial_next(old(run)@, reply@),
        in_range(final(run)@),
{
    match (run.phase, reply) {
        (Phase::Start, _) => {
            let argv = text::owned(&["rev-parse", "--verify", "-q", "HEAD"]);
            proof {
                assert(texts(argv@) =~= seq!["rev-parse"@, "--verify"@, "-q"@, "HEAD"@]);
            }
            run.phase = Phase::Tip;
            Step::Probe(argv)
        },
        (Phase::Unstore(n), _) => {
            let failure = match &run.failure {
                Some(e) => Some(e.clone()),
                None => None,
            };
            run.undiff_step(n, failure)
        },
        (Phase::Undiff(n), _) => {
            let failure = match &run.failure {
                Some(e) => Some(e.clone()),
                None => None,
            };
            match failure {
                Some(e) => run.fail_step(e),
                None => {
                    proof {
                        assert(n < run.partial.len());
                    }
                    run.file_step(n + 1)
                },
            }
        },
        (Phase::Tip, Reply::Probed(tip)) => {
            let which: &str = if tip.is_some() {
                "HEAD"
            } else {
                "--empty"
            };
            let argv = text::owned(&["read-tree", which]);
            proof {
                assert(texts(argv@) =~= seq!["read-tree"@, which@]);
            }
            run.tip = tip;
            run.phase = Phase::Seed;
            Step::Plumb(argv)
        },
        (Phase::Seed, Reply::Out(_)) => {
            if run.whole.len() > 0 {
                let mut argv = text::owned(&["add", "-A", "--"]);
                proof {
                    assert(texts(argv@) =~= seq!["add"@, "-A"@, "--"@]);
                }
                extend(&mut argv, &run.whole);
                run.phase = Phase::Whole;
                Step::Plumb(argv)
            } else {
                run.file_step(0)
            }
        },
        (Phase::Whole, Reply::Out(_)) => run.file_step(0),
        (Phase::Diff(n), Reply::Out(_)) => {
            let file = run.temp_path("hunks-", n);
            run.phase = Phase::Load(n);
            Step::Read(file)
        },
        (Phase::Load(n), Reply::Bytes(b)) => run.loaded_step(n, &b),
        (Phase::Store(n), Reply::Finished) => {
            let file = run.temp_path("apply-", n);
            let argv = text::owned(&["apply", "--cached", "--whitespace=nowarn", file.as_str()]);
            proof {
                assert(texts(argv@) =~= apply_argv(file@));
            }
            run.phase = Phase::Apply(n);
            Step::Plumb(argv)
        },
        (Phase::Apply(n), Reply::Out(_)) => run.unstore_step(n, None),
        (Phase::Tree, Reply::Out(tree)) => {
            run.tree = tree;
            if run.tip.is_some() && run.amend {
                let argv = text::owned(&["log", "-1", "--format=%P", "HEAD"]);
                proof {
                    assert(texts(argv@) =~= seq!["log"@, "-1"@, "--format=%P"@, "HEAD"@]);
                }
                run.phase = Phase::Parents;
                Step::Plumb(argv)
            } else if run.tip.is_some() {
                let head = text::chars("HEAD");
                let parents: Vec<&[char]> = vec![head.as_slice()];
                proof {
                    assert(text::slices(parents@) =~= seq!["HEAD"@]);
                }
                run.commit_step(&parents)
            } else {
                let parents: Vec<&[char]> = Vec::new();
                proof {
                    assert(text::slices(parents@) =~= seq![]);
                }
                run.commit_step(&parents)
            }
        },
        (Phase::Parents, Reply::Out(parents)) => {
            let all = text::chars(parents.as_str());
            run.commit_step(&text::words(&all))
        },
        (Phase::Commit, Reply::Out(new)) => {
            let mut argv = text::owned(&["update-ref", "HEAD", new.as_str()]);
            proof {
                assert(texts(argv@) =~= seq!["update-ref"@, "HEAD"@, new@]);
            }
            if let Some(tip) = &run.tip {
                let ghost before = argv@;
                argv.push(tip.clone());
                proof {
                    assert(texts(argv@) =~= texts(before).push(tip@));
                    assert(texts(argv@) =~= advance_argv(new@, run@.tip));
                }
            }
            run.phase = Phase::Advance;
            Step::Plumb(argv)
        },
        (Phase::Advance, Reply::Out(_)) => {
            let mut argv = text::owned(&["reset", "-q", "--"]);
            proof {
                assert(texts(argv@) =~= seq!["reset"@, "-q"@, "--"@]);
            }
            extend(&mut argv, &run.whole);
            let ghost start = texts(argv@);
            let ghost paths = partial_paths(run@.partial);
            let mut i: usize = 0;
            proof {
                assert(start + paths.take(0) =~= start);
            }
            while i < run.partial.len()
                invariant
                    i <= run.partial@.len(),
                    paths == partial_paths(run@.partial),
                    texts(argv@) == start + paths.take(i as int),
                    *run == *old(run),
                decreases run.partial@.len() - i,
            {
                let ghost before = argv@;
                argv.push(run.partial[i].0.clone());
                proof {
                    assert(paths[i as int] == run.partial@[i as int].0@);
                    assert(texts(argv@) =~= texts(before).push(paths[i as int]));
                    assert(start + paths.take(i + 1) =~= (start + paths.take(i as int)).push(
                        paths[i as int],
                    ));
                }
                i = i + 1;
            }
            proof {
                assert(paths.take(i as int) =~= paths);
            }
            run.phase = Phase::Refresh;
            Step::PlumbReal(argv)
        },
        (Phase::Refresh, Reply::Out(_)) => {
            run.phase = Phase::Over;
            Step::Done
        },
        (Phase::Diff(n), Reply::Error(e)) => run.undiff_step(n, Some(e)),
        (Phase::Load(n), Reply::Error(e)) => run.undiff_step(n, Some(e)),
        (Phase::Store(n), Reply::Error(e)) => run.unstore_step(n, Some(e)),
        (Phase::Apply(n), Reply::Error(e)) => run.unstore_step(n, Some(e)),
        (_, Reply::Error(e)) => run.fail_step(e),
        _ => run.fail_step(String::new()),
    }
}

// ----- what holds of every run -----------------------------------------------------------------

/// The user's index is touched last: only after the branch has moved, and only to
/// bring the committed paths up to date.
pub proof fn own_index_comes_last(v: PartialView, reply: ReplyView)
    requires
        fits(v.phase, reply),
    ensures
        partial_next(v, reply).1 is PlumbReal <==> v.phase == Phase::Advance && reply is Out,
        partial_next(v, reply).1 matches StepView::PlumbReal(argv) ==> argv == refresh_argv(v),
{
}

/// The branch moves only once the new commit is there, to that commit, and only
/// from the tip that the run started with.
pub proof fn branch_moves_to_the_commit(v: PartialView, reply: ReplyView)
    requires
        fits(v.phase, reply),
    ensures
        partial_next(v, reply).0.phase == Phase::Advance <==> v.phase == Phase::Commit && reply is Out,
        v.phase == Phase::Commit ==> (reply matches ReplyView::Out(new) ==> partial_next(v, reply).1
            == StepView::Plumb(advance_argv(new, v.tip))),
        v.phase != Phase::Tip ==> partial_next(v, reply).0.tip == v.tip,
{
}

/// The run is lost: it is over, or only tidies up before it reports a failure.
pub open spec fn lost(v: PartialView) -> bool {
    match v.phase {
        Phase::Over => true,
        Phase::Unstore(_) | Phase::Undiff(_) => v.failure is Some,
        _ => false,
    }
}

/// Nothing but removing temporary files and reporting.
pub open spec fn harmless(step: StepView) -> bool {
    step is Remove || step is Failed
}

/// A failed step, or a file that is not what it was, loses the run: what follows is
/// tidying up and the report. So the branch stays where it is, unless it has moved
/// already and only bringing the user's index up to date has failed.
pub proof fn failure_ends_the_run(v: PartialView, reply: ReplyView)
    requires
        in_range(v),
        fits(v.phase, reply),
        !(v.phase is Unstore) && !(v.phase is Undiff),
        reply is Error || (v.phase matches Phase::Load(n) && reply matches ReplyView::Bytes(b)
            && hunk_missing(v.partial[n as int].1, hunks_of(b).len())),
    ensures
        lost(partial_next(v, reply).0),
        harmless(partial_next(v, reply).1),
        partial_next(v, reply).0.failure is Some || partial_next(v, reply).1 is Failed,
{
}

/// Nothing fails by itself: as long as every step works and every selected hunk is
/// there, the run goes on, and ends with the commit made.
pub proof fn working_steps_make_the_commit(v: PartialView, reply: ReplyView)
    requires
        in_range(v),
        fits(v.phase, reply),
        !lost(v),
        !(reply is Error) || v.phase is Unstore || v.phase is Undiff,
        !(v.phase matches Phase::Load(n) && reply matches ReplyView::Bytes(b) && hunk_missing(
            v.partial[n as int].1,
            hunks_of(b).len(),
        )),
    ensures
        !(partial_next(v, reply).1 is Failed),
        partial_next(v, reply).1 is Done || !lost(partial_next(v, reply).0),
{
}

/// A lost run stays lost, and ends with the failure that lost it.
pub proof fn lost_runs_end_in_failure(v: PartialView, reply: ReplyView)
    requires
        lost(v),
        fits(v.phase, reply),
    ensures
        lost(partial_next(v, reply).0),
        harmless(partial_next(v, reply).1),
        partial_next(v, reply).1 matches StepView::Failed(e) ==> v.failure == Some(e),
        partial_next(v, reply).1 is Remove ==> partial_next(v, reply).0.failure == v.failure,
{
}

/// Which partial file the phase deals with.
pub open spec fn file_at(phase: Phase) -> Option<usize> {
    match phase {
        Phase::Diff(n) | Phase::Load(n) | Phase::Store(n) | Phase::Apply(n) | Phase::Unstore(n)
            | Phase::Undiff(n) => Some(n),
        _ => None,
    }
}

/// A partial file is left only after its diff was removed, whatever happened; and
/// a patch that was written is removed before that.
pub proof fn temporary_files_are_removed(v: PartialView, reply: ReplyView)
    requires
        fits(v.phase, reply),
        file_at(v.phase) is Some,
    ensures
        ({
            let n = file_at(v.phase)->0;
            let (w, step) = partial_next(v, reply);
            &&& file_at(w.phase) == Some(n) || v.phase == Phase::Undiff(n)
            &&& w.phase == Phase::Undiff(n) ==> step == StepView::Remove(diff_file(v, n as nat))
            &&& w.phase == Phase::Unstore(n) ==> step == StepView::Remove(apply_file(v, n as nat))
            &&& v.phase is Store || v.phase is Apply ==> w.phase is Apply || w.phase is Unstore
            &&& step is Write ==> w.phase == Phase::Store(n)
        }),
{
}

/// No file is left out: the partial files follow each other, each only once the patch
/// of the one before was applied; the tree is written only behind the last of them;
/// and the whole files come before all of them.
pub proof fn no_file_is_left_out(v: PartialView, reply: ReplyView)
    requires
        in_range(v),
        fits(v.phase, reply),
        v.partial.len() <= usize::MAX,
    ensures
        ({
            let w = partial_next(v, reply).0;
            let first = v.phase == Phase::Whole || (v.phase == Phase::Seed && v.whole.len() == 0);
            &&& (w.phase matches Phase::Diff(m) ==> (m == 0 && first) || (m > 0 && v.phase
                == Phase::Undiff((m - 1) as usize) && v.failure is None))
            &&& w.phase == Phase::Tree ==> (v.partial.len() == 0 && first) || (v.partial.len() > 0
                && v.phase == Phase::Undiff((v.partial.len() - 1) as usize) && v.failure is None)
            &&& (w.phase matches Phase::Undiff(n) ==> (w.failure is None ==> v.phase
                == Phase::Unstore(n) && v.failure is None))
            &&& (w.phase matches Phase::Unstore(n) ==> (w.failure is None ==> v.phase
                == Phase::Apply(n) && reply is Out))
            &&& w.phase == Phase::Whole ==> partial_next(v, reply).1 == StepView::Plumb(
                seq!["add"@, "-A"@, "--"@] + v.whole,
            )
        }),
{
}

/// How far the run has come.
pub open spec fn progress(v: PartialView) -> nat {
    let files = v.partial.len();
    match v.phase {
        Phase::Start => 0,
        Phase::Tip => 1,
        Phase::Seed => 2,
        Phase::Whole => 3,
        Phase::Diff(n) => 4 + 6 * (n as nat),
        Phase::Load(n) => 5 + 6 * (n as nat),
        Phase::Store(n) => 6 + 6 * (n as nat),
        Phase::Apply(n) => 7 + 6 * (n as nat),
        Phase::Unstore(n) => 8 + 6 * (n as nat),
        Phase::Undiff(n) => 9 + 6 * (n as nat),
        Phase::Tree => 4 + 6 * files,
        Phase::Parents => 5 + 6 * files,
        Phase::Commit => 6 + 6 * files,
        Phase::Advance => 7 + 6 * files,
        Phase::Refresh => 8 + 6 * files,
        Phase::Over => 9 + 6 * files,
    }
}

/// Every reply brings the run further, so it ends after a bounded number of steps.
pub proof fn every_run_ends(v: PartialView, reply: ReplyView)
    requires
        in_range(v),
        fits(v.phase, reply),
        v.partial.len() <= usize::MAX,
    ensures
        progress(v) < progress(partial_next(v, reply).0) <= 9 + 6 * v.partial.len(),
        partial_next(v, reply).0.partial == v.partial,
        in_range(partial_next(v, reply).0),
{
}

/// Parent `i` is given, behind its option.
pub open spec fn gives(argv: Seq<Seq<char>>, parents: Seq<Seq<char>>, i: int) -> bool {
    argv[2 * i] == "-p"@ && argv[2 * i + 1] == parents[i]
}

/// The parents of a commit are given one by one, and none is dropped.
pub proof fn every_parent_is_given(parents: Seq<Seq<char>>)
    ensures
        parent_argv(parents).len() == 2 * parents.len(),
        forall|i: int| 0 <= i < parents.len() ==> #[trigger] gives(parent_argv(parents), parents, i),
    decreases parents.len(),
{
    if parents.len() > 0 {
        let rest = parents.drop_last();
        every_parent_is_given(rest);
        let before = parent_argv(rest);
        let out = parent_argv(parents);
        assert(out == before.push("-p"@).push(parents.last()));
        assert forall|i: int| 0 <= i < parents.len() implies #[trigger] gives(out, parents, i) by {
            if i < rest.len() {
                assert(gives(before, rest, i));
            }
        }
    }
}

// ----- how the commit is made ------------------------------------------------------------------------

/// How it begins: the tip is looked for, and the temporary index starts as its tree, or
/// empty before the first commit; then the whole files are added, if there are any.
pub proof fn the_index_starts_as_the_tip(
    v: PartialView,
    start: ReplyView,
    tip: Option<Seq<char>>,
    out: Seq<char>,
)
    requires
        v.phase == Phase::Start,
    ensures
        ({
            let (a, s1) = partial_next(v, start);
            let (b, s2) = partial_next(a, ReplyView::Probed(tip));
            let (c, s3) = partial_next(b, ReplyView::Out(out));
            &&& s1 == StepView::Probe(seq!["rev-parse"@, "--verify"@, "-q"@, "HEAD"@])
            &&& s2 == StepView::Plumb(
                seq![
                    "read-tree"@,
                    match tip {
                        Some(_) => "HEAD"@,
                        None => "--empty"@,
                    },
                ],
            )
            &&& b.tip == tip
            &&& v.whole.len() > 0 ==> s3 == StepView::Plumb(
                seq!["add"@, "-A"@, "--"@] + v.whole,
            ) && c.phase == Phase::Whole
        }),
{
}

/// What comes behind partial file `n - 1`, or behind the whole files: the diff of
/// partial file `n` against the tip is written, byte for byte, to a file of its own;
/// behind the last of them the tree is written.
pub proof fn files_come_one_by_one(v: PartialView, n: nat)
    requires
        v.partial.len() <= usize::MAX,
    ensures
        ({
            let (w, step) = to_file(v, n);
            &&& n < v.partial.len() ==> w.phase == Phase::Diff(n as usize) && step
                == StepView::Plumb(
                seq![
                    "diff"@,
                    "HEAD"@,
                    "--no-color"@,
                    "--no-ext-diff"@,
                    "--no-textconv"@,
                    "--output="@ + (v.dir + "hunks-"@ + v.stamp + "-"@ + decimal_of(n) + ".patch"@),
                    "--"@,
                    v.partial[n as int].0,
                ],
            )
            &&& n >= v.partial.len() ==> w.phase == Phase::Tree && step == StepView::Plumb(
                seq!["write-tree"@],
            )
            &&& v.phase == Phase::Whole || (v.phase == Phase::Seed && v.whole.len() == 0)
                ==> forall|out: Seq<char>| #[trigger]
                partial_next(v, ReplyView::Out(out)) == to_file(v, 0)
            &&& v.failure is None ==> forall|k: usize, reply: ReplyView|
                k < v.partial.len() ==> #[trigger] partial_next(
                    PartialView { phase: Phase::Undiff(k), ..v },
                    reply,
                ) == to_file(v, k as nat + 1)
        }),
{
    let (w, step) = to_file(v, n);
    assert forall|k: usize, reply: ReplyView|
        k < v.partial.len() && v.failure is None implies #[trigger] partial_next(
        PartialView { phase: Phase::Undiff(k), ..v },
        reply,
    ) == to_file(v, k as nat + 1) by {}
}

/// What is done with partial file `n`: its diff is read; the patch of exactly its
/// selected hunks is written, and applied to the index alone; and both files are
/// removed. That patch splits back into the header of the diff and the hunks of it that
/// are selected.
pub proof fn selected_hunks_are_applied(
    v: PartialView,
    n: usize,
    out: Seq<char>,
    b: Seq<u8>,
    reply: ReplyView,
)
    requires
        v.phase == Phase::Diff(n),
        n < v.partial.len(),
        forall|i: int|
            0 <= i < v.partial[n as int].1.len() ==> (#[trigger] v.partial[n as int].1[i]) < hunks_of(
                b,
            ).len(),
    ensures
        ({
            let selected = v.partial[n as int].1;
            let diff = v.dir + "hunks-"@ + v.stamp + "-"@ + decimal_of(n as nat) + ".patch"@;
            let patch = v.dir + "apply-"@ + v.stamp + "-"@ + decimal_of(n as nat) + ".patch"@;
            let (w1, s1) = partial_next(v, ReplyView::Out(out));
            let (w2, s2) = partial_next(w1, ReplyView::Bytes(b));
            let (w3, s3) = partial_next(w2, ReplyView::Finished);
            let (w4, s4) = partial_next(w3, ReplyView::Out(out));
            let (w5, s5) = partial_next(w4, reply);
            &&& s1 == StepView::Read(diff)
            &&& (s2 matches StepView::Write(file, bytes) && file == patch && header_of(bytes)
                == header_of(b) && hunks_of(bytes) == kept(
                hunks_of(b),
                selected,
                hunks_of(b).len() as int,
            ))
            &&& s3 == StepView::Plumb(seq!["apply"@, "--cached"@, "--whitespace=nowarn"@, patch])
            &&& s4 == StepView::Remove(patch)
            &&& s5 == StepView::Remove(diff)
            &&& w5.failure is None && w5.phase == Phase::Undiff(n)
        }),
{
    let selected = v.partial[n as int].1;
    subset_splits_back(b, selected);
    assert(!hunk_missing(selected, hunks_of(b).len()));
}

/// A file that has lost a selected hunk since it was shown stops the commit: its diff is
/// removed, and the file is named.
pub proof fn changed_files_stop_the_commit(
    v: PartialView,
    n: usize,
    b: Seq<u8>,
    i: int,
    reply: ReplyView,
)
    requires
        v.phase == Phase::Load(n),
        n < v.partial.len(),
        0 <= i < v.partial[n as int].1.len(),
        v.partial[n as int].1[i] >= hunks_of(b).len(),
    ensures
        ({
            let (w, step) = partial_next(v, ReplyView::Bytes(b));
            &&& step == StepView::Remove(
                v.dir + "hunks-"@ + v.stamp + "-"@ + decimal_of(n as nat) + ".patch"@,
            )
            &&& partial_next(w, reply).1 == StepView::Failed(
                "'"@ + v.partial[n as int].0
                    + "' changed since the file list was captured — nothing committed; re-run commit"@,
            )
        }),
{
    assert(hunk_missing(v.partial[n as int].1, hunks_of(b).len()));
}

/// How it ends: the tree is committed with the message that was given, on the tip; an
/// amend takes the tip's own parents, all of them.
pub proof fn the_tree_is_committed(v: PartialView, tree: Seq<char>, parents: Seq<char>)
    requires
        v.phase == Phase::Tree,
    ensures
        ({
            let start = seq!["commit-tree"@, tree, "-m"@, v.message];
            let (a, s1) = partial_next(v, ReplyView::Out(tree));
            let (b, s2) = partial_next(a, ReplyView::Out(parents));
            &&& v.tip is None ==> s1 == StepView::Plumb(start) && a.phase == Phase::Commit
            &&& v.tip is Some && !v.amend ==> s1 == StepView::Plumb(
                start + seq!["-p"@, "HEAD"@],
            ) && a.phase == Phase::Commit
            &&& v.tip is Some && v.amend ==> s1 == StepView::Plumb(
                seq!["log"@, "-1"@, "--format=%P"@, "HEAD"@],
            ) && (s2 matches StepView::Plumb(argv) && argv.take(4) == start && argv.len() == 4 + 2
                * word_list(parents).len() && forall|i: int|
                0 <= i < word_list(parents).len() ==> #[trigger] gives(
                    argv.skip(4),
                    word_list(parents),
                    i,
                )) && b.phase == Phase::Commit
            &&& a.message == v.message && a.tip == v.tip && b.tip == v.tip
        }),
{
    let start = seq!["commit-tree"@, tree, "-m"@, v.message];
    let none: Seq<Seq<char>> = seq![];
    let head = seq!["HEAD"@];
    assert(parent_argv(none) =~= seq![]);
    assert(start + parent_argv(none) =~= start);
    assert(head.drop_last() =~= none);
    assert(parent_argv(head) =~= seq!["-p"@, "HEAD"@]);
    every_parent_is_given(word_list(parents));
    let argv = commit_argv(tree, v.message, word_list(parents));
    assert(argv.take(4) =~= start);
    assert(argv.skip(4) =~= parent_argv(word_list(parents)));
}

/// How the branch and the user's index follow: the branch moves to the new commit, from
/// the tip that there was; and last the committed paths are brought up to date in the
/// user's index, whole files and partial ones.
pub proof fn the_branch_follows(v: PartialView, new: Seq<char>, out: Seq<char>)
    requires
        v.phase == Phase::Commit,
    ensures
        ({
            let (a, s1) = partial_next(v, ReplyView::Out(new));
            let (b, s2) = partial_next(a, ReplyView::Out(out));
            &&& s1 == StepView::Plumb(
                match v.tip {
                    Some(old) => seq!["update-ref"@, "HEAD"@, new, old],
                    None => seq!["update-ref"@, "HEAD"@, new],
                },
            )
            &&& (s2 matches StepView::PlumbReal(argv) && argv.len() == 3 + v.whole.len()
                + v.partial.len() && argv.take(3) == seq!["reset"@, "-q"@, "--"@] && (forall|i: int|
                0 <= i < v.whole.len() ==> #[trigger] argv[3 + i] == v.whole[i]) && (forall|i: int|
                0 <= i < v.partial.len() ==> #[trigger] argv[3 + v.whole.len() + i]
                    == v.partial[i].0))
            &&& partial_next(b, ReplyView::Out(out)).1 == StepView::Done
        }),
{
    let argv = refresh_argv(v);
    assert(argv.take(3) =~= seq!["reset"@, "-q"@, "--"@]);
}

/// What a command is answered: its output without white space around it; or that it
/// failed, by its first argument and its diagnostic. A probe that does not succeed is no
/// failure.
pub proof fn commands_are_answered(
    argv: Seq<Seq<char>>,
    success: bool,
    stdout: String,
    diagnostic: String,
    e: String,
)
    requires
        argv.len() > 0,
    ensures
        ({
            let ran = Ran::Exited { success, stdout, diagnostic };
            let why = if diagnostic@.len() == 0 {
                "(no output)"@
            } else {
                diagnostic@
            };
            &&& success ==> plumb_view(argv, ran) == ReplyView::Out(trimmed(stdout@)) && probe_view(
                argv,
                ran,
            ) == ReplyView::Probed(Some(trimmed(stdout@)))
            &&& !success ==> plumb_view(argv, ran) == ReplyView::Error(
                "git "@ + argv[0] + ": "@ + why,
            ) && probe_view(argv, ran) == ReplyView::Probed(None)
            &&& plumb_view(argv, Ran::NotStarted(e)) == ReplyView::Error(
                "git "@ + argv[0] + ": "@ + e@,
            )
            &&& probe_view(argv, Ran::NotStarted(e)) == ReplyView::Error(
                "git "@ + argv[0] + ": "@ + e@,
            )
        }),
{
}

} // verus!
