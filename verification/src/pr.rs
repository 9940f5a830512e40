//! The pull request step after a push: list the open pull requests of the branch, or
//! offer to create one.
//!
//! The push has succeeded by then, so nothing here can make it look failed: what does
//! not work is passed over, with a notice at most.

use vstd::prelude::*;

use crate::model::opt_view;
use crate::partial::{diagnosis, extend, or_no_output};
use crate::prompt::{is_word, plain, plain_answer};
use crate::revert::{retain_unreverted, unreverted};
use crate::text;
use crate::text::{
    decimal_of, end_trimmed, has_text, joined, line_list, texts, trimmed,
};
use crate::ui::filter::{Pick, PickView};
use crate::ui::review::ReviewOutcome;
use crate::vcs::{Snapshot, SnapshotView};

verus! {

// ----- texts ---------------------------------------------------------------------------------

/// A link that can be clicked where the terminal knows OSC 8. Its text is the
/// address, so that it is of use elsewhere too.
pub open spec fn link(url: Seq<char>) -> Seq<char> {
    "\x1b]8;;"@ + url + "\x1b\\"@ + url + "\x1b]8;;\x1b\\"@
}

/// A link that can be clicked where the terminal knows OSC 8.
pub fn osc8(url: &str) -> (r: String)
    ensures
        r@ == link(url@),
{
    let mut out = "\x1b]8;;".to_string();
    out.append(url);
    out.append("\x1b\\");
    out.append(url);
    out.append("\x1b]8;;\x1b\\");
    out
}

/// A dim notice in brackets.
pub fn dim(notice: &str) -> (r: String)
    ensures
        r@ == "\x1b[2m("@ + notice@ + ")\x1b[0m"@,
{
    let mut out = "\x1b[2m(".to_string();
    out.append(notice);
    out.append(")\x1b[0m");
    out
}

/// The title: the first line, without white space around it.
pub open spec fn title_of(lines: Seq<Seq<char>>) -> Seq<char> {
    if lines.len() == 0 {
        seq![]
    } else {
        trimmed(lines[0])
    }
}

/// The body: the lines behind the first, without one blank line that separates them,
/// and without white space at the end.
pub open spec fn body_of(lines: Seq<Seq<char>>) -> Seq<char> {
    let rest = if lines.len() == 0 {
        lines
    } else {
        lines.skip(1)
    };
    let body = if rest.len() > 0 && trimmed(rest[0]).len() == 0 {
        rest.skip(1)
    } else {
        rest
    };
    end_trimmed(joined(body, seq!['\n']))
}

/// The title and the body of a pull request in an edited text.
pub fn split_title_body(text: &str) -> (r: (String, String))
    ensures
        r.0@ == title_of(line_list(text@)),
        r.1@ == body_of(line_list(text@)),
{
    let all = text::chars(text);
    let lines = text::lines(&all);
    let ghost list = text::slices(lines@);
    let title = if lines.len() > 0 {
        text::text(text::trim(lines[0]))
    } else {
        String::new()
    };
    proof {
        assert(title@ =~= title_of(list));
    }
    let mut from: usize = if lines.len() > 0 {
        1
    } else {
        0
    };
    if from < lines.len() && text::trim(lines[from]).len() == 0 {
        from = from + 1;
    }
    let mut body: Vec<&[char]> = Vec::new();
    let mut i: usize = from;
    while i < lines.len()
        invariant
            from <= i <= lines@.len(),
            list == text::slices(lines@),
            text::slices(body@) == list.subrange(from as int, i as int),
        decreases lines@.len() - i,
    {
        let ghost before = body@;
        body.push(lines[i]);
        proof {
            assert(text::slices(body@) =~= text::slices(before).push(list[i as int]));
            assert(list.subrange(from as int, i + 1) =~= list.subrange(from as int, i as int).push(
                list[i as int],
            ));
        }
        i = i + 1;
    }
    proof {
        let rest = if list.len() == 0 {
            list
        } else {
            list.skip(1)
        };
        if rest.len() > 0 {
            assert(rest[0] == list[1]);
        }
        if rest.len() > 0 && trimmed(rest[0]).len() == 0 {
            assert(list.subrange(from as int, i as int) =~= rest.skip(1));
        } else {
            assert(list.subrange(from as int, i as int) =~= rest);
        }
    }
    let joined_body = text::join(&body, '\n');
    (title, text::text(text::trim_end(&joined_body)))
}

/// The base to offer first: the repository's default branch; `main` if there is none.
pub open spec fn base_of(default_branch: Seq<char>) -> Seq<char> {
    if default_branch.len() == 0 {
        "main"@
    } else {
        default_branch
    }
}

/// The base to offer first.
pub fn default_base(default_branch: &str) -> (r: String)
    ensures
        r@ == base_of(default_branch@),
{
    if default_branch.is_empty() {
        "main".to_string()
    } else {
        default_branch.to_string()
    }
}

/// List the open pull requests from a branch, into any base.
pub open spec fn list_argv(head: Seq<char>) -> Seq<Seq<char>> {
    seq![
        "pr"@,
        "list"@,
        "--head"@,
        head,
        "--state"@,
        "open"@,
        "--json"@,
        "number,title,baseRefName,url"@,
    ]
}

/// The arguments that list the open pull requests from a branch.
pub fn list_args(head: &str) -> (r: Vec<String>)
    ensures
        texts(r@) == list_argv(head@),
{
    let argv = text::owned(
        &["pr", "list", "--head", head, "--state", "open", "--json", "number,title,baseRefName,url"],
    );
    proof {
        assert(texts(argv@) =~= list_argv(head@));
    }
    argv
}

/// Open the page that creates a pull request, filled in.
pub open spec fn create_argv(
    head: Seq<char>,
    base: Seq<char>,
    title: Seq<char>,
    body: Seq<char>,
) -> Seq<Seq<char>> {
    seq![
        "pr"@,
        "create"@,
        "--web"@,
        "--head"@,
        head,
        "--base"@,
        base,
        "--title"@,
        title,
        "--body"@,
        body,
    ]
}

/// The arguments that open the page that creates a pull request.
pub fn create_args(head: &str, base: &str, title: &str, body: &str) -> (r: Vec<String>)
    ensures
        texts(r@) == create_argv(head@, base@, title@, body@),
{
    let argv = text::owned(
        &[
            "pr",
            "create",
            "--web",
            "--head",
            head,
            "--base",
            base,
            "--title",
            title,
            "--body",
            body,
        ],
    );
    proof {
        assert(texts(argv@) =~= create_argv(head@, base@, title@, body@));
    }
    argv
}

// ----- after the push ---------------------------------------------------------------------------

/// An open pull request.
#[derive(Debug, PartialEq, Eq)]
pub struct OpenPr {
    pub number: u64,
    pub title: String,
    pub base: String,
    pub url: String,
}

/// One pull request in the list.
pub open spec fn pr_lines(pr: OpenPr) -> Seq<char> {
    "\n  #"@ + decimal_of(pr.number as nat) + " "@ + pr.title@ + "  → "@ + pr.base@ + "\n      "@
        + link(pr.url@)
}

/// The pull requests in the list.
pub open spec fn all_pr_lines(prs: Seq<OpenPr>) -> Seq<char>
    decreases prs.len(),
{
    if prs.len() == 0 {
        seq![]
    } else {
        all_pr_lines(prs.drop_last()) + pr_lines(prs.last())
    }
}

/// The list of open pull requests.
pub open spec fn open_text(branch: Seq<char>, prs: Seq<OpenPr>) -> Seq<char> {
    "\nOpen pull request"@ + (if prs.len() == 1 {
        seq![]
    } else {
        "s"@
    }) + " for '"@ + branch + "':"@ + all_pr_lines(prs)
}

/// What to do next after a push.
#[derive(Debug)]
pub enum Step {
    /// Tell the address of the remote.
    FindUrl,
    /// Tell whether the GitHub CLI is logged in.
    CheckAuth,
    /// Tell the default branch of the repository.
    FindRepo,
    /// List the open pull requests of the branch.
    ListOpen,
    /// Tell this.
    Tell(String),
    /// Give this notice.
    Notice(String),
    /// Offer to create a pull request into this base.
    Create(String),
    /// Pass over the step.
    Skip,
}

/// A step as a mathematical value.
pub enum StepView {
    FindUrl,
    CheckAuth,
    FindRepo,
    ListOpen,
    Tell(Seq<char>),
    Notice(Seq<char>),
    Create(Seq<char>),
    Skip,
}

impl View for Step {
    type V = StepView;

    open spec fn view(&self) -> StepView {
        match self {
            Step::FindUrl => StepView::FindUrl,
            Step::CheckAuth => StepView::CheckAuth,
            Step::FindRepo => StepView::FindRepo,
            Step::ListOpen => StepView::ListOpen,
            Step::Tell(s) => StepView::Tell(s@),
            Step::Notice(s) => StepView::Notice(s@),
            Step::Create(s) => StepView::Create(s@),
            Step::Skip => StepView::Skip,
        }
    }
}

/// What came of a step after a push.
#[derive(Debug)]
pub enum Heard {
    /// Nothing yet.
    Start,
    /// The address of the remote, if there is one.
    Url(Option<String>),
    /// Whether the GitHub CLI is logged in; `None` if it is not there.
    Auth(Option<bool>),
    /// The default branch of the repository; `None` if it cannot be told.
    Repo(Option<String>),
    /// The open pull requests.
    Open(Vec<OpenPr>),
}

/// The step after a push under way.
pub struct AfterPush {
    branch: String,
    default_branch: String,
}

/// The step after a push under way, as a mathematical value.
pub struct AfterPushView {
    /// The branch that was pushed.
    pub branch: Seq<char>,
    /// The default branch of the repository.
    pub default_branch: Seq<char>,
}

impl View for AfterPush {
    type V = AfterPushView;

    closed spec fn view(&self) -> AfterPushView {
        AfterPushView { branch: self.branch@, default_branch: self.default_branch@ }
    }
}

/// What to do after what was heard.
pub open spec fn after_next(v: AfterPushView, heard: Heard) -> (AfterPushView, StepView) {
    match heard {
        Heard::Start => (v, StepView::FindUrl),
        Heard::Url(Some(url)) => if has_text(url@, "github.com"@) {
            (v, StepView::CheckAuth)
        } else {
            (v, StepView::Skip)
        },
        Heard::Url(None) => (v, StepView::Skip),
        Heard::Auth(Some(true)) => (v, StepView::FindRepo),
        Heard::Auth(Some(false)) => (
            v,
            StepView::Notice(
                "gh is not authenticated — run 'gh auth login' to enable the PR step"@,
            ),
        ),
        Heard::Auth(None) => (
            v,
            StepView::Notice("gh CLI unavailable — skipping the PR step"@),
        ),
        Heard::Repo(Some(branch)) => (
            AfterPushView { default_branch: branch@, ..v },
            StepView::ListOpen,
        ),
        Heard::Repo(None) => (v, StepView::Skip),
        Heard::Open(prs) => if prs@.len() > 0 {
            (v, StepView::Tell(open_text(v.branch, prs@)))
        } else {
            (v, StepView::Create(base_of(v.default_branch)))
        },
    }
}

/// The list of open pull requests.
fn open_list(branch: &str, prs: &Vec<OpenPr>) -> (r: String)
    ensures
        r@ == open_text(branch@, prs@),
{
    let mut out = "\nOpen pull request".to_string();
    if prs.len() != 1 {
        out.append("s");
    }
    out.append(" for '");
    out.append(branch);
    out.append("':");
    let ghost start = out@;
    let mut i: usize = 0;
    proof {
        assert(start + all_pr_lines(prs@.take(0)) =~= start);
    }
    while i < prs.len()
        invariant
            i <= prs@.len(),
            out@ == start + all_pr_lines(prs@.take(i as int)),
        decreases prs@.len() - i,
    {
        let pr = &prs[i];
        proof {
            assert(prs@.take(i + 1).drop_last() =~= prs@.take(i as int));
        }
        out.append("\n  #");
        text::push_decimal(&mut out, pr.number as u128);
        out.append(" ");
        out.append(pr.title.as_str());
        out.append("  → ");
        out.append(pr.base.as_str());
        out.append("\n      ");
        out.append(osc8(pr.url.as_str()).as_str());
        proof {
            assert(out@ =~= start + all_pr_lines(prs@.take(i + 1)));
        }
        i = i + 1;
    }
    proof {
        assert(prs@.take(i as int) =~= prs@);
        assert(out@ =~= open_text(branch@, prs@));
    }
    out
}

impl AfterPush {
    /// The step after pushing `branch`.
    pub fn new(branch: &str) -> (r: Self)
        ensures
            r@ == (AfterPushView { branch: branch@, default_branch: seq![] }),
    {
        let default_branch = String::new();
        proof {
            assert(default_branch@ =~= seq![]);
        }
        AfterPush { branch: branch.to_string(), default_branch }
    }
}

/// What to do after what was heard. It applies only where the remote is on GitHub and
/// the GitHub CLI is there and logged in.
pub fn after_push(run: &mut AfterPush, heard: Heard) -> (r: Step)
    ensures
        (final(run)@, r@) == after_next(old(run)@, heard),
{
    match heard {
        Heard::Start => Step::FindUrl,
        Heard::Url(Some(url)) => {
            if text::contains(&text::chars(url.as_str()), &text::chars("github.com")) {
                Step::CheckAuth
            } else {
                Step::Skip
            }
        },
        Heard::Url(None) => Step::Skip,
        Heard::Auth(Some(true)) => Step::FindRepo,
        Heard::Auth(Some(false)) => Step::Notice(
            "gh is not authenticated — run 'gh auth login' to enable the PR step".to_string(),
        ),
        Heard::Auth(None) => Step::Notice("gh CLI unavailable — skipping the PR step".to_string()),
        Heard::Repo(Some(branch)) => {
            run.default_branch = branch;
            Step::ListOpen
        },
        Heard::Repo(None) => Step::Skip,
        Heard::Open(prs) => {
            if prs.len() > 0 {
                Step::Tell(open_list(run.branch.as_str(), &prs))
            } else {
                Step::Create(default_base(run.default_branch.as_str()))
            }
        },
    }
}

/// A pull request is offered only if the branch has none open; and open ones are
/// listed all.
pub proof fn offers_only_without_open_ones(v: AfterPushView, heard: Heard)
    ensures
        after_next(v, heard).1 is Create <==> (heard matches Heard::Open(prs) && prs@.len() == 0),
        after_next(v, heard).1 is Tell <==> (heard matches Heard::Open(prs) && prs@.len() > 0),
{
}

// ----- creating one -------------------------------------------------------------------------------

/// What was answered to the question whether to create a pull request.
#[derive(Debug, Clone, Copy, PartialEq, Eq, Structural)]
pub enum Answer {
    Yes,
    No,
    /// Pick another base.
    Base,
    /// Look at the diff.
    Diff,
}

/// What an answer means; `None` if it means nothing. Agreeing is the default; the end
/// of input declines.
pub open spec fn meant(answer: Option<Seq<char>>) -> Option<Answer> {
    match answer {
        None => Some(Answer::No),
        Some(line) => {
            let a = plain_answer(line);
            if a.len() == 0 || a == "y"@ || a == "yes"@ {
                Some(Answer::Yes)
            } else if a == "n"@ || a == "no"@ {
                Some(Answer::No)
            } else if a == "b"@ || a == "base"@ {
                Some(Answer::Base)
            } else if a == "d"@ || a == "diff"@ {
                Some(Answer::Diff)
            } else {
                None
            }
        },
    }
}

/// What an answer means; `None` if it means nothing and the question has to be asked
/// again.
pub fn ask_create(answer: Option<&str>) -> (r: Option<Answer>)
    ensures
        r == meant(crate::prompt::answer_view(answer)),
{
    match answer {
        None => Some(Answer::No),
        Some(line) => {
            let a = plain(line);
            if a.len() == 0 || is_word(&a, "y") || is_word(&a, "yes") {
                Some(Answer::Yes)
            } else if is_word(&a, "n") || is_word(&a, "no") {
                Some(Answer::No)
            } else if is_word(&a, "b") || is_word(&a, "base") {
                Some(Answer::Base)
            } else if is_word(&a, "d") || is_word(&a, "diff") {
                Some(Answer::Diff)
            } else {
                None
            }
        },
    }
}

/// The question whether to create a pull request.
pub open spec fn create_text(head: Seq<char>, base: Seq<char>) -> Seq<char> {
    "Create a pull request '"@ + head + "' → '"@ + base
        + "'?  [Y]es / [n]o / [b]ase / [d]iff: "@
}

/// What to do next on the way to a pull request.
#[derive(Debug)]
pub enum Creating {
    /// Report this, if it is not empty, and ask this. An `alarm` is for the error
    /// output.
    Ask { report: String, alarm: bool, question: String },
    /// Let the user pick another base.
    PickBase,
    /// Show the diff.
    Review,
    /// Create the pull request.
    Create,
    /// Report this, if it is not empty: that is all.
    Done(String),
}

/// A step as a mathematical value.
pub enum CreatingView {
    Ask { report: Seq<char>, alarm: bool, question: Seq<char> },
    PickBase,
    Review,
    Create,
    Done(Seq<char>),
}

impl View for Creating {
    type V = CreatingView;

    open spec fn view(&self) -> CreatingView {
        match self {
            Creating::Ask { report, alarm, question } => CreatingView::Ask {
                report: report@,
                alarm: *alarm,
                question: question@,
            },
            Creating::PickBase => CreatingView::PickBase,
            Creating::Review => CreatingView::Review,
            Creating::Create => CreatingView::Create,
            Creating::Done(s) => CreatingView::Done(s@),
        }
    }
}

/// What came of a step on the way to a pull request.
#[derive(Debug)]
pub enum Said {
    /// Nothing yet.
    Start,
    /// The answer to the question; `None` at the end of input.
    Answer(Option<String>),
    /// The base that was picked; `None` keeps the one at hand.
    Base(Option<String>),
    /// The picker failed.
    BaseFailed(String),
    /// The diff was looked at.
    Reviewed,
    /// The diff could not be shown.
    ReviewFailed(String),
    /// The pull request is dealt with.
    Created,
    /// The pull request could not be prepared.
    CreateFailed(String),
}

/// The way to a pull request.
pub struct CreateRun {
    head: String,
    base: String,
}

/// The way to a pull request, as a mathematical value.
pub struct CreateView {
    pub head: Seq<char>,
    pub base: Seq<char>,
}

impl View for CreateRun {
    type V = CreateView;

    closed spec fn view(&self) -> CreateView {
        CreateView { head: self.head@, base: self.base@ }
    }
}

/// That there is no pull request yet.
pub open spec fn none_text(head: Seq<char>) -> Seq<char> {
    "\nNo open pull request for '"@ + head + "'."@
}

/// Ask, after a report.
pub open spec fn to_ask(v: CreateView, report: Seq<char>, alarm: bool) -> (
    CreateView,
    CreatingView,
) {
    (v, CreatingView::Ask { report, alarm, question: create_text(v.head, v.base) })
}

/// What to do after what was said. What fails is reported, and the question asked
/// again: only creating the pull request, or declining to, ends it.
pub open spec fn create_next(v: CreateView, said: Said) -> (CreateView, CreatingView) {
    match said {
        Said::Start => to_ask(v, none_text(v.head), false),
        Said::Answer(answer) => match meant(opt_view(answer)) {
            Some(Answer::Yes) => (v, CreatingView::Create),
            Some(Answer::No) => (v, CreatingView::Done(seq![])),
            Some(Answer::Base) => (v, CreatingView::PickBase),
            Some(Answer::Diff) => (v, CreatingView::Review),
            None => to_ask(v, seq![], false),
        },
        Said::Base(Some(base)) => to_ask(CreateView { base: base@, ..v }, seq![], false),
        Said::Base(None) => to_ask(v, seq![], false),
        Said::BaseFailed(e) => to_ask(v, "Base picker unavailable: "@ + e@, true),
        Said::Reviewed => to_ask(v, seq![], false),
        Said::ReviewFailed(e) => to_ask(v, "Diff review unavailable: "@ + e@, true),
        Said::Created => (v, CreatingView::Done(seq![])),
        Said::CreateFailed(e) => (
            v,
            CreatingView::Done("Could not prepare the pull request: "@ + e@),
        ),
    }
}

impl CreateRun {
    /// The way to a pull request from `head` into `base`.
    pub fn new(head: &str, base: String) -> (r: Self)
        ensures
            r@ == (CreateView { head: head@, base: base@ }),
    {
        CreateRun { head: head.to_string(), base }
    }

    /// The base at hand.
    pub fn base(&self) -> (r: &str)
        ensures
            r@ == self@.base,
    {
        self.base.as_str()
    }

    /// Ask, after a report.
    fn ask_step(&self, report: String, alarm: bool) -> (r: Creating)
        ensures
            (self@, r@) == to_ask(self@, report@, alarm),
    {
        let mut question = "Create a pull request '".to_string();
        question.append(self.head.as_str());
        question.append("' → '");
        question.append(self.base.as_str());
        question.append("'?  [Y]es / [n]o / [b]ase / [d]iff: ");
        Creating::Ask { report, alarm, question }
    }

    /// Ask again.
    fn ask_again(&self) -> (r: Creating)
        ensures
            (self@, r@) == to_ask(self@, seq![], false),
    {
        let none = String::new();
        proof {
            assert(none@ =~= seq![]);
        }
        self.ask_step(none, false)
    }
}

/// A report behind its heading.
fn report_of(heading: &str, e: &str) -> (r: String)
    ensures
        r@ == heading@ + e@,
{
    let mut out = heading.to_string();
    out.append(e);
    out
}

/// That is all, without a word.
fn done() -> (r: Creating)
    ensures
        r@ == CreatingView::Done(seq![]),
{
    let none = String::new();
    proof {
        assert(none@ =~= seq![]);
    }
    Creating::Done(none)
}

/// What to do after what was said.
pub fn create_pr_loop(run: &mut CreateRun, said: Said) -> (r: Creating)
    ensures
        (final(run)@, r@) == create_next(old(run)@, said),
{
    match said {
        Said::Start => {
            let mut report = "\nNo open pull request for '".to_string();
            report.append(run.head.as_str());
            report.append("'.");
            run.ask_step(report, false)
        },
        Said::Answer(answer) => {
            let m = match &answer {
                Some(line) => ask_create(Some(line.as_str())),
                None => ask_create(None),
            };
            match m {
                Some(Answer::Yes) => Creating::Create,
                Some(Answer::No) => done(),
                Some(Answer::Base) => Creating::PickBase,
                Some(Answer::Diff) => Creating::Review,
                None => run.ask_again(),
            }
        },
        Said::Base(Some(base)) => {
            run.base = base;
            run.ask_again()
        },
        Said::Base(None) => run.ask_again(),
        Said::BaseFailed(e) => run.ask_step(
            report_of("Base picker unavailable: ", e.as_str()),
            true,
        ),
        Said::Reviewed => run.ask_again(),
        Said::ReviewFailed(e) => run.ask_step(
            report_of("Diff review unavailable: ", e.as_str()),
            true,
        ),
        Said::Created => done(),
        Said::CreateFailed(e) => Creating::Done(
            report_of("Could not prepare the pull request: ", e.as_str()),
        ),
    }
}

/// A pull request is created only on an answer that agrees; the end of input
/// declines; and what fails before that comes back to the question.
pub proof fn creating_takes_an_answer(v: CreateView, said: Said)
    ensures
        create_next(v, said).1 is Create <==> (said matches Said::Answer(a) && meant(opt_view(a))
            == Some(Answer::Yes)),
        said matches Said::Answer(None) ==> create_next(v, said).1 is Done,
        said is BaseFailed || said is ReviewFailed || said is Reviewed || said is Base
            ==> create_next(v, said).1 is Ask,
{
}

/// The branches that can be the base: all but the branch itself.
pub open spec fn other_branches(branches: Seq<Seq<char>>, head: Seq<char>) -> Seq<Seq<char>>
    decreases branches.len(),
{
    if branches.len() == 0 {
        seq![]
    } else {
        let before = other_branches(branches.drop_last(), head);
        if branches.last() == head {
            before
        } else {
            before.push(branches.last())
        }
    }
}

/// How the base is picked.
#[derive(Debug)]
pub enum BaseMenu {
    /// There is no other branch: give this notice and keep the base.
    NoOther(String),
    /// Let the user pick one of these, under this heading.
    Pick { title: String, branches: Vec<String> },
}

/// How the base is picked, as a mathematical value.
pub enum BaseMenuView {
    NoOther(Seq<char>),
    Pick { title: Seq<char>, branches: Seq<Seq<char>> },
}

impl View for BaseMenu {
    type V = BaseMenuView;

    open spec fn view(&self) -> BaseMenuView {
        match self {
            BaseMenu::NoOther(s) => BaseMenuView::NoOther(s@),
            BaseMenu::Pick { title, branches } => BaseMenuView::Pick {
                title: title@,
                branches: texts(branches@),
            },
        }
    }
}

/// The branches that can be the base.
fn base_candidates(branches: &Vec<String>, head: &str) -> (r: Vec<String>)
    ensures
        texts(r@) == other_branches(texts(branches@), head@),
{
    let ghost all = texts(branches@);
    let mut out: Vec<String> = Vec::new();
    let mut i: usize = 0;
    proof {
        assert(texts(out@) =~= other_branches(all.take(0), head@));
    }
    while i < branches.len()
        invariant
            i <= branches@.len(),
            all == texts(branches@),
            texts(out@) == other_branches(all.take(i as int), head@),
        decreases branches@.len() - i,
    {
        let ghost before = out@;
        proof {
            assert(all.take(i + 1).drop_last() =~= all.take(i as int));
            assert(all.take(i + 1).last() == branches@[i as int]@);
        }
        if !text::same(branches[i].as_str(), head) {
            out.push(branches[i].clone());
            proof {
                assert(texts(out@) =~= texts(before).push(branches@[i as int]@));
            }
        }
        i = i + 1;
    }
    proof {
        assert(all.take(i as int) =~= all);
    }
    out
}

/// How the base is picked among the branches on the remote.
pub open spec fn base_menu(
    branches: Seq<Seq<char>>,
    head: Seq<char>,
    current: Seq<char>,
) -> BaseMenuView {
    let others = other_branches(branches, head);
    if others.len() == 0 {
        BaseMenuView::NoOther("No other branch on origin to target."@)
    } else {
        BaseMenuView::Pick {
            title: "Choose the PR base branch (current: "@ + current + "):"@,
            branches: others,
        }
    }
}

/// How the base is picked among the branches on the remote.
pub fn pick_base(branches: &Vec<String>, head: &str, current: &str) -> (r: BaseMenu)
    ensures
        r@ == base_menu(texts(branches@), head@, current@),
{
    let others = base_candidates(branches, head);
    proof {
        assert(texts(others@).len() == others@.len());
    }
    if others.len() == 0 {
        return BaseMenu::NoOther("No other branch on origin to target.".to_string());
    }
    let mut title = "Choose the PR base branch (current: ".to_string();
    title.append(current);
    title.append("):");
    BaseMenu::Pick { title, branches: others }
}

/// The base that was picked; `None` keeps the one at hand.
pub fn picked_base(pick: Pick) -> (r: Option<String>)
    ensures
        opt_view(r) == match pick@ {
            PickView::Existing(b) => Some(b),
            _ => None,
        },
{
    match pick {
        Pick::Existing(b) => Some(b),
        _ => None,
    }
}

// ----- reviewing --------------------------------------------------------------------------------------

/// What was reverted so far, and the backups of it.
pub struct Reverts {
    paths: Vec<String>,
    backups: Vec<String>,
}

/// What was reverted so far, as a mathematical value.
pub struct RevertsView {
    pub paths: Seq<Seq<char>>,
    pub backups: Seq<Seq<char>>,
}

impl View for Reverts {
    type V = RevertsView;

    closed spec fn view(&self) -> RevertsView {
        RevertsView { paths: texts(self.paths@), backups: texts(self.backups@) }
    }
}

/// What to do next in a review.
#[derive(Debug)]
pub enum Reviewing {
    /// Show what is left of the diff.
    Show,
    /// Revert these paths.
    Revert(Vec<String>),
    /// Tell this, if it is not empty: the review is over. An `alarm` is for the error
    /// output.
    Done { notice: String, alarm: bool },
}

/// A step as a mathematical value.
pub enum ReviewingView {
    Show,
    Revert(Seq<Seq<char>>),
    Done { notice: Seq<char>, alarm: bool },
}

impl View for Reviewing {
    type V = ReviewingView;

    open spec fn view(&self) -> ReviewingView {
        match self {
            Reviewing::Show => ReviewingView::Show,
            Reviewing::Revert(p) => ReviewingView::Revert(texts(p@)),
            Reviewing::Done { notice, alarm } => ReviewingView::Done {
                notice: notice@,
                alarm: *alarm,
            },
        }
    }
}

/// What came of a step in a review.
#[derive(Debug)]
pub enum Seen {
    /// The snapshot was taken.
    Taken,
    /// The screen was left.
    Left(ReviewOutcome),
    /// These paths were reverted, with this backup.
    Reverted { paths: Vec<String>, backup: String },
    /// Reverting failed.
    RevertFailed(String),
}

/// The review is over without a word.
pub open spec fn over() -> ReviewingView {
    ReviewingView::Done { notice: seq![], alarm: false }
}

/// The snapshot without what was reverted.
pub open spec fn remaining(s: SnapshotView, reverted: Seq<Seq<char>>) -> SnapshotView {
    SnapshotView { changes: unreverted(s.changes, reverted), ..s }
}

/// That there is nothing to review.
pub open spec fn nothing_text(head: Seq<char>, base: Seq<char>, reverted: bool) -> Seq<char> {
    "'"@ + head + "' has no changes against '"@ + base + "'"@ + (if reverted {
        " left to review"@
    } else {
        seq![]
    }) + "."@
}

/// What is left, what was reverted, and what to do after what was seen.
pub open spec fn review_next(
    s: SnapshotView,
    v: RevertsView,
    head: Seq<char>,
    base: Seq<char>,
    seen: Seen,
) -> (SnapshotView, RevertsView, ReviewingView) {
    match seen {
        Seen::Taken => {
            let left = remaining(s, v.paths);
            if left.changes.len() == 0 {
                (
                    left,
                    v,
                    ReviewingView::Done {
                        notice: nothing_text(head, base, v.paths.len() > 0),
                        alarm: false,
                    },
                )
            } else {
                (left, v, ReviewingView::Show)
            }
        },
        Seen::Left(ReviewOutcome::Back) => (s, v, over()),
        Seen::Left(ReviewOutcome::RevertMarked { paths }) => (
            s,
            v,
            ReviewingView::Revert(texts(paths@)),
        ),
        Seen::Reverted { paths, backup } => {
            let w = RevertsView {
                paths: v.paths + texts(paths@),
                backups: v.backups.push(backup@),
            };
            let left = remaining(s, w.paths);
            (
                left,
                w,
                if left.changes.len() == 0 {
                    over()
                } else {
                    ReviewingView::Show
                },
            )
        },
        Seen::RevertFailed(e) => (
            s,
            v,
            ReviewingView::Done {
                notice: "Revert failed (nothing was changed): "@ + e@
                    + "\n(uncommitted local edits in a marked file can prevent the revert — commit or stash them first)"@,
                alarm: true,
            },
        ),
    }
}

/// The lines of the backups.
pub open spec fn backup_lines(backups: Seq<Seq<char>>) -> Seq<char>
    decreases backups.len(),
{
    if backups.len() == 0 {
        seq![]
    } else {
        backup_lines(backups.drop_last()) + "\nBackup patch: "@ + backups.last()
    }
}

/// What is told in the end of what was reverted.
pub open spec fn summary_text(v: RevertsView) -> Seq<char> {
    "Reverted "@ + decimal_of(v.paths.len())
        + " path(s) in the working copy — the pushed branch itself is unchanged."@ + backup_lines(
        v.backups,
    ) + "\nCommit and push to update the branch."@
}

impl Reverts {
    /// Nothing was reverted yet.
    pub fn new() -> (r: Self)
        ensures
            r@ == (RevertsView { paths: seq![], backups: seq![] }),
    {
        let r = Reverts { paths: Vec::new(), backups: Vec::new() };
        proof {
            assert(texts(r.paths@) =~= seq![]);
            assert(texts(r.backups@) =~= seq![]);
        }
        r
    }

    /// What is told in the end, however it came: where the backups are. `None` if
    /// nothing was reverted.
    pub fn summary(&self) -> (r: Option<String>)
        ensures
            opt_view(r) == if self@.paths.len() > 0 {
                Some(summary_text(self@))
            } else {
                None
            },
    {
        if self.paths.len() == 0 {
            return None;
        }
        let ghost list = self@.backups;
        let mut out = "Reverted ".to_string();
        text::push_decimal(&mut out, self.paths.len() as u128);
        out.append(" path(s) in the working copy — the pushed branch itself is unchanged.");
        let ghost start = out@;
        let mut i: usize = 0;
        proof {
            assert(start + backup_lines(list.take(0)) =~= start);
        }
        while i < self.backups.len()
            invariant
                i <= self.backups@.len(),
                list == texts(self.backups@),
                out@ == start + backup_lines(list.take(i as int)),
            decreases self.backups@.len() - i,
        {
            proof {
                assert(list.take(i + 1).drop_last() =~= list.take(i as int));
            }
            out.append("\nBackup patch: ");
            out.append(self.backups[i].as_str());
            proof {
                assert(out@ =~= start + backup_lines(list.take(i + 1)));
            }
            i = i + 1;
        }
        out.append("\nCommit and push to update the branch.");
        proof {
            assert(list.take(i as int) =~= list);
            assert(out@ =~= summary_text(self@));
        }
        Some(out)
    }
}

/// The review is over without a word.
fn review_over() -> (r: Reviewing)
    ensures
        r@ == over(),
{
    let none = String::new();
    proof {
        assert(none@ =~= seq![]);
    }
    Reviewing::Done { notice: none, alarm: false }
}

/// What to do after what was seen. Reverted files disappear from `snap`.
pub fn review_loop(
    snap: &mut Snapshot,
    reverts: &mut Reverts,
    head: &str,
    base: &str,
    seen: Seen,
) -> (r: Reviewing)
    ensures
        (final(snap)@, final(reverts)@, r@) == review_next(
            old(snap)@,
            old(reverts)@,
            head@,
            base@,
            seen,
        ),
{
    match seen {
        Seen::Taken => {
            retain_unreverted(snap, &reverts.paths);
            proof {
                assert(snap@.changes.len() == snap.changes@.len());
            }
            if snap.changes.len() == 0 {
                let mut notice = "'".to_string();
                notice.append(head);
                notice.append("' has no changes against '");
                notice.append(base);
                notice.append("'");
                if reverts.paths.len() > 0 {
                    notice.append(" left to review");
                }
                notice.append(".");
                proof {
                    assert(notice@ =~= nothing_text(head@, base@, reverts@.paths.len() > 0));
                }
                Reviewing::Done { notice, alarm: false }
            } else {
                Reviewing::Show
            }
        },
        Seen::Left(ReviewOutcome::Back) => review_over(),
        Seen::Left(ReviewOutcome::RevertMarked { paths }) => Reviewing::Revert(paths),
        Seen::Reverted { paths, backup } => {
            let ghost before = reverts@;
            extend(&mut reverts.paths, &paths);
            let ghost backups = reverts.backups@;
            reverts.backups.push(backup);
            proof {
                assert(texts(reverts.backups@) =~= texts(backups).push(backup@));
            }
            retain_unreverted(snap, &reverts.paths);
            proof {
                assert(snap@.changes.len() == snap.changes@.len());
            }
            if snap.changes.len() == 0 {
                review_over()
            } else {
                Reviewing::Show
            }
        },
        Seen::RevertFailed(e) => {
            let mut notice = report_of("Revert failed (nothing was changed): ", e.as_str());
            notice.append(
                "\n(uncommitted local edits in a marked file can prevent the revert — commit or stash them first)",
            );
            Reviewing::Done { notice, alarm: true }
        },
    }
}

/// Files are reverted only if the screen was left to revert them; every revert adds
/// its backup, and none is forgotten.
pub proof fn every_revert_has_a_backup(
    s: SnapshotView,
    v: RevertsView,
    head: Seq<char>,
    base: Seq<char>,
    seen: Seen,
)
    ensures
        ({
            let (t, w, step) = review_next(s, v, head, base, seen);
            &&& (step is Revert <==> seen matches Seen::Left(ReviewOutcome::RevertMarked { .. }))
            &&& (seen matches Seen::Reverted { paths, backup } ==> w.backups == v.backups.push(
                backup@,
            ) && w.paths == v.paths + texts(paths@))
            &&& !(seen is Reverted) ==> w == v
        }),
{
}

// ----- preparing it ------------------------------------------------------------------------------------

/// What to do next to prepare a pull request.
#[derive(Debug)]
pub enum Preparing {
    /// Read the diff of the branch.
    ReadDiff,
    /// Draft a title and a description from the diff; the branch's name stands in for
    /// a draft.
    Draft,
    /// Edit the draft, under this heading.
    Edit { heading: String, draft: String },
    /// Tell this and open the page, with these arguments.
    Open { notice: String, args: Vec<String> },
    /// Tell this, if it is not empty: there is no more to do.
    Done(String),
    /// Give this notice: there is no more to do.
    Notice(String),
    /// Stop with this report.
    Failed(String),
}

/// A step as a mathematical value.
pub enum PreparingView {
    ReadDiff,
    Draft,
    Edit { heading: Seq<char>, draft: Seq<char> },
    Open { notice: Seq<char>, args: Seq<Seq<char>> },
    Done(Seq<char>),
    Notice(Seq<char>),
    Failed(Seq<char>),
}

impl View for Preparing {
    type V = PreparingView;

    open spec fn view(&self) -> PreparingView {
        match self {
            Preparing::ReadDiff => PreparingView::ReadDiff,
            Preparing::Draft => PreparingView::Draft,
            Preparing::Edit { heading, draft } => PreparingView::Edit {
                heading: heading@,
                draft: draft@,
            },
            Preparing::Open { notice, args } => PreparingView::Open {
                notice: notice@,
                args: texts(args@),
            },
            Preparing::Done(s) => PreparingView::Done(s@),
            Preparing::Notice(s) => PreparingView::Notice(s@),
            Preparing::Failed(s) => PreparingView::Failed(s@),
        }
    }
}

/// What came of a step of preparing.
#[derive(Debug)]
pub enum Got {
    /// Nothing yet.
    Start,
    /// The diff.
    Diff(String),
    /// The draft.
    Draft(String),
    /// The edited text; `None` if that was cancelled.
    Edited(Option<String>),
    /// The page was opened, or not: then with this error output.
    Opened { success: bool, stderr: String },
    /// The page could not be opened for this reason.
    NotOpened(String),
    /// It failed.
    Error(String),
}

/// The heading of the editor.
pub open spec fn heading_text(head: Seq<char>, base: Seq<char>) -> Seq<char> {
    "Pull request — "@ + head + " → "@ + base + "  (first line = title)"@
}

/// What to do after what was got.
pub open spec fn prepare_next(head: Seq<char>, base: Seq<char>, got: Got) -> PreparingView {
    match got {
        Got::Start => PreparingView::ReadDiff,
        Got::Diff(diff) => if trimmed(diff@).len() == 0 {
            PreparingView::Done(
                "'"@ + head + "' has no changes against '"@ + base
                    + "' — nothing to open a PR for."@,
            )
        } else {
            PreparingView::Draft
        },
        Got::Draft(draft) => PreparingView::Edit {
            heading: heading_text(head, base),
            draft: draft@,
        },
        Got::Edited(None) => PreparingView::Done("PR creation cancelled."@),
        Got::Edited(Some(text)) => {
            let lines = line_list(text@);
            if title_of(lines).len() == 0 {
                PreparingView::Done("Empty PR title — not creating a PR."@)
            } else {
                PreparingView::Open {
                    notice: "Opening the PR page in your browser…"@,
                    args: create_argv(head, base, title_of(lines), body_of(lines)),
                }
            }
        },
        Got::Opened { success: true, .. } => PreparingView::Done(seq![]),
        Got::Opened { success: false, stderr } => PreparingView::Notice(
            "could not open the PR page: "@ + diagnosis(trimmed(stderr@)),
        ),
        Got::NotOpened(why) => PreparingView::Notice("could not open the PR page: "@ + why@),
        Got::Error(e) => PreparingView::Failed(e@),
    }
}

/// What to do after what was got, to prepare a pull request from `head` into `base`.
pub fn create_pr(head: &str, base: &str, got: Got) -> (r: Preparing)
    ensures
        r@ == prepare_next(head@, base@, got),
{
    match got {
        Got::Start => Preparing::ReadDiff,
        Got::Diff(diff) => {
            let all = text::chars(diff.as_str());
            if text::trim(&all).len() == 0 {
                let mut notice = "'".to_string();
                notice.append(head);
                notice.append("' has no changes against '");
                notice.append(base);
                notice.append("' — nothing to open a PR for.");
                Preparing::Done(notice)
            } else {
                Preparing::Draft
            }
        },
        Got::Draft(draft) => {
            let mut heading = "Pull request — ".to_string();
            heading.append(head);
            heading.append(" → ");
            heading.append(base);
            heading.append("  (first line = title)");
            Preparing::Edit { heading, draft }
        },
        Got::Edited(None) => Preparing::Done("PR creation cancelled.".to_string()),
        Got::Edited(Some(text)) => {
            let (title, body) = split_title_body(text.as_str());
            if title.as_str().is_empty() {
                Preparing::Done("Empty PR title — not creating a PR.".to_string())
            } else {
                Preparing::Open {
                    notice: "Opening the PR page in your browser…".to_string(),
                    args: create_args(head, base, title.as_str(), body.as_str()),
                }
            }
        },
        Got::Opened { success, stderr } => {
            if success {
                let none = String::new();
                proof {
                    assert(none@ =~= seq![]);
                }
                Preparing::Done(none)
            } else {
                let all = text::chars(stderr.as_str());
                let why = or_no_output(text::text(text::trim(&all)).as_str());
                Preparing::Notice(report_of("could not open the PR page: ", why.as_str()))
            }
        },
        Got::NotOpened(why) => Preparing::Notice(
            report_of("could not open the PR page: ", why.as_str()),
        ),
        Got::Error(e) => Preparing::Failed(e),
    }
}

/// The page is opened only with a title that the user has seen in the editor, and
/// with the text from there.
pub proof fn page_opens_with_a_title(head: Seq<char>, base: Seq<char>, got: Got)
    ensures
        prepare_next(head, base, got) is Open <==> (got matches Got::Edited(Some(text)) && title_of(
            line_list(text@),
        ).len() > 0),
{
}

// ----- what the step comes to --------------------------------------------------------------------------

/// The way to the list of open pull requests: the address, where it names GitHub; the
/// login; the repository; and then the list. What is missing on the way ends it, with a
/// notice where the user can do something about it.
pub proof fn steps_after_a_push(
    v: AfterPushView,
    url: String,
    a: Seq<char>,
    b: Seq<char>,
    branch: String,
)
    ensures
        after_next(v, Heard::Start).1 == StepView::FindUrl,
        url@ == a + "github.com"@ + b ==> after_next(v, Heard::Url(Some(url))).1
            == StepView::CheckAuth,
        after_next(v, Heard::Url(Some(url))).1 == StepView::CheckAuth ==> exists|at: int|
            0 <= at && at + 10 <= url@.len() && #[trigger] url@.subrange(at, at + 10)
                == "github.com"@,
        after_next(v, Heard::Url(Some(url))).1 == StepView::CheckAuth || after_next(
            v,
            Heard::Url(Some(url)),
        ).1 == StepView::Skip,
        after_next(v, Heard::Url(None)).1 == StepView::Skip,
        after_next(v, Heard::Auth(Some(true))).1 == StepView::FindRepo,
        after_next(v, Heard::Auth(Some(false))).1 == StepView::Notice(
            "gh is not authenticated — run 'gh auth login' to enable the PR step"@,
        ),
        after_next(v, Heard::Auth(None)).1 == StepView::Notice(
            "gh CLI unavailable — skipping the PR step"@,
        ),
        after_next(v, Heard::Repo(Some(branch))).1 == StepView::ListOpen,
        after_next(v, Heard::Repo(None)).1 == StepView::Skip,
        after_next(v, Heard::Start).0 == v && after_next(v, Heard::Url(Some(url))).0 == v
            && after_next(v, Heard::Auth(Some(true))).0 == v,
{
    reveal_strlit("github.com");
    if url@ == a + "github.com"@ + b {
        let at = a.len() as int;
        assert(url@.subrange(at, at + 10) =~= "github.com"@);
        assert(text::stands_at(url@, "github.com"@, at));
    }
    if has_text(url@, "github.com"@) {
        let at = choose|at: int| text::stands_at(url@, "github.com"@, at);
        assert(url@.subrange(at, at + 10) =~= "github.com"@);
    }
}

/// The base that is offered: the default branch that the repository told, and `main`
/// where it told an empty one; the branch that was pushed stays what it was.
pub proof fn bases_are_offered(v: AfterPushView, branch: String, none: Vec<OpenPr>)
    requires
        none@.len() == 0,
    ensures
        ({
            let (w, step) = after_next(v, Heard::Repo(Some(branch)));
            &&& branch@.len() > 0 ==> after_next(w, Heard::Open(none)).1 == StepView::Create(branch@)
            &&& branch@.len() == 0 ==> after_next(w, Heard::Open(none)).1 == StepView::Create(
                "main"@,
            )
            &&& w.branch == v.branch
        }),
{
}

/// The list of the open pull requests of a branch: every one of them, in order, with its
/// number, its title, its base and a link to it.
pub proof fn open_ones_are_listed(
    v: AfterPushView,
    prs: Vec<OpenPr>,
    pr: OpenPr,
    before: Seq<OpenPr>,
)
    ensures
        prs@.len() == 1 ==> after_next(v, Heard::Open(prs)).1 == StepView::Tell(
            "\nOpen pull request"@ + " for '"@ + v.branch + "':"@ + all_pr_lines(prs@),
        ),
        prs@.len() > 1 ==> after_next(v, Heard::Open(prs)).1 == StepView::Tell(
            "\nOpen pull request"@ + "s"@ + " for '"@ + v.branch + "':"@ + all_pr_lines(prs@),
        ),
        all_pr_lines(before.push(pr)) == all_pr_lines(before) + "\n  #"@ + decimal_of(
            pr.number as nat,
        ) + " "@ + pr.title@ + "  → "@ + pr.base@ + "\n      "@ + "\x1b]8;;"@ + pr.url@ + "\x1b\\"@
            + pr.url@ + "\x1b]8;;\x1b\\"@,
        all_pr_lines(seq![]).len() == 0,
{
    if prs@.len() == 1 {
        let none: Seq<char> = seq![];
        assert("\nOpen pull request"@ + none =~= "\nOpen pull request"@);
    }
    assert(before.push(pr).drop_last() =~= before);
    assert(all_pr_lines(before.push(pr)) =~= all_pr_lines(before) + "\n  #"@ + decimal_of(
        pr.number as nat,
    ) + " "@ + pr.title@ + "  → "@ + pr.base@ + "\n      "@ + "\x1b]8;;"@ + pr.url@ + "\x1b\\"@
        + pr.url@ + "\x1b]8;;\x1b\\"@);
}

/// What each answer means, in whatever letters and white space; the empty answer agrees,
/// and any other asks again.
pub proof fn answers_choose(line: Seq<char>)
    ensures
        ({
            let a = plain_answer(line);
            &&& meant(None) == Some(Answer::No)
            &&& a.len() == 0 || a == "y"@ || a == "yes"@ ==> meant(Some(line)) == Some(Answer::Yes)
            &&& a == "n"@ || a == "no"@ ==> meant(Some(line)) == Some(Answer::No)
            &&& a == "b"@ || a == "base"@ ==> meant(Some(line)) == Some(Answer::Base)
            &&& a == "d"@ || a == "diff"@ ==> meant(Some(line)) == Some(Answer::Diff)
            &&& meant(Some(line)) is Some ==> a.len() == 0 || a == "y"@ || a == "yes"@ || a == "n"@
                || a == "no"@ || a == "b"@ || a == "base"@ || a == "d"@ || a == "diff"@
        }),
{
    reveal_strlit("y");
    reveal_strlit("yes");
    reveal_strlit("n");
    reveal_strlit("no");
    reveal_strlit("b");
    reveal_strlit("base");
    reveal_strlit("d");
    reveal_strlit("diff");
    let a = plain_answer(line);
    assert("y"@[0] == 'y' && "yes"@[0] == 'y' && "n"@[0] == 'n' && "no"@[0] == 'n' && "b"@[0]
        == 'b' && "base"@[0] == 'b' && "d"@[0] == 'd' && "diff"@[0] == 'd');
}

/// Where each answer leads; and that what was answered changes neither branch.
pub proof fn answers_lead(v: CreateView, answer: Option<String>)
    ensures
        ({
            let (w, step) = create_next(v, Said::Answer(answer));
            let question = "Create a pull request '"@ + v.head + "' → '"@ + v.base
                + "'?  [Y]es / [n]o / [b]ase / [d]iff: "@;
            &&& w == v
            &&& meant(opt_view(answer)) == Some(Answer::Yes) ==> step == CreatingView::Create
            &&& meant(opt_view(answer)) == Some(Answer::No) ==> step == CreatingView::Done(seq![])
            &&& meant(opt_view(answer)) == Some(Answer::Base) ==> step == CreatingView::PickBase
            &&& meant(opt_view(answer)) == Some(Answer::Diff) ==> step == CreatingView::Review
            &&& meant(opt_view(answer)) is None ==> step == (CreatingView::Ask {
                report: seq![],
                alarm: false,
                question,
            })
            &&& create_next(v, Said::Start).1 == (CreatingView::Ask {
                report: "\nNo open pull request for '"@ + v.head + "'."@,
                alarm: false,
                question,
            })
            &&& create_next(v, Said::Start).0 == v
        }),
{
}

/// The base that was picked is the one that is asked for next, and the head stays; what
/// failed is reported before the same question is asked again.
pub proof fn questions_come_back(v: CreateView, base: String, e: String)
    ensures
        ({
            let (w, step) = create_next(v, Said::Base(Some(base)));
            let question = "Create a pull request '"@ + v.head + "' → '"@ + v.base
                + "'?  [Y]es / [n]o / [b]ase / [d]iff: "@;
            let again = CreatingView::Ask { report: seq![], alarm: false, question };
            &&& w.head == v.head && w.base == base@
            &&& step == (CreatingView::Ask {
                report: seq![],
                alarm: false,
                question: "Create a pull request '"@ + v.head + "' → '"@ + base@
                    + "'?  [Y]es / [n]o / [b]ase / [d]iff: "@,
            })
            &&& create_next(v, Said::Base(None)) == (v, again)
            &&& create_next(v, Said::Reviewed) == (v, again)
            &&& create_next(v, Said::BaseFailed(e)) == (
                v,
                CreatingView::Ask {
                    report: "Base picker unavailable: "@ + e@,
                    alarm: true,
                    question,
                },
            )
            &&& create_next(v, Said::ReviewFailed(e)) == (
                v,
                CreatingView::Ask {
                    report: "Diff review unavailable: "@ + e@,
                    alarm: true,
                    question,
                },
            )
            &&& create_next(v, Said::Created).1 == CreatingView::Done(seq![])
            &&& create_next(v, Said::CreateFailed(e)).1 == CreatingView::Done(
                "Could not prepare the pull request: "@ + e@,
            )
        }),
{
}

/// The bases to pick from are the branches of the remote but the branch itself, in
/// their order: `at` tells where each stands among them.
pub proof fn bases_are_the_other_branches(branches: Seq<Seq<char>>, head: Seq<char>) -> (at: Seq<
    int,
>)
    ensures
        at.len() == other_branches(branches, head).len(),
        forall|k: int|
            0 <= k < at.len() ==> 0 <= #[trigger] at[k] < branches.len() && branches[at[k]] != head
                && other_branches(branches, head)[k] == branches[at[k]],
        forall|j: int, k: int| 0 <= j < k < at.len() ==> #[trigger] at[j] < #[trigger] at[k],
        forall|i: int|
            0 <= i < branches.len() && #[trigger] branches[i] != head ==> at.contains(i),
    decreases branches.len(),
{
    if branches.len() == 0 {
        seq![]
    } else {
        let short = branches.drop_last();
        let before = bases_are_the_other_branches(short, head);
        let n = branches.len() - 1;
        let at = if branches[n] == head {
            before
        } else {
            before.push(n)
        };
        assert forall|k: int| 0 <= k < at.len() implies 0 <= #[trigger] at[k] < branches.len()
            && branches[at[k]] != head && other_branches(branches, head)[k] == branches[at[k]] by {
            if k < before.len() {
                assert(at[k] == before[k]);
                assert(short[at[k]] == branches[at[k]]);
            }
        }
        assert forall|j: int, k: int| 0 <= j < k < at.len() implies #[trigger] at[j] < #[trigger] at[k] by {
            assert(at[j] == before[j]);
            if k < before.len() {
                assert(at[k] == before[k]);
            }
        }
        assert forall|i: int| 0 <= i < branches.len() && #[trigger] branches[i] != head implies at.contains(
            i,
        ) by {
            if i < n {
                assert(short[i] == branches[i]);
                let k = choose|k: int| 0 <= k < before.len() && before[k] == i;
                assert(at[k] == i);
            } else {
                assert(at[before.len() as int] == i);
            }
        }
        at
    }
}

/// Where there is no branch but the pushed one the base cannot be changed; else the
/// others are offered, under a heading that names the base at hand.
pub proof fn base_menus(branches: Seq<Seq<char>>, head: Seq<char>, current: Seq<char>)
    ensures
        (forall|i: int| 0 <= i < branches.len() ==> #[trigger] branches[i] == head) ==> base_menu(
            branches,
            head,
            current,
        ) == BaseMenuView::NoOther("No other branch on origin to target."@),
        (exists|i: int| 0 <= i < branches.len() && #[trigger] branches[i] != head) ==> base_menu(
            branches,
            head,
            current,
        ) == (BaseMenuView::Pick {
            title: "Choose the PR base branch (current: "@ + current + "):"@,
            branches: other_branches(branches, head),
        }),
{
    let at = bases_are_the_other_branches(branches, head);
    if exists|i: int| 0 <= i < branches.len() && #[trigger] branches[i] != head {
        let i = choose|i: int| 0 <= i < branches.len() && #[trigger] branches[i] != head;
        assert(at.contains(i));
    }
    if other_branches(branches, head).len() > 0 {
        assert(branches[at[0]] != head);
    }
}

/// A review of the branch: what was reverted is not shown again, and a review with
/// nothing to show says so.
pub proof fn reviews_show_what_is_left(
    s: SnapshotView,
    v: RevertsView,
    head: Seq<char>,
    base: Seq<char>,
)
    ensures
        ({
            let (t, w, step) = review_next(s, v, head, base, Seen::Taken);
            let none = "'"@ + head + "' has no changes against '"@ + base + "'"@;
            &&& w == v
            &&& t.changes == unreverted(s.changes, v.paths)
            &&& t.diffs == s.diffs && t.hunks == s.hunks
            &&& t.changes.len() > 0 ==> step == ReviewingView::Show
            &&& t.changes.len() == 0 && v.paths.len() == 0 ==> step == (ReviewingView::Done {
                notice: none + "."@,
                alarm: false,
            })
            &&& t.changes.len() == 0 && v.paths.len() > 0 ==> step == (ReviewingView::Done {
                notice: none + " left to review"@ + "."@,
                alarm: false,
            })
        }),
{
    if v.paths.len() == 0 {
        let empty: Seq<char> = seq![];
        let none = "'"@ + head + "' has no changes against '"@ + base + "'"@;
        assert(none + empty =~= none);
    }
}

/// What leaving the review comes to, and what a revert from it: the marked paths are
/// reverted, those are gone from what is shown next, and the review ends when nothing is
/// left.
pub proof fn reviews_revert_what_is_marked(
    s: SnapshotView,
    v: RevertsView,
    head: Seq<char>,
    base: Seq<char>,
    paths: Vec<String>,
    backup: String,
    e: String,
)
    ensures
        ({
            let quiet = ReviewingView::Done { notice: seq![], alarm: false };
            let (t, w, step) = review_next(s, v, head, base, Seen::Reverted { paths, backup });
            &&& review_next(s, v, head, base, Seen::Left(ReviewOutcome::Back)) == (s, v, quiet)
            &&& review_next(
                s,
                v,
                head,
                base,
                Seen::Left(ReviewOutcome::RevertMarked { paths }),
            ) == (s, v, ReviewingView::Revert(texts(paths@)))
            &&& t.changes == unreverted(s.changes, v.paths + texts(paths@))
            &&& t.changes.len() > 0 ==> step == ReviewingView::Show
            &&& t.changes.len() == 0 ==> step == quiet
            &&& review_next(s, v, head, base, Seen::RevertFailed(e)) == (
                s,
                v,
                ReviewingView::Done {
                    notice: "Revert failed (nothing was changed): "@ + e@
                        + "\n(uncommitted local edits in a marked file can prevent the revert — commit or stash them first)"@,
                    alarm: true,
                },
            )
        }),
{
}

/// What is told of the reverts: how many paths, and where every backup is, in order.
pub proof fn summaries_name_the_backups(v: RevertsView, before: Seq<Seq<char>>, backup: Seq<char>)
    ensures
        summary_text(v) == "Reverted "@ + decimal_of(v.paths.len())
            + " path(s) in the working copy — the pushed branch itself is unchanged."@
            + backup_lines(v.backups) + "\nCommit and push to update the branch."@,
        backup_lines(before.push(backup)) == backup_lines(before) + "\nBackup patch: "@ + backup,
        backup_lines(seq![]).len() == 0,
{
    assert(before.push(backup).drop_last() =~= before);
}

/// How a pull request is prepared: a branch without changes opens none; else a draft is
/// edited, and the page is opened from this head into this base, with the title and the
/// body that were edited.
pub proof fn pages_are_prepared(head: Seq<char>, base: Seq<char>, text: String)
    ensures
        prepare_next(head, base, Got::Start) == PreparingView::ReadDiff,
        trimmed(text@).len() == 0 ==> prepare_next(head, base, Got::Diff(text))
            == PreparingView::Done(
            "'"@ + head + "' has no changes against '"@ + base + "' — nothing to open a PR for."@,
        ),
        trimmed(text@).len() > 0 ==> prepare_next(head, base, Got::Diff(text))
            == PreparingView::Draft,
        prepare_next(head, base, Got::Draft(text)) == (PreparingView::Edit {
            heading: "Pull request — "@ + head + " → "@ + base + "  (first line = title)"@,
            draft: text@,
        }),
        prepare_next(head, base, Got::Edited(None)) == PreparingView::Done(
            "PR creation cancelled."@,
        ),
        title_of(line_list(text@)).len() == 0 ==> prepare_next(head, base, Got::Edited(Some(text)))
            == PreparingView::Done("Empty PR title — not creating a PR."@),
        title_of(line_list(text@)).len() > 0 ==> prepare_next(head, base, Got::Edited(Some(text)))
            == (PreparingView::Open {
            notice: "Opening the PR page in your browser…"@,
            args: seq![
                "pr"@,
                "create"@,
                "--web"@,
                "--head"@,
                head,
                "--base"@,
                base,
                "--title"@,
                title_of(line_list(text@)),
                "--body"@,
                body_of(line_list(text@)),
            ],
        }),
{
}

/// What opening the page comes to: nothing more to say, or a notice why it did not open.
pub proof fn pages_that_do_not_open(head: Seq<char>, base: Seq<char>, stderr: String, e: String)
    ensures
        prepare_next(head, base, Got::Opened { success: true, stderr }) == PreparingView::Done(
            seq![],
        ),
        trimmed(stderr@).len() > 0 ==> prepare_next(
            head,
            base,
            Got::Opened { success: false, stderr },
        ) == PreparingView::Notice("could not open the PR page: "@ + trimmed(stderr@)),
        trimmed(stderr@).len() == 0 ==> prepare_next(
            head,
            base,
            Got::Opened { success: false, stderr },
        ) == PreparingView::Notice("could not open the PR page: "@ + "(no output)"@),
        prepare_next(head, base, Got::NotOpened(e)) == PreparingView::Notice(
            "could not open the PR page: "@ + e@,
        ),
        prepare_next(head, base, Got::Error(e)) == PreparingView::Failed(e@),
{
}

/// The title is the first line; the body is all behind it, but for one blank line that
/// parts them, and white space at its end.
pub proof fn first_lines_are_titles(first: Seq<char>, second: Seq<char>, rest: Seq<Seq<char>>)
    ensures
        title_of(seq![first] + rest) == trimmed(first),
        trimmed(second).len() == 0 ==> body_of(seq![first, second] + rest) == end_trimmed(
            joined(rest, seq!['\n']),
        ),
        trimmed(second).len() > 0 ==> body_of(seq![first, second] + rest) == end_trimmed(
            joined(seq![second] + rest, seq!['\n']),
        ),
        body_of(seq![first]).len() == 0,
        title_of(seq![]).len() == 0 && body_of(seq![]).len() == 0,
{
    let none: Seq<Seq<char>> = seq![];
    let both = seq![first, second] + rest;
    assert(both.skip(1) =~= seq![second] + rest);
    assert(both.skip(1).skip(1) =~= rest);
    assert(both.skip(1)[0] == second);
    assert(seq![first].skip(1) =~= none);
    assert(joined(none, seq!['\n']) =~= seq![]);
    let empty: Seq<char> = seq![];
    assert(end_trimmed(empty).len() == 0);
}

/// The command that lists the open pull requests of a branch, into whatever base.
pub proof fn list_command(head: Seq<char>)
    ensures
        list_argv(head) == seq![
            "pr"@,
            "list"@,
            "--head"@,
            head,
            "--state"@,
            "open"@,
            "--json"@,
            "number,title,baseRefName,url"@,
        ],
{
}

} // verus!
