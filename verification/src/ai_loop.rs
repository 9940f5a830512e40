//! Drafting until there is a draft or the user has enough: another model can be
//! entered while the one at hand is not available.

use vstd::prelude::*;

use crate::ai::{attempt_argv, commit_prompt, generate, generate_pr, pr_prompt, Outcome};
use crate::settings::ModelSource;
use crate::text::texts;

verus! {

/// What to draft.
pub enum Draft<'a> {
    /// A commit message from the selected diff and the existing description.
    Commit { diff: &'a str, existing: &'a str },
    /// The title (first line) and the description of a pull request from the
    /// branch's diff.
    Pr { diff: &'a str },
}

impl<'a> Draft<'a> {
    /// The prompt of an attempt.
    pub open spec fn prompt(self) -> Seq<char> {
        match self {
            Draft::Commit { diff, existing } => commit_prompt(diff@, existing@),
            Draft::Pr { diff } => pr_prompt(diff@),
        }
    }

    /// The arguments of an attempt with a model.
    pub fn attempt(&self, model: &str) -> (r: Vec<String>)
        ensures
            texts(r@) == attempt_argv(self.prompt(), model@),
    {
        match self {
            Draft::Commit { diff, existing } => generate(diff, existing, model),
            Draft::Pr { diff } => generate_pr(diff, model),
        }
    }
}

/// What to do next.
#[derive(Debug)]
pub enum Step {
    /// Make an attempt with the model at hand.
    Attempt,
    /// Ask for another model, under this heading.
    AskModel(String),
    /// Go on with this text; before that save the model at hand if `save` says so.
    Done { text: String, save: bool },
}

/// A step as a mathematical value.
pub enum StepView {
    Attempt,
    AskModel(Seq<char>),
    Done { text: Seq<char>, save: bool },
}

impl View for Step {
    type V = StepView;

    open spec fn view(&self) -> StepView {
        match self {
            Step::Attempt => StepView::Attempt,
            Step::AskModel(title) => StepView::AskModel(title@),
            Step::Done { text, save } => StepView::Done { text: text@, save: *save },
        }
    }
}

/// What came of a step.
#[derive(Debug)]
pub enum Heard {
    /// Nothing yet.
    Start,
    /// The user did not wait for the attempt.
    Skipped,
    /// The outcome of the attempt.
    Outcome(Outcome),
    /// The model that was entered; `None` if that was cancelled.
    Entered(Option<String>),
}

/// A drafting under way.
pub struct Drafting {
    model: String,
    source: ModelSource,
    entered: bool,
    fallback: String,
}

/// A drafting under way as a mathematical value.
pub struct DraftingView {
    /// The model at hand.
    pub model: Seq<char>,
    /// Where the configured model came from.
    pub source: ModelSource,
    /// Whether the model at hand was entered by the user.
    pub entered: bool,
    /// What to go on with if there is no draft.
    pub fallback: Seq<char>,
}

impl View for Drafting {
    type V = DraftingView;

    closed spec fn view(&self) -> DraftingView {
        DraftingView {
            model: self.model@,
            source: self.source,
            entered: self.entered,
            fallback: self.fallback@,
        }
    }
}

/// What is asked when a model is not available.
pub open spec fn unavailable_text(model: Seq<char>) -> Seq<char> {
    "Model \""@ + model + "\" is unavailable — enter another:"@
}

/// Go on without a draft.
pub open spec fn give_up(v: DraftingView) -> (DraftingView, StepView) {
    (v, StepView::Done { text: v.fallback, save: false })
}

/// What to do after what was heard.
pub open spec fn draft_next(v: DraftingView, heard: Heard) -> (DraftingView, StepView) {
    match heard {
        Heard::Start => (v, StepView::Attempt),
        Heard::Skipped => give_up(v),
        Heard::Outcome(Outcome::Drafted(text)) => (
            v,
            StepView::Done { text: text@, save: v.entered },
        ),
        Heard::Outcome(Outcome::ModelUnavailable) => (
            v,
            StepView::AskModel(unavailable_text(v.model)),
        ),
        Heard::Outcome(Outcome::Failed) => give_up(v),
        Heard::Entered(Some(model)) => (
            DraftingView { model: model@, entered: true, ..v },
            StepView::Attempt,
        ),
        Heard::Entered(None) => give_up(v),
    }
}

impl Drafting {
    /// A drafting with the configured model, which came from `source`; `fallback` is
    /// what to go on with if there is no draft.
    pub fn new(model: String, source: ModelSource, fallback: &str) -> (r: Self)
        ensures
            r@ == (DraftingView { model: model@, source, entered: false, fallback: fallback@ }),
    {
        Drafting { model, source, entered: false, fallback: fallback.to_string() }
    }

    /// The model at hand.
    pub fn model(&self) -> (r: &str)
        ensures
            r@ == self@.model,
    {
        self.model.as_str()
    }

    /// Where the configured model came from: a model that works is saved there.
    pub fn source(&self) -> (r: ModelSource)
        ensures
            r == self@.source,
    {
        self.source
    }

    /// Go on without a draft.
    fn without_draft(&self) -> (r: Step)
        ensures
            (self@, r@) == give_up(self@),
    {
        Step::Done { text: self.fallback.clone(), save: false }
    }
}

/// What to do after what was heard.
pub fn draft_with_retry(run: &mut Drafting, heard: Heard) -> (r: Step)
    ensures
        (final(run)@, r@) == draft_next(old(run)@, heard),
{
    match heard {
        Heard::Start => Step::Attempt,
        Heard::Skipped => run.without_draft(),
        Heard::Outcome(Outcome::Drafted(text)) => Step::Done { text, save: run.entered },
        Heard::Outcome(Outcome::ModelUnavailable) => {
            let mut title = "Model \"".to_string();
            title.append(run.model.as_str());
            title.append("\" is unavailable — enter another:");
            Step::AskModel(title)
        },
        Heard::Outcome(Outcome::Failed) => run.without_draft(),
        Heard::Entered(Some(model)) => {
            run.model = model;
            run.entered = true;
            Step::Attempt
        },
        Heard::Entered(None) => run.without_draft(),
    }
}

/// A model is saved only if the user entered it and it made a draft; it is saved
/// where the configured one came from.
pub proof fn only_working_models_are_saved(v: DraftingView, heard: Heard)
    ensures
        draft_next(v, heard).1 matches StepView::Done { text, save } ==> (save ==> v.entered
            && (heard matches Heard::Outcome(Outcome::Drafted(t)) && t@ == text)),
        draft_next(v, heard).0.source == v.source,
        draft_next(v, heard).0.entered ==> v.entered || (heard matches Heard::Entered(Some(_))),
{
}

/// Drafting never stands in the way: whatever is not a draft or a model that can be
/// replaced goes on with the fallback.
pub proof fn drafting_never_blocks(v: DraftingView, heard: Heard)
    requires
        heard is Skipped || (heard matches Heard::Outcome(Outcome::Failed)) || (
        heard matches Heard::Entered(None)),
    ensures
        draft_next(v, heard).1 == (StepView::Done { text: v.fallback, save: false }),
{
}

/// How drafting goes: with the model at hand; a draft is gone on with; where the model
/// is not available, another is asked for, and that is tried next.
pub proof fn drafting(v: DraftingView, text: String, model: String)
    ensures
        draft_next(v, Heard::Start).1 == StepView::Attempt,
        draft_next(v, Heard::Start).0 == v,
        draft_next(v, Heard::Outcome(Outcome::Drafted(text))).1 == (StepView::Done {
            text: text@,
            save: v.entered,
        }),
        draft_next(v, Heard::Outcome(Outcome::ModelUnavailable)).1 == StepView::AskModel(
            "Model \""@ + v.model + "\" is unavailable — enter another:"@,
        ),
        draft_next(v, Heard::Outcome(Outcome::ModelUnavailable)).0 == v,
        ({
            let (w, step) = draft_next(v, Heard::Entered(Some(model)));
            &&& step == StepView::Attempt
            &&& w.model == model@
            &&& w.fallback == v.fallback && w.source == v.source
            &&& draft_next(w, Heard::Outcome(Outcome::Drafted(text))).1 == (StepView::Done {
                text: text@,
                save: true,
            })
        }),
{
}

/// A commit message is drafted from the diff and the message that there is, and a pull
/// request from its diff: under the instructions for each.
pub proof fn prompts_follow_what_is_drafted<'a>(diff: &'a str, existing: &'a str)
    ensures
        (Draft::Commit { diff, existing }).prompt() == commit_prompt(diff@, existing@),
        (Draft::Pr { diff }).prompt() == pr_prompt(diff@),
{
}

} // verus!
