use vcs_flow_commit::ai::{
    build_commit_prompt, build_pr_prompt, classify, generate, generate_pr, is_model_unavailable,
    sanitize, truncate, CopilotRun, Outcome, DIFF_LIMIT, PROMPT_PREAMBLE, PR_PROMPT_PREAMBLE,
};
use vcs_flow_commit::ai_loop::{draft_with_retry, Draft, Drafting, Heard, Step};
use vcs_flow_commit::settings::{ModelSource, DEFAULT_MODEL};

#[test]
fn prompt_includes_existing_description_as_context() {
    let p = build_commit_prompt("diff body", "  WIP: refactor parser  ");
    assert!(p.starts_with(PROMPT_PREAMBLE));
    assert!(p.contains("Current draft description"));
    assert!(p.contains("WIP: refactor parser"));
    assert!(p.trim_end().ends_with("diff body"));
}

#[test]
fn prompt_omits_description_block_when_empty() {
    let p = build_commit_prompt("diff body", "   ");
    assert!(!p.contains("Current draft description"));
    assert!(p.ends_with("diff body"));
}

#[test]
fn pr_prompt_is_preamble_plus_truncated_diff() {
    let p = build_pr_prompt("diff body");
    assert!(p.starts_with(PR_PROMPT_PREAMBLE));
    assert!(p.ends_with("diff body"));
    assert!(!p.contains("Current draft description"));
    let long = "x".repeat(DIFF_LIMIT + 100);
    assert!(build_pr_prompt(&long).ends_with("... (truncated)"));
}

#[test]
fn truncate_marks_cut_and_respects_char_boundary() {
    let short = "abc";
    assert_eq!(truncate(short, 8000), "abc");
    let text = "é".repeat(20);
    let out = truncate(&text, 9);
    assert!(out.ends_with("... (truncated)"));
    assert!(out.starts_with("éééé"));
}

#[test]
fn truncate_keeps_what_fits_exactly() {
    assert_eq!(truncate("éé", 4), "éé");
    assert_eq!(truncate("éé", 3), "é\n... (truncated)");
    assert_eq!(truncate("abc", 0), "\n... (truncated)");
    assert_eq!(truncate("", 0), "");
}

#[test]
fn sanitize_strips_coauthor_trailer_and_trims() {
    let raw = "Fix the parser bug\n\nHandle empty input.\nCo-authored-by: Copilot <x@y.z>\n";
    assert_eq!(
        sanitize(raw).unwrap(),
        "Fix the parser bug\n\nHandle empty input."
    );
}

#[test]
fn sanitize_returns_none_for_blank() {
    assert!(sanitize("   \n  ").is_none());
    assert!(sanitize("Co-authored-by: only <a@b.c>").is_none());
}

#[test]
fn sanitize_drops_trailers_wherever_they_stand() {
    assert_eq!(
        sanitize("  CO-AUTHORED-BY: a\nTitle\nco-authored-by: b\nBody").unwrap(),
        "Title\nBody"
    );
}

#[test]
fn detects_model_unavailable_but_not_generic_errors() {
    assert!(is_model_unavailable(
        "Error: Model \"bogus\" from --model flag is not available."
    ));
    assert!(!is_model_unavailable("Error: authentication required"));
    assert!(!is_model_unavailable("Error: network unreachable"));
    assert!(!is_model_unavailable("Error: service is not available"));
}

#[test]
fn requests_carry_the_prompt_and_the_model() {
    let prompt = build_commit_prompt("diff body", "");
    assert_eq!(
        generate("diff body", "", "-m1"),
        vec!["-p", prompt.as_str(), "-s", "--no-auto-update", "--effort", "medium", "--model=-m1"]
    );
    let prompt = build_pr_prompt("diff body");
    assert_eq!(
        generate_pr("diff body", "m2"),
        vec!["-p", prompt.as_str(), "-s", "--no-auto-update", "--effort", "medium", "--model=m2"]
    );
}

#[test]
fn drafts_choose_their_request() {
    let c = Draft::Commit { diff: "d", existing: "e" };
    assert_eq!(c.attempt("m"), generate("d", "e", "m"));
    let p = Draft::Pr { diff: "d" };
    assert_eq!(p.attempt("m"), generate_pr("d", "m"));
}

fn exited(success: bool, stdout: &str, stderr: &str) -> CopilotRun {
    CopilotRun::Exited { success, stdout: stdout.into(), stderr: stderr.into() }
}

#[test]
fn outcomes_follow_the_run() {
    assert!(matches!(classify(&CopilotRun::NotStarted), Outcome::Failed));
    assert!(matches!(classify(&CopilotRun::TimedOut), Outcome::Failed));
    assert!(matches!(classify(&exited(true, "  Title \n", "")), Outcome::Drafted(t) if t == "Title"));
    assert!(matches!(classify(&exited(true, "  \n", "")), Outcome::Failed));
    let e = "Error: Model \"bogus\" from --model flag is not available.";
    assert!(matches!(classify(&exited(false, "", e)), Outcome::ModelUnavailable));
    assert!(matches!(classify(&exited(false, "", "Error: no network")), Outcome::Failed));
}

#[test]
fn an_entered_model_is_saved_once_it_works() {
    let mut run = Drafting::new(DEFAULT_MODEL.into(), ModelSource::Default, "old");
    assert!(matches!(draft_with_retry(&mut run, Heard::Start), Step::Attempt));
    let step = draft_with_retry(&mut run, Heard::Outcome(Outcome::ModelUnavailable));
    assert!(matches!(step, Step::AskModel(q) if q.contains(DEFAULT_MODEL)));
    let step = draft_with_retry(&mut run, Heard::Entered(Some("better".into())));
    assert!(matches!(step, Step::Attempt));
    assert_eq!(run.model(), "better");
    let step = draft_with_retry(&mut run, Heard::Outcome(Outcome::Drafted("Title".into())));
    assert!(matches!(step, Step::Done { text, save: true } if text == "Title"));
    assert!(matches!(run.source(), ModelSource::Default));
}

#[test]
fn a_draft_that_fails_leaves_the_text_at_hand() {
    let mut run = Drafting::new("m".into(), ModelSource::User, "old");
    draft_with_retry(&mut run, Heard::Start);
    let step = draft_with_retry(&mut run, Heard::Outcome(Outcome::Failed));
    assert!(matches!(step, Step::Done { text, save: false } if text == "old"));

    let mut run = Drafting::new("m".into(), ModelSource::User, "old");
    draft_with_retry(&mut run, Heard::Start);
    let step = draft_with_retry(&mut run, Heard::Skipped);
    assert!(matches!(step, Step::Done { text, save: false } if text == "old"));

    let mut run = Drafting::new("m".into(), ModelSource::User, "old");
    draft_with_retry(&mut run, Heard::Start);
    draft_with_retry(&mut run, Heard::Outcome(Outcome::ModelUnavailable));
    let step = draft_with_retry(&mut run, Heard::Entered(None));
    assert!(matches!(step, Step::Done { text, save: false } if text == "old"));
}
