use vcs_flow_commit::model::{ChangeKind, FileChange};
use vcs_flow_commit::paths::PathMap;
use vcs_flow_commit::pr::{
    after_push, ask_create, create_pr, create_pr_loop, default_base, dim, list_args, osc8,
    pick_base, picked_base, review_loop, split_title_body, AfterPush, Answer, BaseMenu, CreateRun,
    Creating, Got, Heard, OpenPr, Preparing, Reverts, Reviewing, Said, Seen, Step,
};
use vcs_flow_commit::revert::{retain_unreverted, revert_paths, Reply, Revert, NOTHING};
use vcs_flow_commit::ui::filter::Pick;
use vcs_flow_commit::ui::review::ReviewOutcome;
use vcs_flow_commit::vcs::Snapshot;

fn owned(parts: &[&str]) -> Vec<String> {
    parts.iter().map(|s| s.to_string()).collect()
}

#[test]
fn osc8_wraps_url_with_visible_fallback() {
    let url = "https://github.com/o/r/pull/12";
    assert_eq!(
        osc8(url),
        "\x1b]8;;https://github.com/o/r/pull/12\x1b\\https://github.com/o/r/pull/12\x1b]8;;\x1b\\"
    );
}

#[test]
fn split_title_body_variants() {
    assert_eq!(
        split_title_body("Add feature"),
        ("Add feature".into(), String::new())
    );
    assert_eq!(
        split_title_body("Add feature\n\nDoes things.\n- one\n"),
        ("Add feature".into(), "Does things.\n- one".into())
    );
    assert_eq!(
        split_title_body("Add feature\nDoes things."),
        ("Add feature".into(), "Does things.".into())
    );
    assert_eq!(
        split_title_body("Add feature\r\n\r\nBody."),
        ("Add feature".into(), "Body.".into())
    );
    assert_eq!(split_title_body(""), (String::new(), String::new()));
    assert_eq!(
        split_title_body("  Add feature  "),
        ("Add feature".into(), String::new())
    );
}

fn change(path: &str, old: Option<&str>, kind: ChangeKind) -> FileChange {
    FileChange { path: path.into(), old_path: old.map(|s| s.to_string()), kind }
}

fn snapshot() -> Snapshot {
    Snapshot {
        changes: vec![
            change("a.rs", None, ChangeKind::Modified),
            change("new.rs", Some("old.rs"), ChangeKind::Renamed),
            change("keep.rs", None, ChangeKind::Added),
        ],
        diffs: PathMap::new(),
        hunks: PathMap::new(),
    }
}

#[test]
fn retain_unreverted_drops_by_new_and_old_path() {
    let mut snap = snapshot();
    retain_unreverted(&mut snap, &owned(&["a.rs", "old.rs"]));
    let left: Vec<&str> = snap.changes.iter().map(|c| c.path.as_str()).collect();
    assert_eq!(left, vec!["keep.rs"]);
}

#[test]
fn only_github_remotes_are_asked_about() {
    let mut run = AfterPush::new("feat");
    assert!(matches!(after_push(&mut run, Heard::Start), Step::FindUrl));
    assert!(matches!(after_push(&mut run, Heard::Url(None)), Step::Skip));
    let elsewhere = Heard::Url(Some("https://example.com/o/r.git".into()));
    assert!(matches!(after_push(&mut run, elsewhere), Step::Skip));
    let github = Heard::Url(Some("git@github.com:o/r.git".into()));
    assert!(matches!(after_push(&mut run, github), Step::CheckAuth));
    assert!(matches!(after_push(&mut run, Heard::Auth(None)), Step::Notice(s) if s.contains("unavailable")));
    assert!(matches!(after_push(&mut run, Heard::Auth(Some(false))), Step::Notice(s) if s.contains("gh auth login")));
    assert!(matches!(after_push(&mut run, Heard::Auth(Some(true))), Step::FindRepo));
    assert!(matches!(after_push(&mut run, Heard::Repo(None)), Step::Skip));
}

#[test]
fn open_pull_requests_are_listed() {
    let mut run = AfterPush::new("feat");
    after_push(&mut run, Heard::Repo(Some("trunk".into())));
    let pr = OpenPr {
        number: 12,
        title: "Fix login".into(),
        base: "main".into(),
        url: "u".into(),
    };
    let text = match after_push(&mut run, Heard::Open(vec![pr])) {
        Step::Tell(s) => s,
        other => panic!("{other:?}"),
    };
    assert_eq!(
        text,
        format!("\nOpen pull request for 'feat':\n  #12 Fix login  → main\n      {}", osc8("u"))
    );
    assert!(matches!(after_push(&mut run, Heard::Open(vec![])), Step::Create(b) if b == "trunk"));
    let mut run = AfterPush::new("feat");
    after_push(&mut run, Heard::Repo(Some("".into())));
    assert!(matches!(after_push(&mut run, Heard::Open(vec![])), Step::Create(b) if b == "main"));
    assert_eq!(default_base(""), "main");
    assert_eq!(default_base("dev"), "dev");
    assert_eq!(list_args("feat")[3], "feat");
    assert_eq!(dim("x"), "\x1b[2m(x)\x1b[0m");
}

#[test]
fn answers_to_the_offer() {
    assert_eq!(ask_create(Some("\n")), Some(Answer::Yes));
    assert_eq!(ask_create(Some(" YES\n")), Some(Answer::Yes));
    assert_eq!(ask_create(Some("n\n")), Some(Answer::No));
    assert_eq!(ask_create(Some("b\n")), Some(Answer::Base));
    assert_eq!(ask_create(Some("Diff\n")), Some(Answer::Diff));
    assert_eq!(ask_create(Some("what\n")), None);
    assert_eq!(ask_create(None), Some(Answer::No));
}

fn question(step: Creating) -> (String, bool, String) {
    match step {
        Creating::Ask { report, alarm, question } => (report, alarm, question),
        other => panic!("{other:?}"),
    }
}

#[test]
fn the_offer_is_made_until_it_is_settled() {
    let mut run = CreateRun::new("feat", "main".into());
    let (report, alarm, text) = question(create_pr_loop(&mut run, Said::Start));
    assert_eq!(report, "\nNo open pull request for 'feat'.");
    assert!(!alarm);
    assert_eq!(
        text,
        "Create a pull request 'feat' → 'main'?  [Y]es / [n]o / [b]ase / [d]iff: "
    );
    let step = create_pr_loop(&mut run, Said::Answer(Some("b\n".into())));
    assert!(matches!(step, Creating::PickBase));
    let (_, _, text) = question(create_pr_loop(&mut run, Said::Base(Some("dev".into()))));
    assert!(text.contains("'feat' → 'dev'"));
    assert_eq!(run.base(), "dev");
    let (_, _, text) = question(create_pr_loop(&mut run, Said::Base(None)));
    assert!(text.contains("'feat' → 'dev'"));
    let (report, alarm, _) = question(create_pr_loop(&mut run, Said::BaseFailed("x".into())));
    assert_eq!((report.as_str(), alarm), ("Base picker unavailable: x", true));
    let step = create_pr_loop(&mut run, Said::Answer(Some("d\n".into())));
    assert!(matches!(step, Creating::Review));
    let (report, _, _) = question(create_pr_loop(&mut run, Said::ReviewFailed("y".into())));
    assert_eq!(report, "Diff review unavailable: y");
    question(create_pr_loop(&mut run, Said::Reviewed));
    question(create_pr_loop(&mut run, Said::Answer(Some("?\n".into()))));
    let step = create_pr_loop(&mut run, Said::Answer(Some("\n".into())));
    assert!(matches!(step, Creating::Create));
    assert!(matches!(create_pr_loop(&mut run, Said::Created), Creating::Done(s) if s.is_empty()));
    let step = create_pr_loop(&mut run, Said::CreateFailed("z".into()));
    assert!(matches!(step, Creating::Done(s) if s == "Could not prepare the pull request: z"));
    let step = create_pr_loop(&mut run, Said::Answer(None));
    assert!(matches!(step, Creating::Done(s) if s.is_empty()));
}

#[test]
fn the_base_is_another_branch() {
    let branches = owned(&["main", "feat", "dev"]);
    match pick_base(&branches, "feat", "main") {
        BaseMenu::Pick { title, branches } => {
            assert_eq!(title, "Choose the PR base branch (current: main):");
            assert_eq!(branches, owned(&["main", "dev"]));
        }
        other => panic!("{other:?}"),
    }
    let menu = pick_base(&owned(&["feat"]), "feat", "main");
    assert!(matches!(menu, BaseMenu::NoOther(s) if s == "No other branch on origin to target."));
    assert_eq!(picked_base(Pick::Existing("dev".into())).as_deref(), Some("dev"));
    assert_eq!(picked_base(Pick::Cancel), None);
    assert_eq!(picked_base(Pick::NewBranch), None);
}

#[test]
fn reverted_files_leave_the_review() {
    let mut snap = snapshot();
    let mut reverts = Reverts::new();
    assert!(reverts.summary().is_none());
    let step = review_loop(&mut snap, &mut reverts, "feat", "main", Seen::Taken);
    assert!(matches!(step, Reviewing::Show));
    let marked = ReviewOutcome::RevertMarked { paths: owned(&["a.rs"]) };
    let step = review_loop(&mut snap, &mut reverts, "feat", "main", Seen::Left(marked));
    assert!(matches!(step, Reviewing::Revert(p) if p == owned(&["a.rs"])));
    let done = Seen::Reverted { paths: owned(&["a.rs"]), backup: "/tmp/1.patch".into() };
    assert!(matches!(review_loop(&mut snap, &mut reverts, "feat", "main", done), Reviewing::Show));
    assert_eq!(snap.changes.len(), 2);
    let done = Seen::Reverted {
        paths: owned(&["new.rs", "old.rs", "keep.rs"]),
        backup: "/tmp/2.patch".into(),
    };
    let step = review_loop(&mut snap, &mut reverts, "feat", "main", done);
    assert!(matches!(step, Reviewing::Done { notice, alarm: false } if notice.is_empty()));
    assert_eq!(
        reverts.summary().unwrap(),
        "Reverted 4 path(s) in the working copy — the pushed branch itself is unchanged.\n\
         Backup patch: /tmp/1.patch\nBackup patch: /tmp/2.patch\n\
         Commit and push to update the branch."
    );
    let mut again = snapshot();
    let step = review_loop(&mut again, &mut reverts, "feat", "main", Seen::Taken);
    assert!(
        matches!(step, Reviewing::Done { notice, .. } if notice == "'feat' has no changes against 'main' left to review.")
    );
}

#[test]
fn a_failed_revert_ends_the_review() {
    let mut snap = snapshot();
    let mut reverts = Reverts::new();
    let step = review_loop(&mut snap, &mut reverts, "f", "m", Seen::RevertFailed("no".into()));
    assert!(
        matches!(step, Reviewing::Done { notice, alarm: true } if notice.starts_with("Revert failed (nothing was changed): no\n("))
    );
    assert!(reverts.summary().is_none());
    let back = Seen::Left(ReviewOutcome::Back);
    let step = review_loop(&mut snap, &mut reverts, "f", "m", back);
    assert!(matches!(step, Reviewing::Done { notice, alarm: false } if notice.is_empty()));
    snap.changes.clear();
    let step = review_loop(&mut snap, &mut reverts, "f", "m", Seen::Taken);
    assert!(matches!(step, Reviewing::Done { notice, .. } if notice == "'f' has no changes against 'm'."));
}

#[test]
fn a_page_is_opened_with_what_was_edited() {
    assert!(matches!(create_pr("feat", "main", Got::Start), Preparing::ReadDiff));
    let step = create_pr("feat", "main", Got::Diff(" \n".into()));
    assert!(
        matches!(step, Preparing::Done(s) if s == "'feat' has no changes against 'main' — nothing to open a PR for.")
    );
    assert!(matches!(create_pr("feat", "main", Got::Diff("x".into())), Preparing::Draft));
    let step = create_pr("feat", "main", Got::Draft("Title".into()));
    assert!(
        matches!(step, Preparing::Edit { heading, draft } if heading == "Pull request — feat → main  (first line = title)" && draft == "Title")
    );
    let step = create_pr("feat", "main", Got::Edited(None));
    assert!(matches!(step, Preparing::Done(s) if s == "PR creation cancelled."));
    let step = create_pr("feat", "main", Got::Edited(Some("  \nbody".into())));
    assert!(matches!(step, Preparing::Done(s) if s == "Empty PR title — not creating a PR."));
    let step = create_pr("feat", "main", Got::Edited(Some("Title\n\nBody\n".into())));
    let want = owned(&[
        "pr", "create", "--web", "--head", "feat", "--base", "main", "--title", "Title", "--body",
        "Body",
    ]);
    assert!(matches!(step, Preparing::Open { args, .. } if args == want));
    let step = create_pr("f", "m", Got::Opened { success: true, stderr: "".into() });
    assert!(matches!(step, Preparing::Done(s) if s.is_empty()));
    let step = create_pr("f", "m", Got::Opened { success: false, stderr: " \n".into() });
    assert!(matches!(step, Preparing::Notice(s) if s == "could not open the PR page: (no output)"));
    let step = create_pr("f", "m", Got::NotOpened("gone".into()));
    assert!(matches!(step, Preparing::Notice(s) if s == "could not open the PR page: gone"));
    assert!(matches!(create_pr("f", "m", Got::Error("e".into())), Preparing::Failed(s) if s == "e"));
}

#[test]
fn a_revert_is_backed_up_first() {
    let mut run = Revert::new("main", "feat", &owned(&["a.rs"]), "/tmp/r.patch".into());
    let step = revert_paths(&mut run, Reply::Finished);
    let want = owned(&[
        "diff",
        "origin/main...origin/feat",
        "--no-color",
        "--no-ext-diff",
        "--no-textconv",
        "--binary",
        "-M",
        "--output=/tmp/r.patch",
        "--",
        "a.rs",
    ]);
    assert!(matches!(step, vcs_flow_commit::revert::Step::Git(a) if a == want));
    let step = revert_paths(&mut run, Reply::Finished);
    assert!(matches!(step, vcs_flow_commit::revert::Step::Size(p) if p == "/tmp/r.patch"));
    let step = revert_paths(&mut run, Reply::Bytes(9));
    assert!(
        matches!(step, vcs_flow_commit::revert::Step::Git(a) if a == owned(&["apply", "-R", "/tmp/r.patch"]))
    );
    let step = revert_paths(&mut run, Reply::Finished);
    assert!(matches!(step, vcs_flow_commit::revert::Step::Done(p) if p == "/tmp/r.patch"));
}

#[test]
fn an_empty_backup_is_removed() {
    let mut run = Revert::new("main", "feat", &owned(&["a.rs"]), "/tmp/r.patch".into());
    revert_paths(&mut run, Reply::Finished);
    revert_paths(&mut run, Reply::Finished);
    let step = revert_paths(&mut run, Reply::Bytes(0));
    assert!(matches!(step, vcs_flow_commit::revert::Step::Remove(p) if p == "/tmp/r.patch"));
    let step = revert_paths(&mut run, Reply::Finished);
    assert!(matches!(step, vcs_flow_commit::revert::Step::Failed(e) if e == NOTHING));

    let mut run = Revert::new("main", "feat", &owned(&["a.rs"]), "/tmp/r.patch".into());
    revert_paths(&mut run, Reply::Finished);
    revert_paths(&mut run, Reply::Error("no diff".into()));
    let step = revert_paths(&mut run, Reply::Finished);
    assert!(matches!(step, vcs_flow_commit::revert::Step::Failed(e) if e == "no diff"));
}
