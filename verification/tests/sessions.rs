use vcs_flow_commit::model::{BackendKind, ChangeKind, FileChange, HunkInfo, Target};
use vcs_flow_commit::paths::PathMap;
use vcs_flow_commit::session::{
    conventional_types, has_conventional_prefix, interactive, message_header, run, selected_diff,
    success_line, where_to, Event, Move, Plan, Reply, Round, Session, Step,
};
use vcs_flow_commit::tree::TreeModel;
use vcs_flow_commit::ui::filter::Pick;
use vcs_flow_commit::ui::select::SelectResult;
use vcs_flow_commit::vcs::Snapshot;

#[test]
fn recognises_conventional_prefixes() {
    assert!(has_conventional_prefix("feat: add picker"));
    assert!(has_conventional_prefix("fix(ui): clamp scroll\n\nbody"));
    assert!(has_conventional_prefix("refactor!: drop old API"));
    assert!(has_conventional_prefix("chore(deps)!: bump toolkit"));
    assert!(!has_conventional_prefix("Add picker"));
    assert!(!has_conventional_prefix("feature: not a known type"));
    assert!(!has_conventional_prefix("feat add picker"));
    assert!(!has_conventional_prefix(""));
}

#[test]
fn every_type_is_recognised() {
    for t in conventional_types() {
        assert!(has_conventional_prefix(&format!("{t}: x")), "{t}");
    }
    assert!(!has_conventional_prefix("plain\nfeat: second line"));
}

fn target(label: &str) -> Target {
    Target { label: label.into(), revision: None }
}

fn plan(label: &str, amend: bool) -> Plan {
    Plan { target: target(label), amend, message: "Title".into() }
}

#[test]
fn places_and_headings() {
    assert_eq!(where_to(BackendKind::Git, &target("main")), "branch main");
    assert_eq!(where_to(BackendKind::Jj, &target("feat")), "bookmark feat");
    assert_eq!(where_to(BackendKind::Jj, &target("")), "working-copy change");
    assert_eq!(message_header(BackendKind::Git, &target("main"), true), "Amend message — branch main");
    assert_eq!(
        message_header(BackendKind::Jj, &target(""), false),
        "Commit message — working-copy change"
    );
    assert_eq!(
        success_line(BackendKind::Git, &plan("main", false), 1),
        "Committed 1 file to branch main."
    );
    assert_eq!(
        success_line(BackendKind::Jj, &plan("feat", true), 12),
        "Amended 12 files to bookmark feat."
    );
}

fn hunk(text: &str) -> HunkInfo {
    HunkInfo { header: "@@".into(), text: text.into() }
}

fn change(path: &str) -> FileChange {
    FileChange { path: path.into(), old_path: None, kind: ChangeKind::Modified }
}

#[test]
fn the_draft_sees_what_is_selected() {
    let mut diffs = PathMap::new();
    let mut hunks = PathMap::new();
    for p in ["a.rs", "b.rs", "c.rs"] {
        diffs.insert(p.to_string(), format!("diff of {p}"));
    }
    hunks.insert("b.rs".to_string(), vec![hunk("h0\n"), hunk("h1\n"), hunk("h2\n")]);
    let snapshot = Snapshot {
        changes: vec![change("a.rs"), change("b.rs"), change("c.rs")],
        diffs,
        hunks,
    };
    let mut tree = TreeModel::build(&snapshot.changes);
    tree.with_hunks(&snapshot.changes, &snapshot.hunks);
    assert_eq!(selected_diff(&snapshot, &tree), "diff of a.rs\ndiff of b.rs\ndiff of c.rs");
    tree.toggle("b.rs#1");
    tree.toggle("c.rs");
    assert_eq!(
        selected_diff(&snapshot, &tree),
        "diff of a.rs\ndiff --git a/b.rs b/b.rs (selected hunks)\nh0\nh2\n"
    );
    tree.set_all(false);
    assert_eq!(selected_diff(&snapshot, &tree), "");
}

fn selected(confirmed: bool, amend: bool) -> Reply {
    Reply::Selected(SelectResult { confirmed, amend })
}

fn edited(step: Step) -> (String, String) {
    match step {
        Step::Edit { heading, text } => (heading, text),
        other => panic!("{other:?}"),
    }
}

#[test]
fn a_round_makes_a_plan() {
    let mut r = Round::new(BackendKind::Git, vec![target("main")]);
    assert!(matches!(interactive(&mut r, Reply::Start), Step::Select));
    assert_eq!(r.target().label, "main");
    assert!(matches!(interactive(&mut r, selected(true, false)), Step::ReadMessage { amend: false }));
    let step = interactive(&mut r, Reply::Existing("old".into()));
    assert!(matches!(step, Step::Draft { existing } if existing == "old"));
    let step = interactive(&mut r, Reply::Drafted { text: "Title".into(), conventional: false });
    assert_eq!(edited(step), ("Commit message — branch main".into(), "Title".into()));
    match interactive(&mut r, Reply::Edited(Some("Title\n\nBody".into()))) {
        Step::Done(p) => {
            assert_eq!(p.target.label, "main");
            assert!(!p.amend);
            assert_eq!(p.message, "Title\n\nBody");
        }
        other => panic!("{other:?}"),
    }
}

#[test]
fn an_amend_keeps_the_message() {
    let mut r = Round::new(BackendKind::Git, vec![target("main")]);
    interactive(&mut r, Reply::Start);
    assert!(matches!(interactive(&mut r, selected(true, true)), Step::ReadMessage { amend: true }));
    let step = interactive(&mut r, Reply::Existing("old".into()));
    assert_eq!(edited(step), ("Amend message — branch main".into(), "old".into()));
}

#[test]
fn there_is_no_amend_without_a_bookmark() {
    let mut r = Round::new(BackendKind::Jj, vec![target("feat"), target("")]);
    assert!(matches!(interactive(&mut r, Reply::Start), Step::PickTarget));
    assert!(matches!(interactive(&mut r, Reply::Target(Some(1))), Step::Select));
    assert!(matches!(interactive(&mut r, selected(true, true)), Step::ReadMessage { amend: false }));
    let mut r = Round::new(BackendKind::Jj, vec![target("feat"), target("")]);
    interactive(&mut r, Reply::Start);
    interactive(&mut r, Reply::Target(Some(0)));
    assert!(matches!(interactive(&mut r, selected(true, true)), Step::ReadMessage { amend: true }));
}

#[test]
fn a_type_is_asked_for_where_it_is_missing() {
    let mut r = Round::new(BackendKind::Git, vec![target("main")]);
    interactive(&mut r, Reply::Start);
    interactive(&mut r, selected(true, false));
    interactive(&mut r, Reply::Existing("".into()));
    let step = interactive(&mut r, Reply::Drafted { text: "Add x".into(), conventional: true });
    assert!(
        matches!(step, Step::PickType { title, types } if title == "Conventional Commit type (Esc — none):" && types.len() == 11)
    );
    let step = interactive(&mut r, Reply::Type(Pick::Existing("feat".into())));
    assert_eq!(edited(step).1, "feat: Add x");
    let step = interactive(&mut r, Reply::Type(Pick::Cancel));
    assert_eq!(edited(step).1, "Add x");
    let step = interactive(&mut r, Reply::Drafted { text: "fix: y".into(), conventional: true });
    assert_eq!(edited(step).1, "fix: y");
}

#[test]
fn rounds_end_without_a_plan() {
    let mut r = Round::new(BackendKind::Git, vec![]);
    let step = interactive(&mut r, Reply::Start);
    assert!(matches!(step, Step::Failed(e) if e == "no commit target found"));
    let mut r = Round::new(BackendKind::Jj, vec![target("a"), target("b")]);
    interactive(&mut r, Reply::Start);
    assert!(matches!(interactive(&mut r, Reply::Target(None)), Step::Cancelled));
    interactive(&mut r, Reply::Target(Some(0)));
    assert!(matches!(interactive(&mut r, selected(false, false)), Step::Cancelled));
    assert!(matches!(interactive(&mut r, Reply::Edited(None)), Step::Cancelled));
    let step = interactive(&mut r, Reply::Edited(Some(" \n".into())));
    assert!(matches!(step, Step::Failed(e) if e == "empty commit message — nothing committed"));
    let step = interactive(&mut r, Reply::Error("gone".into()));
    assert!(matches!(step, Step::Failed(e) if e == "gone"));
}

fn shot(changed: usize) -> Event {
    Event::Snapshot { changed, terminal: true }
}

#[test]
fn a_session_goes_on_while_there_are_changes() {
    let mut s = Session::new(BackendKind::Git, true);
    assert!(matches!(run(&mut s, Event::Start), Move::TakeSnapshot { notice } if notice.is_empty()));
    assert!(matches!(run(&mut s, shot(3)), Move::Interact { amend: true }));
    assert!(matches!(run(&mut s, Event::Planned(Some(plan("main", true)))), Move::Commit));
    assert_eq!(s.plan().unwrap().message, "Title");
    let step = run(&mut s, Event::Committed { files: 2 });
    assert!(
        matches!(step, Move::TakeSnapshot { notice } if notice == "Amended 2 files to branch main.")
    );
    let step = run(&mut s, shot(1));
    assert!(matches!(step, Move::AskMore(q) if q == "1 changed file remain — commit more?"));
    let step = run(&mut s, Event::Answer(Some("y\n".into())));
    assert!(matches!(step, Move::Interact { amend: false }));
    run(&mut s, Event::Planned(Some(plan("dev", false))));
    run(&mut s, Event::Committed { files: 1 });
    let step = run(&mut s, shot(0));
    assert!(
        matches!(step, Move::Offer { notice, target, amended: false, .. } if notice == "Nothing left to commit." && target.label == "dev")
    );
}

#[test]
fn later_failures_keep_what_was_committed() {
    let mut s = Session::new(BackendKind::Git, false);
    run(&mut s, shot(3));
    run(&mut s, Event::Planned(Some(plan("main", true))));
    run(&mut s, Event::Committed { files: 1 });
    run(&mut s, shot(2));
    run(&mut s, Event::Answer(Some("yes".into())));
    run(&mut s, Event::Planned(Some(plan("main", false))));
    let step = run(&mut s, Event::CommitFailed("hook".into()));
    assert!(
        matches!(step, Move::Offer { alarm, amended: true, .. } if alarm == "commit: hook\n(the session's earlier commits are intact — continuing to the push offer)")
    );
    assert!(matches!(run(&mut s, Event::Planned(None)), Move::Offer { amended: true, .. }));
    assert!(matches!(run(&mut s, Event::Answer(Some("\n".into()))), Move::Offer { .. }));
    assert!(matches!(run(&mut s, Event::Answer(None)), Move::Offer { .. }));
}

#[test]
fn sessions_end_without_a_commit() {
    let mut s = Session::new(BackendKind::Git, false);
    let step = run(&mut s, shot(0));
    assert!(matches!(step, Move::Done(t) if t == "Nothing to commit — no changed tracked files."));
    let step = run(&mut s, Event::Snapshot { changed: 1, terminal: false });
    assert!(matches!(step, Move::Failed(e) if e == "commit is interactive; run it in a terminal"));
    let step = run(&mut s, Event::Planned(None));
    assert!(matches!(step, Move::Done(t) if t == "Aborted — nothing committed."));
    run(&mut s, Event::Planned(Some(plan("main", false))));
    let step = run(&mut s, Event::CommitFailed("hook".into()));
    assert!(matches!(step, Move::Failed(e) if e == "hook"));
    assert!(matches!(run(&mut s, Event::Error("io".into())), Move::Failed(e) if e == "io"));
}
