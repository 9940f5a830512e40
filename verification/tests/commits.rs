use vcs_flow_commit::commit::{
    commit, filesets, message_for, tidy_message, CommitRun, MessageSource, Reply, Step,
};
use vcs_flow_commit::model::{BackendKind, Target};

fn owned(parts: &[&str]) -> Vec<String> {
    parts.iter().map(|s| s.to_string()).collect()
}

fn target(label: &str) -> Target {
    Target { label: label.into(), revision: None }
}

fn out(text: &str) -> Reply {
    Reply::Out(text.into())
}

fn run(kind: BackendKind, paths: &[&str], amend: bool, label: &str) -> CommitRun {
    CommitRun::new(kind, owned(paths), vec![], "Title".into(), amend, &target(label))
}

#[test]
fn filesets_quote_paths() {
    assert_eq!(
        filesets(&owned(&["a b.rs", "q\"x", "back\\slash"])),
        owned(&["file:\"a b.rs\"", "file:\"q\\\"x\"", "file:\"back\\\\slash\""])
    );
}

#[test]
fn messages_come_from_the_commit_that_is_amended() {
    let t = target("feat");
    assert!(matches!(message_for(BackendKind::Git, &t, false), MessageSource::Blank));
    assert!(matches!(message_for(BackendKind::Git, &t, true), MessageSource::LastCommit));
    let args = |revset: &str| owned(&["log", "-r", revset, "--no-graph", "-T", "description"]);
    assert!(
        matches!(message_for(BackendKind::Jj, &t, true), MessageSource::Description(a) if a == args("feat"))
    );
    assert!(
        matches!(message_for(BackendKind::Jj, &t, false), MessageSource::Description(a) if a == args("@"))
    );
    assert!(
        matches!(message_for(BackendKind::Jj, &target(""), true), MessageSource::Description(a) if a == args("@"))
    );
    assert_eq!(tidy_message("Title\n\nBody\n\n"), "Title\n\nBody");
}

#[test]
fn git_adds_untracked_files_that_are_selected() {
    let mut r = run(BackendKind::Git, &["new.rs", "old.rs"], false, "main");
    let step = commit(&mut r, out(""));
    assert!(
        matches!(step, Step::Git(a) if a == owned(&["status", "--porcelain=v1", "-z", "--untracked-files=all"]))
    );
    let step = commit(&mut r, out("?? new.rs\0?? other.rs\0 M old.rs\0"));
    assert!(matches!(step, Step::Git(a) if a == owned(&["add", "--intent-to-add", "--", "new.rs"])));
    let step = commit(&mut r, out(""));
    assert!(
        matches!(step, Step::CommitPaths { paths, message, amend: false } if paths == owned(&["new.rs", "old.rs"]) && message == "Title")
    );
    assert!(matches!(commit(&mut r, out("")), Step::Done));
}

#[test]
fn a_failed_git_commit_takes_back_what_it_added() {
    let mut r = run(BackendKind::Git, &["new.rs"], false, "main");
    commit(&mut r, out(""));
    commit(&mut r, out("?? new.rs\0"));
    commit(&mut r, out(""));
    let step = commit(&mut r, Reply::Error("hook failed".into()));
    assert!(matches!(step, Step::Git(a) if a == owned(&["reset", "-q", "--", "new.rs"])));
    let step = commit(&mut r, Reply::Error("ignored".into()));
    assert!(matches!(step, Step::Failed(e) if e == "hook failed"));
}

#[test]
fn a_failed_git_commit_that_added_nothing_just_fails() {
    let mut r = run(BackendKind::Git, &["old.rs"], false, "main");
    commit(&mut r, out(""));
    assert!(matches!(commit(&mut r, out(" M old.rs\0")), Step::CommitPaths { .. }));
    let step = commit(&mut r, Reply::Error("hook failed".into()));
    assert!(matches!(step, Step::Failed(e) if e == "hook failed"));
}

#[test]
fn hunks_are_committed_by_themselves() {
    let hunks = vec![("b.rs".to_string(), vec![0, 2])];
    let mut r = CommitRun::new(
        BackendKind::Git,
        owned(&["a.rs"]),
        hunks.clone(),
        "Title".into(),
        true,
        &target("main"),
    );
    let step = commit(&mut r, out(""));
    assert!(
        matches!(step, Step::Partial { whole, partial, message, amend: true } if whole == owned(&["a.rs"]) && partial == hunks && message == "Title")
    );
    assert!(matches!(commit(&mut r, out("")), Step::Done));
}

#[test]
fn jj_commits_move_the_bookmark() {
    let mut r = run(BackendKind::Jj, &["a.rs"], false, "feat");
    let step = commit(&mut r, out(""));
    assert!(
        matches!(step, Step::CommitFilesets { paths, message } if paths == owned(&["a.rs"]) && message == "Title")
    );
    let step = commit(&mut r, out(""));
    assert!(matches!(step, Step::MoveBookmark { name, to } if name == "feat" && to == "@-"));
    assert!(matches!(commit(&mut r, out("")), Step::Done));
}

#[test]
fn jj_commits_without_a_bookmark_move_none() {
    let mut r = run(BackendKind::Jj, &["a.rs"], true, "");
    assert!(matches!(commit(&mut r, out("")), Step::CommitFilesets { .. }));
    assert!(matches!(commit(&mut r, out("")), Step::Done));
}

#[test]
fn jj_amends_by_squashing_into_the_bookmark() {
    let mut r = run(BackendKind::Jj, &["a.rs"], true, "feat");
    let step = commit(&mut r, out(""));
    assert!(
        matches!(step, Step::Jj(a) if a == owned(&["squash", "--from", "@", "--into", "feat", "--use-destination-message", "file:\"a.rs\""]))
    );
    let step = commit(&mut r, out(""));
    assert!(
        matches!(step, Step::Jj(a) if a == owned(&["log", "-r", "feat", "--no-graph", "-T", "description"]))
    );
    let step = commit(&mut r, out("Other\n"));
    assert!(matches!(step, Step::Jj(a) if a == owned(&["describe", "-r", "feat", "-m", "Title"])));
    assert!(matches!(commit(&mut r, out("")), Step::Done));
}

#[test]
fn an_unchanged_description_is_left_alone() {
    let mut r = run(BackendKind::Jj, &["a.rs"], true, "feat");
    commit(&mut r, out(""));
    commit(&mut r, out(""));
    assert!(matches!(commit(&mut r, out("Title\n")), Step::Done));
}
