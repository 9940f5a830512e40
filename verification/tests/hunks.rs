use vcs_flow_commit::partial::{
    commit_partial_steps, or_no_output, plumb, plumb_probe, PartialCommit, Ran, Reply, Step,
};

const PATCH: &[u8] =
    b"--- a/f.txt\n+++ b/f.txt\n@@ -1 +1 @@\n-start\n+START\n@@ -23 +23 @@\n-end\n+END\n";
const FIRST: &[u8] = b"--- a/f.txt\n+++ b/f.txt\n@@ -1 +1 @@\n-start\n+START\n";

fn owned(parts: &[&str]) -> Vec<String> {
    parts.iter().map(|s| s.to_string()).collect()
}

fn out(text: &str) -> Reply {
    Reply::Out(text.into())
}

fn run(whole: &[&str], partial: Vec<(String, Vec<usize>)>, amend: bool) -> PartialCommit {
    PartialCommit::new(owned(whole), partial, "partial commit".into(), amend, "/tmp/".into(), "7-1".into())
}

fn plumbed(step: &Step) -> Vec<String> {
    match step {
        Step::Plumb(a) => a.clone(),
        other => panic!("{other:?}"),
    }
}

/// The next step, which is to run a command.
fn next(r: &mut PartialCommit, reply: Reply) -> Vec<String> {
    plumbed(&commit_partial_steps(r, reply))
}

#[test]
fn selected_hunks_and_whole_files_are_committed() {
    let mut r = run(&["w.txt"], vec![("f.txt".into(), vec![0])], false);
    let step = commit_partial_steps(&mut r, Reply::Finished);
    assert!(matches!(step, Step::Probe(a) if a == owned(&["rev-parse", "--verify", "-q", "HEAD"])));
    assert_eq!(next(&mut r, Reply::Probed(Some("t1p".into()))), owned(&["read-tree", "HEAD"]));
    assert_eq!(next(&mut r, out("")), owned(&["add", "-A", "--", "w.txt"]));
    let diff = next(&mut r, out(""));
    assert_eq!(diff.last().unwrap(), "f.txt");
    let file = match commit_partial_steps(&mut r, out("")) {
        Step::Read(p) => p,
        other => panic!("{other:?}"),
    };
    assert!(file.starts_with("/tmp/"));
    assert!(diff.contains(&format!("--output={file}")));
    let patch = match commit_partial_steps(&mut r, Reply::Bytes(PATCH.to_vec())) {
        Step::Write(p, bytes) => {
            assert_eq!(bytes, FIRST);
            p
        }
        other => panic!("{other:?}"),
    };
    assert_ne!(patch, file);
    let apply = next(&mut r, Reply::Finished);
    assert_eq!(apply[0], "apply");
    assert!(apply.contains(&"--cached".to_string()));
    assert_eq!(apply.last().unwrap(), &patch);
    let step = commit_partial_steps(&mut r, out(""));
    assert!(matches!(step, Step::Remove(p) if p == patch));
    let step = commit_partial_steps(&mut r, Reply::Finished);
    assert!(matches!(step, Step::Remove(p) if p == file));
    assert_eq!(next(&mut r, Reply::Finished), owned(&["write-tree"]));
    assert_eq!(
        next(&mut r, out("tr33")),
        owned(&["commit-tree", "tr33", "-m", "partial commit", "-p", "HEAD"])
    );
    let advance = next(&mut r, out("n3w"));
    assert_eq!(advance[0], "update-ref");
    assert!(advance.contains(&"n3w".to_string()) && advance.contains(&"t1p".to_string()));
    let step = commit_partial_steps(&mut r, out(""));
    assert!(matches!(step, Step::PlumbReal(a) if a == owned(&["reset", "-q", "--", "w.txt", "f.txt"])));
    assert!(matches!(commit_partial_steps(&mut r, out("")), Step::Done));
}

#[test]
fn a_file_that_has_changed_commits_nothing() {
    let mut r = run(&[], vec![("f.txt".into(), vec![2])], false);
    commit_partial_steps(&mut r, Reply::Finished);
    commit_partial_steps(&mut r, Reply::Probed(Some("t1p".into())));
    commit_partial_steps(&mut r, out(""));
    commit_partial_steps(&mut r, out(""));
    let step = commit_partial_steps(&mut r, Reply::Bytes(PATCH.to_vec()));
    assert!(matches!(step, Step::Remove(_)));
    let step = commit_partial_steps(&mut r, Reply::Finished);
    assert!(
        matches!(step, Step::Failed(e) if e == "'f.txt' changed since the file list was captured — nothing committed; re-run commit")
    );
}

#[test]
fn a_failed_patch_removes_both_files() {
    let mut r = run(&[], vec![("f.txt".into(), vec![0])], false);
    commit_partial_steps(&mut r, Reply::Finished);
    commit_partial_steps(&mut r, Reply::Probed(Some("t1p".into())));
    commit_partial_steps(&mut r, out(""));
    commit_partial_steps(&mut r, out(""));
    commit_partial_steps(&mut r, Reply::Bytes(PATCH.to_vec()));
    commit_partial_steps(&mut r, Reply::Finished);
    let step = commit_partial_steps(&mut r, Reply::Error("git apply: no".into()));
    assert!(matches!(step, Step::Remove(_)));
    assert!(matches!(commit_partial_steps(&mut r, Reply::Finished), Step::Remove(_)));
    let step = commit_partial_steps(&mut r, Reply::Finished);
    assert!(matches!(step, Step::Failed(e) if e == "git apply: no"));
}

#[test]
fn a_first_commit_has_no_parent() {
    let mut r = run(&["w.txt"], vec![], false);
    commit_partial_steps(&mut r, Reply::Finished);
    assert_eq!(next(&mut r, Reply::Probed(None)), owned(&["read-tree", "--empty"]));
    commit_partial_steps(&mut r, out(""));
    commit_partial_steps(&mut r, out(""));
    assert_eq!(
        next(&mut r, out("tr33")),
        owned(&["commit-tree", "tr33", "-m", "partial commit"])
    );
}

#[test]
fn an_amended_merge_keeps_its_parents() {
    let mut r = run(&["w.txt"], vec![], true);
    commit_partial_steps(&mut r, Reply::Finished);
    commit_partial_steps(&mut r, Reply::Probed(Some("t1p".into())));
    commit_partial_steps(&mut r, out(""));
    commit_partial_steps(&mut r, out(""));
    assert_eq!(next(&mut r, out("tr33")), owned(&["log", "-1", "--format=%P", "HEAD"]));
    assert_eq!(
        next(&mut r, out("p1 p2")),
        owned(&["commit-tree", "tr33", "-m", "partial commit", "-p", "p1", "-p", "p2"])
    );
}

fn exited(success: bool, stdout: &str, diagnostic: &str) -> Ran {
    Ran::Exited { success, stdout: stdout.into(), diagnostic: diagnostic.into() }
}

#[test]
fn commands_report_by_their_name() {
    let argv = owned(&["apply", "--cached"]);
    assert!(matches!(plumb(&argv, &exited(true, " out \n", "")), Reply::Out(s) if s == "out"));
    assert!(matches!(plumb(&argv, &exited(false, "", "bad")), Reply::Error(s) if s == "git apply: bad"));
    assert!(
        matches!(plumb(&argv, &exited(false, "", "")), Reply::Error(s) if s == "git apply: (no output)")
    );
    assert!(
        matches!(plumb(&argv, &Ran::NotStarted("gone".into())), Reply::Error(s) if s == "git apply: gone")
    );
    assert!(matches!(plumb_probe(&argv, &exited(false, "x", "bad")), Reply::Probed(None)));
    assert!(matches!(plumb_probe(&argv, &exited(true, "x\n", "")), Reply::Probed(Some(s)) if s == "x"));
    assert_eq!(or_no_output(""), "(no output)");
    assert_eq!(or_no_output("x"), "x");
}
