use vcs_flow_commit::model::BackendKind;
use vcs_flow_commit::repo::{locate, Probe};

fn probe(path: &str, jj: bool, git: bool) -> Probe {
    Probe { path: path.into(), jj, git }
}

#[test]
fn jj_wins_over_git_when_colocated() {
    let found = locate(&[probe("/t/colo", true, true)]).unwrap();
    assert_eq!(found.kind, BackendKind::Jj);
    assert_eq!(found.root, "/t/colo");
}

#[test]
fn git_only_detected() {
    assert_eq!(locate(&[probe("/t/git", false, true)]).unwrap().kind, BackendKind::Git);
}

#[test]
fn walks_up_from_subdir() {
    let found = locate(&[
        probe("/t/walk/a/b/c", false, false),
        probe("/t/walk/a/b", false, false),
        probe("/t/walk/a", false, false),
        probe("/t/walk", true, false),
        probe("/t", false, true),
    ])
    .unwrap();
    assert_eq!(found.kind, BackendKind::Jj);
    assert_eq!(found.root, "/t/walk");
}

#[test]
fn none_outside_a_repo() {
    assert!(locate(&[probe("/t/none", false, false), probe("/t", false, false)]).is_none());
    assert!(locate(&[]).is_none());
}
