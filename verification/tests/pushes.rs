use vcs_flow_commit::integrate::{
    abort_integration, integrate, integrate_with_pause, Attempt, Heard, Pause, PauseRun, Rollback,
    STUCK,
};
use vcs_flow_commit::model::BackendKind;
use vcs_flow_commit::push::{offer, push, push_force, Offer, Reply, Step};
use vcs_flow_commit::settings::PullStrategy;
use vcs_flow_commit::ui::filter::Pick;
use vcs_flow_commit::vcs::Integration;

fn owned(parts: &[&str]) -> Vec<String> {
    parts.iter().map(|s| s.to_string()).collect()
}

fn name(s: &str) -> Reply {
    Reply::Name(Some(s.into()))
}

fn answer(s: &str) -> Reply {
    Reply::Answer(Some(s.into()))
}

#[test]
fn push_commands_name_both_branches() {
    assert_eq!(
        push(BackendKind::Git, "feat", "main", true),
        owned(&["push", "-u", "origin", "feat:main"])
    );
    assert_eq!(
        push(BackendKind::Git, "feat", "main", false),
        owned(&["push", "origin", "feat:main"])
    );
    assert_eq!(push(BackendKind::Jj, "feat", "main", true), owned(&["git", "push", "-b", "feat"]));
    assert_eq!(
        push_force(BackendKind::Git, "feat", "main"),
        owned(&["push", "--force-with-lease", "origin", "feat:main"])
    );
    assert_eq!(push_force(BackendKind::Jj, "feat", "main"), owned(&["git", "push", "-b", "feat"]));
}

#[test]
fn a_followed_branch_is_pushed_when_it_is_not_behind() {
    let mut r = Offer::new(BackendKind::Git, false);
    assert!(matches!(offer(&mut r, Reply::Finished), Step::FindName));
    let step = offer(&mut r, name("feat"));
    assert!(matches!(step, Step::Confirm(q) if q == "Push 'feat' to origin?"));
    assert!(matches!(offer(&mut r, answer("\n")), Step::Fetch));
    assert!(matches!(offer(&mut r, Reply::Finished), Step::FindUpstream(n) if n == "feat"));
    let step = offer(&mut r, name("main"));
    assert!(matches!(step, Step::CheckBehind { local, branch } if local == "feat" && branch == "main"));
    let step = offer(&mut r, Reply::Flag(false));
    assert!(
        matches!(step, Step::Push { local, branch, set_upstream: false } if local == "feat" && branch == "main")
    );
    let step = offer(&mut r, Reply::Ran { success: true, diagnostic: "".into() });
    assert!(
        matches!(step, Step::Pushed { notice, branch } if notice == "Pushed 'feat' → origin/main." && branch == "main")
    );
}

#[test]
fn without_an_answer_nothing_is_pushed() {
    let mut r = Offer::new(BackendKind::Git, false);
    offer(&mut r, Reply::Finished);
    offer(&mut r, name("feat"));
    assert!(matches!(offer(&mut r, Reply::Answer(None)), Step::Stop(s) if s.is_empty()));
    let mut r = Offer::new(BackendKind::Git, false);
    offer(&mut r, Reply::Finished);
    assert!(matches!(offer(&mut r, Reply::Name(None)), Step::Stop(s) if s.is_empty()));
}

#[test]
fn a_branch_that_is_behind_is_integrated_unless_dirty() {
    let mut r = Offer::new(BackendKind::Git, false);
    offer(&mut r, Reply::Finished);
    offer(&mut r, name("feat"));
    offer(&mut r, answer("y"));
    offer(&mut r, Reply::Finished);
    offer(&mut r, name("feat"));
    assert!(matches!(offer(&mut r, Reply::Flag(true)), Step::CheckDirty));
    assert!(matches!(offer(&mut r, Reply::Flag(false)), Step::Integrate { .. }));
    assert!(matches!(offer(&mut r, Reply::Flag(true)), Step::Push { .. }));

    let mut r = Offer::new(BackendKind::Git, false);
    offer(&mut r, Reply::Finished);
    offer(&mut r, name("feat"));
    offer(&mut r, answer("y"));
    offer(&mut r, Reply::Finished);
    offer(&mut r, name("feat"));
    offer(&mut r, Reply::Flag(true));
    let step = offer(&mut r, Reply::Flag(true));
    assert!(
        matches!(step, Step::Stop(s) if s.starts_with("'feat' is behind origin/feat, but the working tree has uncommitted changes."))
    );
}

#[test]
fn a_branch_without_upstream_is_attached_or_picked() {
    let mut r = Offer::new(BackendKind::Jj, false);
    offer(&mut r, Reply::Finished);
    offer(&mut r, name("feat"));
    offer(&mut r, answer("y"));
    offer(&mut r, Reply::Finished);
    assert!(matches!(offer(&mut r, Reply::Name(None)), Step::ListBranches));
    let step = offer(&mut r, Reply::Branches(owned(&["main", "dev"])));
    assert!(
        matches!(step, Step::Choose { title, branches, other } if title == "No remote branch named 'feat' — pick one to push to:" && branches == owned(&["main", "dev"]) && other == "new 'feat'")
    );
    let step = offer(&mut r, Reply::Picked(Pick::Existing("main".into())));
    assert!(matches!(step, Step::Attach { name, branch } if name == "feat" && branch == "main"));
    let step = offer(&mut r, Reply::Attached("main".into()));
    assert!(matches!(step, Step::CheckBehind { local, branch } if local == "main" && branch == "main"));

    let mut r = Offer::new(BackendKind::Git, false);
    offer(&mut r, Reply::Finished);
    offer(&mut r, name("feat"));
    offer(&mut r, answer("y"));
    offer(&mut r, Reply::Finished);
    offer(&mut r, Reply::Name(None));
    let step = offer(&mut r, Reply::Branches(owned(&["main", "feat"])));
    assert!(matches!(step, Step::Attach { name, branch } if name == "feat" && branch == "feat"));
}

#[test]
fn a_new_branch_is_pushed_at_once() {
    let mut r = Offer::new(BackendKind::Git, false);
    offer(&mut r, Reply::Finished);
    offer(&mut r, name("feat"));
    offer(&mut r, answer("y"));
    offer(&mut r, Reply::Finished);
    offer(&mut r, Reply::Name(None));
    offer(&mut r, Reply::Branches(vec![]));
    let step = offer(&mut r, Reply::Picked(Pick::NewBranch));
    assert!(
        matches!(step, Step::Push { local, branch, set_upstream: true } if local == "feat" && branch == "feat")
    );
    let step = offer(&mut r, Reply::Ran { success: false, diagnostic: "no".into() });
    assert!(
        matches!(step, Step::Rejected(s) if s.starts_with("Push failed:\nno\n(A non-fast-forward"))
    );
}

#[test]
fn leaving_the_picker_pushes_nothing() {
    let mut r = Offer::new(BackendKind::Git, false);
    offer(&mut r, Reply::Finished);
    offer(&mut r, name("feat"));
    offer(&mut r, answer("y"));
    offer(&mut r, Reply::Finished);
    offer(&mut r, Reply::Name(None));
    offer(&mut r, Reply::Branches(vec![]));
    let step = offer(&mut r, Reply::Picked(Pick::Cancel));
    assert!(matches!(step, Step::Stop(s) if s == "Push cancelled."));
}

#[test]
fn an_amend_is_forced_only_on_request() {
    let mut r = Offer::new(BackendKind::Git, true);
    offer(&mut r, Reply::Finished);
    assert!(matches!(offer(&mut r, name("feat")), Step::FindUpstream(n) if n == "feat"));
    let step = offer(&mut r, name("main"));
    assert!(
        matches!(step, Step::ConfirmForce(q) if q == "Force-push the amended 'feat' over origin/main (with lease)?")
    );
    assert!(matches!(offer(&mut r, answer("\n")), Step::Stop(_)));

    let mut r = Offer::new(BackendKind::Git, true);
    offer(&mut r, Reply::Finished);
    offer(&mut r, name("feat"));
    offer(&mut r, name("main"));
    let step = offer(&mut r, answer("yes\n"));
    assert!(matches!(step, Step::PushForce { local, branch } if local == "feat" && branch == "main"));

    let mut r = Offer::new(BackendKind::Git, true);
    offer(&mut r, Reply::Finished);
    offer(&mut r, name("feat"));
    let step = offer(&mut r, Reply::Name(None));
    assert!(matches!(step, Step::Stop(s) if s == "'feat' tracks no branch on origin — nothing pushed."));
}

#[test]
fn a_failed_step_ends_the_offer() {
    let mut r = Offer::new(BackendKind::Git, false);
    offer(&mut r, Reply::Finished);
    offer(&mut r, name("feat"));
    offer(&mut r, answer("y"));
    let step = offer(&mut r, Reply::Error("no network".into()));
    assert!(matches!(step, Step::Failed(e) if e == "no network"));
}

// ----- integration ------------------------------------------------------------------------------

fn files(list: &[&str]) -> vcs_flow_commit::integrate::Reply {
    vcs_flow_commit::integrate::Reply::Files(owned(list))
}

#[test]
fn what_is_unmerged_tells_a_conflict_from_a_failure() {
    try_attempt(PullStrategy::Merge, &["a.rs"], true);
    try_attempt(PullStrategy::Rebase, &[], false);
}

fn try_attempt(strategy: PullStrategy, unmerged: &[&str], conflict: bool) {
    let mut a = Attempt::new(BackendKind::Git, strategy, false, "feat", "main");
    match integrate(&mut a, vcs_flow_commit::integrate::Reply::Finished) {
        vcs_flow_commit::integrate::Step::Merge(b) => assert_eq!(b, "origin/main"),
        vcs_flow_commit::integrate::Step::Rebase(b) => assert_eq!(b, "origin/main"),
        other => panic!("{other:?}"),
    }
    let step = integrate(&mut a, vcs_flow_commit::integrate::Reply::Error("failed".into()));
    assert!(matches!(step, vcs_flow_commit::integrate::Step::ListUnmerged(a) if a == owned(&["diff", "--name-only", "--diff-filter=U"])));
    match integrate(&mut a, files(unmerged)) {
        vcs_flow_commit::integrate::Step::Outcome(Integration::Conflicts(list)) => {
            assert!(conflict);
            assert_eq!(list, owned(unmerged));
        }
        vcs_flow_commit::integrate::Step::Failed(e) => {
            assert!(!conflict);
            assert_eq!(e, "failed");
        }
        other => panic!("{other:?}"),
    }
}

#[test]
fn a_rebase_that_does_not_move_is_left_to_the_user() {
    let mut a = Attempt::new(BackendKind::Git, PullStrategy::Rebase, true, "feat", "main");
    integrate(&mut a, vcs_flow_commit::integrate::Reply::Finished);
    integrate(&mut a, files(&[]));
    integrate(&mut a, vcs_flow_commit::integrate::Reply::Error("stuck".into()));
    let step = integrate(&mut a, files(&[]));
    assert!(
        matches!(step, vcs_flow_commit::integrate::Step::Outcome(Integration::Unresolved(s)) if s == STUCK)
    );
}

#[test]
fn jj_folds_a_resolution_in_and_looks_again() {
    let mut a = Attempt::new(BackendKind::Jj, PullStrategy::Merge, true, "feat", "main");
    let step = integrate(&mut a, vcs_flow_commit::integrate::Reply::Finished);
    assert!(matches!(step, vcs_flow_commit::integrate::Step::Squash(n) if n == "feat"));
    let step = integrate(&mut a, vcs_flow_commit::integrate::Reply::Error("nothing".into()));
    assert!(matches!(step, vcs_flow_commit::integrate::Step::IsConflicted(n) if n == "feat"));
    let step = integrate(&mut a, vcs_flow_commit::integrate::Reply::Flag(false));
    assert!(matches!(step, vcs_flow_commit::integrate::Step::Outcome(Integration::Clean)));
}

#[test]
fn jj_rebases_onto_the_remote_bookmark() {
    let mut a = Attempt::new(BackendKind::Jj, PullStrategy::Merge, false, "feat", "main");
    let step = integrate(&mut a, vcs_flow_commit::integrate::Reply::Finished);
    assert!(
        matches!(step, vcs_flow_commit::integrate::Step::RebaseBookmark { name, onto } if name == "feat" && onto == "main@origin")
    );
}

#[test]
fn rollbacks_undo_what_was_begun() {
    let op = Some("op1".to_string());
    assert!(matches!(
        abort_integration(BackendKind::Git, PullStrategy::Merge, None),
        Rollback::AbortMerge
    ));
    assert!(matches!(
        abort_integration(BackendKind::Git, PullStrategy::Rebase, None),
        Rollback::AbortRebase
    ));
    assert!(
        matches!(abort_integration(BackendKind::Jj, PullStrategy::Merge, op), Rollback::Restore(o) if o == "op1")
    );
    assert!(matches!(
        abort_integration(BackendKind::Jj, PullStrategy::Merge, None),
        Rollback::Nothing
    ));
}

#[test]
fn conflicts_wait_for_the_user() {
    let mut p =
        PauseRun::new(BackendKind::Git, PullStrategy::Merge, "feat".into(), "main".into());
    let step = integrate_with_pause(&mut p, Heard::Start);
    assert!(
        matches!(step, Pause::Note(s) if s == "'feat' is behind origin/main — integrating (merge)…")
    );
    assert!(matches!(integrate_with_pause(&mut p, Heard::Stands(None)), Pause::Attempt));
    let step = integrate_with_pause(
        &mut p,
        Heard::Outcome(Integration::Conflicts(owned(&["a.rs", "b.rs"]))),
    );
    assert!(matches!(step, Pause::Ask(s) if s == "\nConflicts in 2 file(s):\n  a.rs\n  b.rs"));
    let step = integrate_with_pause(&mut p, Heard::Answer(Some("\n".into())));
    assert!(matches!(step, Pause::Resume));
    let step = integrate_with_pause(&mut p, Heard::Outcome(Integration::Clean));
    assert!(matches!(step, Pause::Ready));
}

#[test]
fn the_end_of_input_rolls_back() {
    let mut p = PauseRun::new(BackendKind::Jj, PullStrategy::Merge, "feat".into(), "main".into());
    let step = integrate_with_pause(&mut p, Heard::Start);
    assert!(matches!(step, Pause::Note(s) if s.ends_with("integrating (rebase)…")));
    integrate_with_pause(&mut p, Heard::Stands(Some("op1".into())));
    integrate_with_pause(&mut p, Heard::Outcome(Integration::Conflicts(vec![])));
    let step = integrate_with_pause(&mut p, Heard::Answer(None));
    assert!(matches!(step, Pause::Abort(Some(op)) if op == "op1"));
    let step = integrate_with_pause(&mut p, Heard::RolledBack(true));
    assert!(matches!(step, Pause::Stop { alarm: false, notice } if notice.contains("nothing pushed")));
    let step = integrate_with_pause(&mut p, Heard::RolledBack(false));
    assert!(matches!(step, Pause::Stop { alarm: true, .. }));
    let step = integrate_with_pause(&mut p, Heard::Outcome(Integration::Unresolved("why".into())));
    assert!(matches!(step, Pause::Stop { alarm: false, notice } if notice == "why"));
    let step = integrate_with_pause(&mut p, Heard::Error("e".into()));
    assert!(matches!(step, Pause::Failed(e) if e == "e"));
}
