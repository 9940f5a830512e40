use vcs_flow_commit::model::{BackendKind, ChangeKind, Target};
use vcs_flow_commit::vcs::{
    attach, attach_needs_bookmarks, backup_stamp, build_hunk_info, conflicted_files, dirty_args,
    fetch_args, git_behind_range, git_remote_ref, git_targets, is_dirty, jj_behind_revset,
    jj_remote_bookmark, jj_remote_branches, jj_targets, jj_upstream, name_after,
    needs_all_bookmarks, parse_git_upstream, parse_untracked_z, push_name, review_spec,
    snapshot_from_git, snapshot_from_jj, taken_message, untracked_args, untracked_preview, Attach,
    Bookmark, BookmarkRef, DiffLine, FileDiff, Hunk, PREVIEW_CAP,
};

#[test]
fn parses_git_upstream() {
    assert_eq!(parse_git_upstream("origin/main"), Some("main".into()));
    assert_eq!(parse_git_upstream("origin/feat/x"), Some("feat/x".into()));
    assert_eq!(parse_git_upstream("HEAD"), None);
}

#[test]
fn branches_of_other_remotes_are_no_upstream() {
    assert_eq!(parse_git_upstream("fork/feat"), None);
    assert_eq!(parse_git_upstream("origins/feat"), None);
    assert_eq!(parse_git_upstream("fork/origin/feat"), None);
    assert_eq!(parse_git_upstream(" origin/fork/feat\n"), Some("fork/feat".into()));
}

#[test]
fn behind_range_and_revset() {
    assert_eq!(git_behind_range("feat", "main"), "feat..origin/main");
    assert_eq!(jj_behind_revset("feat", "main"), "main@origin ~ ::feat");
}

#[test]
fn parses_untracked_from_porcelain_z() {
    let out = " M src/lib.rs\0?? new file.txt\0?? dir/inner.rs\0R  new.rs\0old.rs\0";
    assert_eq!(parse_untracked_z(out), vec!["new file.txt", "dir/inner.rs"]);
    assert!(parse_untracked_z("").is_empty());
}

#[test]
fn untracked_preview_marks_lines_and_classifies() {
    assert_eq!(untracked_preview(Some(b"alpha\nbeta\n")), "+alpha\n+beta\n");
    assert!(untracked_preview(Some(b"\x00\x01\x02")).contains("binary"));
    assert!(untracked_preview(Some(b"")).contains("empty"));
    assert!(untracked_preview(None).contains("unreadable"));
}

#[test]
fn previews_replace_what_is_not_utf8() {
    assert_eq!(untracked_preview(Some(b"a\xFFb\n")), "+a\u{FFFD}b\n");
    assert_eq!(untracked_preview(Some("né\n".as_bytes())), "+né\n");
}

#[test]
fn long_previews_are_cut() {
    let long = vec![b'x'; PREVIEW_CAP + 1];
    let cut = untracked_preview(Some(&long));
    assert!(cut.contains("truncated"));
    let fits = vec![b'x'; PREVIEW_CAP];
    assert!(!untracked_preview(Some(&fits)).contains("truncated"));
}

#[test]
fn build_hunk_info_reconstructs_header_and_prefixes_lines() {
    let h = build_hunk_info(
        10,
        3,
        10,
        4,
        "fn main()",
        &[(' ', "ctx"), ('-', "old"), ('+', "new1"), ('+', "new2")],
    );
    assert_eq!(h.header, "@@ -10,3 +10,4 @@ fn main()");
    assert_eq!(
        h.text,
        "@@ -10,3 +10,4 @@ fn main()\n ctx\n-old\n+new1\n+new2\n"
    );
    let bare = build_hunk_info(1, 1, 1, 1, "", &[]);
    assert_eq!(bare.header, "@@ -1,1 +1,1 @@");
    assert_eq!(bare.text, "@@ -1,1 +1,1 @@\n");
}

#[test]
fn review_spec_is_three_dot_remote_range() {
    assert_eq!(review_spec("main", "feat/x"), "origin/main...origin/feat/x");
}

fn hunk(start: usize, section: &str) -> Hunk {
    Hunk {
        old_start: start,
        old_lines: 1,
        new_start: start,
        new_lines: 1,
        section: section.into(),
        lines: vec![
            DiffLine::Removed("a".into()),
            DiffLine::Added("b".into()),
            DiffLine::Other,
            DiffLine::Context("c".into()),
        ],
    }
}

fn diff(path: &str, old: Option<&str>, kind: ChangeKind, hunks: Vec<Hunk>) -> FileDiff {
    FileDiff {
        path: path.into(),
        old_path: old.map(|s| s.to_string()),
        kind,
        hunks,
        raw: format!("raw of {path}"),
    }
}

#[test]
fn git_snapshots_split_modified_files_alone() {
    let files = vec![
        diff("m.rs", None, ChangeKind::Modified, vec![hunk(1, "one"), hunk(9, "")]),
        diff("a.rs", None, ChangeKind::Added, vec![hunk(1, ""), hunk(9, "")]),
        diff("n.rs", Some("o.rs"), ChangeKind::Renamed, vec![]),
    ];
    let mut snap = snapshot_from_git(files, true);
    assert_eq!(snap.changes.len(), 3);
    assert_eq!(snap.changes[2].old_path.as_deref(), Some("o.rs"));
    assert_eq!(snap.diffs.get("m.rs").unwrap(), "raw of m.rs");
    let hunks = snap.hunks.get("m.rs").unwrap();
    assert_eq!(hunks.len(), 2);
    assert_eq!(hunks[0].text, "@@ -1,1 +1,1 @@ one\n-a\n+b\n c\n");
    assert!(snap.hunks.get("a.rs").is_none());
    snap.add_untracked("new.txt".into(), "+x\n".into());
    assert_eq!(snap.changes[3].kind, ChangeKind::Untracked);
    assert_eq!(snap.diffs.get("new.txt").unwrap(), "+x\n");
}

#[test]
fn hunks_are_for_those_who_ask() {
    let files = vec![diff("m.rs", None, ChangeKind::Modified, vec![hunk(1, ""), hunk(9, "")])];
    assert!(snapshot_from_git(files, false).hunks.get("m.rs").is_none());
    let files = vec![diff("m.rs", None, ChangeKind::Modified, vec![hunk(1, ""), hunk(9, "")])];
    let snap = snapshot_from_jj(files);
    assert!(snap.hunks.get("m.rs").is_none());
    assert_eq!(snap.diffs.get("m.rs").unwrap(), "raw of m.rs");
}

#[test]
fn commands_name_the_remote() {
    assert_eq!(fetch_args(), vec!["fetch", "origin"]);
    assert_eq!(dirty_args(), vec!["status", "--porcelain", "--untracked-files=no"]);
    assert_eq!(
        untracked_args(),
        vec!["status", "--porcelain=v1", "-z", "--untracked-files=all"]
    );
    assert_eq!(git_remote_ref("feat/x"), "origin/feat/x");
    assert_eq!(jj_remote_bookmark("feat/x"), "feat/x@origin");
}

#[test]
fn stamps_of_one_moment_differ() {
    assert_ne!(backup_stamp(5, 1), backup_stamp(5, 2));
    assert_ne!(backup_stamp(5, 1), backup_stamp(6, 1));
    assert_eq!(backup_stamp(5, 1), "5-1");
}

#[test]
fn conflicts_and_changes_are_read() {
    assert_eq!(conflicted_files("a.rs\n\nb/c.rs\n"), vec!["a.rs", "b/c.rs"]);
    assert!(conflicted_files("").is_empty());
    assert!(is_dirty(" M a.rs\n"));
    assert!(!is_dirty("\n"));
}

fn bookmark(name: &str, target: &str) -> Bookmark {
    Bookmark { name: name.into(), target: target.into() }
}

fn labels(targets: &[Target]) -> Vec<&str> {
    targets.iter().map(|t| t.label.as_str()).collect()
}

#[test]
fn targets_come_from_branches_and_bookmarks() {
    assert_eq!(labels(&git_targets(Some("main".into()), "abc")), vec!["main"]);
    let detached = git_targets(None, "abc");
    assert_eq!(detached.len(), 1);
    assert!(detached[0].label.contains("abc"));
    let near = vec![bookmark("a", "1"), bookmark("b", "2")];
    assert!(!needs_all_bookmarks(&near));
    assert_eq!(labels(&jj_targets(&near, &vec![])), vec!["a", "b"]);
    assert!(needs_all_bookmarks(&vec![]));
    let none = jj_targets(&vec![], &vec![]);
    assert_eq!(labels(&none), vec![""]);
}

#[test]
fn nothing_is_pushed_without_a_name() {
    let t = Target { label: "feat".into(), revision: None };
    assert_eq!(push_name(BackendKind::Git, Some("main".into()), &t).as_deref(), Some("main"));
    assert_eq!(push_name(BackendKind::Git, None, &t), None);
    assert_eq!(push_name(BackendKind::Jj, None, &t).as_deref(), Some("feat"));
    let bare = Target { label: "".into(), revision: None };
    assert_eq!(push_name(BackendKind::Jj, None, &bare), None);
}

fn remote(name: &str, remote: Option<&str>, is_tracked: bool) -> BookmarkRef {
    BookmarkRef { name: name.into(), remote: remote.map(|s| s.to_string()), is_tracked }
}

#[test]
fn upstreams_are_followed_bookmarks_on_the_remote() {
    let refs = vec![
        remote("feat", None, false),
        remote("feat", Some("git"), true),
        remote("feat", Some("origin"), true),
        remote("main", Some("origin"), false),
    ];
    assert_eq!(jj_upstream(&refs, "feat").as_deref(), Some("feat"));
    assert_eq!(jj_upstream(&refs, "main"), None);
    assert_eq!(jj_remote_branches(&refs), vec!["feat", "main"]);
}

#[test]
fn attaching_renames_where_it_must() {
    let local = vec!["feat".to_string(), "other".to_string()];
    assert!(matches!(attach(BackendKind::Git, "feat", "main", &local), Attach::SetUpstream));
    assert!(matches!(attach(BackendKind::Jj, "feat", "feat", &local), Attach::Track));
    assert!(matches!(attach(BackendKind::Jj, "feat", "main", &local), Attach::RenameAndTrack));
    assert!(matches!(attach(BackendKind::Jj, "feat", "other", &local), Attach::Refuse));
    assert!(attach_needs_bookmarks(BackendKind::Jj, "feat", "main"));
    assert!(!attach_needs_bookmarks(BackendKind::Git, "feat", "main"));
    assert_eq!(name_after(Attach::RenameAndTrack, "feat", "main"), "main");
    assert_eq!(name_after(Attach::SetUpstream, "feat", "main"), "feat");
    assert!(taken_message("feat", "other").contains("other"));
}
