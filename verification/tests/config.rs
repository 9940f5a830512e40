use vcs_flow_commit::settings::{
    append_line_once, conventional, ensure_excluded, join_path, parse_bool, parse_pull, pick_model,
    pick_pull, pull_strategy, repo_path, resolve_model, save_model, user_path, ModelSource,
    PullStrategy, Settings, DEFAULT_MODEL, REPO_FILE,
};

#[test]
fn precedence_env_beats_repo_beats_user_beats_default() {
    assert_eq!(
        pick_model(Some("e".into()), Some("r".into()), Some("u".into())),
        ("e".to_string(), ModelSource::Env)
    );
    assert_eq!(
        pick_model(None, Some("r".into()), Some("u".into())),
        ("r".to_string(), ModelSource::Repo)
    );
    assert_eq!(
        pick_model(None, None, Some("u".into())),
        ("u".to_string(), ModelSource::User)
    );
    assert_eq!(
        pick_model(None, None, None),
        (DEFAULT_MODEL.to_string(), ModelSource::Default)
    );
}

#[test]
fn pick_model_ignores_blank_values() {
    assert_eq!(
        pick_model(Some("  ".into()), None, None),
        (DEFAULT_MODEL.to_string(), ModelSource::Default)
    );
    assert_eq!(
        pick_model(None, Some("  ".into()), Some("u".into())),
        ("u".to_string(), ModelSource::User)
    );
}

#[test]
fn pull_strategy_precedence_and_parsing() {
    assert_eq!(
        pick_pull(Some("rebase".into()), Some("merge".into()), None),
        PullStrategy::Rebase
    );
    assert_eq!(
        pick_pull(
            Some("bogus".into()),
            Some("rebase".into()),
            Some("merge".into())
        ),
        PullStrategy::Rebase
    );
    assert_eq!(
        pick_pull(None, None, Some("MERGE".into())),
        PullStrategy::Merge
    );
    assert_eq!(pick_pull(None, None, None), PullStrategy::Merge);
    assert_eq!(
        pick_pull(None, Some("  ".into()), Some("rebase".into())),
        PullStrategy::Rebase
    );
    assert_eq!(parse_pull(" Rebase "), Some(PullStrategy::Rebase));
    assert_eq!(parse_pull("squash"), None);
}

#[test]
fn parse_bool_accepts_common_forms_and_rejects_garbage() {
    for s in ["1", "true", "YES", " on "] {
        assert_eq!(parse_bool(s), Some(true), "{s}");
    }
    for s in ["0", "False", "no", "OFF"] {
        assert_eq!(parse_bool(s), Some(false), "{s}");
    }
    assert_eq!(parse_bool(""), None);
    assert_eq!(parse_bool("maybe"), None);
}

/// Enter the line twice, as two calls on one file do.
fn excluded_twice(before: &str) -> String {
    let before = before.as_bytes();
    let once = append_line_once(before, REPO_FILE).unwrap_or(before.to_vec());
    let twice = append_line_once(&once, REPO_FILE).unwrap_or(once);
    String::from_utf8(twice).unwrap()
}

#[test]
fn ensure_excluded_uses_git_info_exclude_when_git_is_a_dir() {
    let e = ensure_excluded("/repo", true);
    assert_eq!(e.dir.as_deref(), Some("/repo/.git/info"));
    assert_eq!(e.file, "/repo/.git/info/exclude");
    let text = excluded_twice("/target/\n");
    let hits = text.lines().filter(|l| l.trim() == REPO_FILE).count();
    assert_eq!(hits, 1, "exclude file:\n{text}");
    assert!(text.contains("/target/"), "kept existing entries");
    assert_eq!(text, format!("/target/\n{REPO_FILE}\n"));
}

#[test]
fn ensure_excluded_falls_back_to_gitignore_without_git_dir() {
    let e = ensure_excluded("/repo", false);
    assert_eq!(e.dir, None);
    assert_eq!(e.file, "/repo/.gitignore");
    let text = excluded_twice("");
    let hits = text.lines().filter(|l| l.trim() == REPO_FILE).count();
    assert_eq!(hits, 1, ".gitignore:\n{text}");
}

#[test]
fn a_last_line_is_ended_before_another_is_added() {
    assert_eq!(append_line_once(b"a", "b"), Some(b"a\nb\n".to_vec()));
    assert_eq!(append_line_once(b"", "b"), Some(b"b\n".to_vec()));
    assert_eq!(append_line_once(b"a\n  b  \nc", "b"), None);
    assert_eq!(append_line_once(b"a\nb\r\n", "b"), None);
    assert_eq!(append_line_once("a\n\u{3000}b".as_bytes(), "b"), None);
}

#[test]
fn files_that_are_no_text_keep_their_bytes() {
    let before: Vec<u8> = vec![0xff, b'x', b'\n', 0xc3];
    let once = append_line_once(&before, "b").unwrap();
    assert_eq!(once, vec![0xff, b'x', b'\n', 0xc3, b'\n', b'b', b'\n']);
    assert_eq!(append_line_once(&once, "b"), None);
    let mixed: Vec<u8> = vec![0xff, b'b', b'\n', b' ', b'b'];
    assert_eq!(append_line_once(&mixed, "b"), None);
    assert!(append_line_once(&[0xff], "\u{fffd}").is_some());
}

#[test]
fn paths_are_put_together() {
    assert_eq!(join_path("/home/me", "x.toml"), "/home/me/x.toml");
    assert_eq!(repo_path("/repo"), format!("/repo/{REPO_FILE}"));
    assert!(user_path(None).is_none());
    assert!(user_path(Some("/cfg")).unwrap().starts_with("/cfg/"));
}

fn settings(model: Option<&str>, pull: Option<&str>, conventional: Option<bool>) -> Settings {
    Settings {
        model: model.map(|s| s.to_string()),
        pull: pull.map(|s| s.to_string()),
        conventional,
    }
}

#[test]
fn settings_files_are_read_in_order() {
    let repo = settings(None, Some("rebase"), Some(true));
    let user = settings(Some("u"), Some("merge"), Some(false));
    assert_eq!(
        resolve_model(None, Some(repo), Some(user)),
        ("u".to_string(), ModelSource::User)
    );
    let repo = settings(None, Some("rebase"), Some(true));
    let user = settings(Some("u"), Some("merge"), Some(false));
    assert_eq!(pull_strategy(None, Some(repo), Some(user)), PullStrategy::Rebase);
    let repo = settings(None, None, Some(true));
    assert!(conventional(None, Some(repo), None));
    let repo = settings(None, None, Some(true));
    assert!(!conventional(Some("off".into()), Some(repo), None));
    assert!(!conventional(None, None, None));
    assert!(conventional(Some("maybe".into()), None, Some(settings(None, None, Some(true)))));
}

#[test]
fn a_model_is_saved_where_it_takes_effect() {
    let d = save_model(ModelSource::Repo, "/repo", Some("/cfg")).unwrap();
    assert_eq!(d.path, repo_path("/repo"));
    assert!(d.exclude);
    let d = save_model(ModelSource::Default, "/repo", Some("/cfg")).unwrap();
    assert_eq!(Some(d.path), user_path(Some("/cfg")));
    assert!(!d.exclude);
    assert!(save_model(ModelSource::User, "/repo", None).is_err());
    let s = settings(Some("old"), Some("rebase"), None).with_model("new");
    assert_eq!(s.model.as_deref(), Some("new"));
    assert_eq!(s.pull.as_deref(), Some("rebase"));
    assert_eq!(s.conventional, None);
}
