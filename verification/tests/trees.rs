use vcs_flow_commit::model::{ChangeKind, FileChange, HunkInfo};
use vcs_flow_commit::paths::PathMap;
use vcs_flow_commit::tree::{Node, NodeKind, SelectState, TreeModel};

fn changes(paths: &[&str]) -> Vec<FileChange> {
    paths
        .iter()
        .map(|p| FileChange {
            path: (*p).to_string(),
            old_path: None,
            kind: ChangeKind::Modified,
        })
        .collect()
}

#[test]
fn collapses_full_single_chain() {
    let c = changes(&["aa/bb/cc/d1.txt", "aa/bb/cc/d2.txt"]);
    let t = TreeModel::build(&c);
    assert_eq!(t.roots.len(), 1);
    assert_eq!(t.roots[0].label, "aa/bb/cc");
    assert!(t.roots[0].is_dir());
    assert_eq!(t.roots[0].children.len(), 2);
    assert!(t.roots[0].children.iter().all(|n| !n.is_dir()));
}

#[test]
fn branches_when_files_split_across_levels() {
    let c = changes(&["aa/bb/x.txt", "aa/bb/cc/y.txt"]);
    let t = TreeModel::build(&c);
    assert_eq!(t.roots.len(), 1);
    let bb = &t.roots[0];
    assert_eq!(bb.label, "aa/bb");
    let labels: Vec<&str> = bb.children.iter().map(|n| n.label.as_str()).collect();
    assert_eq!(labels, vec!["cc", "x.txt"]);
    let cc = &bb.children[0];
    assert_eq!(cc.path, "aa/bb/cc");
    assert_eq!(cc.children.len(), 1);
    assert_eq!(cc.children[0].label, "y.txt");
}

#[test]
fn single_file_dir_collapses_to_its_folder() {
    let c = changes(&["a/b/c.txt"]);
    let t = TreeModel::build(&c);
    assert_eq!(t.roots[0].label, "a/b");
    assert_eq!(t.roots[0].children[0].label, "c.txt");
}

#[test]
fn tristate_reflects_selection() {
    let c = changes(&["aa/bb/x.txt", "aa/bb/cc/y.txt"]);
    let mut t = TreeModel::build(&c);
    let root_id = t.roots[0].id();
    assert_eq!(t.state_of(&t.roots[0].clone()), SelectState::All);
    t.toggle("aa/bb/x.txt");
    assert_eq!(t.state_of(&t.roots[0].clone()), SelectState::Partial);
    assert_eq!(t.selected_count(), 1);
    t.toggle(&root_id);
    assert_eq!(t.state_of(&t.roots[0].clone()), SelectState::All);
    t.toggle(&root_id);
    assert_eq!(t.state_of(&t.roots[0].clone()), SelectState::Nothing);
    assert_eq!(t.selected_count(), 0);
}

#[test]
fn set_all_and_selected_paths() {
    let c = changes(&["src/a.rs", "src/b.rs", "top.txt"]);
    let mut t = TreeModel::build(&c);
    t.set_all(false);
    assert!(t.selected_paths(&c).is_empty());
    t.toggle("src/b.rs");
    assert_eq!(t.selected_paths(&c), vec!["src/b.rs".to_string()]);
}

#[test]
fn rename_commits_both_old_and_new_paths() {
    let c = vec![FileChange {
        path: "new.rs".into(),
        old_path: Some("old.rs".into()),
        kind: ChangeKind::Renamed,
    }];
    let t = TreeModel::build(&c);
    let mut paths = t.selected_paths(&c);
    paths.sort();
    assert_eq!(paths, vec!["new.rs".to_string(), "old.rs".to_string()]);
}

#[test]
fn rebuild_view_keeps_original_indices_and_marks() {
    let c = changes(&["src/a.rs", "src/b.rs", "docs/x.md"]);
    let mut t = TreeModel::build(&c);
    t.toggle("src/b.rs");
    t.rebuild_view(&c, &[2]);
    assert_eq!(t.roots.len(), 1);
    let file = &t.roots[0].children[0];
    assert!(matches!(file.kind, NodeKind::File { index: 2, .. }));
    t.rebuild_view(&c, &[0, 1, 2]);
    let paths = t.selected_paths(&c);
    assert_eq!(paths, vec!["src/a.rs".to_string(), "docs/x.md".to_string()]);
}

#[test]
fn set_view_only_touches_visible_files() {
    let c = changes(&["src/a.rs", "src/b.rs", "docs/x.md"]);
    let mut t = TreeModel::build(&c);
    t.rebuild_view(&c, &[0, 1]);
    t.set_view(false);
    t.rebuild_view(&c, &[0, 1, 2]);
    assert_eq!(t.selected_paths(&c), vec!["docs/x.md".to_string()]);
}

fn add_hunks(m: &mut PathMap<Vec<HunkInfo>>, path: &str, n: usize) {
    m.insert(
        path.to_string(),
        (0..n)
            .map(|k| HunkInfo {
                header: format!("@@ -{k} +{k} @@"),
                text: format!("@@ -{k} +{k} @@\n+line{k}\n"),
            })
            .collect(),
    );
}

fn hunk_map(path: &str, n: usize) -> PathMap<Vec<HunkInfo>> {
    let mut m = PathMap::new();
    add_hunks(&mut m, path, n);
    m
}

#[test]
fn with_hunks_adds_children_only_for_multi_hunk_files() {
    let c = changes(&["src/a.rs", "src/b.rs"]);
    let mut t = TreeModel::build(&c);
    let mut hunks = hunk_map("src/a.rs", 3);
    add_hunks(&mut hunks, "src/b.rs", 1);
    t.with_hunks(&c, &hunks);
    let dir = &t.roots[0];
    let a = dir.children.iter().find(|n| n.label == "a.rs").unwrap();
    let b = dir.children.iter().find(|n| n.label == "b.rs").unwrap();
    assert_eq!(a.children.len(), 3);
    assert!(b.children.is_empty());
    assert!(matches!(
        a.children[1].kind,
        NodeKind::Hunk {
            file_index: 0,
            hunk_index: 1
        }
    ));
    assert_eq!(a.children[1].id(), "src/a.rs#1");
}

#[test]
fn hunk_toggle_drives_tristate_and_selectors() {
    let c = changes(&["src/a.rs", "src/b.rs"]);
    let mut t = TreeModel::build(&c);
    t.with_hunks(&c, &hunk_map("src/a.rs", 3));

    assert!(t.selected_partial(&c).is_empty());
    assert_eq!(t.selected_whole_paths(&c).len(), 2);

    t.toggle("src/a.rs#1");
    let a = t.find("src/a.rs").unwrap().clone();
    assert_eq!(t.state_of(&a), SelectState::Partial);
    assert_eq!(t.state_of(&t.roots[0].clone()), SelectState::Partial);
    assert_eq!(
        t.selected_partial(&c),
        vec![("src/a.rs".into(), vec![0, 2])]
    );
    assert_eq!(t.selected_whole_paths(&c), vec!["src/b.rs".to_string()]);
    assert_eq!(t.selected_paths(&c).len(), 2);
    assert_eq!(t.selected_count(), 2);

    t.toggle("src/a.rs");
    assert!(t.selected_partial(&c).is_empty());
    assert_eq!(t.selected_whole_paths(&c).len(), 2);
    t.toggle("src/a.rs");
    let a = t.find("src/a.rs").unwrap().clone();
    assert_eq!(t.state_of(&a), SelectState::Nothing);
    assert_eq!(t.selected_count(), 1);

    t.toggle("src/a.rs#2");
    let on = t.find("src/a.rs#2").unwrap().clone();
    let off = t.find("src/a.rs#0").unwrap().clone();
    assert_eq!(t.state_of(&on), SelectState::All);
    assert_eq!(t.state_of(&off), SelectState::Nothing);
    assert_eq!(t.selected_partial(&c), vec![("src/a.rs".into(), vec![2])]);
}

#[test]
fn hunk_children_survive_filtered_rebuilds() {
    let c = changes(&["src/a.rs", "docs/x.md"]);
    let mut t = TreeModel::build(&c);
    t.with_hunks(&c, &hunk_map("src/a.rs", 2));
    t.toggle("src/a.rs#0");
    t.rebuild_view(&c, &[0]);
    assert_eq!(t.find("src/a.rs").unwrap().children.len(), 2);
    t.rebuild_view(&c, &[0, 1]);
    assert_eq!(t.selected_partial(&c), vec![("src/a.rs".into(), vec![1])]);
}

fn collect(nodes: &[Node], ids: &mut Vec<String>) {
    for n in nodes {
        ids.push(n.id());
        collect(&n.children, ids);
    }
}

#[test]
fn file_and_dir_sharing_a_path_have_distinct_ids() {
    let c = vec![
        FileChange {
            path: "aa".into(),
            old_path: None,
            kind: ChangeKind::Deleted,
        },
        FileChange {
            path: "aa/bb.txt".into(),
            old_path: None,
            kind: ChangeKind::Added,
        },
    ];
    let t = TreeModel::build(&c);
    let mut ids = Vec::new();
    collect(&t.roots, &mut ids);
    let mut unique = ids.clone();
    unique.sort();
    unique.dedup();
    assert_eq!(unique.len(), ids.len(), "duplicate identifiers: {ids:?}");

    assert!(matches!(t.find("aa").unwrap().kind, NodeKind::File { .. }));
    assert!(t.find("aa/").unwrap().is_dir());
}

#[test]
fn directories_come_first_and_in_order() {
    let c = changes(&["z.txt", "b/2.txt", "a/1.txt", "m.txt", "b/1.txt"]);
    let t = TreeModel::build(&c);
    let labels: Vec<&str> = t.roots.iter().map(|n| n.label.as_str()).collect();
    assert_eq!(labels, vec!["a", "b", "m.txt", "z.txt"]);
    let under: Vec<&str> = t.roots[1].children.iter().map(|n| n.label.as_str()).collect();
    assert_eq!(under, vec!["1.txt", "2.txt"]);
    assert_eq!(t.roots[1].files, vec![4, 1]);
}

#[test]
fn two_toggles_of_a_hunk_change_nothing() {
    let c = changes(&["src/a.rs"]);
    let mut t = TreeModel::build(&c);
    t.with_hunks(&c, &hunk_map("src/a.rs", 3));
    t.toggle("src/a.rs#2");
    t.toggle("src/a.rs#1");
    t.toggle("src/a.rs#1");
    assert_eq!(t.selected_partial(&c), vec![("src/a.rs".into(), vec![0, 1])]);
    t.toggle("no such node");
    assert_eq!(t.selected_partial(&c), vec![("src/a.rs".into(), vec![0, 1])]);
}

#[test]
fn every_file_is_found_by_its_path() {
    let c = changes(&["a/b/c/d.rs", "a/b/e.rs", "f.rs", "a/g.rs"]);
    let t = TreeModel::build(&c);
    for (i, change) in c.iter().enumerate() {
        let node = t.find(&change.path).unwrap();
        assert!(matches!(node.kind, NodeKind::File { index, .. } if index == i));
        assert_eq!(node.files, vec![i]);
    }
    assert!(t.find("a/b/c").is_none());
    assert!(t.find("a/b/c/").is_some());
}

/// The paths of the files and hunks below the nodes, each with its index.
fn placed(nodes: &[Node], out: &mut Vec<(usize, String)>) {
    for n in nodes {
        match n.kind {
            NodeKind::Dir => {}
            NodeKind::File { index, .. } => out.push((index, n.path.clone())),
            NodeKind::Hunk { file_index, .. } => out.push((file_index, n.path.clone())),
        }
        placed(&n.children, out);
    }
}

#[test]
fn nodes_have_the_paths_of_their_changes() {
    let c = changes(&["aa/bb/x.txt", "top.txt", "aa/bb/cc/y.txt"]);
    let mut t = TreeModel::build(&c);
    t.with_hunks(&c, &hunk_map("aa/bb/x.txt", 2));
    let mut found = Vec::new();
    placed(t.view(), &mut found);
    assert_eq!(found.len(), 5);
    for (index, path) in found {
        assert_eq!(path, c[index].path);
    }
    let odd = changes(&["a//b.txt"]);
    let mut found = Vec::new();
    placed(TreeModel::build(&odd).view(), &mut found);
    assert_eq!(found, vec![(0, "a/b.txt".to_string())]);
}

/// The states of the nodes and of what is below them.
fn states(t: &TreeModel, nodes: &[Node], out: &mut Vec<SelectState>) {
    for n in nodes {
        out.push(t.state_of(n));
        states(t, &n.children, out);
    }
}

#[test]
fn a_toggle_takes_everything_below_along() {
    let c = changes(&["aa/bb/x.txt", "aa/bb/cc/y.txt"]);
    let mut t = TreeModel::build(&c);
    t.with_hunks(&c, &hunk_map("aa/bb/x.txt", 2));
    t.toggle("aa/bb/x.txt#1");
    t.toggle("aa/bb/");
    let mut all = Vec::new();
    states(&t, t.view(), &mut all);
    assert_eq!(all, vec![SelectState::All; 6]);
    t.toggle("aa/bb/");
    let mut all = Vec::new();
    states(&t, t.view(), &mut all);
    assert_eq!(all, vec![SelectState::Nothing; 6]);
}

#[test]
fn a_shared_identifier_is_found_all_the_same() {
    let c = changes(&["x", "x#1"]);
    let mut t = TreeModel::build(&c);
    t.with_hunks(&c, &hunk_map("x", 2));
    let mut ids = Vec::new();
    collect(t.view(), &mut ids);
    assert_eq!(ids, vec!["x", "x#0", "x#1", "x#1"]);
    for id in ids {
        assert_eq!(t.find(&id).map(|n| n.id()), Some(id));
    }
    assert!(t.find("x#2").is_none());
}
