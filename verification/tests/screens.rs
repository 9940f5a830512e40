use ratatui::backend::TestBackend;
use ratatui::layout::{Constraint, Layout};
use ratatui::widgets::Paragraph;
use ratatui::Terminal;
use tui_tree_widget::{Tree, TreeItem, TreeState};

use vcs_flow_commit::model::{BackendKind, ChangeKind, FileChange, Target};
use vcs_flow_commit::paths::PathMap;
use vcs_flow_commit::tree::TreeModel;
use vcs_flow_commit::ui::detail::{build_detail, Detail};
use vcs_flow_commit::ui::diff::{header_style, Highlighter};
use vcs_flow_commit::ui::editor::{
    edited_text, editor_key, editor_lines, entered_text, input_key, Press,
};
use vcs_flow_commit::ui::filter::{hints, visible, Pick, Picker};
use vcs_flow_commit::ui::menu::{label_for, pick, Choice};
use vcs_flow_commit::ui::paint::{Color, Line};
use vcs_flow_commit::ui::rows::{glyph_style, items_of, node_line, open_chains, Row};
use vcs_flow_commit::ui::select::Direction;
use vcs_flow_commit::ui::{
    is_confirm, page_down, page_up, review, select, spinner_glyph, Key, KeyCode,
};
use vcs_flow_commit::vcs::Snapshot;

fn buffer_text(term: &Terminal<TestBackend>) -> String {
    let buf = term.backend().buffer();
    let mut text = String::new();
    for y in 0..buf.area.height {
        for x in 0..buf.area.width {
            text.push_str(buf[(x, y)].symbol());
        }
        text.push('\n');
    }
    text
}

fn plain(line: &Line) -> String {
    line.spans.iter().map(|s| s.text.as_str()).collect()
}

fn item(row: &Row) -> TreeItem<'static, String> {
    let children = row.children.iter().map(item).collect();
    TreeItem::new(row.id.clone(), plain(&row.line), children).unwrap()
}

fn change(path: &str, kind: ChangeKind) -> FileChange {
    FileChange { path: path.into(), old_path: None, kind }
}

#[test]
fn renders_vs_header_and_unmarked_tree() {
    let changes = vec![
        change("src/lib.rs", ChangeKind::Modified),
        change("docs/new.md", ChangeKind::Added),
    ];
    let mut tree = TreeModel::build(&changes);
    tree.set_all(false);

    let items: Vec<_> = items_of(&tree, &tree.roots).iter().map(item).collect();
    let mut state: TreeState<String> = TreeState::default();
    for chain in open_chains(&tree.roots) {
        state.open(chain);
    }
    let header =
        review::header_line("feat/x", "main", tree.selected_count(), changes.len());

    let mut term = Terminal::new(TestBackend::new(60, 12)).unwrap();
    term.draw(|frame| {
        let rows =
            Layout::vertical([Constraint::Length(1), Constraint::Min(1)]).split(frame.area());
        frame.render_widget(Paragraph::new(plain(&header)), rows[0]);
        let widget = Tree::new(&items).unwrap();
        frame.render_stateful_widget(widget, rows[1], &mut state);
    })
    .unwrap();

    let text = buffer_text(&term);
    assert!(text.contains("feat/x vs main"), "header missing:\n{text}");
    assert!(text.contains("marked 0"), "mark count missing:\n{text}");
    assert!(text.contains("[ ] M lib.rs"), "file row missing:\n{text}");
    assert!(text.contains("[ ] A new.md"), "added row missing:\n{text}");
}

#[test]
fn renders_compressed_tree_with_checkboxes() {
    let changes = vec![
        change("aa/bb/cc/deep.txt", ChangeKind::Added),
        change("src/main.rs", ChangeKind::Modified),
    ];
    let tree = TreeModel::build(&changes);
    let items: Vec<_> = items_of(&tree, &tree.roots).iter().map(item).collect();
    let mut state: TreeState<String> = TreeState::default();
    for chain in open_chains(&tree.roots) {
        state.open(chain);
    }
    state.select(vec![tree.roots[0].id()]);

    let mut term = Terminal::new(TestBackend::new(48, 12)).unwrap();
    term.draw(|frame| {
        let widget = Tree::new(&items).unwrap();
        frame.render_stateful_widget(widget, frame.area(), &mut state);
    })
    .unwrap();

    let text = buffer_text(&term);
    assert!(text.contains("aa/bb/cc"), "compressed dir missing:\n{text}");
    assert!(text.contains("deep.txt"), "file missing:\n{text}");
    assert!(text.contains("[x]"), "checkbox missing:\n{text}");
}

#[test]
fn filter_is_case_insensitive_substring() {
    assert!(vcs_flow_commit::ui::filter::matches("origin/Feature-X", "feat"));
    assert!(vcs_flow_commit::ui::filter::matches("main", ""));
    assert!(!vcs_flow_commit::ui::filter::matches("main", "release"));
    assert!(vcs_flow_commit::ui::filter::matches("Release-1.2", "1.2"));
}

#[test]
fn filters_know_letters_beyond_ascii() {
    assert!(vcs_flow_commit::ui::filter::matches("straße/ÄPFEL", "äpf"));
    assert!(!vcs_flow_commit::ui::filter::matches("apfel", "äpf"));
}

fn key(code: KeyCode) -> Key {
    Key { code, ctrl: false }
}

fn ctrl(c: char) -> Key {
    Key { code: KeyCode::Char(c), ctrl: true }
}

fn typed(c: char) -> Key {
    key(KeyCode::Char(c))
}

#[test]
fn a_picker_takes_what_is_highlighted() {
    let items: Vec<String> = ["main", "feat/a", "feat/b"].iter().map(|s| s.to_string()).collect();
    assert_eq!(visible(&items, "feat"), vec![1, 2]);
    let mut p = Picker::new();
    assert_eq!(p.settle(&items), vec![0, 1, 2]);
    assert_eq!(p.highlighted(), Some(0));
    for c in "feat".chars() {
        assert!(p.run(&items, &typed(c), true).is_none());
    }
    assert_eq!(p.needle(), "feat");
    assert!(p.run(&items, &key(KeyCode::Down), true).is_none());
    let taken = p.run(&items, &key(KeyCode::Enter), true);
    assert!(matches!(taken, Some(Pick::Existing(s)) if s == "feat/b"));
    assert!(matches!(p.run(&items, &ctrl('n'), true), Some(Pick::NewBranch)));
    assert!(p.run(&items, &ctrl('n'), false).is_none());
    assert!(matches!(p.run(&items, &key(KeyCode::Esc), true), Some(Pick::Cancel)));
    let taken = p.press(&items, &vec![2, 0], &key(KeyCode::Enter), true);
    assert!(matches!(taken, Some(Pick::Existing(s)) if s == "main"));
}

#[test]
fn a_picker_without_entries_takes_nothing() {
    let items: Vec<String> = vec!["main".to_string()];
    let mut p = Picker::new();
    p.run(&items, &typed('x'), false);
    assert!(p.settle(&items).is_empty());
    assert_eq!(p.highlighted(), None);
    assert!(matches!(p.run(&items, &key(KeyCode::Enter), false), Some(Pick::Cancel)));
    assert!(p.run(&items, &key(KeyCode::Backspace), false).is_none());
    assert_eq!(p.needle(), "");
    assert!(hints(Some("new 'x'")).contains("new 'x'"));
    assert!(!hints(None).contains("Ctrl+N"));
}

#[test]
fn menus_choose_among_targets() {
    assert_eq!(pick(0, 3, &key(KeyCode::Down)), Choice::Highlight(1));
    assert_eq!(pick(2, 3, &key(KeyCode::Down)), Choice::Highlight(2));
    assert_eq!(pick(0, 3, &key(KeyCode::Up)), Choice::Highlight(0));
    assert_eq!(pick(1, 3, &key(KeyCode::Enter)), Choice::Take(1));
    assert_eq!(pick(1, 3, &typed('q')), Choice::Cancel);
    let t = Target { label: "feat".into(), revision: Some("abc".into()) };
    assert_eq!(label_for(&t), "feat  (abc)");
    let t = Target { label: "".into(), revision: None };
    assert_eq!(label_for(&t), "(commit without moving a bookmark)");
}

#[test]
fn confirming_takes_ctrl() {
    assert!(is_confirm(&ctrl('s')));
    assert!(is_confirm(&Key { code: KeyCode::Enter, ctrl: true }));
    assert!(!is_confirm(&key(KeyCode::Enter)));
    assert!(!is_confirm(&typed('s')));
}

#[test]
fn panes_scroll_to_their_last_line() {
    assert_eq!(page_down(0, 100, 20), 10);
    assert_eq!(page_down(75, 100, 20), 80);
    assert_eq!(page_down(0, 5, 20), 0);
    assert_eq!(page_up(7), 0);
    assert_eq!(page_up(17), 7);
    assert_eq!([0, 1, 2, 3, 4].map(spinner_glyph), ['|', '/', '-', '\\', '|']);
}

#[test]
fn editors_give_back_what_was_written() {
    assert_eq!(editor_lines("a\n\nb\n"), vec!["a", "", "b", ""]);
    assert_eq!(editor_lines(""), vec![""]);
    assert_eq!(edited_text(&editor_lines("a\n\nb\n  \n")), "a\n\nb");
    assert_eq!(entered_text(&vec!["  gpt ".to_string()]).as_deref(), Some("gpt"));
    assert_eq!(entered_text(&vec!["  ".to_string()]), None);
    assert_eq!(editor_key(&ctrl('s')), Press::Submit);
    assert_eq!(editor_key(&key(KeyCode::Enter)), Press::Edit);
    assert_eq!(editor_key(&key(KeyCode::Esc)), Press::Cancel);
    assert_eq!(input_key(&key(KeyCode::Enter)), Press::Submit);
    assert_eq!(input_key(&typed('x')), Press::Edit);
}

#[test]
fn unknown_files_have_the_text_colour_of_the_theme() {
    let h = Highlighter::new();
    let lines = h.render("notes.unknown", "+hello");
    assert_eq!(plain(&lines[0]), "+hello");
    assert_eq!(lines[0].spans.len(), 2);
    assert_eq!(lines[0].spans[1].style.fg, Some(Color::Rgb(192, 197, 206)));
}

#[test]
fn diffs_are_coloured_and_keep_their_text() {
    let h = Highlighter::new();
    let diff = "@@ -1 +1 @@\n-let a = 1;\n+let a = 2;\n fn\n";
    let lines = h.render("x.rs", diff);
    let texts: Vec<String> = lines.iter().map(plain).collect();
    assert_eq!(texts, vec!["@@ -1 +1 @@", "-let a = 1;", "+let a = 2;", " fn"]);
    assert!(lines[0].spans[0].style.bold);
    assert_eq!(lines[1].spans[0].style.fg, Some(Color::Red));
    assert_eq!(lines[2].spans[0].style.fg, Some(Color::Green));
    assert!(lines[2].spans.len() > 2, "{:?}", lines[2]);
    assert!(lines[2].spans[1..].iter().any(|s| s.style.fg != lines[2].spans[1].style.fg));
    assert_eq!(lines[2].spans[1].style.bg, lines[2].spans[0].style.bg);
    assert_eq!(lines[3].spans[0].style.bg, None);
    let none = h.render("x.rs", "");
    assert_eq!(plain(&none[0]), "(no diff — binary or empty change)");
    assert!(none[0].spans[0].style.italic);
    assert!(header_style("index 1..2").is_some());
    assert!(header_style("+index").is_none());
}

fn snapshot(changes: Vec<FileChange>) -> Snapshot {
    let mut diffs = PathMap::new();
    for c in &changes {
        diffs.insert(c.path.clone(), format!("diff of {}", c.path));
    }
    Snapshot { changes, diffs, hunks: PathMap::new() }
}

#[test]
fn the_pane_shows_what_is_highlighted() {
    let snap = snapshot(vec![change("src/a.rs", ChangeKind::Modified)]);
    let tree = TreeModel::build(&snap.changes);
    let (title, detail) = build_detail(&tree, &snap, Some("src/a.rs"));
    assert_eq!(title, " src/a.rs ");
    assert!(matches!(detail, Detail::Diff { text, .. } if text == "diff of src/a.rs"));
    let (title, detail) = build_detail(&tree, &snap, Some("src/"));
    assert_eq!(title, " src/ ");
    assert!(matches!(detail, Detail::Rows(rows) if plain(&rows[0]) == "[x] M a.rs"));
    let (_, detail) = build_detail(&tree, &snap, None);
    assert!(matches!(detail, Detail::Blank));
    assert_eq!(plain(&node_line(&tree, &tree.roots[0])), "[x] src/");
    assert_eq!(glyph_style(ChangeKind::Untracked).0, '?');
}

#[test]
fn the_select_screen_refuses_an_empty_commit() {
    let changes =
        vec![change("src/a.rs", ChangeKind::Modified), change("b.md", ChangeKind::Modified)];
    let mut tree = TreeModel::build(&changes);
    let mut s = select::Screen::new(false);
    let mut press = |s: &mut select::Screen, tree: &mut TreeModel, k: Key| {
        s.run(tree, &changes, &k, Some("b.md"), 0, 10)
    };
    assert!(matches!(press(&mut s, &mut tree, typed('-')), select::Outcome::Stay));
    assert_eq!(tree.selected_count(), 0);
    assert!(matches!(press(&mut s, &mut tree, ctrl('s')), select::Outcome::Stay));
    press(&mut s, &mut tree, typed(' '));
    assert_eq!(tree.selected_count(), 1);
    press(&mut s, &mut tree, typed('a'));
    assert!(s.amends());
    let left = press(&mut s, &mut tree, ctrl('s'));
    assert!(matches!(left, select::Outcome::Leave(r) if r.confirmed && r.amend));
    let moved = press(&mut s, &mut tree, key(KeyCode::Left));
    assert!(matches!(moved, select::Outcome::Move(Direction::Left)));
}

#[test]
fn the_filter_narrows_the_tree_and_keeps_the_marks() {
    let changes =
        vec![change("src/a.rs", ChangeKind::Modified), change("b.md", ChangeKind::Modified)];
    let mut tree = TreeModel::build(&changes);
    let mut s = select::Screen::new(false);
    let mut press = |s: &mut select::Screen, tree: &mut TreeModel, k: Key| {
        s.run(tree, &changes, &k, None, 0, 10)
    };
    press(&mut s, &mut tree, typed('/'));
    assert!(matches!(press(&mut s, &mut tree, typed('M')), select::Outcome::Narrowed));
    press(&mut s, &mut tree, typed('d'));
    assert_eq!(tree.roots.len(), 1);
    assert_eq!(tree.roots[0].label, "b.md");
    press(&mut s, &mut tree, key(KeyCode::Enter));
    press(&mut s, &mut tree, typed('-'));
    assert_eq!(tree.selected_paths(&changes), vec!["src/a.rs"]);
    assert!(matches!(press(&mut s, &mut tree, key(KeyCode::Esc)), select::Outcome::Narrowed));
    assert_eq!(tree.roots.len(), 2);
    let left = press(&mut s, &mut tree, key(KeyCode::Esc));
    assert!(matches!(left, select::Outcome::Leave(r) if !r.confirmed));
}

#[test]
fn a_review_reverts_only_on_yes() {
    let changes =
        vec![change("src/a.rs", ChangeKind::Modified), change("b.md", ChangeKind::Added)];
    let mut tree = TreeModel::build(&changes);
    let mut s = review::Screen::new(&mut tree);
    assert_eq!(tree.selected_count(), 0);
    s.run(&mut tree, &typed('r'), Some("b.md"), 0, 10);
    assert!(!s.confirming());
    s.run(&mut tree, &typed(' '), Some("b.md"), 0, 10);
    s.run(&mut tree, &typed('r'), Some("b.md"), 0, 10);
    assert!(s.confirming());
    assert_eq!(
        plain(&review::footer_line(true, 1, "main")),
        "Revert 1 marked file(s) to 'main'? Working copy only — no commit.  [y/N]"
    );
    let stay = s.run(&mut tree, &typed('n'), Some("b.md"), 0, 10);
    assert!(matches!(stay, review::Outcome::Stay));
    assert!(!s.confirming());
    s.run(&mut tree, &typed('r'), Some("b.md"), 0, 10);
    let yes = s.run(&mut tree, &typed('y'), Some("b.md"), 0, 10);
    assert!(matches!(yes, review::Outcome::Revert));
    let left = review::left_for(yes, &tree, &changes);
    assert!(
        matches!(left, Some(review::ReviewOutcome::RevertMarked { paths }) if paths == vec!["b.md"])
    );
    let back = s.run(&mut tree, &key(KeyCode::Enter), None, 0, 10);
    assert!(review::left_for(back, &tree, &changes).is_none());
    let back = s.run(&mut tree, &key(KeyCode::Esc), None, 0, 10);
    assert!(matches!(review::left_for(back, &tree, &changes), Some(review::ReviewOutcome::Back)));
}

#[test]
fn headers_tell_where_a_commit_lands() {
    let t = Target { label: "feat".into(), revision: Some("abc".into()) };
    let line = plain(&select::header_line(BackendKind::Jj, &t, true, 2, 3));
    assert!(line.contains("bookmark feat (abc)"), "{line}");
    assert!(line.contains("2") && line.contains("3"), "{line}");
    let bare = Target { label: "".into(), revision: None };
    let line = plain(&select::header_line(BackendKind::Jj, &bare, false, 0, 3));
    assert!(line.contains("(no bookmark — describe only)"), "{line}");
}

#[test]
fn another_node_starts_at_its_top() {
    let changes = vec![change("a.rs", ChangeKind::Modified)];
    let mut tree = TreeModel::build(&changes);
    let mut s = select::Screen::new(false);
    s.look_at(Some("a.rs"));
    s.run(&mut tree, &changes, &key(KeyCode::PageDown), Some("a.rs"), 100, 10);
    assert_eq!(s.scroll(), 10);
    s.look_at(Some("a.rs"));
    assert_eq!(s.scroll(), 10);
    s.look_at(Some("b.rs"));
    assert_eq!(s.scroll(), 0);
}
