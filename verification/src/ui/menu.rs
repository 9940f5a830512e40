//! The picker for a commit target, shown when there are several.

use vstd::prelude::*;

use crate::model::{Target, TargetView};
use crate::ui::{Key, KeyCode};

verus! {

/// The question above the list.
pub const TITLE: &'static str = "Several bookmarks reach this change — pick the commit target:";

/// The keys, below the list.
pub const FOOTER: &'static str = "↑↓ move   Enter select   Esc cancel";

/// A target as it is listed.
pub open spec fn label_text(t: TargetView) -> Seq<char> {
    if t.label.len() == 0 {
        "(commit without moving a bookmark)"@
    } else {
        match t.revision {
            Some(rev) => t.label + "  ("@ + rev + ")"@,
            None => t.label,
        }
    }
}

/// A target as it is listed.
pub fn label_for(t: &Target) -> (r: String)
    ensures
        r@ == label_text(t@),
{
    if t.label.as_str().is_empty() {
        "(commit without moving a bookmark)".to_string()
    } else {
        let mut out = t.label.clone();
        if let Some(rev) = &t.revision {
            out.append("  (");
            out.append(rev.as_str());
            out.append(")");
        }
        out
    }
}

/// What a key does in the picker.
#[derive(Debug, Clone, Copy, PartialEq, Eq, Structural)]
pub enum Choice {
    /// Highlight this entry.
    Highlight(usize),
    /// Pick this entry.
    Take(usize),
    /// Cancel.
    Cancel,
}

/// What a key does when entry `at` of `count` is highlighted.
pub open spec fn choice(at: usize, count: usize, key: Key) -> Choice {
    match key.code {
        KeyCode::Up => Choice::Highlight(
            if at > 0 {
                (at - 1) as usize
            } else {
                0
            },
        ),
        KeyCode::Down => Choice::Highlight(
            if at + 1 < count {
                (at + 1) as usize
            } else if count > 0 {
                (count - 1) as usize
            } else {
                0
            },
        ),
        KeyCode::Enter => Choice::Take(at),
        KeyCode::Esc => Choice::Cancel,
        KeyCode::Char('q') => Choice::Cancel,
        _ => Choice::Highlight(at),
    }
}

/// What a key does when entry `at` of `count` is highlighted.
pub fn pick(at: usize, count: usize, key: &Key) -> (r: Choice)
    ensures
        r == choice(at, count, *key),
{
    match key.code {
        KeyCode::Up => Choice::Highlight(
            if at > 0 {
                at - 1
            } else {
                0
            },
        ),
        KeyCode::Down => Choice::Highlight(
            if count > 0 && at < count - 1 {
                at + 1
            } else if count > 0 {
                count - 1
            } else {
                0
            },
        ),
        KeyCode::Enter => Choice::Take(at),
        KeyCode::Esc => Choice::Cancel,
        KeyCode::Char('q') => Choice::Cancel,
        _ => Choice::Highlight(at),
    }
}

/// From an entry of the list the keys lead only to entries of the list.
pub proof fn choices_are_entries(at: usize, count: usize, key: Key)
    requires
        at < count,
    ensures
        match choice(at, count, key) {
            Choice::Highlight(i) => i < count,
            Choice::Take(i) => i < count,
            Choice::Cancel => true,
        },
{
}

/// What each key does, with or without control: the arrows move the highlight by one
/// and stop at the ends of the list, `Enter` takes the highlighted entry, `Esc` and `q`
/// cancel, and any other key leaves the highlight where it is.
pub proof fn menu_keys(at: usize, count: usize, ctrl: bool, c: char)
    requires
        at < count,
    ensures
        at > 0 ==> choice(at, count, Key { code: KeyCode::Up, ctrl }) == Choice::Highlight(
            (at - 1) as usize,
        ),
        at == 0 ==> choice(at, count, Key { code: KeyCode::Up, ctrl }) == Choice::Highlight(0),
        at + 1 < count ==> choice(at, count, Key { code: KeyCode::Down, ctrl })
            == Choice::Highlight((at + 1) as usize),
        at + 1 == count ==> choice(at, count, Key { code: KeyCode::Down, ctrl })
            == Choice::Highlight(at),
        choice(at, count, Key { code: KeyCode::Enter, ctrl }) == Choice::Take(at),
        choice(at, count, Key { code: KeyCode::Esc, ctrl }) == Choice::Cancel,
        choice(at, count, Key { code: KeyCode::Char('q'), ctrl }) == Choice::Cancel,
        c != 'q' ==> choice(at, count, Key { code: KeyCode::Char(c), ctrl }) == Choice::Highlight(
            at,
        ),
        choice(at, count, Key { code: KeyCode::Backspace, ctrl }) == Choice::Highlight(at),
        choice(at, count, Key { code: KeyCode::Left, ctrl }) == Choice::Highlight(at),
        choice(at, count, Key { code: KeyCode::Right, ctrl }) == Choice::Highlight(at),
        choice(at, count, Key { code: KeyCode::PageUp, ctrl }) == Choice::Highlight(at),
        choice(at, count, Key { code: KeyCode::PageDown, ctrl }) == Choice::Highlight(at),
        choice(at, count, Key { code: KeyCode::Home, ctrl }) == Choice::Highlight(at),
        choice(at, count, Key { code: KeyCode::Other, ctrl }) == Choice::Highlight(at),
{
}

/// At the end of the list, and beyond it, the highlight comes to stand on the last entry;
/// in an empty list it stands at the start.
pub proof fn the_list_ends(at: usize, count: usize, ctrl: bool)
    ensures
        at + 1 >= count && count > 0 ==> choice(at, count, Key { code: KeyCode::Down, ctrl })
            == Choice::Highlight((count - 1) as usize),
        count == 0 ==> choice(at, count, Key { code: KeyCode::Down, ctrl }) == Choice::Highlight(0),
{
}

/// What is listed of a target: its name with the revision in brackets, its name alone
/// without one, and where it has no name, that no bookmark moves.
pub proof fn targets_are_listed(label: Seq<char>, rev: Seq<char>, revision: Option<Seq<char>>)
    ensures
        label.len() > 0 ==> label_text(TargetView { label, revision: Some(rev) }) == label + "  ("@
            + rev + ")"@,
        label.len() > 0 ==> label_text(TargetView { label, revision: None }) == label,
        label.len() == 0 ==> label_text(TargetView { label, revision })
            == "(commit without moving a bookmark)"@,
{
}

} // verus!
