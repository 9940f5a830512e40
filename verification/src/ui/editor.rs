//! The message editor, and the one-line prompt: what they start with, what their
//! keys do, and what comes out of them. The editing itself is left to the caller.

use vstd::prelude::*;

use crate::model::opt_view;
use crate::text;
use crate::text::{end_trimmed, joined, pieces, pieces_join_back, texts, trimmed};
use crate::ui::{confirms, is_confirm, Key, KeyCode};

verus! {

/// The keys of the editor, below it.
pub const EDITOR_FOOTER: &'static str = "Ctrl+Enter / Ctrl+S commit    Esc cancel";

/// The keys of the prompt, below it.
pub const INPUT_FOOTER: &'static str = "Enter confirm    Esc cancel";

/// What a key does in the editor or in the prompt.
#[derive(Debug, Clone, Copy, PartialEq, Eq, Structural)]
pub enum Press {
    /// Take what is written.
    Submit,
    /// Cancel.
    Cancel,
    /// Edit what is written.
    Edit,
}

/// What a key does in the editor.
pub fn editor_key(key: &Key) -> (r: Press)
    ensures
        r == if confirms(*key) {
            Press::Submit
        } else if key.code == KeyCode::Esc {
            Press::Cancel
        } else {
            Press::Edit
        },
{
    if is_confirm(key) {
        Press::Submit
    } else if matches!(key.code, KeyCode::Esc) {
        Press::Cancel
    } else {
        Press::Edit
    }
}

/// What a key does in the prompt. `Enter` does not break the line.
pub fn input_key(key: &Key) -> (r: Press)
    ensures
        r == if key.code == KeyCode::Enter {
            Press::Submit
        } else if key.code == KeyCode::Esc {
            Press::Cancel
        } else {
            Press::Edit
        },
{
    if matches!(key.code, KeyCode::Enter) {
        Press::Submit
    } else if matches!(key.code, KeyCode::Esc) {
        Press::Cancel
    } else {
        Press::Edit
    }
}

/// The lines that the editor starts with.
pub fn editor_lines(initial: &str) -> (r: Vec<String>)
    ensures
        texts(r@) == pieces(initial@, '\n'),
{
    let all = text::chars(initial);
    let parts = text::split(&all, '\n');
    let ghost list = text::slices(parts@);
    let mut out: Vec<String> = Vec::new();
    let mut i: usize = 0;
    while i < parts.len()
        invariant
            i <= parts@.len(),
            list == text::slices(parts@),
            texts(out@) == list.take(i as int),
        decreases parts@.len() - i,
    {
        let ghost before = out@;
        let line = text::text(parts[i]);
        out.push(line);
        proof {
            assert(texts(out@) =~= texts(before).push(line@));
            assert(list.take(i + 1) =~= list.take(i as int).push(list[i as int]));
        }
        i = i + 1;
    }
    proof {
        assert(list.take(i as int) =~= list);
    }
    out
}

/// The texts one after the other, with `sep` between neighbours.
pub fn join_lines(lines: &Vec<String>, sep: char) -> (r: Vec<char>)
    ensures
        r@ == joined(texts(lines@), seq![sep]),
{
    let ghost list = texts(lines@);
    let mut out: Vec<char> = Vec::new();
    let mut i: usize = 0;
    proof {
        assert(out@ =~= joined(list.take(0), seq![sep]));
    }
    while i < lines.len()
        invariant
            i <= lines@.len(),
            list == texts(lines@),
            out@ == joined(list.take(i as int), seq![sep]),
        decreases lines@.len() - i,
    {
        let ghost before = out@;
        proof {
            assert(list.take(i + 1).drop_last() =~= list.take(i as int));
        }
        if i > 0 {
            out.push(sep);
        }
        text::push_all(&mut out, &text::chars(lines[i].as_str()));
        proof {
            assert(out@ =~= joined(list.take(i + 1), seq![sep]));
        }
        i = i + 1;
    }
    proof {
        assert(list.take(i as int) =~= list);
    }
    out
}

/// What comes out of the editor: its lines, without white space at the end.
pub fn edited_text(lines: &Vec<String>) -> (r: String)
    ensures
        r@ == end_trimmed(joined(texts(lines@), seq!['\n'])),
{
    let all = join_lines(lines, '\n');
    text::text(text::trim_end(&all))
}

/// What comes out of the prompt: its text without white space around it, or `None`
/// if nothing is left.
pub fn entered_text(lines: &Vec<String>) -> (r: Option<String>)
    ensures
        opt_view(r) == {
            let t = trimmed(joined(texts(lines@), seq![' ']));
            if t.len() > 0 {
                Some(t)
            } else {
                None
            }
        },
{
    let all = join_lines(lines, ' ');
    let t = text::trim(&all);
    if t.len() > 0 {
        Some(text::text(t))
    } else {
        None
    }
}

/// A message that is not edited comes out of the editor as it went in, but for white
/// space at its end.
pub proof fn unedited_message_stays(initial: Seq<char>)
    ensures
        end_trimmed(joined(pieces(initial, '\n'), seq!['\n'])) == end_trimmed(initial),
{
    pieces_join_back(initial, '\n');
}

} // verus!
