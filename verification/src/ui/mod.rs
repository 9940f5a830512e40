//! What the full-screen views show, and what the keys do in them. Drawing and
//! reading keys is left to the caller.

pub mod detail;
pub mod diff;
pub mod editor;
pub mod filter;
pub mod menu;
pub mod paint;
pub mod review;
pub mod rows;
pub mod select;

use vstd::prelude::*;

verus! {

/// A key, as far as the views tell keys apart.
#[derive(Debug, Clone, Copy, PartialEq, Eq, Structural)]
pub enum KeyCode {
    Char(char),
    Enter,
    Esc,
    Backspace,
    Up,
    Down,
    Left,
    Right,
    PageUp,
    PageDown,
    Home,
    /// Any other key.
    Other,
}

/// A key press.
#[derive(Debug, Clone, Copy, PartialEq, Eq, Structural)]
pub struct Key {
    pub code: KeyCode,
    /// Whether the control key was held.
    pub ctrl: bool,
}

/// The key confirms: `Ctrl+Enter` (where the terminal tells it from `Enter`) or
/// `Ctrl+S`.
pub open spec fn confirms(key: Key) -> bool {
    key.ctrl && (key.code == KeyCode::Enter || key.code == KeyCode::Char('s') || key.code
        == KeyCode::Char('S'))
}

/// Whether the key confirms.
pub fn is_confirm(key: &Key) -> (r: bool)
    ensures
        r == confirms(*key),
{
    key.ctrl && matches!(key.code, KeyCode::Enter | KeyCode::Char('s') | KeyCode::Char('S'))
}

/// The glyphs that a spinner goes through.
pub const SPINNER: [char; 4] = ['|', '/', '-', '\\'];

/// The glyph of a spinner after `tick` steps.
pub fn spinner_glyph(tick: usize) -> (r: char)
    ensures
        r == SPINNER@[(tick % 4) as int],
{
    let glyphs = SPINNER;
    glyphs[tick % 4]
}

/// How far a pane can be scrolled: so that its last line stands at the bottom.
pub open spec fn scroll_end(lines: int, height: int) -> int {
    if lines <= height {
        0
    } else if lines - height > 65535 {
        65535
    } else {
        lines - height
    }
}

/// The offset ten lines further down, but not beyond the end.
pub open spec fn paged_down(scroll: int, lines: int, height: int) -> int {
    if scroll + 10 <= scroll_end(lines, height) {
        scroll + 10
    } else {
        scroll_end(lines, height)
    }
}

/// The offset ten lines further up, but not above the start.
pub open spec fn paged_up(scroll: int) -> int {
    if scroll >= 10 {
        scroll - 10
    } else {
        0
    }
}

/// The offset of a pane with `lines` lines and room for `height` of them, one page
/// further down.
pub fn page_down(scroll: u16, lines: usize, height: u16) -> (r: u16)
    ensures
        r == paged_down(scroll as int, lines as int, height as int),
{
    let hidden: usize = if lines > height as usize {
        lines - height as usize
    } else {
        0
    };
    let end: u16 = if hidden > 65535 {
        65535
    } else {
        hidden as u16
    };
    if end >= 10 && scroll <= end - 10 {
        scroll + 10
    } else {
        end
    }
}

/// The offset of a pane one page further up.
pub fn page_up(scroll: u16) -> (r: u16)
    ensures
        r == paged_up(scroll as int),
{
    if scroll >= 10 {
        scroll - 10
    } else {
        0
    }
}

/// Paging down and then up never leaves the pane: the offset stays between the
/// start and the end.
pub proof fn paging_stays_inside(scroll: int, lines: int, height: int)
    requires
        0 <= scroll <= scroll_end(lines, height),
    ensures
        scroll <= paged_down(scroll, lines, height) <= scroll_end(lines, height),
        0 <= paged_up(scroll) <= scroll,
{
}

/// The keys that confirm: `Enter` and `S`, both with control, and no others.
pub proof fn confirming_takes_control(key: Key, c: char)
    ensures
        !key.ctrl ==> !confirms(key),
        confirms(Key { code: KeyCode::Enter, ctrl: true }),
        confirms(Key { code: KeyCode::Char(c), ctrl: true }) <==> c == 's' || c == 'S',
        confirms(key) ==> key.code is Enter || key.code is Char,
{
}

/// A pane is scrolled so far that its last line stands at the bottom, and one that is
/// shown whole is not scrolled. A page is ten lines, down and up, as long as there is
/// room for one.
pub proof fn pages_are_ten_lines(scroll: int, lines: int, height: int)
    requires
        0 <= scroll,
        0 <= lines,
        0 <= height,
    ensures
        lines <= height ==> paged_down(scroll, lines, height) == 0,
        lines > height && lines - height <= 65535 ==> scroll_end(lines, height) + height == lines,
        scroll + 10 + height <= lines && scroll + 10 <= 65535 ==> paged_down(scroll, lines, height)
            == scroll + 10 && paged_up(paged_down(scroll, lines, height)) == scroll,
        lines > height && lines - height <= 65535 && scroll + 10 + height > lines ==> paged_down(
            scroll,
            lines,
            height,
        ) + height == lines,
        lines - height > 65535 && scroll + 10 > 65535 ==> paged_down(scroll, lines, height) == 65535,
        scroll >= 10 ==> paged_up(scroll) == scroll - 10,
        scroll < 10 ==> paged_up(scroll) == 0,
{
}

/// The spinner turns: four glyphs, and then the first again.
pub proof fn spinners_turn(tick: nat)
    ensures
        tick % 4 == 0 ==> SPINNER@[(tick % 4) as int] == '|',
        tick % 4 == 1 ==> SPINNER@[(tick % 4) as int] == '/',
        tick % 4 == 2 ==> SPINNER@[(tick % 4) as int] == '-',
        tick % 4 == 3 ==> SPINNER@[(tick % 4) as int] == '\\',
{
}

} // verus!
