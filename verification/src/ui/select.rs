//! The screen on which the files to commit are selected.

use vstd::prelude::*;

use crate::forest::{files_in, view_of};
use crate::model::{BackendKind, FileChange, Target, TargetView};
use crate::text;
use crate::text::decimal_of;
use crate::tree::{
    find_in, marks_set, set_indices, toggled, touched, Marks, Shape, TreeModel,
};
use crate::ui::filter::{passes, without_last};
use crate::ui::paint::{
    color_style, colored, span_view, strong, strong_style, Color, Line, SpanView,
};
use crate::ui::{
    confirms, is_confirm, page_down, page_up, paged_down, paged_up, Key, KeyCode,
};

verus! {

/// How the screen was left. What is selected is in the tree.
#[derive(Debug, Clone, Copy, PartialEq, Eq, Structural)]
pub struct SelectResult {
    pub confirmed: bool,
    pub amend: bool,
}

/// The keys, below the panes.
pub const FOOTER: &'static str =
    "↑↓ move  ←→ fold  Space toggle  +/- all/none  / filter  a amend  PgUp/PgDn scroll  Ctrl+Enter/Ctrl+S commit  Esc cancel";

// ----- the lines above and below -----------------------------------------------------------

/// Where the commit lands, in the header.
pub open spec fn target_text(kind: BackendKind, target: TargetView) -> Seq<char> {
    if target.label.len() == 0 {
        "(no bookmark — describe only)"@
    } else {
        match kind {
            BackendKind::Git => "branch "@ + target.label,
            BackendKind::Jj => match target.revision {
                Some(rev) => "bookmark "@ + target.label + " ("@ + rev + ")"@,
                None => "bookmark "@ + target.label,
            },
        }
    }
}

/// The header: where the commit lands, whether it amends, and how many files are
/// selected.
pub open spec fn header_spans(
    kind: BackendKind,
    target: TargetView,
    amend: bool,
    selected: nat,
    total: nat,
) -> Seq<SpanView> {
    let start = seq![
        span_view("Target: "@, colored(Color::DarkGray)),
        span_view(target_text(kind, target), colored(Color::Cyan)),
    ];
    let badge = if amend {
        start.push(span_view("  [AMEND]"@, strong(Color::Magenta)))
    } else {
        start
    };
    badge.push(
        span_view(
            "    selected "@ + decimal_of(selected) + "/"@ + decimal_of(total),
            colored(Color::DarkGray),
        ),
    )
}

/// The header.
pub fn header_line(
    kind: BackendKind,
    target: &Target,
    amend: bool,
    selected: usize,
    total: usize,
) -> (r: Line)
    ensures
        r@ == header_spans(kind, target@, amend, selected as nat, total as nat),
{
    let mut place = String::new();
    if target.label.as_str().is_empty() {
        place.append("(no bookmark — describe only)");
    } else {
        match kind {
            BackendKind::Git => {
                place.append("branch ");
                place.append(target.label.as_str());
            },
            BackendKind::Jj => {
                place.append("bookmark ");
                place.append(target.label.as_str());
                if let Some(rev) = &target.revision {
                    place.append(" (");
                    place.append(rev.as_str());
                    place.append(")");
                }
            },
        }
    }
    proof {
        assert(place@ =~= target_text(kind, target@));
    }
    let mut line = Line::new();
    line.push("Target: ".to_string(), color_style(Color::DarkGray));
    line.push(place, color_style(Color::Cyan));
    if amend {
        line.push("  [AMEND]".to_string(), strong_style(Color::Magenta));
    }
    let mut counts = "    selected ".to_string();
    text::push_decimal(&mut counts, selected as u128);
    counts.append("/");
    text::push_decimal(&mut counts, total as u128);
    line.push(counts, color_style(Color::DarkGray));
    proof {
        assert(line@ =~= header_spans(kind, target@, amend, selected as nat, total as nat));
    }
    line
}

// ----- the filter --------------------------------------------------------------------------

/// The indices of the changes whose path passes the filter.
pub open spec fn kept(changes: Seq<FileChange>, needle: Seq<char>) -> Seq<usize>
    decreases changes.len(),
{
    if changes.len() == 0 {
        seq![]
    } else {
        let before = kept(changes.drop_last(), needle);
        if passes(changes.last().path@, needle) {
            before.push((changes.len() - 1) as usize)
        } else {
            before
        }
    }
}

/// The indices of the changes whose path passes the filter.
fn keep_list(changes: &Vec<FileChange>, needle: &str) -> (r: Vec<usize>)
    ensures
        r@ == kept(changes@, needle@),
        forall|k: int| 0 <= k < r@.len() ==> #[trigger] r@[k] < changes@.len(),
{
    let mut out: Vec<usize> = Vec::new();
    let mut i: usize = 0;
    proof {
        assert(out@ =~= kept(changes@.take(0), needle@));
    }
    while i < changes.len()
        invariant
            i <= changes@.len(),
            out@ == kept(changes@.take(i as int), needle@),
            forall|k: int| 0 <= k < out@.len() ==> #[trigger] out@[k] < i,
        decreases changes@.len() - i,
    {
        proof {
            assert(changes@.take(i + 1).drop_last() =~= changes@.take(i as int));
        }
        if crate::ui::filter::matches(changes[i].path.as_str(), needle) {
            out.push(i);
        }
        i = i + 1;
    }
    proof {
        assert(changes@.take(i as int) =~= changes@);
    }
    out
}

/// Show only the changes whose path passes the filter. What is selected stays.
pub fn apply_filter(tree: &mut TreeModel, changes: &Vec<FileChange>, needle: &str)
    requires
        old(tree).wf(),
        changes@.len() <= old(tree).marks().len(),
    ensures
        final(tree).wf(),
        final(tree).marks() == old(tree).marks(),
        final(tree).labels() == old(tree).labels(),
        final(tree).shapes() == view_of(changes@, kept(changes@, needle@), old(tree).labels()),
{
    let keep = keep_list(changes, needle);
    tree.rebuild_view(changes, &keep);
}

/// An empty filter keeps every change.
pub proof fn empty_filter_keeps_all(changes: Seq<FileChange>)
    requires
        changes.len() <= usize::MAX,
    ensures
        kept(changes, seq![]) == crate::tree::upto(changes.len()),
    decreases changes.len(),
{
    if changes.len() > 0 {
        empty_filter_keeps_all(changes.drop_last());
    }
    assert(kept(changes, seq![]) =~= crate::tree::upto(changes.len()));
}

// ----- keys ----------------------------------------------------------------------------------

/// The state of the screen.
pub struct Screen {
    amend: bool,
    needle: String,
    typing: bool,
    scroll: u16,
    last: Option<String>,
}

/// The state of the screen as a mathematical value.
pub struct ScreenView {
    pub amend: bool,
    /// The filter.
    pub needle: Seq<char>,
    /// Whether typing edits the filter.
    pub typing: bool,
    /// The offset of the right pane.
    pub scroll: u16,
    /// What was highlighted when the screen was last drawn.
    pub last: Option<Seq<char>>,
}

impl View for Screen {
    type V = ScreenView;

    closed spec fn view(&self) -> ScreenView {
        ScreenView {
            amend: self.amend,
            needle: self.needle@,
            typing: self.typing,
            scroll: self.scroll,
            last: crate::model::opt_view(self.last),
        }
    }
}

/// Where the cursor of the tree is to go.
#[derive(Debug, Clone, Copy, PartialEq, Eq, Structural)]
pub enum Direction {
    Up,
    Down,
    /// Fold.
    Left,
    /// Unfold.
    Right,
}

/// What is left to do after a key.
#[derive(Debug, Clone, Copy, PartialEq, Eq, Structural)]
pub enum Outcome {
    /// Nothing.
    Stay,
    /// Move the cursor of the tree.
    Move(Direction),
    /// The tree shows something else: expand it, and highlight its first node.
    Narrowed,
    /// Leave the screen.
    Leave(SelectResult),
}

/// What a key does to the tree.
#[derive(Debug, Clone, Copy, PartialEq, Eq, Structural)]
pub enum Effect {
    /// Nothing.
    Keep,
    /// Toggle the highlighted node.
    Toggle,
    /// Select or clear what is shown.
    SetView(bool),
    /// Show what passes the filter.
    Narrow,
}

/// Leave the screen without a commit.
pub open spec fn cancel(v: ScreenView) -> (ScreenView, Effect, Outcome) {
    (v, Effect::Keep, Outcome::Leave(SelectResult { confirmed: false, amend: v.amend }))
}

/// Change the filter, and show what passes it.
pub open spec fn narrow(v: ScreenView, needle: Seq<char>, typing: bool) -> (
    ScreenView,
    Effect,
    Outcome,
) {
    (ScreenView { needle, typing, ..v }, Effect::Narrow, Outcome::Narrowed)
}

/// What a key does while the filter is typed: what can be printed edits it, so the
/// letters lose their other meanings; moving the cursor works on.
pub open spec fn typing_key(v: ScreenView, key: Key) -> (ScreenView, Effect, Outcome) {
    match key.code {
        KeyCode::Esc => narrow(v, seq![], false),
        KeyCode::Enter => (ScreenView { typing: false, ..v }, Effect::Keep, Outcome::Stay),
        KeyCode::Backspace => narrow(
            v,
            if v.needle.len() > 0 {
                v.needle.drop_last()
            } else {
                v.needle
            },
            true,
        ),
        KeyCode::Char(c) => if key.ctrl {
            if c == 'c' {
                cancel(v)
            } else {
                (v, Effect::Keep, Outcome::Stay)
            }
        } else {
            narrow(v, v.needle.push(c), true)
        },
        KeyCode::Up => (v, Effect::Keep, Outcome::Move(Direction::Up)),
        KeyCode::Down => (v, Effect::Keep, Outcome::Move(Direction::Down)),
        _ => (v, Effect::Keep, Outcome::Stay),
    }
}

/// `Esc` and `q` first widen a narrowed tree, and cancel only then.
pub open spec fn widen_or_cancel(v: ScreenView) -> (ScreenView, Effect, Outcome) {
    if v.needle.len() > 0 {
        narrow(v, seq![], v.typing)
    } else {
        cancel(v)
    }
}

/// What a key does otherwise; `lines` is how many lines the right pane has, and
/// `height` how many it shows.
pub open spec fn command_key(v: ScreenView, key: Key, lines: int, height: int) -> (
    ScreenView,
    Effect,
    Outcome,
) {
    match key.code {
        KeyCode::Esc => widen_or_cancel(v),
        KeyCode::Up => (v, Effect::Keep, Outcome::Move(Direction::Up)),
        KeyCode::Down => (v, Effect::Keep, Outcome::Move(Direction::Down)),
        KeyCode::Left => (v, Effect::Keep, Outcome::Move(Direction::Left)),
        KeyCode::Right => (v, Effect::Keep, Outcome::Move(Direction::Right)),
        KeyCode::PageDown => (
            ScreenView { scroll: paged_down(v.scroll as int, lines, height) as u16, ..v },
            Effect::Keep,
            Outcome::Stay,
        ),
        KeyCode::PageUp => (
            ScreenView { scroll: paged_up(v.scroll as int) as u16, ..v },
            Effect::Keep,
            Outcome::Stay,
        ),
        KeyCode::Home => (ScreenView { scroll: 0, ..v }, Effect::Keep, Outcome::Stay),
        KeyCode::Char(c) => if c == 'c' && key.ctrl {
            cancel(v)
        } else if c == 'q' {
            widen_or_cancel(v)
        } else if c == '/' {
            (ScreenView { typing: true, ..v }, Effect::Keep, Outcome::Stay)
        } else if c == ' ' {
            (v, Effect::Toggle, Outcome::Stay)
        } else if c == '+' {
            (v, Effect::SetView(true), Outcome::Stay)
        } else if c == '-' {
            (v, Effect::SetView(false), Outcome::Stay)
        } else if c == 'a' || c == 'A' {
            (ScreenView { amend: !v.amend, ..v }, Effect::Keep, Outcome::Stay)
        } else {
            (v, Effect::Keep, Outcome::Stay)
        },
        _ => (v, Effect::Keep, Outcome::Stay),
    }
}

/// What a key does. To confirm with nothing selected is refused: there are no empty
/// commits.
pub open spec fn select_next(v: ScreenView, key: Key, selected: nat, lines: int, height: int) -> (
    ScreenView,
    Effect,
    Outcome,
) {
    if confirms(key) {
        if selected > 0 {
            (v, Effect::Keep, Outcome::Leave(SelectResult { confirmed: true, amend: v.amend }))
        } else {
            (v, Effect::Keep, Outcome::Stay)
        }
    } else if v.typing {
        typing_key(v, key)
    } else {
        command_key(v, key, lines, height)
    }
}

/// How many files have a selected unit.
pub open spec fn selected_files(marks: Seq<Marks>) -> nat {
    set_indices(touched(marks)).len()
}

/// The marks after an effect, when `cursor` is highlighted.
pub open spec fn marks_after(
    effect: Effect,
    marks: Seq<Marks>,
    nodes: Seq<Shape>,
    cursor: Option<Seq<char>>,
) -> Seq<Marks> {
    match effect {
        Effect::Toggle => match cursor {
            Some(id) => match find_in(nodes, id) {
                Some(n) => toggled(marks, n),
                None => marks,
            },
            None => marks,
        },
        Effect::SetView(value) => marks_set(marks, files_in(nodes), value),
        _ => marks,
    }
}

/// What is shown after an effect, when `needle` is the filter.
pub open spec fn shown_after(
    effect: Effect,
    nodes: Seq<Shape>,
    changes: Seq<FileChange>,
    needle: Seq<char>,
    labels: Seq<Seq<Seq<char>>>,
) -> Seq<Shape> {
    match effect {
        Effect::Narrow => view_of(changes, kept(changes, needle), labels),
        _ => nodes,
    }
}

impl Screen {
    /// The screen as it opens.
    pub fn new(amend: bool) -> (r: Self)
        ensures
            r@ == (ScreenView { amend, needle: seq![], typing: false, scroll: 0, last: None }),
    {
        let needle = String::new();
        proof {
            assert(needle@ =~= seq![]);
        }
        Screen { amend, needle, typing: false, scroll: 0, last: None }
    }

    /// Whether the commit amends.
    pub fn amends(&self) -> (r: bool)
        ensures
            r == self@.amend,
    {
        self.amend
    }

    /// The offset of the right pane.
    pub fn scroll(&self) -> (r: u16)
        ensures
            r == self@.scroll,
    {
        self.scroll
    }

    /// Note what is highlighted before drawing: another node starts at its top.
    pub fn look_at(&mut self, cursor: Option<&str>)
        ensures
            ({
                let now = match cursor {
                    Some(id) => Some(id@),
                    None => None,
                };
                final(self)@ == if now == old(self)@.last {
                    old(self)@
                } else {
                    ScreenView { scroll: 0, last: now, ..old(self)@ }
                }
            }),
    {
        let same = match (&self.last, cursor) {
            (Some(a), Some(b)) => text::same(a.as_str(), b),
            (None, None) => true,
            _ => false,
        };
        if !same {
            self.scroll = 0;
            self.last = match cursor {
                Some(id) => Some(id.to_string()),
                None => None,
            };
        }
    }

    /// The line below the panes, and whether it stands out: the filter while it is
    /// typed, else the keys, with the filter behind them if there is one.
    pub fn footer(&self) -> (r: (String, bool))
        ensures
            r.1 == self@.typing,
            r.0@ == if self@.typing {
                "filter: "@ + self@.needle + "_   Enter keep   Esc clear"@
            } else if self@.needle.len() > 0 {
                FOOTER@ + "  [filter: "@ + self@.needle + "]"@
            } else {
                FOOTER@
            },
    {
        if self.typing {
            let mut out = "filter: ".to_string();
            out.append(self.needle.as_str());
            out.append("_   Enter keep   Esc clear");
            (out, true)
        } else if !self.needle.as_str().is_empty() {
            let mut out = FOOTER.to_string();
            out.append("  [filter: ");
            out.append(self.needle.as_str());
            out.append("]");
            (out, false)
        } else {
            (FOOTER.to_string(), false)
        }
    }

    /// What a key does to the screen.
    fn decide(&mut self, key: &Key, selected: usize, lines: usize, height: u16) -> (r: (
        Effect,
        Outcome,
    ))
        ensures
            (final(self)@, r.0, r.1) == select_next(
                old(self)@,
                *key,
                selected as nat,
                lines as int,
                height as int,
            ),
    {
        if is_confirm(key) {
            return if selected > 0 {
                (
                    Effect::Keep,
                    Outcome::Leave(SelectResult { confirmed: true, amend: self.amend }),
                )
            } else {
                (Effect::Keep, Outcome::Stay)
            };
        }
        if self.typing {
            self.decide_typing(key)
        } else {
            self.decide_command(key, lines, height)
        }
    }

    /// Change the filter.
    fn set_needle(&mut self, needle: String, typing: bool) -> (r: (Effect, Outcome))
        ensures
            (final(self)@, r.0, r.1) == narrow(old(self)@, needle@, typing),
    {
        self.needle = needle;
        self.typing = typing;
        (Effect::Narrow, Outcome::Narrowed)
    }

    /// Leave the screen without a commit.
    fn leave(&self) -> (r: (Effect, Outcome))
        ensures
            (self@, r.0, r.1) == cancel(self@),
    {
        (Effect::Keep, Outcome::Leave(SelectResult { confirmed: false, amend: self.amend }))
    }

    /// What a key does while the filter is typed.
    fn decide_typing(&mut self, key: &Key) -> (r: (Effect, Outcome))
        ensures
            (final(self)@, r.0, r.1) == typing_key(old(self)@, *key),
    {
        match key.code {
            KeyCode::Esc => {
                let none = String::new();
                proof {
                    assert(none@ =~= seq![]);
                }
                self.set_needle(none, false)
            },
            KeyCode::Enter => {
                self.typing = false;
                (Effect::Keep, Outcome::Stay)
            },
            KeyCode::Backspace => {
                let shorter = without_last(&self.needle);
                self.set_needle(shorter, true)
            },
            KeyCode::Char(c) => {
                if key.ctrl {
                    if c == 'c' {
                        self.leave()
                    } else {
                        (Effect::Keep, Outcome::Stay)
                    }
                } else {
                    let mut longer = self.needle.clone();
                    longer.push(c);
                    self.set_needle(longer, true)
                }
            },
            KeyCode::Up => (Effect::Keep, Outcome::Move(Direction::Up)),
            KeyCode::Down => (Effect::Keep, Outcome::Move(Direction::Down)),
            _ => (Effect::Keep, Outcome::Stay),
        }
    }

    /// Widen a narrowed tree, or leave.
    fn widen_or_leave(&mut self) -> (r: (Effect, Outcome))
        ensures
            (final(self)@, r.0, r.1) == widen_or_cancel(old(self)@),
    {
        if !self.needle.as_str().is_empty() {
            let none = String::new();
            proof {
                assert(none@ =~= seq![]);
            }
            let typing = self.typing;
            self.set_needle(none, typing)
        } else {
            self.leave()
        }
    }

    /// What a key does otherwise.
    fn decide_command(&mut self, key: &Key, lines: usize, height: u16) -> (r: (Effect, Outcome))
        ensures
            (final(self)@, r.0, r.1) == command_key(
                old(self)@,
                *key,
                lines as int,
                height as int,
            ),
    {
        match key.code {
            KeyCode::Esc => self.widen_or_leave(),
            KeyCode::Up => (Effect::Keep, Outcome::Move(Direction::Up)),
            KeyCode::Down => (Effect::Keep, Outcome::Move(Direction::Down)),
            KeyCode::Left => (Effect::Keep, Outcome::Move(Direction::Left)),
            KeyCode::Right => (Effect::Keep, Outcome::Move(Direction::Right)),
            KeyCode::PageDown => {
                self.scroll = page_down(self.scroll, lines, height);
                (Effect::Keep, Outcome::Stay)
            },
            KeyCode::PageUp => {
                self.scroll = page_up(self.scroll);
                (Effect::Keep, Outcome::Stay)
            },
            KeyCode::Home => {
                self.scroll = 0;
                (Effect::Keep, Outcome::Stay)
            },
            KeyCode::Char(c) => {
                if c == 'c' && key.ctrl {
                    self.leave()
                } else if c == 'q' {
                    self.widen_or_leave()
                } else if c == '/' {
                    self.typing = true;
                    (Effect::Keep, Outcome::Stay)
                } else if c == ' ' {
                    (Effect::Toggle, Outcome::Stay)
                } else if c == '+' {
                    (Effect::SetView(true), Outcome::Stay)
                } else if c == '-' {
                    (Effect::SetView(false), Outcome::Stay)
                } else if c == 'a' || c == 'A' {
                    self.amend = !self.amend;
                    (Effect::Keep, Outcome::Stay)
                } else {
                    (Effect::Keep, Outcome::Stay)
                }
            },
            _ => (Effect::Keep, Outcome::Stay),
        }
    }

    /// What a key does to the screen and the tree, when the node `cursor` is
    /// highlighted, and the right pane has `lines` lines and shows `height` of them.
    pub fn run(
        &mut self,
        tree: &mut TreeModel,
        changes: &Vec<FileChange>,
        key: &Key,
        cursor: Option<&str>,
        lines: usize,
        height: u16,
    ) -> (r: Outcome)
        requires
            old(tree).wf(),
            changes@.len() <= old(tree).marks().len(),
        ensures
            ({
                let (w, effect, outcome) = select_next(
                    old(self)@,
                    *key,
                    selected_files(old(tree).marks()),
                    lines as int,
                    height as int,
                );
                let id = match cursor {
                    Some(id) => Some(id@),
                    None => None,
                };
                &&& final(self)@ == w
                &&& r == outcome
                &&& final(tree).wf()
                &&& final(tree).marks() == marks_after(
                    effect,
                    old(tree).marks(),
                    old(tree).shapes(),
                    id,
                )
                &&& final(tree).labels() == old(tree).labels()
                &&& final(tree).shapes() == shown_after(
                    effect,
                    old(tree).shapes(),
                    changes@,
                    w.needle,
                    old(tree).labels(),
                )
            }),
    {
        let selected = tree.selected_count();
        let (effect, outcome) = self.decide(key, selected, lines, height);
        match effect {
            Effect::Keep => {},
            Effect::Toggle => {
                if let Some(id) = cursor {
                    tree.toggle(id);
                }
            },
            Effect::SetView(value) => tree.set_view(value),
            Effect::Narrow => apply_filter(tree, changes, self.needle.as_str()),
        }
        outcome
    }
}

// ----- what holds of every key --------------------------------------------------------------------

/// The screen is left with a commit only if something is selected.
pub proof fn no_empty_commits(v: ScreenView, key: Key, selected: nat, lines: int, height: int)
    ensures
        select_next(v, key, selected, lines, height).2 matches Outcome::Leave(r) ==> (r.confirmed
            ==> selected > 0 && confirms(key)),
{
}

/// What is selected changes only by `Space`, `+` and `-`, and not while the filter
/// is typed.
pub proof fn typing_keeps_the_selection(
    v: ScreenView,
    key: Key,
    selected: nat,
    lines: int,
    height: int,
    marks: Seq<Marks>,
    nodes: Seq<Shape>,
    cursor: Option<Seq<char>>,
)
    requires
        v.typing || !(key.code == KeyCode::Char(' ') || key.code == KeyCode::Char('+') || key.code
            == KeyCode::Char('-')),
    ensures
        marks_after(
            select_next(v, key, selected, lines, height).1,
            marks,
            nodes,
            cursor,
        ) == marks,
{
}

/// With a filter, `Esc` and `q` do not leave the screen: they widen the tree again.
pub proof fn leaving_takes_two_presses(
    v: ScreenView,
    key: Key,
    selected: nat,
    lines: int,
    height: int,
)
    requires
        !v.typing,
        v.needle.len() > 0,
        key.code == KeyCode::Esc || key.code == KeyCode::Char('q'),
    ensures
        ({
            let (w, effect, outcome) = select_next(v, key, selected, lines, height);
            &&& w.needle.len() == 0
            &&& effect == Effect::Narrow
            &&& outcome == Outcome::Narrowed
        }),
{
}

/// The filter and what is shown go together: the filter changes only with the
/// effect that shows what passes it.
pub proof fn view_follows_the_filter(
    v: ScreenView,
    key: Key,
    selected: nat,
    lines: int,
    height: int,
)
    ensures
        ({
            let (w, effect, outcome) = select_next(v, key, selected, lines, height);
            &&& w.needle != v.needle ==> effect == Effect::Narrow
            &&& effect == Effect::Narrow <==> outcome == Outcome::Narrowed
        }),
{
}

/// What the header says of the place: the branch, or the bookmark with its revision.
pub proof fn headers_name_the_target(label: Seq<char>, rev: Seq<char>, revision: Option<Seq<char>>)
    ensures
        label.len() > 0 ==> target_text(BackendKind::Git, TargetView { label, revision })
            == "branch "@ + label,
        label.len() > 0 ==> target_text(
            BackendKind::Jj,
            TargetView { label, revision: Some(rev) },
        ) == "bookmark "@ + label + " ("@ + rev + ")"@,
        label.len() > 0 ==> target_text(BackendKind::Jj, TargetView { label, revision: None })
            == "bookmark "@ + label,
        label.len() == 0 ==> target_text(BackendKind::Git, TargetView { label, revision })
            == "(no bookmark — describe only)"@ && target_text(
            BackendKind::Jj,
            TargetView { label, revision },
        ) == "(no bookmark — describe only)"@,
{
}

/// What the header holds: the target, a badge exactly if the commit amends, and how many
/// of the files are selected.
pub proof fn headers_hold(
    kind: BackendKind,
    target: TargetView,
    amend: bool,
    selected: nat,
    total: nat,
)
    ensures
        ({
            let h = header_spans(kind, target, amend, selected, total);
            &&& h.len() == if amend {
                4int
            } else {
                3int
            }
            &&& h[0] == (SpanView { text: "Target: "@, style: colored(Color::DarkGray) })
            &&& h[1] == (SpanView {
                text: target_text(kind, target),
                style: colored(Color::Cyan),
            })
            &&& amend ==> h[2] == (SpanView { text: "  [AMEND]"@, style: strong(Color::Magenta) })
            &&& h.last() == (SpanView {
                text: "    selected "@ + decimal_of(selected) + "/"@ + decimal_of(total),
                style: colored(Color::DarkGray),
            })
        }),
{
}

/// A file is kept by the filter exactly if its path passes it, and what is kept stays in
/// order.
pub proof fn the_filter_keeps_what_passes(changes: Seq<FileChange>, needle: Seq<char>)
    requires
        changes.len() <= usize::MAX,
    ensures
        forall|k: int|
            0 <= k < kept(changes, needle).len() ==> (#[trigger] kept(changes, needle)[k])
                < changes.len() && passes(changes[kept(changes, needle)[k] as int].path@, needle),
        forall|j: int, k: int|
            0 <= j < k < kept(changes, needle).len() ==> (#[trigger] kept(changes, needle)[j]) < (
            #[trigger] kept(changes, needle)[k]),
        forall|i: int|
            0 <= i < changes.len() && passes((#[trigger] changes[i]).path@, needle) ==> kept(
                changes,
                needle,
            ).contains(i as usize),
    decreases changes.len(),
{
    if changes.len() > 0 {
        let rest = changes.drop_last();
        let n = changes.len() - 1;
        the_filter_keeps_what_passes(rest, needle);
        let before = kept(rest, needle);
        let out = kept(changes, needle);
        assert forall|k: int| 0 <= k < out.len() implies (#[trigger] out[k]) < changes.len()
            && passes(changes[out[k] as int].path@, needle) by {
            if k < before.len() {
                assert(before[k] < rest.len());
                assert(passes(rest[before[k] as int].path@, needle));
            }
        }
        assert forall|j: int, k: int| 0 <= j < k < out.len() implies (#[trigger] out[j]) < (
        #[trigger] out[k]) by {
            assert(before[j] < rest.len());
            if k < before.len() {
                assert(before[j] < before[k]);
            }
        }
        assert forall|i: int|
            0 <= i < changes.len() && passes((#[trigger] changes[i]).path@, needle) implies out.contains(
            i as usize,
        ) by {
            if i < n {
                assert(rest[i] == changes[i]);
                let k = choose|k: int| 0 <= k < before.len() && before[k] == i as usize;
                assert(out[k] == i as usize);
            } else {
                assert(out[before.len() as int] == i as usize);
            }
        }
    }
}

/// Confirming leaves the screen with a commit as soon as anything is selected, also
/// while the filter is typed, and amends as the screen says; with nothing selected
/// nothing happens.
pub proof fn confirming_commits(
    v: ScreenView,
    c: char,
    selected: nat,
    lines: int,
    height: int,
)
    requires
        c == 's' || c == 'S',
    ensures
        selected > 0 ==> select_next(
            v,
            Key { code: KeyCode::Enter, ctrl: true },
            selected,
            lines,
            height,
        ) == (
            v,
            Effect::Keep,
            Outcome::Leave(SelectResult { confirmed: true, amend: v.amend }),
        ),
        selected > 0 ==> select_next(
            v,
            Key { code: KeyCode::Char(c), ctrl: true },
            selected,
            lines,
            height,
        ) == (
            v,
            Effect::Keep,
            Outcome::Leave(SelectResult { confirmed: true, amend: v.amend }),
        ),
        selected == 0 ==> select_next(
            v,
            Key { code: KeyCode::Char(c), ctrl: true },
            selected,
            lines,
            height,
        ) == (v, Effect::Keep, Outcome::Stay),
{
}

/// What the keys do while no filter is typed: `Space` toggles the highlighted node, `+`
/// and `-` select and clear what is shown, `a` turns amending on and off, `/` starts
/// typing a filter, and nothing of that leaves the screen.
pub proof fn command_keys(
    v: ScreenView,
    selected: nat,
    lines: int,
    height: int,
    c: char,
)
    requires
        !v.typing,
    ensures
        select_next(
            v,
            Key { code: KeyCode::Char(' '), ctrl: false },
            selected,
            lines,
            height,
        ) == (v, Effect::Toggle, Outcome::Stay),
        select_next(
            v,
            Key { code: KeyCode::Char('+'), ctrl: false },
            selected,
            lines,
            height,
        ) == (v, Effect::SetView(true), Outcome::Stay),
        select_next(
            v,
            Key { code: KeyCode::Char('-'), ctrl: false },
            selected,
            lines,
            height,
        ) == (v, Effect::SetView(false), Outcome::Stay),
        c == 'a' || c == 'A' ==> select_next(
            v,
            Key { code: KeyCode::Char(c), ctrl: false },
            selected,
            lines,
            height,
        ) == (
            ScreenView {
                amend: !v.amend,
                needle: v.needle,
                typing: false,
                scroll: v.scroll,
                last: v.last,
            },
            Effect::Keep,
            Outcome::Stay,
        ),
        select_next(
            v,
            Key { code: KeyCode::Char('/'), ctrl: false },
            selected,
            lines,
            height,
        ) == (
            ScreenView {
                amend: v.amend,
                needle: v.needle,
                typing: true,
                scroll: v.scroll,
                last: v.last,
            },
            Effect::Keep,
            Outcome::Stay,
        ),
        !(c == ' ' || c == '+' || c == '-' || c == 'a' || c == 'A' || c == '/' || c == 'q')
            ==> select_next(
            v,
            Key { code: KeyCode::Char(c), ctrl: false },
            selected,
            lines,
            height,
        ) == (v, Effect::Keep, Outcome::Stay),
{
}

/// The arrows move the cursor of the tree, the page keys scroll the right pane, and
/// neither does anything else.
pub proof fn moving_keys(v: ScreenView, selected: nat, lines: int, height: int)
    requires
        !v.typing,
    ensures
        select_next(v, Key { code: KeyCode::Up, ctrl: false }, selected, lines, height) == (
            v,
            Effect::Keep,
            Outcome::Move(Direction::Up),
        ),
        select_next(v, Key { code: KeyCode::Down, ctrl: false }, selected, lines, height) == (
            v,
            Effect::Keep,
            Outcome::Move(Direction::Down),
        ),
        select_next(v, Key { code: KeyCode::Left, ctrl: false }, selected, lines, height) == (
            v,
            Effect::Keep,
            Outcome::Move(Direction::Left),
        ),
        select_next(v, Key { code: KeyCode::Right, ctrl: false }, selected, lines, height) == (
            v,
            Effect::Keep,
            Outcome::Move(Direction::Right),
        ),
        select_next(v, Key { code: KeyCode::PageDown, ctrl: false }, selected, lines, height) == (
            ScreenView { scroll: paged_down(v.scroll as int, lines, height) as u16, ..v },
            Effect::Keep,
            Outcome::Stay,
        ),
        select_next(v, Key { code: KeyCode::PageUp, ctrl: false }, selected, lines, height) == (
            ScreenView { scroll: paged_up(v.scroll as int) as u16, ..v },
            Effect::Keep,
            Outcome::Stay,
        ),
        select_next(v, Key { code: KeyCode::Home, ctrl: false }, selected, lines, height) == (
            ScreenView { scroll: 0, ..v },
            Effect::Keep,
            Outcome::Stay,
        ),
        select_next(v, Key { code: KeyCode::Enter, ctrl: false }, selected, lines, height) == (
            v,
            Effect::Keep,
            Outcome::Stay,
        ),
{
}

/// `Ctrl+C` leaves the screen without a commit, whatever is typed; `Esc` and `q` do so
/// where no filter narrows the tree.
pub proof fn cancelling_leaves(v: ScreenView, selected: nat, lines: int, height: int)
    ensures
        ({
            let out = (
                v,
                Effect::Keep,
                Outcome::Leave(SelectResult { confirmed: false, amend: v.amend }),
            );
            &&& select_next(
                v,
                Key { code: KeyCode::Char('c'), ctrl: true },
                selected,
                lines,
                height,
            ) == out
            &&& !v.typing && v.needle.len() == 0 ==> select_next(
                v,
                Key { code: KeyCode::Esc, ctrl: false },
                selected,
                lines,
                height,
            ) == out && select_next(
                v,
                Key { code: KeyCode::Char('q'), ctrl: false },
                selected,
                lines,
                height,
            ) == out
        }),
{
}

/// While the filter is typed every character goes behind it, also one that is a command
/// otherwise; `Backspace` takes the last one off; `Enter` keeps the filter and `Esc`
/// clears it, and both end the typing.
pub proof fn typing_edits_the_filter(
    v: ScreenView,
    c: char,
    selected: nat,
    lines: int,
    height: int,
)
    requires
        v.typing,
    ensures
        ({
            let (w, effect, outcome) = select_next(
                v,
                Key { code: KeyCode::Char(c), ctrl: false },
                selected,
                lines,
                height,
            );
            let (x, _, _) = select_next(
                w,
                Key { code: KeyCode::Backspace, ctrl: false },
                selected,
                lines,
                height,
            );
            let (kept_one, keeping, _) = select_next(
                v,
                Key { code: KeyCode::Enter, ctrl: false },
                selected,
                lines,
                height,
            );
            let (cleared, clearing, _) = select_next(
                v,
                Key { code: KeyCode::Esc, ctrl: false },
                selected,
                lines,
                height,
            );
            &&& w == (ScreenView { needle: v.needle + seq![c], ..v })
            &&& effect == Effect::Narrow && outcome == Outcome::Narrowed
            &&& x == v
            &&& kept_one == (ScreenView { typing: false, ..v }) && keeping == Effect::Keep
            &&& cleared == (ScreenView { typing: false, needle: seq![], ..v }) && clearing
                == Effect::Narrow
            &&& select_next(v, Key { code: KeyCode::Up, ctrl: false }, selected, lines, height) == (
                v,
                Effect::Keep,
                Outcome::Move(Direction::Up),
            )
            &&& select_next(v, Key { code: KeyCode::Down, ctrl: false }, selected, lines, height)
                == (v, Effect::Keep, Outcome::Move(Direction::Down))
        }),
{
    assert(v.needle.push(c) =~= v.needle + seq![c]);
    assert(v.needle.push(c).drop_last() =~= v.needle);
}

/// What the effects do to the tree: toggling goes by the node that is highlighted,
/// selecting and clearing take the files that are shown and no others, and narrowing
/// shows the files that the filter keeps.
pub proof fn effects_on_the_tree(
    marks: Seq<Marks>,
    nodes: Seq<Shape>,
    changes: Seq<FileChange>,
    needle: Seq<char>,
    labels: Seq<Seq<Seq<char>>>,
    id: Seq<char>,
    value: bool,
)
    ensures
        (find_in(nodes, id) matches Some(n) ==> marks_after(
            Effect::Toggle,
            marks,
            nodes,
            Some(id),
        ) == toggled(marks, n)),
        find_in(nodes, id) is None ==> marks_after(Effect::Toggle, marks, nodes, Some(id)) == marks,
        marks_after(Effect::Toggle, marks, nodes, None) == marks,
        marks_after(Effect::SetView(value), marks, nodes, Some(id)) == marks_set(
            marks,
            files_in(nodes),
            value,
        ),
        marks_after(Effect::SetView(value), marks, nodes, None) == marks_set(
            marks,
            files_in(nodes),
            value,
        ),
        marks_after(Effect::Keep, marks, nodes, Some(id)) == marks,
        marks_after(Effect::Narrow, marks, nodes, Some(id)) == marks,
        shown_after(Effect::Narrow, nodes, changes, needle, labels) == view_of(
            changes,
            kept(changes, needle),
            labels,
        ),
        shown_after(Effect::Keep, nodes, changes, needle, labels) == nodes,
        shown_after(Effect::Toggle, nodes, changes, needle, labels) == nodes,
        shown_after(Effect::SetView(value), nodes, changes, needle, labels) == nodes,
{
}

} // verus!
