//! The screen that shows what a pull request would contain, and lets files be marked
//! to be reverted.

use vstd::prelude::*;

use crate::model::{opt_view, FileChange};
use crate::text;
use crate::text::{decimal_of, texts};
use crate::tree::{
    find_in, flagged_paths, marked, toggled, touched, Marks, Shape, TreeModel,
};
use crate::ui::paint::{
    color_style, colored, span_view, strong, strong_style, Color, Line, SpanView,
};
use crate::ui::select::{selected_files, Direction};
use crate::ui::{page_down, page_up, paged_down, paged_up, Key, KeyCode};

verus! {

/// What the screen was left for.
#[derive(Debug)]
pub enum ReviewOutcome {
    /// To go back.
    Back,
    /// To revert these paths: the new and the old path of every marked file.
    RevertMarked { paths: Vec<String> },
}

/// The keys, below the panes.
pub const FOOTER: &'static str =
    "↑↓ move  ←→ fold  Space mark  +/- all/none  PgUp/PgDn/Home scroll  r revert marked  Esc back";

/// The header: which branches are compared, and how many files there are and are
/// marked.
pub open spec fn header_spans(
    branch: Seq<char>,
    base: Seq<char>,
    marked_files: nat,
    total: nat,
) -> Seq<SpanView> {
    seq![
        span_view(branch, colored(Color::Cyan)),
        span_view(" vs "@, colored(Color::DarkGray)),
        span_view(base, colored(Color::Cyan)),
        span_view(
            "    "@ + decimal_of(total) + " file(s)    marked "@ + decimal_of(marked_files),
            colored(Color::DarkGray),
        ),
    ]
}

/// The header.
pub fn header_line(branch: &str, base: &str, marked_files: usize, total: usize) -> (r: Line)
    ensures
        r@ == header_spans(branch@, base@, marked_files as nat, total as nat),
{
    let mut counts = "    ".to_string();
    text::push_decimal(&mut counts, total as u128);
    counts.append(" file(s)    marked ");
    text::push_decimal(&mut counts, marked_files as u128);
    let mut line = Line::new();
    line.push(branch.to_string(), color_style(Color::Cyan));
    line.push(" vs ".to_string(), color_style(Color::DarkGray));
    line.push(base.to_string(), color_style(Color::Cyan));
    line.push(counts, color_style(Color::DarkGray));
    proof {
        assert(line@ =~= header_spans(branch@, base@, marked_files as nat, total as nat));
    }
    line
}

/// The line below the panes: the question while it is asked, else the keys.
pub open spec fn footer_span(confirming: bool, marked_files: nat, base: Seq<char>) -> SpanView {
    if confirming {
        span_view(
            "Revert "@ + decimal_of(marked_files) + " marked file(s) to '"@ + base
                + "'? Working copy only — no commit.  [y/N]"@,
            strong(Color::Yellow),
        )
    } else {
        span_view(FOOTER@, colored(Color::DarkGray))
    }
}

/// The line below the panes.
pub fn footer_line(confirming: bool, marked_files: usize, base: &str) -> (r: Line)
    ensures
        r@ == seq![footer_span(confirming, marked_files as nat, base@)],
{
    let mut line = Line::new();
    if confirming {
        let mut out = "Revert ".to_string();
        text::push_decimal(&mut out, marked_files as u128);
        out.append(" marked file(s) to '");
        out.append(base);
        out.append("'? Working copy only — no commit.  [y/N]");
        line.push(out, strong_style(Color::Yellow));
    } else {
        line.push(FOOTER.to_string(), color_style(Color::DarkGray));
    }
    proof {
        assert(line@ =~= seq![footer_span(confirming, marked_files as nat, base@)]);
    }
    line
}

/// The state of the screen.
pub struct Screen {
    confirming: bool,
    scroll: u16,
    last: Option<String>,
}

/// The state of the screen as a mathematical value.
pub struct ScreenView {
    /// Whether the question is asked.
    pub confirming: bool,
    /// The offset of the right pane.
    pub scroll: u16,
    /// What was highlighted when the screen was last drawn.
    pub last: Option<Seq<char>>,
}

impl View for Screen {
    type V = ScreenView;

    closed spec fn view(&self) -> ScreenView {
        ScreenView { confirming: self.confirming, scroll: self.scroll, last: opt_view(self.last) }
    }
}

/// What is left to do after a key.
#[derive(Debug, Clone, Copy, PartialEq, Eq, Structural)]
pub enum Outcome {
    /// Nothing.
    Stay,
    /// Move the cursor of the tree.
    Move(Direction),
    /// Go back.
    Back,
    /// Revert the marked files.
    Revert,
}

/// What a key does to the marks.
#[derive(Debug, Clone, Copy, PartialEq, Eq, Structural)]
pub enum Effect {
    /// Nothing.
    Keep,
    /// Toggle the highlighted node.
    Toggle,
    /// Mark or unmark everything.
    SetAll(bool),
}

/// What a key does, when `count` files are marked. Only `y` agrees to revert; any
/// other key takes the question back.
pub open spec fn review_next(v: ScreenView, key: Key, count: nat, lines: int, height: int) -> (
    ScreenView,
    Effect,
    Outcome,
) {
    if v.confirming {
        if key.code == KeyCode::Char('y') || key.code == KeyCode::Char('Y') {
            (v, Effect::Keep, Outcome::Revert)
        } else {
            (ScreenView { confirming: false, ..v }, Effect::Keep, Outcome::Stay)
        }
    } else {
        match key.code {
            KeyCode::Esc => (v, Effect::Keep, Outcome::Back),
            KeyCode::Up => (v, Effect::Keep, Outcome::Move(Direction::Up)),
            KeyCode::Down => (v, Effect::Keep, Outcome::Move(Direction::Down)),
            KeyCode::Left => (v, Effect::Keep, Outcome::Move(Direction::Left)),
            KeyCode::Right => (v, Effect::Keep, Outcome::Move(Direction::Right)),
            KeyCode::PageDown => (
                ScreenView { scroll: paged_down(v.scroll as int, lines, height) as u16, ..v },
                Effect::Keep,
                Outcome::Stay,
            ),
            KeyCode::PageUp => (
                ScreenView { scroll: paged_up(v.scroll as int) as u16, ..v },
                Effect::Keep,
                Outcome::Stay,
            ),
            KeyCode::Home => (ScreenView { scroll: 0, ..v }, Effect::Keep, Outcome::Stay),
            KeyCode::Char(c) => if (c == 'c' && key.ctrl) || c == 'q' {
                (v, Effect::Keep, Outcome::Back)
            } else if c == 'r' || c == 'R' {
                (
                    ScreenView { confirming: v.confirming || count > 0, ..v },
                    Effect::Keep,
                    Outcome::Stay,
                )
            } else if c == ' ' {
                (v, Effect::Toggle, Outcome::Stay)
            } else if c == '+' {
                (v, Effect::SetAll(true), Outcome::Stay)
            } else if c == '-' {
                (v, Effect::SetAll(false), Outcome::Stay)
            } else {
                (v, Effect::Keep, Outcome::Stay)
            },
            _ => (v, Effect::Keep, Outcome::Stay),
        }
    }
}

/// The marks after an effect, when `cursor` is highlighted.
pub open spec fn marks_after(
    effect: Effect,
    marks: Seq<Marks>,
    nodes: Seq<Shape>,
    cursor: Option<Seq<char>>,
) -> Seq<Marks> {
    match effect {
        Effect::Keep => marks,
        Effect::Toggle => match cursor {
            Some(id) => match find_in(nodes, id) {
                Some(n) => toggled(marks, n),
                None => marks,
            },
            None => marks,
        },
        Effect::SetAll(value) => marks.map_values(|m: Marks| marked(m, value)),
    }
}

impl Screen {
    /// The screen as it opens: nothing is marked, since reverting has to be asked
    /// for.
    pub fn new(tree: &mut TreeModel) -> (r: Self)
        requires
            old(tree).wf(),
        ensures
            r@ == (ScreenView { confirming: false, scroll: 0, last: None }),
            final(tree).wf(),
            final(tree).marks() == old(tree).marks().map_values(|m: Marks| marked(m, false)),
            final(tree).labels() == old(tree).labels(),
            final(tree).shapes() == old(tree).shapes(),
    {
        tree.set_all(false);
        Screen { confirming: false, scroll: 0, last: None }
    }

    /// Whether the question is asked.
    pub fn confirming(&self) -> (r: bool)
        ensures
            r == self@.confirming,
    {
        self.confirming
    }

    /// The offset of the right pane.
    pub fn scroll(&self) -> (r: u16)
        ensures
            r == self@.scroll,
    {
        self.scroll
    }

    /// Note what is highlighted before drawing: another node starts at its top.
    pub fn look_at(&mut self, cursor: Option<&str>)
        ensures
            ({
                let now = match cursor {
                    Some(id) => Some(id@),
                    None => None,
                };
                final(self)@ == if now == old(self)@.last {
                    old(self)@
                } else {
                    ScreenView { scroll: 0, last: now, ..old(self)@ }
                }
            }),
    {
        let same = match (&self.last, cursor) {
            (Some(a), Some(b)) => text::same(a.as_str(), b),
            (None, None) => true,
            _ => false,
        };
        if !same {
            self.scroll = 0;
            self.last = match cursor {
                Some(id) => Some(id.to_string()),
                None => None,
            };
        }
    }

    /// What a key does to the screen.
    fn decide(&mut self, key: &Key, count: usize, lines: usize, height: u16) -> (r: (
        Effect,
        Outcome,
    ))
        ensures
            (final(self)@, r.0, r.1) == review_next(
                old(self)@,
                *key,
                count as nat,
                lines as int,
                height as int,
            ),
    {
        if self.confirming {
            return if matches!(key.code, KeyCode::Char('y') | KeyCode::Char('Y')) {
                (Effect::Keep, Outcome::Revert)
            } else {
                self.confirming = false;
                (Effect::Keep, Outcome::Stay)
            };
        }
        match key.code {
            KeyCode::Esc => (Effect::Keep, Outcome::Back),
            KeyCode::Up => (Effect::Keep, Outcome::Move(Direction::Up)),
            KeyCode::Down => (Effect::Keep, Outcome::Move(Direction::Down)),
            KeyCode::Left => (Effect::Keep, Outcome::Move(Direction::Left)),
            KeyCode::Right => (Effect::Keep, Outcome::Move(Direction::Right)),
            KeyCode::PageDown => {
                self.scroll = page_down(self.scroll, lines, height);
                (Effect::Keep, Outcome::Stay)
            },
            KeyCode::PageUp => {
                self.scroll = page_up(self.scroll);
                (Effect::Keep, Outcome::Stay)
            },
            KeyCode::Home => {
                self.scroll = 0;
                (Effect::Keep, Outcome::Stay)
            },
            KeyCode::Char(c) => {
                if (c == 'c' && key.ctrl) || c == 'q' {
                    (Effect::Keep, Outcome::Back)
                } else if c == 'r' || c == 'R' {
                    if count > 0 {
                        self.confirming = true;
                    }
                    (Effect::Keep, Outcome::Stay)
                } else if c == ' ' {
                    (Effect::Toggle, Outcome::Stay)
                } else if c == '+' {
                    (Effect::SetAll(true), Outcome::Stay)
                } else if c == '-' {
                    (Effect::SetAll(false), Outcome::Stay)
                } else {
                    (Effect::Keep, Outcome::Stay)
                }
            },
            _ => (Effect::Keep, Outcome::Stay),
        }
    }

    /// What a key does to the screen and the tree, when the node `cursor` is
    /// highlighted, and the right pane has `lines` lines and shows `height` of them.
    pub fn run(
        &mut self,
        tree: &mut TreeModel,
        key: &Key,
        cursor: Option<&str>,
        lines: usize,
        height: u16,
    ) -> (r: Outcome)
        requires
            old(tree).wf(),
        ensures
            ({
                let (w, effect, outcome) = review_next(
                    old(self)@,
                    *key,
                    selected_files(old(tree).marks()),
                    lines as int,
                    height as int,
                );
                let id = match cursor {
                    Some(id) => Some(id@),
                    None => None,
                };
                &&& final(self)@ == w
                &&& r == outcome
                &&& final(tree).wf()
                &&& final(tree).marks() == marks_after(
                    effect,
                    old(tree).marks(),
                    old(tree).shapes(),
                    id,
                )
                &&& final(tree).labels() == old(tree).labels()
                &&& final(tree).shapes() == old(tree).shapes()
            }),
    {
        let count = tree.selected_count();
        let (effect, outcome) = self.decide(key, count, lines, height);
        match effect {
            Effect::Keep => {},
            Effect::Toggle => {
                if let Some(id) = cursor {
                    tree.toggle(id);
                }
            },
            Effect::SetAll(value) => tree.set_all(value),
        }
        outcome
    }
}

/// What the screen was left for, if it was: to go back, or to revert what is marked.
pub fn left_for(outcome: Outcome, tree: &TreeModel, changes: &[FileChange]) -> (r: Option<
    ReviewOutcome,
>)
    requires
        changes@.len() <= tree.marks().len(),
    ensures
        match outcome {
            Outcome::Back => r matches Some(ReviewOutcome::Back),
            Outcome::Revert => r matches Some(ReviewOutcome::RevertMarked { paths }) && texts(
                paths@,
            ) == flagged_paths(changes@, touched(tree.marks())),
            _ => r is None,
        },
{
    match outcome {
        Outcome::Back => Some(ReviewOutcome::Back),
        Outcome::Revert => Some(
            ReviewOutcome::RevertMarked { paths: tree.selected_paths(changes) },
        ),
        _ => None,
    }
}

/// Files are reverted only after the question was asked, which is only if some are
/// marked, and answered with `y`; and answering changes no marks.
pub proof fn reverting_takes_a_yes(v: ScreenView, key: Key, count: nat, lines: int, height: int)
    ensures
        ({
            let (w, effect, outcome) = review_next(v, key, count, lines, height);
            &&& outcome == Outcome::Revert ==> v.confirming && (key.code == KeyCode::Char('y')
                || key.code == KeyCode::Char('Y'))
            &&& w.confirming && !v.confirming ==> count > 0
            &&& v.confirming ==> effect == Effect::Keep
        }),
{
}

/// What the header holds: the branch, the base it is compared with, how many files there
/// are, and how many of them are marked.
pub proof fn headers_hold(branch: Seq<char>, base: Seq<char>, marked_files: nat, total: nat)
    ensures
        ({
            let h = header_spans(branch, base, marked_files, total);
            &&& h.len() == 4
            &&& h[0] == (SpanView { text: branch, style: colored(Color::Cyan) })
            &&& h[1] == (SpanView { text: " vs "@, style: colored(Color::DarkGray) })
            &&& h[2] == (SpanView { text: base, style: colored(Color::Cyan) })
            &&& h[3] == (SpanView {
                text: "    "@ + decimal_of(total) + " file(s)    marked "@ + decimal_of(
                    marked_files,
                ),
                style: colored(Color::DarkGray),
            })
        }),
{
}

/// The question names how many files it is about and what they are reverted to; without
/// a question the keys are listed.
pub proof fn footers_ask(marked_files: nat, base: Seq<char>)
    ensures
        footer_span(true, marked_files, base) == (SpanView {
            text: "Revert "@ + decimal_of(marked_files) + " marked file(s) to '"@ + base
                + "'? Working copy only — no commit.  [y/N]"@,
            style: strong(Color::Yellow),
        }),
        footer_span(false, marked_files, base) == (SpanView {
            text: FOOTER@,
            style: colored(Color::DarkGray),
        }),
{
}

/// How files come to be reverted: `r` asks, if any are marked, and `y` agrees; any other
/// key takes the question back and does nothing else.
pub proof fn reverting_is_asked(
    v: ScreenView,
    key: Key,
    c: char,
    count: nat,
    lines: int,
    height: int,
)
    requires
        !v.confirming,
        c == 'r' || c == 'R',
    ensures
        ({
            let (w, effect, outcome) = review_next(
                v,
                Key { code: KeyCode::Char(c), ctrl: false },
                count,
                lines,
                height,
            );
            &&& effect == Effect::Keep && outcome == Outcome::Stay
            &&& count == 0 ==> w == v
            &&& count > 0 ==> w == (ScreenView { confirming: true, ..v })
            &&& count > 0 && (key.code == KeyCode::Char('y') || key.code == KeyCode::Char('Y'))
                ==> review_next(w, key, count, lines, height).2 == Outcome::Revert
            &&& count > 0 && !(key.code == KeyCode::Char('y') || key.code == KeyCode::Char('Y'))
                ==> review_next(w, key, count, lines, height) == (
                v,
                Effect::Keep,
                Outcome::Stay,
            )
        }),
{
}

/// What the other keys do: `Space` toggles the highlighted node, `+` and `-` mark and
/// unmark everything, and `Esc`, `q` and `Ctrl+C` go back.
pub proof fn review_keys(v: ScreenView, c: char, count: nat, lines: int, height: int)
    requires
        !v.confirming,
    ensures
        review_next(v, Key { code: KeyCode::Char(' '), ctrl: false }, count, lines, height) == (
            v,
            Effect::Toggle,
            Outcome::Stay,
        ),
        review_next(v, Key { code: KeyCode::Char('+'), ctrl: false }, count, lines, height) == (
            v,
            Effect::SetAll(true),
            Outcome::Stay,
        ),
        review_next(v, Key { code: KeyCode::Char('-'), ctrl: false }, count, lines, height) == (
            v,
            Effect::SetAll(false),
            Outcome::Stay,
        ),
        review_next(v, Key { code: KeyCode::Esc, ctrl: false }, count, lines, height) == (
            v,
            Effect::Keep,
            Outcome::Back,
        ),
        review_next(v, Key { code: KeyCode::Char('q'), ctrl: false }, count, lines, height) == (
            v,
            Effect::Keep,
            Outcome::Back,
        ),
        review_next(v, Key { code: KeyCode::Char('c'), ctrl: true }, count, lines, height) == (
            v,
            Effect::Keep,
            Outcome::Back,
        ),
        !(c == ' ' || c == '+' || c == '-' || c == 'q' || c == 'r' || c == 'R') ==> review_next(
            v,
            Key { code: KeyCode::Char(c), ctrl: false },
            count,
            lines,
            height,
        ) == (v, Effect::Keep, Outcome::Stay),
{
}

/// The arrows move the cursor of the tree, the page keys scroll the right pane, and
/// neither does anything else.
pub proof fn moving_keys(v: ScreenView, count: nat, lines: int, height: int)
    requires
        !v.confirming,
    ensures
        review_next(v, Key { code: KeyCode::Up, ctrl: false }, count, lines, height) == (
            v,
            Effect::Keep,
            Outcome::Move(Direction::Up),
        ),
        review_next(v, Key { code: KeyCode::Down, ctrl: false }, count, lines, height) == (
            v,
            Effect::Keep,
            Outcome::Move(Direction::Down),
        ),
        review_next(v, Key { code: KeyCode::Left, ctrl: false }, count, lines, height) == (
            v,
            Effect::Keep,
            Outcome::Move(Direction::Left),
        ),
        review_next(v, Key { code: KeyCode::Right, ctrl: false }, count, lines, height) == (
            v,
            Effect::Keep,
            Outcome::Move(Direction::Right),
        ),
        review_next(v, Key { code: KeyCode::PageDown, ctrl: false }, count, lines, height) == (
            ScreenView { scroll: paged_down(v.scroll as int, lines, height) as u16, ..v },
            Effect::Keep,
            Outcome::Stay,
        ),
        review_next(v, Key { code: KeyCode::PageUp, ctrl: false }, count, lines, height) == (
            ScreenView { scroll: paged_up(v.scroll as int) as u16, ..v },
            Effect::Keep,
            Outcome::Stay,
        ),
        review_next(v, Key { code: KeyCode::Home, ctrl: false }, count, lines, height) == (
            ScreenView { scroll: 0, ..v },
            Effect::Keep,
            Outcome::Stay,
        ),
{
}

/// What the effects do to the marks: toggling goes by the node that is highlighted, and
/// marking or unmarking everything leaves no file out.
pub proof fn effects_on_the_marks(
    marks: Seq<Marks>,
    nodes: Seq<Shape>,
    cursor: Option<Seq<char>>,
    value: bool,
    i: int,
)
    requires
        0 <= i < marks.len(),
    ensures
        marks_after(Effect::Keep, marks, nodes, cursor) == marks,
        (cursor matches Some(id) ==> (find_in(nodes, id) matches Some(n) ==> marks_after(
            Effect::Toggle,
            marks,
            nodes,
            cursor,
        ) == toggled(marks, n))),
        (cursor matches Some(id) ==> find_in(nodes, id) is None ==> marks_after(
            Effect::Toggle,
            marks,
            nodes,
            cursor,
        ) == marks),
        cursor is None ==> marks_after(Effect::Toggle, marks, nodes, cursor) == marks,
        marks_after(Effect::SetAll(value), marks, nodes, cursor).len() == marks.len(),
        marks_after(Effect::SetAll(value), marks, nodes, cursor)[i] == marked(marks[i], value),
{
}

} // verus!
