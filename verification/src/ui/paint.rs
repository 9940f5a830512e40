//! Styled text.

use vstd::prelude::*;

verus! {

/// A colour of the terminal.
#[derive(Debug, Clone, Copy, PartialEq, Eq, Structural)]
pub enum Color {
    Green,
    Red,
    Yellow,
    Blue,
    Magenta,
    Cyan,
    DarkGray,
    Rgb(u8, u8, u8),
}

/// How text is set; `None` leaves a colour as it is.
#[derive(Debug, Clone, Copy, PartialEq, Eq, Structural)]
pub struct Style {
    pub fg: Option<Color>,
    pub bg: Option<Color>,
    pub bold: bool,
    pub italic: bool,
}

/// Text as it is.
pub open spec fn plain() -> Style {
    Style { fg: None, bg: None, bold: false, italic: false }
}

/// Text in a colour.
pub open spec fn colored(fg: Color) -> Style {
    Style { fg: Some(fg), ..plain() }
}

/// Bold text in a colour.
pub open spec fn strong(fg: Color) -> Style {
    Style { bold: true, ..colored(fg) }
}

/// A stretch of text in one style.
#[derive(Debug, Clone, PartialEq, Eq)]
pub struct Span {
    pub text: String,
    pub style: Style,
}

/// A stretch of text as a mathematical value.
pub struct SpanView {
    pub text: Seq<char>,
    pub style: Style,
}

impl View for Span {
    type V = SpanView;

    open spec fn view(&self) -> SpanView {
        SpanView { text: self.text@, style: self.style }
    }
}

/// A line of styled text.
#[derive(Debug, Clone, PartialEq, Eq)]
pub struct Line {
    pub spans: Vec<Span>,
}

impl View for Line {
    type V = Seq<SpanView>;

    open spec fn view(&self) -> Seq<SpanView> {
        self.spans@.map_values(|s: Span| s@)
    }
}

/// The lines as mathematical values.
pub open spec fn line_views(lines: Seq<Line>) -> Seq<Seq<SpanView>> {
    lines.map_values(|l: Line| l@)
}

/// A stretch of text.
pub open spec fn span_view(text: Seq<char>, style: Style) -> SpanView {
    SpanView { text, style }
}

/// The text of a line.
pub open spec fn line_text(spans: Seq<SpanView>) -> Seq<char>
    decreases spans.len(),
{
    if spans.len() == 0 {
        seq![]
    } else {
        line_text(spans.drop_last()) + spans.last().text
    }
}

/// Text in a colour.
pub fn color_style(fg: Color) -> (r: Style)
    ensures
        r == colored(fg),
{
    Style { fg: Some(fg), bg: None, bold: false, italic: false }
}

/// Bold text in a colour.
pub fn strong_style(fg: Color) -> (r: Style)
    ensures
        r == strong(fg),
{
    Style { fg: Some(fg), bg: None, bold: true, italic: false }
}

/// Text as it is.
pub fn plain_style() -> (r: Style)
    ensures
        r == plain(),
{
    Style { fg: None, bg: None, bold: false, italic: false }
}

/// A stretch of text.
pub fn span(text: String, style: Style) -> (r: Span)
    ensures
        r@ == span_view(text@, style),
{
    Span { text, style }
}

impl Line {
    /// A line without text.
    pub fn new() -> (r: Line)
        ensures
            r@ == Seq::<SpanView>::empty(),
    {
        let r = Line { spans: Vec::new() };
        proof {
            assert(r@ =~= Seq::<SpanView>::empty());
        }
        r
    }

    /// Put a stretch of text behind the line.
    pub fn push(&mut self, text: String, style: Style)
        ensures
            final(self)@ == old(self)@.push(span_view(text@, style)),
    {
        let ghost before = *self;
        let s = span(text, style);
        self.spans.push(s);
        proof {
            assert(self@ =~= before@.push(s@));
        }
    }
}

/// The styles: one colour and nothing else, and the same in bold.
pub proof fn styles(fg: Color)
    ensures
        plain().fg is None && plain().bg is None && !plain().bold && !plain().italic,
        colored(fg).fg == Some(fg) && colored(fg).bg is None && !colored(fg).bold
            && !colored(fg).italic,
        strong(fg).fg == Some(fg) && strong(fg).bg is None && strong(fg).bold && !strong(fg).italic,
{
}

/// The text of a line is that of its stretches, one behind the other.
pub proof fn stretches_make_the_line(a: Seq<SpanView>, b: Seq<SpanView>, s: SpanView)
    ensures
        line_text(a + b) == line_text(a) + line_text(b),
        line_text(seq![s]) == s.text,
        line_text(seq![]).len() == 0,
    decreases b.len(),
{
    let none: Seq<SpanView> = seq![];
    assert(seq![s].drop_last() =~= none);
    assert(line_text(none) =~= seq![]);
    assert(line_text(seq![s]) =~= s.text);
    if b.len() == 0 {
        assert(a + b =~= a);
        assert(line_text(a) + line_text(b) =~= line_text(a));
    } else {
        stretches_make_the_line(a, b.drop_last(), s);
        assert((a + b).drop_last() =~= a + b.drop_last());
        assert(line_text(a + b) =~= line_text(a) + line_text(b));
    }
}

} // verus!
