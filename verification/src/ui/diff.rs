//! A unified diff as styled text: syntax highlighting for the code, with a tint for
//! added and removed lines and styles of their own for the other lines.

use vstd::prelude::*;

use crate::text;
use crate::text::{has_prefix, line_list, pieces};
use crate::ui::paint::{
    colored, line_text, line_views, span_view, strong, strong_style, Color, Line, SpanView, Style,
};

verus! {

// ----- highlighting --------------------------------------------------------------------------

/// `syntect::parsing::SyntaxSet`.
#[verifier::external_type_specification]
#[verifier::external_body]
pub struct ExSyntaxSet(syntect::parsing::SyntaxSet);

/// `syntect::highlighting::Theme`.
#[verifier::external_type_specification]
#[verifier::external_body]
pub struct ExTheme(syntect::highlighting::Theme);

/// `syntect::parsing::SyntaxReference`.
#[verifier::external_type_specification]
#[verifier::external_body]
pub struct ExSyntaxReference(syntect::parsing::SyntaxReference);

/// A stretch of code and its colour.
#[derive(Debug)]
pub struct Piece {
    pub text: String,
    pub rgb: (u8, u8, u8),
}

/// The stretches as mathematical values.
pub open spec fn piece_views(v: Seq<Piece>) -> Seq<(Seq<char>, (u8, u8, u8))> {
    v.map_values(|p: Piece| (p.text@, p.rgb))
}

/// The text of the stretches.
pub open spec fn piece_text(v: Seq<(Seq<char>, (u8, u8, u8))>) -> Seq<char>
    decreases v.len(),
{
    if v.len() == 0 {
        seq![]
    } else {
        piece_text(v.drop_last()) + v.last().0
    }
}

/// Whether the syntaxes are those that come with syntect, in the form for lines that
/// end in a newline: what `SyntaxSet::load_defaults_newlines` gives.
pub uninterp spec fn default_syntaxes(set: syntect::parsing::SyntaxSet) -> bool;

/// The theme of that name among those that come with syntect.
pub uninterp spec fn default_theme(name: Seq<char>) -> Option<syntect::highlighting::Theme>;

/// Of the syntaxes that come with syntect the one for files with the extension.
pub uninterp spec fn syntax_for(extension: Seq<char>) -> Option<syntect::parsing::SyntaxReference>;

/// Of the syntaxes in the set the one for plain text.
pub uninterp spec fn plain_syntax(
    set: syntect::parsing::SyntaxSet,
) -> syntect::parsing::SyntaxReference;

/// How a syntax that comes with syntect and the theme [`THEME`] colour a line of code.
pub uninterp spec fn coloured(syntax: syntect::parsing::SyntaxReference, code: Seq<char>) -> Seq<
    (Seq<char>, (u8, u8, u8)),
>;

/// The syntax of files with the extension: plain text where there is none of its own.
pub open spec fn syntax_of(
    set: syntect::parsing::SyntaxSet,
    extension: Seq<char>,
) -> syntect::parsing::SyntaxReference {
    match syntax_for(extension) {
        Some(s) => s,
        None => plain_syntax(set),
    }
}

/// How a line of code is coloured in a file with the extension.
pub open spec fn highlighted(
    set: syntect::parsing::SyntaxSet,
    extension: Seq<char>,
    code: Seq<char>,
) -> Seq<(Seq<char>, (u8, u8, u8))> {
    coloured(syntax_of(set, extension), code)
}

/// The name of the theme.
pub const THEME: &'static str = "base16-ocean.dark";

/// Holds the syntaxes and the theme, which are loaded once.
pub struct Highlighter {
    syntaxes: syntect::parsing::SyntaxSet,
    theme: syntect::highlighting::Theme,
}

/// `SyntaxSet::load_defaults_newlines`: the syntaxes that come with syntect. Claimed
/// of it is that name alone; what the syntaxes are is left unsaid.
#[verifier::external_body]
fn load_syntaxes() -> (r: syntect::parsing::SyntaxSet)
    ensures
        default_syntaxes(r),
{
    syntect::parsing::SyntaxSet::load_defaults_newlines()
}

/// `ThemeSet::load_defaults`: of the themes that come with syntect the named one.
/// Claimed of it: the theme depends on the name alone, and [`THEME`], which its
/// documentation lists, is among them. What the theme holds is left unsaid.
#[verifier::external_body]
fn named_theme(name: &str) -> (r: Option<syntect::highlighting::Theme>)
    ensures
        r == default_theme(name@),
        name@ == THEME@ ==> r is Some,
{
    syntect::highlighting::ThemeSet::load_defaults().themes.remove(name)
}

/// `ThemeSet::load_defaults`: of the themes that come with syntect the first one, by
/// name. Nothing is claimed of it.
#[verifier::external_body]
fn first_theme() -> (r: Option<syntect::highlighting::Theme>) {
    syntect::highlighting::ThemeSet::load_defaults().themes.into_values().next()
}

/// `Theme::default`: a theme without colours. Nothing is claimed of it.
#[verifier::external_body]
fn blank_theme() -> (r: syntect::highlighting::Theme) {
    syntect::highlighting::Theme::default()
}

/// `SyntaxSet::find_syntax_by_extension`: the syntax for files with the extension, if
/// the set has one. Claimed of it: in the set that comes with syntect the syntax
/// depends on the extension alone. Which one it is is left unsaid.
#[verifier::external_body]
fn find_syntax<'a>(set: &'a syntect::parsing::SyntaxSet, extension: &str) -> (r: Option<
    &'a syntect::parsing::SyntaxReference,
>)
    requires
        default_syntaxes(*set),
    ensures
        r is Some <==> syntax_for(extension@) is Some,
        r is Some ==> syntax_for(extension@) == Some(*r->Some_0),
{
    set.find_syntax_by_extension(extension)
}

/// `SyntaxSet::find_syntax_plain_text`: the syntax for plain text. Claimed of it: the
/// syntax depends on the set alone. Other sets than that which comes with syntect are
/// left out: one without plain text would make the call panic.
#[verifier::external_body]
fn plain_text(set: &syntect::parsing::SyntaxSet) -> (r: &syntect::parsing::SyntaxReference)
    requires
        default_syntaxes(*set),
    ensures
        *r == plain_syntax(*set),
{
    set.find_syntax_plain_text()
}

impl Highlighter {
    /// The syntaxes.
    pub closed spec fn syntaxes(&self) -> syntect::parsing::SyntaxSet {
        self.syntaxes
    }

    /// The theme.
    pub closed spec fn theme(&self) -> syntect::highlighting::Theme {
        self.theme
    }

    /// The syntaxes are those that come with syntect, and so is the theme.
    #[verifier::type_invariant]
    spec fn loaded(&self) -> bool {
        &&& default_syntaxes(self.syntaxes)
        &&& default_theme(THEME@) == Some(self.theme)
    }

    /// The syntaxes that come with syntect and, of its themes, [`THEME`]; another
    /// theme if that one is missing.
    pub fn new() -> (r: Self)
        ensures
            default_syntaxes(r.syntaxes()),
            default_theme(THEME@) == Some(r.theme()),
    {
        let theme = match named_theme(THEME) {
            Some(theme) => theme,
            None => match first_theme() {
                Some(theme) => theme,
                None => blank_theme(),
            },
        };
        Highlighter { syntaxes: load_syntaxes(), theme }
    }

    /// `HighlightLines::highlight_line`: one line of code in coloured stretches, by a
    /// syntax of the set. A line that cannot be parsed has none. Claimed of it: with
    /// the syntaxes and the theme that come with syntect, the stretches depend on the
    /// syntax and the code alone, and their texts one after the other are the code
    /// from its start. That they reach its end is not claimed: they stop where syntect
    /// cannot follow the nesting of the syntax.
    #[verifier::external_body]
    fn colour(&self, syntax: &syntect::parsing::SyntaxReference, code: &str) -> (r: Vec<Piece>)
        requires
            default_syntaxes(self.syntaxes()),
            default_theme(THEME@) == Some(self.theme()),
            exists|extension: Seq<char>| *syntax == #[trigger] syntax_of(self.syntaxes(), extension),
        ensures
            piece_views(r@) == coloured(*syntax, code@),
            piece_text(piece_views(r@)).is_prefix_of(code@),
    {
        let mut lines = syntect::easy::HighlightLines::new(syntax, &self.theme);
        let ranges = lines.highlight_line(code, &self.syntaxes).unwrap_or_default();
        ranges.into_iter().map(|(s, t)| Piece {
            text: t.to_string(),
            rgb: (s.foreground.r, s.foreground.g, s.foreground.b),
        }).collect()
    }

    /// One line of code in coloured stretches, as in files with the extension. A file
    /// whose extension no syntax knows is plain text.
    fn highlight(&self, extension: &str, code: &str) -> (r: Vec<Piece>)
        ensures
            piece_views(r@) == highlighted(self.syntaxes(), extension@, code@),
            piece_text(piece_views(r@)).is_prefix_of(code@),
    {
        proof {
            use_type_invariant(self);
        }
        let syntax = match find_syntax(&self.syntaxes, extension) {
            Some(syntax) => syntax,
            None => plain_text(&self.syntaxes),
        };
        proof {
            assert(*syntax == syntax_of(self.syntaxes(), extension@));
        }
        self.colour(syntax, code)
    }
}

// ----- lines ------------------------------------------------------------------------------------

/// The starts of lines that tell about the file.
pub open spec fn is_meta(line: Seq<char>) -> bool {
    ||| has_prefix(line, "diff --git "@)
    ||| has_prefix(line, "index "@)
    ||| has_prefix(line, "--- "@)
    ||| has_prefix(line, "+++ "@)
    ||| has_prefix(line, "new file"@)
    ||| has_prefix(line, "deleted file"@)
    ||| has_prefix(line, "rename "@)
    ||| has_prefix(line, "similarity "@)
}

/// The style of a line that is no code: the header of a hunk, or a line about the
/// file.
pub open spec fn header_paint(line: Seq<char>) -> Option<Style> {
    if has_prefix(line, "@@"@) {
        Some(strong(Color::Cyan))
    } else if is_meta(line) {
        Some(strong(Color::DarkGray))
    } else {
        None
    }
}

/// Whether the line starts with the text.
fn begins(line: &[char], start: &str) -> (r: bool)
    ensures
        r == has_prefix(line@, start@),
{
    text::starts_with(line, &text::chars(start))
}

/// The style of a line that is no code; `None` for code.
pub fn header_style(line: &str) -> (r: Option<Style>)
    ensures
        r == header_paint(line@),
{
    let l = text::chars(line);
    if begins(&l, "@@") {
        Some(strong_style(Color::Cyan))
    } else if begins(&l, "diff --git ") || begins(&l, "index ") || begins(&l, "--- ") || begins(
        &l,
        "+++ ",
    ) || begins(&l, "new file") || begins(&l, "deleted file") || begins(&l, "rename ") || begins(
        &l,
        "similarity ",
    ) {
        Some(strong_style(Color::DarkGray))
    } else {
        None
    }
}

/// The sign of a line of code.
pub open spec fn sign_of(line: Seq<char>) -> char {
    if line.len() > 0 && (line[0] == '+' || line[0] == '-') {
        line[0]
    } else {
        ' '
    }
}

/// The code of a line: what is behind its first character, if that takes one byte.
pub open spec fn code_of(line: Seq<char>) -> Seq<char> {
    if line.len() > 0 && (line[0] as u32) < 128 {
        line.skip(1)
    } else {
        seq![]
    }
}

/// The tint of a line with that sign.
pub open spec fn tint(sign: char) -> Option<Color> {
    if sign == '+' {
        Some(Color::Rgb(20, 42, 20))
    } else if sign == '-' {
        Some(Color::Rgb(48, 20, 20))
    } else {
        None
    }
}

/// The style of a sign.
pub open spec fn sign_paint(sign: char) -> Style {
    if sign == '+' {
        Style { bg: tint(sign), ..colored(Color::Green) }
    } else if sign == '-' {
        Style { bg: tint(sign), ..colored(Color::Red) }
    } else {
        colored(Color::DarkGray)
    }
}

/// A coloured stretch on a line with that sign.
pub open spec fn piece_span(sign: char, piece: (Seq<char>, (u8, u8, u8))) -> SpanView {
    let (r, g, b) = piece.1;
    span_view(piece.0, Style { bg: tint(sign), ..colored(Color::Rgb(r, g, b)) })
}

/// A line of code: its sign, and the coloured stretches.
pub open spec fn code_spans(sign: char, stretches: Seq<(Seq<char>, (u8, u8, u8))>) -> Seq<SpanView> {
    seq![span_view(seq![sign], sign_paint(sign))] + stretches.map_values(
        |p: (Seq<char>, (u8, u8, u8))| piece_span(sign, p),
    )
}

/// A line of code, from its sign and the coloured stretches.
pub fn code_line(sign: char, stretches: Vec<Piece>) -> (r: Line)
    ensures
        r@ == code_spans(sign, piece_views(stretches@)),
{
    let bg: Option<Color> = if sign == '+' {
        Some(Color::Rgb(20, 42, 20))
    } else if sign == '-' {
        Some(Color::Rgb(48, 20, 20))
    } else {
        None
    };
    let fg: Color = if sign == '+' {
        Color::Green
    } else if sign == '-' {
        Color::Red
    } else {
        Color::DarkGray
    };
    let mut mark = String::new();
    mark.push(sign);
    proof {
        assert(mark@ =~= seq![sign]);
    }
    let mut line = Line::new();
    line.push(mark, Style { fg: Some(fg), bg, bold: false, italic: false });
    let ghost all = piece_views(stretches@);
    let ghost spans = all.map_values(|p: (Seq<char>, (u8, u8, u8))| piece_span(sign, p));
    let ghost start = line@;
    proof {
        assert(start =~= seq![span_view(seq![sign], sign_paint(sign))]);
        assert(start + spans.take(0) =~= start);
    }
    for p in it: stretches
        invariant
            it.seq() == stretches@,
            all == piece_views(stretches@),
            spans == all.map_values(|p: (Seq<char>, (u8, u8, u8))| piece_span(sign, p)),
            bg == tint(sign),
            line@ == start + spans.take(it.index()),
    {
        let ghost i = it.index();
        let ghost before = line@;
        let (r, g, b) = p.rgb;
        line.push(p.text, Style { fg: Some(Color::Rgb(r, g, b)), bg, bold: false, italic: false });
        proof {
            assert(all[i] == (p.text@, p.rgb));
            assert(line@ =~= before.push(spans[i]));
            assert(start + spans.take(i + 1) =~= (start + spans.take(i)).push(spans[i]));
        }
    }
    proof {
        assert(spans.take(spans.len() as int) =~= spans);
    }
    line
}

/// One line of a diff.
pub open spec fn diff_line(
    set: syntect::parsing::SyntaxSet,
    extension: Seq<char>,
    line: Seq<char>,
) -> Seq<SpanView> {
    match header_paint(line) {
        Some(style) => seq![span_view(line, style)],
        None => code_spans(sign_of(line), highlighted(set, extension, code_of(line))),
    }
}

/// What tells the language of a file: what is behind the last dot of its path.
pub open spec fn extension_of(path: Seq<char>) -> Seq<char> {
    pieces(path, '.').last()
}

/// What is shown where there is no diff.
pub open spec fn no_diff() -> Seq<Seq<SpanView>> {
    seq![
        seq![
            span_view(
                "(no diff — binary or empty change)"@,
                Style { italic: true, ..colored(Color::DarkGray) },
            ),
        ],
    ]
}

/// A diff of the file at `path`, line by line.
pub open spec fn rendered(
    set: syntect::parsing::SyntaxSet,
    path: Seq<char>,
    diff: Seq<char>,
) -> Seq<Seq<SpanView>> {
    let lines = line_list(diff);
    if lines.len() == 0 {
        no_diff()
    } else {
        lines.map_values(|l: Seq<char>| diff_line(set, extension_of(path), l))
    }
}

/// What is shown of a line: the line itself where it is no code, else its sign and
/// its code, as far as that can be highlighted.
pub open spec fn shows(shown: Seq<char>, line: Seq<char>) -> bool {
    match header_paint(line) {
        Some(_) => shown == line,
        None => shown.len() > 0 && shown[0] == sign_of(line) && shown.skip(1).is_prefix_of(
            code_of(line),
        ),
    }
}

impl Highlighter {
    /// One line of a diff.
    fn render_line(&self, extension: &str, line: &[char]) -> (r: Line)
        ensures
            r@ == diff_line(self.syntaxes(), extension@, line@),
            shows(line_text(r@), line@),
    {
        let raw = text::text(line);
        match header_style(raw.as_str()) {
            Some(style) => {
                let mut out = Line::new();
                out.push(raw, style);
                proof {
                    assert(out@ =~= diff_line(self.syntaxes(), extension@, line@));
                    assert(out@.drop_last() =~= seq![]);
                    assert(line_text(out@.drop_last()) =~= seq![]);
                    assert(line_text(out@) =~= line@);
                }
                out
            },
            None => {
                let sign: char = if line.len() > 0 && (line[0] == '+' || line[0] == '-') {
                    line[0]
                } else {
                    ' '
                };
                let code = if line.len() > 0 && (line[0] as u32) < 128 {
                    let rest = &line[1..line.len()];
                    proof {
                        assert(rest@ =~= line@.skip(1));
                    }
                    text::text(rest)
                } else {
                    String::new()
                };
                proof {
                    assert(code@ =~= code_of(line@));
                }
                let stretches = self.highlight(extension, code.as_str());
                proof {
                    let shown = piece_text(piece_views(stretches@));
                    code_text(sign, piece_views(stretches@));
                    assert((seq![sign] + shown).skip(1) =~= shown);
                }
                code_line(sign, stretches)
            },
        }
    }

    /// The diff of the file at `path` as styled text. Each line is highlighted by
    /// itself, so that added and removed lines do not disturb each other, and shows
    /// its own text.
    pub fn render(&self, path: &str, diff: &str) -> (r: Vec<Line>)
        ensures
            line_views(r@) == rendered(self.syntaxes(), path@, diff@),
            forall|i: int|
                0 <= i < line_list(diff@).len() ==> shows(
                    line_text(#[trigger] line_views(r@)[i]),
                    line_list(diff@)[i],
                ),
    {
        let p = text::chars(path);
        let parts = text::split(&p, '.');
        proof {
            parts_nonempty(path@, '.');
            assert(text::slices(parts@).len() == parts@.len());
        }
        let extension = text::text(parts[parts.len() - 1]);
        let all = text::chars(diff);
        let lines = text::lines(&all);
        let ghost list = text::slices(lines@);
        let ghost want = list.map_values(|l: Seq<char>| diff_line(self.syntaxes(), extension@, l));
        let mut out: Vec<Line> = Vec::new();
        let mut i: usize = 0;
        while i < lines.len()
            invariant
                i <= lines@.len(),
                list == text::slices(lines@),
                want == list.map_values(|l: Seq<char>| diff_line(self.syntaxes(), extension@, l)),
                line_views(out@) == want.take(i as int),
                forall|j: int|
                    0 <= j < i ==> shows(line_text(#[trigger] line_views(out@)[j]), list[j]),
            decreases lines@.len() - i,
        {
            let ghost before = out@;
            let line = self.render_line(extension.as_str(), lines[i]);
            out.push(line);
            proof {
                assert(list[i as int] == lines@[i as int]@);
                assert(line_views(out@) =~= line_views(before).push(line@));
                assert(want.take(i + 1) =~= want.take(i as int).push(want[i as int]));
                assert forall|j: int| 0 <= j < i + 1 implies shows(
                    line_text(#[trigger] line_views(out@)[j]),
                    list[j],
                ) by {
                    if j < i {
                        assert(line_views(out@)[j] == line_views(before)[j]);
                    }
                }
            }
            i = i + 1;
        }
        proof {
            assert(want.take(i as int) =~= want);
            assert(list.len() == lines@.len());
        }
        if lines.len() == 0 {
            let mut note = Line::new();
            note.push(
                "(no diff — binary or empty change)".to_string(),
                Style { fg: Some(Color::DarkGray), bg: None, bold: false, italic: true },
            );
            let ghost before = out@;
            out.push(note);
            proof {
                assert(note@ =~= no_diff()[0]);
                assert(line_views(out@) =~= no_diff());
            }
        }
        out
    }
}

/// There is always a piece.
proof fn parts_nonempty(s: Seq<char>, c: char)
    ensures
        pieces(s, c).len() > 0,
{
}

/// The text of a line of code is its sign and the stretches.
proof fn code_text(sign: char, stretches: Seq<(Seq<char>, (u8, u8, u8))>)
    ensures
        line_text(code_spans(sign, stretches)) == seq![sign] + piece_text(stretches),
    decreases stretches.len(),
{
    let all = code_spans(sign, stretches);
    if stretches.len() == 0 {
        assert(all.drop_last() =~= seq![]);
        assert(line_text(all.drop_last()) =~= seq![]);
        assert(line_text(all) =~= seq![sign] + piece_text(stretches));
    } else {
        code_text(sign, stretches.drop_last());
        assert(all.drop_last() =~= code_spans(sign, stretches.drop_last()));
        assert(all.last() == piece_span(sign, stretches.last()));
        assert(line_text(all) =~= seq![sign] + piece_text(stretches));
    }
}

// ----- what a line looks like -------------------------------------------------------------------------

/// The text that a line starts with is found there.
proof fn starts(head: Seq<char>, rest: Seq<char>)
    ensures
        has_prefix(head + rest, head),
{
    assert((head + rest).take(head.len() as int) =~= head);
}

/// Lines that are no code: hunk headers in one colour, lines about the file in another,
/// both in bold.
pub proof fn headers_stand_out(rest: Seq<char>)
    ensures
        header_paint("@@"@ + rest) == Some(strong(Color::Cyan)),
        header_paint("diff --git "@ + rest) == Some(strong(Color::DarkGray)),
        header_paint("index "@ + rest) == Some(strong(Color::DarkGray)),
        header_paint("--- "@ + rest) == Some(strong(Color::DarkGray)),
        header_paint("+++ "@ + rest) == Some(strong(Color::DarkGray)),
        header_paint("new file"@ + rest) == Some(strong(Color::DarkGray)),
        header_paint("deleted file"@ + rest) == Some(strong(Color::DarkGray)),
        header_paint("rename "@ + rest) == Some(strong(Color::DarkGray)),
        header_paint("similarity "@ + rest) == Some(strong(Color::DarkGray)),
{
    reveal_strlit("@@");
    reveal_strlit("diff --git ");
    reveal_strlit("index ");
    reveal_strlit("--- ");
    reveal_strlit("+++ ");
    reveal_strlit("new file");
    reveal_strlit("deleted file");
    reveal_strlit("rename ");
    reveal_strlit("similarity ");
    starts("@@"@, rest);
    starts("diff --git "@, rest);
    starts("index "@, rest);
    starts("--- "@, rest);
    starts("+++ "@, rest);
    starts("new file"@, rest);
    starts("deleted file"@, rest);
    starts("rename "@, rest);
    starts("similarity "@, rest);
    no_hunk_header("diff --git "@, rest);
    no_hunk_header("index "@, rest);
    no_hunk_header("--- "@, rest);
    no_hunk_header("+++ "@, rest);
    no_hunk_header("new file"@, rest);
    no_hunk_header("deleted file"@, rest);
    no_hunk_header("rename "@, rest);
    no_hunk_header("similarity "@, rest);
}

/// A line that starts with another character than `@` is no hunk header.
proof fn no_hunk_header(head: Seq<char>, rest: Seq<char>)
    requires
        head.len() > 0,
        head[0] != '@',
    ensures
        !has_prefix(head + rest, "@@"@),
{
    reveal_strlit("@@");
    let line = head + rest;
    if has_prefix(line, "@@"@) {
        assert(line.take(2)[0] == "@@"@[0]);
        assert(line[0] == head[0]);
    }
}

/// Added, removed and unchanged lines are code, with their sign in front of it; unless
/// they look like the lines that name the two sides of the diff.
pub proof fn signed_lines_are_code(sign: char, code: Seq<char>)
    requires
        sign == '+' || sign == '-' || sign == ' ',
        !has_prefix(seq![sign] + code, "--- "@),
        !has_prefix(seq![sign] + code, "+++ "@),
    ensures
        header_paint(seq![sign] + code) is None,
        sign_of(seq![sign] + code) == sign,
        code_of(seq![sign] + code) == code,
{
    reveal_strlit("@@");
    reveal_strlit("diff --git ");
    reveal_strlit("index ");
    reveal_strlit("--- ");
    reveal_strlit("+++ ");
    reveal_strlit("new file");
    reveal_strlit("deleted file");
    reveal_strlit("rename ");
    reveal_strlit("similarity ");
    let line = seq![sign] + code;
    assert(line[0] == sign);
    if has_prefix(line, "@@"@) {
        assert(line.take(2)[0] == '@');
    }
    if has_prefix(line, "diff --git "@) {
        assert(line.take(11)[0] == 'd');
    }
    if has_prefix(line, "index "@) {
        assert(line.take(6)[0] == 'i');
    }
    if has_prefix(line, "new file"@) {
        assert(line.take(8)[0] == 'n');
    }
    if has_prefix(line, "deleted file"@) {
        assert(line.take(12)[0] == 'd');
    }
    if has_prefix(line, "rename "@) {
        assert(line.take(7)[0] == 'r');
    }
    if has_prefix(line, "similarity "@) {
        assert(line.take(11)[0] == 's');
    }
    assert(line.skip(1) =~= code);
}

/// The colours of a line of code: green on a green tint if it was added, red on a red
/// tint if it was removed, and no tint at all if it was neither.
pub proof fn tints_tell_the_sign(
    sign: char,
    stretches: Seq<(Seq<char>, (u8, u8, u8))>,
    i: int,
)
    requires
        0 <= i < stretches.len(),
    ensures
        ({
            let spans = code_spans(sign, stretches);
            let (r, g, b) = stretches[i].1;
            let bg = if sign == '+' {
                Some(Color::Rgb(20, 42, 20))
            } else if sign == '-' {
                Some(Color::Rgb(48, 20, 20))
            } else {
                None
            };
            let fg = if sign == '+' {
                Color::Green
            } else if sign == '-' {
                Color::Red
            } else {
                Color::DarkGray
            };
            &&& spans.len() == stretches.len() + 1
            &&& spans[0] == (SpanView {
                text: seq![sign],
                style: Style { fg: Some(fg), bg, bold: false, italic: false },
            })
            &&& spans[i + 1] == (SpanView {
                text: stretches[i].0,
                style: Style {
                    fg: Some(Color::Rgb(r, g, b)),
                    bg,
                    bold: false,
                    italic: false,
                },
            })
        }),
{
}

/// The language goes by what is behind the last dot of the path; a path without a dot
/// stands for itself.
pub proof fn extensions_are_behind_the_last_dot(front: Seq<char>, back: Seq<char>)
    requires
        forall|i: int| 0 <= i < back.len() ==> #[trigger] back[i] != '.',
    ensures
        extension_of(front + seq!['.'] + back) == back,
        extension_of(back) == back,
    decreases front.len(),
{
    text::position_facts(back, '.');
    assert(text::position(back, '.') == back.len()) by {
        if text::position(back, '.') < back.len() {
            assert(back[text::position(back, '.')] == '.');
        }
    }
    let path = front + seq!['.'] + back;
    let k = text::position(front, '.');
    text::position_facts(front, '.');
    if k < front.len() {
        assert(path[k] == '.');
        assert forall|i: int| 0 <= i < k implies path[i] != '.' by {
            assert(path[i] == front[i]);
        }
        text::position_is(path, '.', k);
        let rest = front.skip(k + 1);
        assert(path.skip(k + 1) =~= rest + seq!['.'] + back);
        extensions_are_behind_the_last_dot(rest, back);
        assert(pieces(path, '.') == seq![path.take(k)] + pieces(path.skip(k + 1), '.'));
        assert(pieces(path, '.').last() == pieces(path.skip(k + 1), '.').last());
    } else {
        let n = front.len() as int;
        assert(path[n] == '.');
        assert forall|i: int| 0 <= i < n implies path[i] != '.' by {
            assert(path[i] == front[i]);
        }
        text::position_is(path, '.', n);
        assert(path.skip(n + 1) =~= back);
        assert(pieces(path, '.') == seq![path.take(n)] + pieces(back, '.'));
        assert(pieces(path, '.').last() == pieces(back, '.').last());
    }
}

/// A diff is shown line by line, every one of them; where there is none, that is said.
pub proof fn diffs_are_shown_line_by_line(
    set: syntect::parsing::SyntaxSet,
    path: Seq<char>,
    diff: Seq<char>,
    i: int,
)
    ensures
        line_list(diff).len() == 0 ==> rendered(set, path, diff) == seq![
            seq![
                SpanView {
                    text: "(no diff — binary or empty change)"@,
                    style: Style {
                        fg: Some(Color::DarkGray),
                        bg: None,
                        bold: false,
                        italic: true,
                    },
                },
            ],
        ],
        0 <= i < line_list(diff).len() ==> rendered(set, path, diff).len() == line_list(diff).len()
            && rendered(set, path, diff)[i] == diff_line(
            set,
            extension_of(path),
            line_list(diff)[i],
        ),
{
}

/// What a line shows: one that is no code stands as it is; code is its sign, and behind
/// it the code in the colours of the file's language, which is plain text where no
/// language is known for the extension.
pub proof fn lines_show(
    set: syntect::parsing::SyntaxSet,
    extension: Seq<char>,
    line: Seq<char>,
    style: Style,
)
    ensures
        header_paint(line) == Some(style) ==> diff_line(set, extension, line) == seq![
            SpanView { text: line, style },
        ],
        (syntax_for(extension) matches Some(syntax) ==> header_paint(line) is None ==> diff_line(
            set,
            extension,
            line,
        ) == code_spans(sign_of(line), coloured(syntax, code_of(line)))),
        syntax_for(extension) is None && header_paint(line) is None ==> diff_line(
            set,
            extension,
            line,
        ) == code_spans(sign_of(line), coloured(plain_syntax(set), code_of(line))),
{
}

/// What it is to show a line: a line that is no code is shown as it is; a line of code by
/// its own sign, and behind that its code from the start.
pub proof fn shown_lines(line: Seq<char>, shown: Seq<char>, c: char, part: Seq<char>)
    ensures
        header_paint(line) is Some ==> (shows(shown, line) <==> shown == line),
        header_paint(line) is None ==> (shows(seq![c] + part, line) <==> c == sign_of(line)
            && part.is_prefix_of(code_of(line))),
        header_paint(line) is None && shown.len() == 0 ==> !shows(shown, line),
{
    assert((seq![c] + part).skip(1) =~= part);
}

} // verus!
