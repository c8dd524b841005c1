//! Styled text, as a terminal shows it.

use vstd::prelude::*;

verus! {

/// A colour of the terminal.
#[derive(Debug, Clone, Copy, PartialEq, Eq, Structural)]
pub enum Tint {
    /// That of the terminal itself.
    Plain,
    Black,
    White,
    Gray,
    DarkGray,
    Red,
    Green,
    Yellow,
    Blue,
    Magenta,
    Cyan,
}

/// How a text is shown.
#[derive(Debug, Clone, Copy, PartialEq, Eq, Structural)]
pub struct Style {
    pub fg: Tint,
    pub bg: Tint,
    pub bold: bool,
}

/// A text in one style.
#[derive(Debug)]
pub struct Span {
    pub text: String,
    pub style: Style,
}

/// The model of a [`Span`].
pub struct SpanView {
    pub text: Seq<char>,
    pub style: Style,
}

impl View for Span {
    type V = SpanView;

    open spec fn view(&self) -> SpanView {
        SpanView { text: self.text@, style: self.style }
    }
}

/// The model of a line.
pub open spec fn line_view(line: Seq<Span>) -> Seq<SpanView> {
    line.map_values(|s: Span| s@)
}

/// The model of a text of several lines.
pub open spec fn lines_view(lines: Seq<Vec<Span>>) -> Seq<Seq<SpanView>> {
    lines.map_values(|l: Vec<Span>| line_view(l@))
}

/// A coloured text.
pub open spec fn fg(tint: Tint) -> Style {
    Style { fg: tint, bg: Tint::Plain, bold: false }
}

/// A coloured text in bold.
pub open spec fn bold(tint: Tint) -> Style {
    Style { fg: tint, bg: Tint::Plain, bold: true }
}

/// A coloured text on a coloured ground.
pub open spec fn on(tint: Tint, ground: Tint) -> Style {
    Style { fg: tint, bg: ground, bold: false }
}

/// A piece of a line.
pub open spec fn piece(text: Seq<char>, style: Style) -> SpanView {
    SpanView { text, style }
}

/// A coloured text.
pub fn fg_of(tint: Tint) -> (r: Style)
    ensures
        r == fg(tint),
{
    Style { fg: tint, bg: Tint::Plain, bold: false }
}

/// A coloured text in bold.
pub fn bold_of(tint: Tint) -> (r: Style)
    ensures
        r == bold(tint),
{
    Style { fg: tint, bg: Tint::Plain, bold: true }
}

/// A coloured text on a coloured ground.
pub fn on_of(tint: Tint, ground: Tint) -> (r: Style)
    ensures
        r == on(tint, ground),
{
    Style { fg: tint, bg: ground, bold: false }
}

/// A piece of a line.
pub fn span(text: &str, style: Style) -> (r: Span)
    ensures
        r@ == piece(text@, style),
{
    Span { text: text.to_owned(), style }
}

/// A line of one piece.
pub fn styled_line(text: &str, style: Style) -> (line: Vec<Span>)
    ensures
        line_view(line@) == seq![piece(text@, style)],
{
    let line: Vec<Span> = vec![span(text, style)];
    assert(line_view(line@) =~= seq![piece(text@, style)]);
    line
}

pub proof fn lemma_line_push(line: Seq<Span>, s: Span)
    ensures
        line_view(line.push(s)) == line_view(line).push(s@),
{
    assert(line_view(line.push(s)) =~= line_view(line).push(s@));
}

} // verus!
