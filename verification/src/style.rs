//! Text with colors, and boxes of it.
use crate::ollama;
use vstd::prelude::*;

verus! {

/// A color of text.
#[derive(Clone, Copy, Debug, PartialEq, Eq, Structural)]
pub enum Color {
    Cyan,
    Green,
    Yellow,
    Magenta,
    LightBlue,
    LightGreen,
    LightYellow,
    LightMagenta,
    Red,
    White,
    DarkGray,
}

/// A piece of text and how it looks.
#[derive(Debug)]
pub struct Span {
    pub text: String,
    pub fg: Option<Color>,
    pub bold: bool,
}

#[verifier::ext_equal]
pub struct SpanView {
    pub text: Seq<char>,
    pub fg: Option<Color>,
    pub bold: bool,
}

impl View for Span {
    type V = SpanView;

    open spec fn view(&self) -> SpanView {
        SpanView { text: self.text@, fg: self.fg, bold: self.bold }
    }
}

/// Text without a color.
pub open spec fn raw(text: Seq<char>) -> SpanView {
    SpanView { text, fg: None, bold: false }
}

/// Text in a color.
pub open spec fn colored(text: Seq<char>, color: Color) -> SpanView {
    SpanView { text, fg: Some(color), bold: false }
}

/// Bold text in a color.
pub open spec fn bold(text: Seq<char>, color: Color) -> SpanView {
    SpanView { text, fg: Some(color), bold: true }
}

/// What several pieces of text are.
pub open spec fn span_views(spans: Seq<Span>) -> Seq<SpanView> {
    spans.map_values(|s: Span| s@)
}

/// What several lines are.
pub open spec fn line_views(lines: Seq<Vec<Span>>) -> Seq<Seq<SpanView>> {
    lines.map_values(|l: Vec<Span>| span_views(l@))
}

/// A box of text.
#[derive(Debug)]
pub struct Panel {
    pub title: Option<String>,
    pub lines: Vec<Vec<Span>>,
    pub centered: bool,
}

#[verifier::ext_equal]
pub struct PanelView {
    pub title: Option<Seq<char>>,
    pub lines: Seq<Seq<SpanView>>,
    pub centered: bool,
}

impl View for Panel {
    type V = PanelView;

    open spec fn view(&self) -> PanelView {
        PanelView {
            title: ollama::text_view(self.title),
            lines: line_views(self.lines@),
            centered: self.centered,
        }
    }
}

pub fn plain(text: &str) -> (r: Span)
    ensures
        r@ == raw(text@),
{
    Span { text: text.to_owned(), fg: None, bold: false }
}

pub fn paint(text: &str, color: Color) -> (r: Span)
    ensures
        r@ == colored(text@, color),
{
    Span { text: text.to_owned(), fg: Some(color), bold: false }
}

pub fn emphasize(text: &str, color: Color) -> (r: Span)
    ensures
        r@ == bold(text@, color),
{
    Span { text: text.to_owned(), fg: Some(color), bold: true }
}

/// A line of one piece of text.
pub fn line(span: Span) -> (r: Vec<Span>)
    ensures
        span_views(r@) == seq![span@],
{
    let mut r: Vec<Span> = Vec::new();
    r.push(span);
    assert(span_views(r@) =~= seq![span@]);
    r
}

/// A box with lines of text.
pub fn panel(title: Option<String>, lines: Vec<Vec<Span>>, centered: bool) -> (r: Panel)
    ensures
        r@ == (PanelView {
            title: ollama::text_view(title),
            lines: line_views(lines@),
            centered,
        }),
{
    Panel { title, lines, centered }
}

/// A box with one line of text.
pub fn short_panel(title: Option<String>, line: Vec<Span>) -> (r: Panel)
    ensures
        r@ == (PanelView {
            title: ollama::text_view(title),
            lines: seq![span_views(line@)],
            centered: false,
        }),
{
    let mut lines: Vec<Vec<Span>> = Vec::new();
    lines.push(line);
    assert(line_views(lines@) =~= seq![span_views(line@)]);
    panel(title, lines, false)
}

} // verus!
