//! Colours, styles and styled lines: what a terminal cell is painted with.

use vstd::prelude::*;
use crate::chars::{group_views, lines, own, split_lines, views};
use crate::measure::{text_width, width};

verus! {

broadcast use group_views;

#[derive(Clone, Copy, PartialEq, Eq, Structural, Debug)]
pub enum Color {
    Reset,
    Black,
    Red,
    Green,
    Yellow,
    Blue,
    Magenta,
    Cyan,
    Gray,
    DarkGray,
    LightRed,
    LightGreen,
    LightYellow,
    LightBlue,
    LightMagenta,
    LightCyan,
    White,
    Rgb(u8, u8, u8),
    Indexed(u8),
}

/// The text attributes that a style turns on.
#[derive(Clone, Copy, PartialEq, Eq, Structural, Debug)]
pub struct Modifier {
    pub bold: bool,
    pub dim: bool,
    pub italic: bool,
    pub underlined: bool,
    pub reversed: bool,
    pub crossed_out: bool,
}

#[derive(Clone, Copy, PartialEq, Eq, Structural, Debug)]
pub struct Style {
    pub fg: Option<Color>,
    pub bg: Option<Color>,
    pub modifier: Modifier,
}

/// No attribute.
pub open spec fn no_modifier() -> Modifier {
    Modifier {
        bold: false,
        dim: false,
        italic: false,
        underlined: false,
        reversed: false,
        crossed_out: false,
    }
}

/// The style that changes nothing.
pub open spec fn plain() -> Style {
    Style { fg: None, bg: None, modifier: no_modifier() }
}

/// Only a foreground.
pub open spec fn fg(color: Color) -> Style {
    Style { fg: Some(color), ..plain() }
}

/// `style` in bold.
pub open spec fn bold(style: Style) -> Style {
    Style { modifier: Modifier { bold: true, ..style.modifier }, ..style }
}

/// `style` underlined.
pub open spec fn underlined(style: Style) -> Style {
    Style { modifier: Modifier { underlined: true, ..style.modifier }, ..style }
}

/// `style` on the background `color`.
pub open spec fn on(style: Style, color: Color) -> Style {
    Style { bg: Some(color), ..style }
}

impl Style {
    pub fn plain() -> (r: Style)
        ensures
            r == plain(),
    {
        Style {
            fg: None,
            bg: None,
            modifier: Modifier {
                bold: false,
                dim: false,
                italic: false,
                underlined: false,
                reversed: false,
                crossed_out: false,
            },
        }
    }

    pub fn fg(color: Color) -> (r: Style)
        ensures
            r == fg(color),
    {
        Style { fg: Some(color), ..Style::plain() }
    }

    pub fn bold(self) -> (r: Style)
        ensures
            r == bold(self),
    {
        Style { modifier: Modifier { bold: true, ..self.modifier }, ..self }
    }

    pub fn underlined(self) -> (r: Style)
        ensures
            r == underlined(self),
    {
        Style { modifier: Modifier { underlined: true, ..self.modifier }, ..self }
    }

    pub fn on(self, color: Color) -> (r: Style)
        ensures
            r == on(self, color),
    {
        Style { bg: Some(color), ..self }
    }
}

/// A run of text in one style.
#[derive(Debug)]
pub struct Span {
    pub content: String,
    pub style: Style,
}

#[verifier::ext_equal]
pub struct SpanView {
    pub content: Seq<char>,
    pub style: Style,
}

impl View for Span {
    type V = SpanView;

    open spec fn view(&self) -> SpanView {
        SpanView { content: self.content@, style: self.style }
    }
}

/// A line of spans, over a style of its own.
#[derive(Debug)]
pub struct Line {
    pub spans: Vec<Span>,
    pub style: Style,
}

#[verifier::ext_equal]
pub struct LineView {
    pub spans: Seq<SpanView>,
    pub style: Style,
}

impl View for Line {
    type V = LineView;

    open spec fn view(&self) -> LineView {
        LineView { spans: views(self.spans@), style: self.style }
    }
}

/// A span of `content` in `style`.
pub open spec fn span(content: Seq<char>, style: Style) -> SpanView {
    SpanView { content, style }
}

/// A line of these spans, with no style of its own.
pub open spec fn line(spans: Seq<SpanView>) -> LineView {
    LineView { spans, style: plain() }
}

/// The line with nothing on it.
pub open spec fn blank() -> LineView {
    line(Seq::empty())
}

/// A text in a style of the whole line. Its own lines follow one another.
pub open spec fn styled_text(text: Seq<char>, style: Style) -> LineView {
    LineView { spans: lines(text).map_values(|l: Seq<char>| span(l, plain())), style }
}

/// The columns of the spans, added up.
pub open spec fn spans_width(spans: Seq<SpanView>) -> nat
    decreases spans.len(),
{
    if spans.len() == 0 {
        0
    } else {
        spans_width(spans.drop_last()) + text_width(spans.last().content)
    }
}

/// The columns of a line, as far as they can be counted.
pub open spec fn line_width(l: LineView) -> nat {
    if spans_width(l.spans) <= usize::MAX {
        spans_width(l.spans)
    } else {
        usize::MAX as nat
    }
}

/// The text of the spans without their styles.
pub open spec fn spans_text(spans: Seq<SpanView>) -> Seq<char>
    decreases spans.len(),
{
    if spans.len() == 0 {
        Seq::empty()
    } else {
        spans_text(spans.drop_last()) + spans.last().content
    }
}

impl Span {
    pub fn styled(content: &str, style: Style) -> (r: Span)
        ensures
            r@ == span(content@, style),
    {
        Span { content: own(content), style }
    }

    pub fn raw(content: &str) -> (r: Span)
        ensures
            r@ == span(content@, plain()),
    {
        Span { content: own(content), style: Style::plain() }
    }

    pub fn copy(&self) -> (r: Span)
        ensures
            r@ == self@,
    {
        Span { content: own(self.content.as_str()), style: self.style }
    }
}

/// A copy of the spans from `from` on.
pub fn copy_spans(spans: &Vec<Span>, from: usize) -> (r: Vec<Span>)
    requires
        from <= spans.len(),
    ensures
        views(r@) == views(spans@).skip(from as int),
{
    let mut r: Vec<Span> = Vec::new();
    let mut i: usize = from;
    while i < spans.len()
        invariant
            from <= i <= spans.len(),
            views(r@) == views(spans@).subrange(from as int, i as int),
        decreases spans.len() - i,
    {
        r.push(spans[i].copy());
        i += 1;
        assert(views(r@) =~= views(spans@).subrange(from as int, i as int));
    }
    assert(views(r@) =~= views(spans@).skip(from as int));
    r
}

impl Line {
    /// The line with nothing on it.
    pub fn blank() -> (r: Line)
        ensures
            r@ == blank(),
    {
        Line { spans: Vec::new(), style: Style::plain() }
    }

    /// A line of these spans.
    pub fn of(spans: Vec<Span>) -> (r: Line)
        ensures
            r@ == line(views(spans@)),
    {
        Line { spans, style: Style::plain() }
    }

    /// A line of one span.
    pub fn one(content: &str, style: Style) -> (r: Line)
        ensures
            r@ == line(seq![span(content@, style)]),
    {
        let mut spans: Vec<Span> = Vec::new();
        spans.push(Span::styled(content, style));
        assert(views(spans@) =~= seq![span(content@, style)]);
        Line { spans, style: Style::plain() }
    }

    /// A text in a style of the whole line.
    pub fn styled(content: &str, style: Style) -> (r: Line)
        ensures
            r@ == styled_text(content@, style),
    {
        let parts: Vec<String> = split_lines(content);
        let ghost want = lines(content@).map_values(|l: Seq<char>| span(l, plain()));
        let mut spans: Vec<Span> = Vec::new();
        let mut i: usize = 0;
        while i < parts.len()
            invariant
                i <= parts@.len(),
                views(parts@) == lines(content@),
                want == lines(content@).map_values(|l: Seq<char>| span(l, plain())),
                views(spans@) == want.take(i as int),
            decreases parts@.len() - i,
        {
            assert(views(parts@)[i as int] == parts@[i as int]@);
            spans.push(Span::raw(parts[i].as_str()));
            i += 1;
            assert(views(spans@) =~= want.take(i as int));
        }
        assert(want.take(i as int) =~= want);
        Line { spans, style }
    }

    pub fn copy(&self) -> (r: Line)
        ensures
            r@ == self@,
    {
        let spans: Vec<Span> = copy_spans(&self.spans, 0);
        assert(views(spans@) =~= views(self.spans@));
        Line { spans, style: self.style }
    }

    /// The columns of the line.
    pub fn width(&self) -> (r: usize)
        ensures
            r == line_width(self@),
    {
        let mut r: usize = 0;
        let mut i: usize = 0;
        while i < self.spans.len()
            invariant
                i <= self.spans.len(),
                r == line_width(line(views(self.spans@).take(i as int))),
            decreases self.spans.len() - i,
        {
            let w: usize = width(self.spans[i].content.as_str());
            r = r.saturating_add(w);
            assert(views(self.spans@).take(i + 1).drop_last() =~= views(self.spans@).take(i as int));
            i += 1;
        }
        assert(views(self.spans@).take(i as int) =~= views(self.spans@));
        r
    }
}

} // verus!
