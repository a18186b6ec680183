//! Rendered rows, and the labelled rows below an unfolded call: its arguments,
//! its diff, its output.

use vstd::prelude::*;
use crate::chars::{
    cat2, from_range, group_views, lines, own, rep, repeat, split_lines, to_chars, views,
};
use crate::format::{safe, safe_text};
use crate::paint::{
    clustered, in_style, law_wrapping_keeps_what_is_painted, lemma_rows_join, lemma_style_joins,
    lemma_visible_joins, lemma_white_is_invisible, painted, painted_rows, visible,
};
use crate::style::{
    blank, fg, line, line_width, on, plain, span, Color, Line, LineView, Span, SpanView, Style,
};
use crate::text::{
    cells_of, truncate_display, truncated, wrap_styled_line, wrapped, Truncation,
};
use crate::theme::{DIFF_ADD_BG, DIFF_DEL_BG, ERROR, MUTED, SUCCESS};
use crate::transcript::model::{DiffKind, DiffLine, DiffView};
use crate::transcript::tool_line::{less, min, sat};
use crate::words::{pad, padded};

verus! {

broadcast use group_views;

/// What a click on a row names.
#[derive(PartialEq, Eq, Debug)]
pub enum TranscriptHitTarget {
    ToolGroup(String),
    Tool(String),
    Thought(String),
}

pub enum TargetView {
    ToolGroup(Seq<char>),
    Tool(Seq<char>),
    Thought(Seq<char>),
}

impl View for TranscriptHitTarget {
    type V = TargetView;

    open spec fn view(&self) -> TargetView {
        match *self {
            TranscriptHitTarget::ToolGroup(id) => TargetView::ToolGroup(id@),
            TranscriptHitTarget::Tool(id) => TargetView::Tool(id@),
            TranscriptHitTarget::Thought(id) => TargetView::Thought(id@),
        }
    }
}

pub open spec fn target_view(t: Option<TranscriptHitTarget>) -> Option<TargetView> {
    match t {
        Some(t) => Some(t@),
        None => None,
    }
}

pub fn copy_target(t: &Option<TranscriptHitTarget>) -> (r: Option<TranscriptHitTarget>)
    ensures
        target_view(r) == target_view(*t),
{
    match t {
        Some(TranscriptHitTarget::ToolGroup(id)) => Some(
            TranscriptHitTarget::ToolGroup(own(id.as_str())),
        ),
        Some(TranscriptHitTarget::Tool(id)) => Some(TranscriptHitTarget::Tool(own(id.as_str()))),
        Some(TranscriptHitTarget::Thought(id)) => Some(
            TranscriptHitTarget::Thought(own(id.as_str())),
        ),
        None => None,
    }
}

/// A row of the transcript and what a click on it names.
#[derive(Debug)]
pub struct TranscriptRow {
    pub line: Line,
    pub target: Option<TranscriptHitTarget>,
}

#[verifier::ext_equal]
pub struct RowView {
    pub line: LineView,
    pub target: Option<TargetView>,
}

impl View for TranscriptRow {
    type V = RowView;

    open spec fn view(&self) -> RowView {
        RowView { line: self.line@, target: target_view(self.target) }
    }
}

/// A row that takes no click.
pub open spec fn bare(l: LineView) -> RowView {
    RowView { line: l, target: None }
}

impl TranscriptRow {
    pub fn bare(line: Line) -> (r: TranscriptRow)
        ensures
            r@ == bare(line@),
    {
        TranscriptRow { line, target: None }
    }

    pub fn copy(&self) -> (r: TranscriptRow)
        ensures
            r@ == self@,
    {
        TranscriptRow { line: self.line.copy(), target: copy_target(&self.target) }
    }
}

/// Add copies of `rows[from..to]`.
pub fn extend_rows(out: &mut Vec<TranscriptRow>, rows: &Vec<TranscriptRow>, from: usize, to: usize)
    requires
        from <= to <= rows@.len(),
    ensures
        views(final(out)@) == views(old(out)@) + views(rows@).subrange(from as int, to as int),
{
    let ghost before = views(out@);
    let mut i: usize = from;
    assert(views(out@) =~= before + views(rows@).subrange(from as int, from as int));
    while i < to
        invariant
            from <= i <= to <= rows@.len(),
            views(out@) == before + views(rows@).subrange(from as int, i as int),
        decreases to - i,
    {
        out.push(rows[i].copy());
        i += 1;
        assert(views(out@) =~= before + views(rows@).subrange(from as int, i as int));
    }
}

/// The columns of a labelled block: what is left free, the label, the content.
#[derive(Clone, Copy, PartialEq, Eq, Structural, Debug)]
pub struct DetailLayout {
    pub indent: usize,
    pub label_width: usize,
    pub content_width: usize,
}

pub open spec fn layout_of(width: nat, indent: nat) -> DetailLayout {
    let indent = min(indent, less(width, 1));
    let remaining = less(width, indent);
    let label = min(8, less(remaining, 1));
    let content = less(remaining, label);
    DetailLayout {
        indent: indent as usize,
        label_width: label as usize,
        content_width: (if content > 1 {
            content
        } else {
            1
        }) as usize,
    }
}

pub fn detail_layout(width: usize, indent: usize) -> (r: DetailLayout)
    ensures
        r == layout_of(width as nat, indent as nat),
{
    let most: usize = width.saturating_sub(1);
    let indent: usize = if indent <= most {
        indent
    } else {
        most
    };
    let remaining: usize = width.saturating_sub(indent);
    let room: usize = remaining.saturating_sub(1);
    let label_width: usize = if room < 8 {
        room
    } else {
        8
    };
    let content: usize = remaining.saturating_sub(label_width);
    DetailLayout {
        indent,
        label_width,
        content_width: if content > 1 {
            content
        } else {
            1
        },
    }
}

/// The block keeps to the columns it has: nothing is lost to rounding.
pub proof fn law_layout_fills_the_row(width: nat, indent: nat)
    requires
        1 <= width <= usize::MAX,
    ensures
        ({
            let l = layout_of(width, indent);
            l.indent + l.label_width + l.content_width == width
        }),
{
}

/// The line with its tint carried to `width` columns.
pub open spec fn with_background(l: LineView, width: nat, background: Option<Color>) -> LineView {
    match background {
        None => l,
        Some(color) => {
            let padding = less(width, line_width(l));
            if padding > 0 {
                LineView { spans: l.spans.push(span(rep(' ', padding), on(plain(), color))), ..l }
            } else {
                l
            }
        },
    }
}

pub fn pad_background(l: Line, width: usize, background: Option<Color>) -> (r: Line)
    ensures
        r@ == with_background(l@, width as nat, background),
{
    let color: Color = match background {
        Some(color) => color,
        None => return l,
    };
    let padding: usize = width.saturating_sub(l.width());
    if padding > 0 {
        let style: Style = l.style;
        let mut spans: Vec<Span> = l.spans;
        spans.push(Span { content: repeat(' ', padding), style: Style::plain().on(color) });
        Line { spans, style }
    } else {
        l
    }
}

/// What a block that does not show everything says last.
pub open spec fn more_line(content_width: nat) -> LineView {
    LineView {
        spans: seq![span(truncated("… more"@, content_width, Truncation::Right), plain())],
        style: fg(MUTED),
    }
}

/// The lines of a block: at most `limit`, the last giving way to the mark of
/// more where something is left out.
pub open spec fn block_lines(
    content: Seq<LineView>,
    layout: DetailLayout,
    limit: nat,
    cut: bool,
) -> Seq<LineView> {
    let short = cut || content.len() > limit;
    let kept = content.take(min(content.len(), limit) as int);
    if kept.len() == 0 {
        seq![blank()]
    } else if short {
        kept.update(kept.len() - 1, more_line(layout.content_width as nat))
    } else {
        kept
    }
}

/// What stands left of line `i` of a block.
pub open spec fn margin(label: Seq<char>, layout: DetailLayout, error: bool, i: int) -> Seq<
    SpanView,
> {
    let width = layout.label_width as nat;
    seq![
        span(rep(' ', layout.indent as nat), plain()),
        span(
            if i == 0 {
                padded(truncated(label, width, Truncation::Right), width)
            } else {
                rep(' ', width)
            },
            fg(
                if error {
                    ERROR
                } else {
                    MUTED
                },
            ),
        ),
    ]
}

/// A labelled block. Its mark of more takes the click that shows the rest.
pub open spec fn block(
    label: Seq<char>,
    content: Seq<LineView>,
    layout: DetailLayout,
    limit: nat,
    cut: bool,
    error: bool,
    more: Option<TargetView>,
) -> Seq<RowView> {
    let shown = block_lines(content, layout, limit, cut);
    let short = cut || content.len() > limit;
    Seq::new(
        shown.len(),
        |i: int|
            RowView {
                line: line(margin(label, layout, error, i) + shown[i].spans),
                target: if short && i == shown.len() - 1 {
                    more
                } else {
                    None
                },
            },
    )
}

fn margin_spans(label: &str, layout: DetailLayout, error: bool, first: bool) -> (r: Vec<Span>)
    ensures
        views(r@) == margin(
            label@,
            layout,
            error,
            if first {
                0
            } else {
                1
            },
        ),
{
    let text: String = if first {
        pad(
            truncate_display(label, layout.label_width, Truncation::Right).as_str(),
            layout.label_width,
        )
    } else {
        repeat(' ', layout.label_width)
    };
    let mut r: Vec<Span> = Vec::new();
    r.push(Span { content: repeat(' ', layout.indent), style: Style::plain() });
    r.push(
        Span {
            content: text,
            style: Style::fg(
                if error {
                    ERROR
                } else {
                    MUTED
                },
            ),
        },
    );
    assert(views(r@) =~= margin(
        label@,
        layout,
        error,
        if first {
            0
        } else {
            1
        },
    ));
    r
}

/// Copies of the spans go behind `out`.
pub fn append_spans(out: &mut Vec<Span>, spans: &Vec<Span>)
    ensures
        views(final(out)@) == views(old(out)@) + views(spans@),
{
    let ghost before = views(out@);
    let mut i: usize = 0;
    assert(views(out@) =~= before + views(spans@).take(0));
    while i < spans.len()
        invariant
            i <= spans@.len(),
            views(out@) == before + views(spans@).take(i as int),
        decreases spans@.len() - i,
    {
        out.push(spans[i].copy());
        i += 1;
        assert(views(out@) =~= before + views(spans@).take(i as int));
    }
    assert(views(spans@).take(i as int) =~= views(spans@));
}

pub fn labeled_rows(
    label: &str,
    content: &Vec<Line>,
    layout: DetailLayout,
    limit: usize,
    cut: bool,
    error: bool,
    more_target: &Option<TranscriptHitTarget>,
) -> (r: Vec<TranscriptRow>)
    ensures
        views(r@) == block(
            label@,
            views(content@),
            layout,
            limit as nat,
            cut,
            error,
            target_view(*more_target),
        ),
{
    let ghost all = views(content@);
    let ghost want = block(
        label@,
        all,
        layout,
        limit as nat,
        cut,
        error,
        target_view(*more_target),
    );
    let ghost shown = block_lines(all, layout, limit as nat, cut);
    let short: bool = cut || content.len() > limit;
    let kept: usize = if content.len() <= limit {
        content.len()
    } else {
        limit
    };
    let mut r: Vec<TranscriptRow> = Vec::new();
    if kept == 0 {
        let mut spans: Vec<Span> = margin_spans(label, layout, error, true);
        assert(views(spans@) + shown[0].spans =~= views(spans@));
        r.push(
            TranscriptRow {
                line: Line::of(spans),
                target: if short {
                    copy_target(more_target)
                } else {
                    None
                },
            },
        );
        assert(views(r@) =~= want);
        return r;
    }
    let mut i: usize = 0;
    while i < kept
        invariant
            i <= kept <= content@.len(),
            kept > 0,
            kept == min(content@.len(), limit as nat),
            short == (cut || content@.len() > limit),
            all == views(content@),
            shown == block_lines(all, layout, limit as nat, cut),
            want == block(
                label@,
                all,
                layout,
                limit as nat,
                cut,
                error,
                target_view(*more_target),
            ),
            views(r@) == want.take(i as int),
        decreases kept - i,
    {
        let mut spans: Vec<Span> = margin_spans(label, layout, error, i == 0);
        let ghost left = margin(label@, layout, error, i as int);
        assert(views(spans@) == left);
        if short && i == kept - 1 {
            let more: String = truncate_display("… more", layout.content_width, Truncation::Right);
            spans.push(Span { content: more, style: Style::plain() });
            assert(views(spans@) =~= left + shown[i as int].spans);
            r.push(TranscriptRow { line: Line::of(spans), target: copy_target(more_target) });
        } else {
            append_spans(&mut spans, &content[i].spans);
            assert(shown[i as int] == all[i as int]);
            assert(all[i as int] == content@[i as int]@);
            r.push(TranscriptRow { line: Line::of(spans), target: None });
        }
        i += 1;
        assert(views(r@) =~= want.take(i as int));
    }
    assert(views(r@) =~= want);
    r
}

/// A line of unstyled text, or of nothing.
pub open spec fn raw_line(s: Seq<char>) -> LineView {
    if s.len() == 0 {
        blank()
    } else {
        line(seq![span(s, plain())])
    }
}

pub fn raw(s: &str) -> (r: Line)
    ensures
        r@ == raw_line(s@),
{
    if s.is_empty() {
        Line::blank()
    } else {
        Line::one(s, Style::plain())
    }
}

/// The most characters of one line that `limit` rows can show, and one.
pub open spec fn line_chars(limit: nat, content_width: nat) -> nat {
    sat(sat(limit * content_width) + 1)
}

/// A line cut to `chars` characters.
pub open spec fn cut_line(l: Seq<char>, chars: nat) -> Seq<char> {
    if l.len() > chars {
        l.take(chars as int)
    } else {
        l
    }
}

/// The most of a text that can reach the screen: `limit` lines and one, each no
/// longer than `limit` rows could show.
pub open spec fn source_lines(text: Seq<char>, limit: nat, content_width: nat) -> Seq<Seq<char>> {
    let all = lines(text);
    let n = min(all.len(), sat(limit + 1));
    let chars = line_chars(limit, content_width);
    if n == 0 {
        seq![Seq::empty()]
    } else {
        Seq::new(n, |i: int| cut_line(safe(all[i]), chars))
    }
}

/// Whether [`source_lines`] leaves something out.
pub open spec fn source_cut(text: Seq<char>, limit: nat, content_width: nat) -> bool {
    let all = lines(text);
    let n = min(all.len(), sat(limit + 1));
    let chars = line_chars(limit, content_width);
    all.len() > n || exists|i: int| 0 <= i < n && safe(#[trigger] all[i]).len() > chars
}

pub fn detail_source_lines(text: &str, limit: usize, content_width: usize) -> (r: (
    Vec<String>,
    bool,
))
    ensures
        views(r.0@) == source_lines(text@, limit as nat, content_width as nat),
        r.1 == source_cut(text@, limit as nat, content_width as nat),
{
    let parts: Vec<String> = split_lines(text);
    let ghost all = lines(text@);
    assert(views(parts@).len() == parts@.len());
    let most: usize = limit.saturating_add(1);
    let n: usize = if parts.len() <= most {
        parts.len()
    } else {
        most
    };
    let product: usize = match limit.checked_mul(content_width) {
        Some(product) => product,
        None => usize::MAX,
    };
    let chars: usize = product.saturating_add(1);
    let mut cut: bool = parts.len() > n;
    let mut source: Vec<String> = Vec::new();
    let ghost want = source_lines(text@, limit as nat, content_width as nat);
    let mut i: usize = 0;
    while i < n
        invariant
            i <= n <= parts@.len(),
            n == min(all.len(), sat(limit as nat + 1)),
            all == lines(text@),
            all == views(parts@),
            chars == line_chars(limit as nat, content_width as nat),
            want == source_lines(text@, limit as nat, content_width as nat),
            n > 0 ==> views(source@) == want.take(i as int),
            n == 0 ==> views(source@) == Seq::<Seq<char>>::empty(),
            cut == (all.len() > n || exists|k: int|
                0 <= k < i && safe(#[trigger] all[k]).len() > chars),
        decreases n - i,
    {
        assert(all[i as int] == parts@[i as int]@);
        let shown: String = safe_text(parts[i].as_str());
        let v: Vec<char> = to_chars(shown.as_str());
        if v.len() > chars {
            assert(v@.subrange(0, chars as int) =~= v@.take(chars as int));
            source.push(from_range(&v, 0, chars));
            cut = true;
            assert(safe(all[i as int]).len() > chars);
        } else {
            source.push(shown);
        }
        i += 1;
        assert(views(source@) =~= want.take(i as int));
    }
    if n == 0 {
        source.push(String::new());
        assert(views(source@) =~= want);
    } else {
        assert(want.take(n as int) =~= want);
    }
    (source, cut)
}

/// Each line wrapped, one after the other.
pub open spec fn wrapped_each(content: Seq<LineView>, width: nat) -> Seq<LineView>
    decreases content.len(),
{
    if content.len() == 0 {
        Seq::empty()
    } else {
        wrapped_each(content.drop_last(), width) + wrapped(content.last(), width)
    }
}

/// The labelled block of a text.
pub open spec fn detail_rows(
    label: Seq<char>,
    text: Seq<char>,
    width: nat,
    indent: nat,
    limit: nat,
    error: bool,
    more: Option<TargetView>,
) -> Seq<RowView> {
    if width == 0 {
        seq![bare(blank())]
    } else {
        let layout = layout_of(width, indent);
        let columns = layout.content_width as nat;
        let source = source_lines(text, limit, columns);
        block(
            label,
            wrapped_each(source.map_values(|s: Seq<char>| raw_line(s)), columns),
            layout,
            limit,
            source_cut(text, limit, columns),
            error,
            more,
        )
    }
}

/// Move the lines of `more` behind `out`.
pub fn append_lines(out: &mut Vec<Line>, more: Vec<Line>)
    ensures
        views(final(out)@) == views(old(out)@) + views(more@),
{
    let mut more: Vec<Line> = more;
    out.append(&mut more);
}

pub fn tool_detail_rows(
    label: &str,
    text: &str,
    width: u16,
    indent: usize,
    limit: usize,
    error: bool,
    more_target: &Option<TranscriptHitTarget>,
) -> (r: Vec<TranscriptRow>)
    ensures
        views(r@) == detail_rows(
            label@,
            text@,
            width as nat,
            indent as nat,
            limit as nat,
            error,
            target_view(*more_target),
        ),
{
    if width == 0 {
        let mut r: Vec<TranscriptRow> = Vec::new();
        r.push(TranscriptRow::bare(Line::blank()));
        assert(views(r@) =~= seq![bare(blank())]);
        return r;
    }
    let layout: DetailLayout = detail_layout(width as usize, indent);
    let (source, cut) = detail_source_lines(text, limit, layout.content_width);
    let ghost raws = views(source@).map_values(|s: Seq<char>| raw_line(s));
    let mut content: Vec<Line> = Vec::new();
    let mut i: usize = 0;
    assert(raws.take(0) =~= Seq::empty());
    while i < source.len()
        invariant
            i <= source@.len(),
            raws == views(source@).map_values(|s: Seq<char>| raw_line(s)),
            views(content@) == wrapped_each(raws.take(i as int), layout.content_width as nat),
        decreases source@.len() - i,
    {
        assert(raws.take(i + 1).drop_last() =~= raws.take(i as int));
        assert(raws[i as int] == raw_line(source@[i as int]@));
        append_lines(
            &mut content,
            wrap_styled_line(&raw(source[i].as_str()), layout.content_width),
        );
        i += 1;
    }
    assert(raws.take(i as int) =~= raws);
    labeled_rows(label, &content, layout, limit, cut, error, more_target)
}

/// A diff line, marked and coloured by its kind.
pub open spec fn diff_line(d: DiffView) -> LineView {
    match d.kind {
        DiffKind::Added => line(
            seq![span("+ "@ + safe(d.text), on(fg(SUCCESS), Color::Indexed(DIFF_ADD_BG)))],
        ),
        DiffKind::Removed => line(
            seq![span("- "@ + safe(d.text), on(fg(ERROR), Color::Indexed(DIFF_DEL_BG)))],
        ),
        DiffKind::Context => line(seq![span("  "@ + safe(d.text), fg(MUTED))]),
    }
}

pub open spec fn diff_background(d: DiffView) -> Option<Color> {
    match d.kind {
        DiffKind::Added => Some(Color::Indexed(DIFF_ADD_BG)),
        DiffKind::Removed => Some(Color::Indexed(DIFF_DEL_BG)),
        DiffKind::Context => None,
    }
}

/// The rows of one diff line, its tint reaching the margin.
pub open spec fn diff_line_rows(d: DiffView, columns: nat) -> Seq<LineView> {
    wrapped(diff_line(d), columns).map_values(
        |l: LineView| with_background(l, columns, diff_background(d)),
    )
}

pub open spec fn diff_lines(diff: Seq<DiffView>, columns: nat) -> Seq<LineView>
    decreases diff.len(),
{
    if diff.len() == 0 {
        Seq::empty()
    } else {
        diff_lines(diff.drop_last(), columns) + diff_line_rows(diff.last(), columns)
    }
}

/// The labelled block of a diff.
pub open spec fn diff_rows(
    diff: Seq<DiffView>,
    width: nat,
    indent: nat,
    limit: nat,
    more: Option<TargetView>,
) -> Seq<RowView> {
    if width == 0 {
        seq![bare(blank())]
    } else {
        let layout = layout_of(width, indent);
        let shown = min(diff.len(), sat(limit + 1));
        block(
            "diff"@,
            diff_lines(diff.take(shown as int), layout.content_width as nat),
            layout,
            limit,
            diff.len() > shown,
            false,
            more,
        )
    }
}

fn rows_of_diff_line(d: &DiffLine, columns: usize) -> (r: Vec<Line>)
    ensures
        views(r@) == diff_line_rows(d@, columns as nat),
{
    let text: String = safe_text(d.text.as_str());
    let (content, style, background) = match d.kind {
        DiffKind::Added => (
            cat2("+ ", text.as_str()),
            Style::fg(SUCCESS).on(Color::Indexed(DIFF_ADD_BG)),
            Some(Color::Indexed(DIFF_ADD_BG)),
        ),
        DiffKind::Removed => (
            cat2("- ", text.as_str()),
            Style::fg(ERROR).on(Color::Indexed(DIFF_DEL_BG)),
            Some(Color::Indexed(DIFF_DEL_BG)),
        ),
        DiffKind::Context => (cat2("  ", text.as_str()), Style::fg(MUTED), None),
    };
    let rows: Vec<Line> = wrap_styled_line(&Line::one(content.as_str(), style), columns);
    let ghost want = diff_line_rows(d@, columns as nat);
    let mut r: Vec<Line> = Vec::new();
    let mut i: usize = 0;
    while i < rows.len()
        invariant
            i <= rows@.len(),
            background == diff_background(d@),
            want == diff_line_rows(d@, columns as nat),
            views(rows@) == wrapped(diff_line(d@), columns as nat),
            views(r@) == want.take(i as int),
        decreases rows@.len() - i,
    {
        assert(views(rows@)[i as int] == rows@[i as int]@);
        r.push(pad_background(rows[i].copy(), columns, background));
        i += 1;
        assert(views(r@) =~= want.take(i as int));
    }
    assert(views(r@) =~= want);
    r
}

pub fn tool_diff_rows(
    diff: &Vec<DiffLine>,
    width: u16,
    indent: usize,
    limit: usize,
    more_target: &Option<TranscriptHitTarget>,
) -> (r: Vec<TranscriptRow>)
    ensures
        views(r@) == diff_rows(
            views(diff@),
            width as nat,
            indent as nat,
            limit as nat,
            target_view(*more_target),
        ),
{
    if width == 0 {
        let mut r: Vec<TranscriptRow> = Vec::new();
        r.push(TranscriptRow::bare(Line::blank()));
        assert(views(r@) =~= seq![bare(blank())]);
        return r;
    }
    let layout: DetailLayout = detail_layout(width as usize, indent);
    let most: usize = limit.saturating_add(1);
    let shown: usize = if diff.len() <= most {
        diff.len()
    } else {
        most
    };
    let ghost all = views(diff@).take(shown as int);
    let mut content: Vec<Line> = Vec::new();
    let mut i: usize = 0;
    assert(all.take(0) =~= Seq::empty());
    while i < shown
        invariant
            i <= shown <= diff@.len(),
            all == views(diff@).take(shown as int),
            views(content@) == diff_lines(all.take(i as int), layout.content_width as nat),
        decreases shown - i,
    {
        assert(all.take(i + 1).drop_last() =~= all.take(i as int));
        assert(all[i as int] == diff@[i as int]@);
        append_lines(&mut content, rows_of_diff_line(&diff[i], layout.content_width));
        i += 1;
    }
    assert(all.take(i as int) =~= all);
    labeled_rows("diff", &content, layout, limit, diff.len() > shown, false, more_target)
}

// ---- What a diff shows ----

/// What the rows of a block show right of its margin.
pub open spec fn beside_margin(rows: Seq<RowView>) -> Seq<LineView> {
    rows.map_values(|row: RowView| line(row.line.spans.skip(2)))
}

/// What the rows of a diff paint where all of them are shown, each visible
/// character with its style.
pub open spec fn diff_paint(diff: Seq<DiffView>, width: nat, indent: nat) -> Seq<(char, Style)> {
    visible(painted_rows(beside_margin(diff_rows(diff, width, indent, usize::MAX as nat, None))))
}

proof fn lemma_blanks_are_invisible(n: nat, style: Style)
    ensures
        visible(in_style(rep(' ', n), style)).len() == 0,
{
    lemma_white_is_invisible(rep(' ', n), style);
}

proof fn lemma_background_is_invisible(rows: Seq<LineView>, columns: nat, background: Option<Color>)
    ensures
        visible(
            painted_rows(rows.map_values(|l: LineView| with_background(l, columns, background))),
        ) == visible(painted_rows(rows)),
    decreases rows.len(),
{
    let tinted = rows.map_values(|l: LineView| with_background(l, columns, background));
    if rows.len() > 0 {
        let rest = rows.drop_first();
        lemma_background_is_invisible(rest, columns, background);
        assert(tinted.drop_first() =~= rest.map_values(
            |l: LineView| with_background(l, columns, background),
        ));
        let before = rows[0].spans;
        let after = tinted[0].spans;
        assert(visible(painted(after)) == visible(painted(before))) by {
            if after != before {
                let padding = less(columns, line_width(rows[0]));
                let style = on(plain(), background->0);
                assert(after.drop_last() =~= before);
                lemma_blanks_are_invisible(padding, style);
                lemma_visible_joins(painted(before), in_style(rep(' ', padding), style));
                assert(visible(painted(before)) + visible(in_style(rep(' ', padding), style))
                    =~= visible(painted(before)));
            }
        }
        lemma_visible_joins(painted(before), painted_rows(rest));
        lemma_visible_joins(painted(after), painted_rows(tinted.drop_first()));
    } else {
        assert(tinted =~= rows);
    }
}

proof fn lemma_wrapped_is_plain(l: LineView, width: nat)
    requires
        l.style == plain(),
    ensures
        forall|i: int|
            0 <= i < wrapped(l, width).len() ==> (#[trigger] wrapped(l, width)[i]).style
                == plain(),
{
}

proof fn lemma_diff_lines_plain(diff: Seq<DiffView>, columns: nat)
    ensures
        forall|i: int|
            0 <= i < diff_lines(diff, columns).len() ==> (#[trigger] diff_lines(
                diff,
                columns,
            )[i]).style == plain(),
    decreases diff.len(),
{
    if diff.len() > 0 {
        let front = diff_lines(diff.drop_last(), columns);
        let back = diff_line_rows(diff.last(), columns);
        lemma_diff_lines_plain(diff.drop_last(), columns);
        lemma_wrapped_is_plain(diff_line(diff.last()), columns);
        let all = diff_lines(diff, columns);
        assert forall|i: int| 0 <= i < all.len() implies (#[trigger] all[i]).style == plain() by {
            if i < front.len() {
                assert(all[i] == front[i]);
            } else {
                let k = i - front.len();
                assert(all[i] == back[k]);
                let row = wrapped(diff_line(diff.last()), columns)[k];
                assert(row.style == plain());
            }
        }
    }
}

proof fn lemma_diff_paint(diff: Seq<DiffView>, width: nat, indent: nat)
    requires
        0 < width,
        diff.len() <= usize::MAX,
        diff_lines(diff, layout_of(width, indent).content_width as nat).len() <= usize::MAX,
    ensures
        diff_paint(diff, width, indent) == visible(
            painted_rows(diff_lines(diff, layout_of(width, indent).content_width as nat)),
        ),
{
    let layout = layout_of(width, indent);
    let content = diff_lines(diff, layout.content_width as nat);
    let rows = diff_rows(diff, width, indent, usize::MAX as nat, None);
    let beside = beside_margin(rows);
    assert(diff.take(diff.len() as int) =~= diff);
    lemma_diff_lines_plain(diff, layout.content_width as nat);
    assert(content.take(content.len() as int) =~= content);
    let shown = block_lines(content, layout, usize::MAX as nat, false);
    assert(beside.len() == shown.len());
    assert forall|i: int| 0 <= i < shown.len() implies #[trigger] beside[i] == line(
        shown[i].spans,
    ) by {
        assert(rows[i].line.spans.skip(2) =~= shown[i].spans);
    }
    if content.len() == 0 {
        assert(shown =~= seq![blank()]);
        assert(beside =~= seq![blank()]);
        assert(beside.drop_first() =~= Seq::empty());
        assert(painted(blank().spans) =~= Seq::empty());
        assert(painted_rows(beside.drop_first()) =~= Seq::empty());
        assert(painted_rows(beside) =~= painted_rows(content));
    } else {
        assert(shown =~= content);
        assert(beside =~= content);
    }
}

/// The lines of a diff are shown one after the other, in order, and each as it is
/// shown alone.
pub proof fn law_a_diff_is_shown_line_by_line(
    diff: Seq<DiffView>,
    d: DiffView,
    width: nat,
    indent: nat,
)
    requires
        0 < width,
        diff.len() < usize::MAX,
        diff_lines(diff.push(d), layout_of(width, indent).content_width as nat).len()
            <= usize::MAX,
    ensures
        diff_paint(diff.push(d), width, indent) == diff_paint(diff, width, indent) + diff_paint(
            seq![d],
            width,
            indent,
        ),
{
    let columns = layout_of(width, indent).content_width as nat;
    assert(diff.push(d).drop_last() =~= diff);
    assert(seq![d].drop_last() =~= Seq::empty());
    let front = diff_lines(diff, columns);
    let back = diff_line_rows(d, columns);
    assert(diff_lines(seq![d].drop_last(), columns) =~= Seq::empty());
    assert(diff_lines(seq![d], columns) =~= back);
    lemma_diff_paint(diff.push(d), width, indent);
    lemma_diff_paint(diff, width, indent);
    lemma_diff_paint(seq![d], width, indent);
    lemma_rows_join(front, back);
    lemma_visible_joins(painted_rows(front), painted_rows(back));
}

/// What a line of a diff shows: a removed one a minus and its text in the colour of
/// errors on the tint of what was removed, an added one a plus and its text in the
/// colour of success on the tint of what was added, and any other its text alone,
/// muted and without a tint. Left out is a text with a character wider than a row.
pub proof fn law_a_diff_line_shows_its_kind(d: DiffView, width: nat, indent: nat)
    requires
        0 < width <= usize::MAX,
        diff_lines(seq![d], layout_of(width, indent).content_width as nat).len() <= usize::MAX,
        clustered(diff_line(d).spans),
        forall|i: int|
            0 <= i < cells_of(diff_line(d).spans).len() ==> (#[trigger] cells_of(
                diff_line(d).spans,
            )[i]).width <= layout_of(width, indent).content_width,
    ensures
        diff_paint(seq![d], width, indent) == (match d.kind {
            DiffKind::Removed => visible(
                in_style(
                    seq!['-'] + safe(d.text),
                    Style { fg: Some(ERROR), bg: Some(Color::Indexed(DIFF_DEL_BG)), ..plain() },
                ),
            ),
            DiffKind::Added => visible(
                in_style(
                    seq!['+'] + safe(d.text),
                    Style { fg: Some(SUCCESS), bg: Some(Color::Indexed(DIFF_ADD_BG)), ..plain() },
                ),
            ),
            DiffKind::Context => visible(
                in_style(safe(d.text), Style { fg: Some(MUTED), ..plain() }),
            ),
        }),
{
    let columns = layout_of(width, indent).content_width as nat;
    let l = diff_line(d);
    assert(seq![d].drop_last() =~= Seq::empty());
    assert(diff_lines(seq![d].drop_last(), columns) =~= Seq::empty());
    assert(diff_lines(seq![d], columns) =~= diff_line_rows(d, columns));
    lemma_diff_paint(seq![d], width, indent);
    lemma_background_is_invisible(wrapped(l, columns), columns, diff_background(d));
    law_wrapping_keeps_what_is_painted(l, columns);
    reveal_strlit("+ ");
    reveal_strlit("- ");
    reveal_strlit("  ");
    let s = l.spans[0];
    assert(l.spans.drop_last() =~= Seq::empty());
    assert(painted(l.spans.drop_last()) =~= Seq::empty());
    assert(painted(l.spans) =~= in_style(s.content, s.style));
    let text = safe(d.text);
    let blank = seq![' '];
    lemma_white_is_invisible(blank, s.style);
    let sign: Seq<char> = match d.kind {
        DiffKind::Removed => seq!['-'],
        DiffKind::Added => seq!['+'],
        DiffKind::Context => seq![' '],
    };
    assert(s.content =~= sign + (blank + text));
    lemma_style_joins(sign, blank + text, s.style);
    lemma_style_joins(blank, text, s.style);
    lemma_style_joins(sign, text, s.style);
    lemma_visible_joins(in_style(sign, s.style), in_style(blank + text, s.style));
    lemma_visible_joins(in_style(blank, s.style), in_style(text, s.style));
    lemma_visible_joins(in_style(sign, s.style), in_style(text, s.style));
    assert(visible(in_style(blank, s.style)) + visible(in_style(text, s.style)) =~= visible(
        in_style(text, s.style),
    ));
}

} // verus!
