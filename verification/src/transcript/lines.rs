//! The styled lines of one entry, before they are cut into rows.

use vstd::prelude::*;
use crate::chars::{
    cat4, dec, decimal, group_views, lines, own, rep, repeat, same, split_lines, to_chars, views,
};
use crate::format::{safe, safe_line_list, safe_lines, safe_text};
use crate::style::{
    blank, fg, line, plain, span, Color, Line, LineView, Span, SpanView, Style,
};
use crate::text::{
    hard_wrapped, preformatted, truncate_display, truncated, wrap_markdown_line, wrapped,
    Truncation,
};
use crate::theme::{
    title, title_style, ASSISTANT, MUTED, PRIMARY, REASONING, SECONDARY, USER, WAITING,
};
use crate::transcript::model::{ItemView, Line_};
use crate::transcript::pages::{line_asks, prepared};
use crate::transcript::tool_line::{call_line, less, min, tool_line_with_disclosure, CallView};
use crate::words::{
    is_char, is_white, search, split_once, starts, starts_with, strip_prefix, trim, trim_end_char,
    trim_start, trim_start_char, trimmed, trimmed_end, trimmed_start,
};

verus! {

broadcast use group_views;

/// A text as Markdown lines of a given width.
#[derive(Debug)]
pub struct Page {
    pub text: String,
    pub width: usize,
    pub lines: Vec<Line>,
}

#[verifier::ext_equal]
pub struct PageView {
    pub text: Seq<char>,
    pub width: nat,
    pub lines: Seq<LineView>,
}

impl View for Page {
    type V = PageView;

    open spec fn view(&self) -> PageView {
        PageView { text: self.text@, width: self.width as nat, lines: views(self.lines@) }
    }
}

/// What rendering depends on besides the transcript: which groups are unfolded,
/// the time and the start of the activity in milliseconds, and the replies as
/// Markdown, as many of them as are asked for.
#[derive(Debug)]
pub struct Scene {
    pub expanded_groups: Vec<String>,
    pub now: u64,
    pub activity_started: u64,
    pub pages: Vec<Page>,
}

#[verifier::ext_equal]
pub struct SceneView {
    pub expanded_groups: Seq<Seq<char>>,
    pub now: u64,
    pub activity_started: u64,
    pub pages: Seq<PageView>,
}

impl View for Scene {
    type V = SceneView;

    open spec fn view(&self) -> SceneView {
        SceneView {
            expanded_groups: views(self.expanded_groups@),
            now: self.now,
            activity_started: self.activity_started,
            pages: views(self.pages@),
        }
    }
}

/// How long the activity has lasted.
pub open spec fn elapsed(scene: SceneView) -> u64 {
    less(scene.now as nat, scene.activity_started as nat) as u64
}

/// The first page from `i` on with this text and width, or the number of pages.
pub open spec fn page_index(pages: Seq<PageView>, i: int, text: Seq<char>, width: nat) -> int
    decreases pages.len() - i,
{
    if i < 0 || i >= pages.len() || (pages[i].text == text && pages[i].width == width) {
        i
    } else {
        page_index(pages, i + 1, text, width)
    }
}

/// Whether there is a page of this text and width.
pub open spec fn has_page(pages: Seq<PageView>, text: Seq<char>, width: nat) -> bool {
    0 <= page_index(pages, 0, text, width) < pages.len()
}

/// The page of a text.
pub open spec fn rendered(pages: Seq<PageView>, text: Seq<char>, width: nat) -> Seq<LineView> {
    pages[page_index(pages, 0, text, width)].lines
}

pub fn copy_styled_lines(lines: &Vec<Line>) -> (r: Vec<Line>)
    ensures
        views(r@) == views(lines@),
{
    let mut r: Vec<Line> = Vec::new();
    let mut i: usize = 0;
    while i < lines.len()
        invariant
            i <= lines@.len(),
            views(r@) == views(lines@).take(i as int),
        decreases lines@.len() - i,
    {
        r.push(lines[i].copy());
        i += 1;
        assert(views(r@) =~= views(lines@).take(i as int));
    }
    assert(views(r@) =~= views(lines@));
    r
}

pub fn find_page(pages: &Vec<Page>, text: &str, width: usize) -> (r: Option<usize>)
    ensures
        match r {
            Some(i) => i == page_index(views(pages@), 0, text@, width as nat) && i < pages@.len(),
            None => !has_page(views(pages@), text@, width as nat),
        },
{
    let ghost all = views(pages@);
    assert(all.len() == pages@.len());
    let mut i: usize = 0;
    while i < pages.len()
        invariant
            i <= pages@.len(),
            all == views(pages@),
            page_index(all, 0, text@, width as nat) == page_index(
                all,
                i as int,
                text@,
                width as nat,
            ),
        decreases pages@.len() - i,
    {
        assert(all[i as int] == pages@[i as int]@);
        if pages[i].width == width && same(pages[i].text.as_str(), text) {
            return Some(i);
        }
        i += 1;
    }
    None
}

fn render(pages: &Vec<Page>, text: &str, width: usize) -> (r: Vec<Line>)
    requires
        has_page(views(pages@), text@, width as nat),
    ensures
        views(r@) == rendered(views(pages@), text@, width as nat),
{
    match find_page(pages, text, width) {
        Some(i) => {
            assert(views(pages@)[i as int] == pages@[i as int]@);
            copy_styled_lines(&pages[i].lines)
        },
        None => Vec::new(),
    }
}

/// The first line of a text, or nothing.
pub open spec fn first_line(s: Seq<char>) -> Seq<char> {
    if lines(s).len() == 0 {
        Seq::empty()
    } else {
        lines(s)[0]
    }
}

pub fn first_line_of(s: &str) -> (r: String)
    ensures
        r@ == first_line(s@),
{
    let parts: Vec<String> = split_lines(s);
    assert(views(parts@).len() == parts@.len());
    if parts.len() == 0 {
        String::new()
    } else {
        assert(views(parts@)[0] == parts@[0]@);
        own(parts[0].as_str())
    }
}

/// What the first line of a summary is headed: its bold words, its heading, or
/// the line without stars around it.
pub open spec fn heading(first: Seq<char>) -> Seq<char> {
    if starts(first, "**"@) && search(first.skip(2), "**"@, 0) >= 0 {
        first.skip(2).take(search(first.skip(2), "**"@, 0))
    } else if starts(first, "#"@) {
        trimmed(trimmed_end(trimmed(trimmed_start(first, is_char('#'))), is_char('#')))
    } else {
        trimmed_end(trimmed_start(first, is_char('*')), is_char('*'))
    }
}

/// The title of a reasoning summary.
pub open spec fn summary_title(summary: Seq<char>) -> Seq<char> {
    let first = trimmed(first_line(trimmed_start(summary, is_white())));
    let title = trimmed(heading(first));
    if title.len() == 0 {
        "reasoning"@
    } else {
        safe(title)
    }
}

fn heading_of(first: &str) -> (r: String)
    ensures
        r@ == heading(first@),
{
    proof {
        reveal_strlit("**");
    }
    if let Some(rest) = strip_prefix(first, "**") {
        if let Some((title, _)) = split_once(rest.as_str(), "**") {
            return title;
        }
    }
    if starts_with(first, "#") {
        trim(
            trim_end_char(trim(trim_start_char(first, '#').as_str()).as_str(), '#').as_str(),
        )
    } else {
        trim_end_char(trim_start_char(first, '*').as_str(), '*')
    }
}

pub fn reasoning_summary_title(summary: &str) -> (r: String)
    ensures
        r@ == summary_title(summary@),
{
    let first: String = trim(first_line_of(trim_start(summary).as_str()).as_str());
    let title: String = trim(heading_of(first.as_str()).as_str());
    if title.as_str().is_empty() {
        own("reasoning")
    } else {
        safe_text(title.as_str())
    }
}

/// The last of the first `n` lines that is not blank, trimmed.
pub open spec fn last_said(parts: Seq<Seq<char>>, n: int) -> Option<Seq<char>>
    decreases n,
{
    if n <= 0 || n > parts.len() {
        None
    } else if trimmed(parts[n - 1]).len() > 0 {
        Some(trimmed(parts[n - 1]))
    } else {
        last_said(parts, n - 1)
    }
}

/// Whether a thought leads with a headline.
pub open spec fn has_headline(text: Seq<char>) -> bool {
    let lead = trimmed_start(text, is_white());
    starts(lead, "**"@) || starts(lead, "#"@)
}

/// The title of a thought: its headline, or while it is still being written the
/// line under way.
pub open spec fn thought_title(text: Seq<char>, complete: bool) -> Seq<char> {
    if complete || has_headline(text) {
        summary_title(text)
    } else {
        match last_said(lines(text), lines(text).len() as int) {
            Some(said) => said,
            None => summary_title(text),
        }
    }
}

fn title_of_thought(text: &str, complete: bool) -> (r: String)
    ensures
        r@ == thought_title(text@, complete),
{
    let lead: String = trim_start(text);
    if complete || starts_with(lead.as_str(), "**") || starts_with(lead.as_str(), "#") {
        return reasoning_summary_title(text);
    }
    let parts: Vec<String> = split_lines(text);
    let ghost all = lines(text@);
    assert(views(parts@).len() == parts@.len());
    let mut n: usize = parts.len();
    while n > 0
        invariant
            n <= parts@.len(),
            all == lines(text@),
            all == views(parts@),
            !complete && !has_headline(text@),
            last_said(all, all.len() as int) == last_said(all, n as int),
        decreases n,
    {
        assert(all[n - 1] == parts@[n - 1]@);
        let said: String = trim(parts[n - 1].as_str());
        if !said.as_str().is_empty() {
            return said;
        }
        n -= 1;
    }
    reasoning_summary_title(text)
}

/// Two spans side by side.
pub open spec fn pair(a: SpanView, b: SpanView) -> LineView {
    line(seq![a, b])
}

fn two(a: Span, b: Span) -> (r: Line)
    ensures
        r@ == pair(a@, b@),
{
    let mut spans: Vec<Span> = Vec::new();
    spans.push(a);
    spans.push(b);
    assert(views(spans@) =~= seq![a@, b@]);
    Line::of(spans)
}

/// The sign of a thought. One without an id promises no click.
pub open spec fn thought_sign(id: Seq<char>, expanded: bool) -> Seq<char> {
    if id.len() == 0 {
        "·"@
    } else if expanded {
        "▾"@
    } else {
        "▸"@
    }
}

pub open spec fn thought_label(id: Seq<char>, complete: bool, expanded: bool) -> Seq<char> {
    thought_sign(id, expanded) + " "@ + (if complete {
        "Thought"@
    } else {
        "Thinking"@
    }) + ": "@
}

/// The safe lines of a text below one another, each behind `mark`.
pub open spec fn marked(parts: Seq<Seq<char>>, mark: SpanView, style: Style) -> Seq<LineView> {
    parts.map_values(|s: Seq<char>| pair(mark, span(s, style)))
}

pub open spec fn thought_lines(
    id: Seq<char>,
    text: Seq<char>,
    complete: bool,
    expanded: bool,
    width: nat,
) -> Seq<LineView> {
    let label = thought_label(id, complete, expanded);
    let head = pair(
        span(label, fg(REASONING)),
        span(
            truncated(thought_title(text, complete), less(width, label.len()), Truncation::Right),
            fg(SECONDARY),
        ),
    );
    if expanded {
        seq![head] + marked(safe_line_list(text), span("  │ "@, fg(REASONING)), fg(MUTED))
    } else {
        seq![head]
    }
}

/// Lines of the parts from `from` on, each behind `mark`, go behind `out`.
fn push_marked(
    out: &mut Vec<Line>,
    parts: &Vec<String>,
    from: usize,
    mark: &str,
    mark_style: Style,
    style: Style,
)
    requires
        from <= parts@.len(),
    ensures
        views(final(out)@) == views(old(out)@) + marked(
            views(parts@).skip(from as int),
            span(mark@, mark_style),
            style,
        ),
{
    let ghost before = views(out@);
    let ghost want = marked(views(parts@).skip(from as int), span(mark@, mark_style), style);
    let mut i: usize = from;
    assert(views(out@) =~= before + want.take(0));
    while i < parts.len()
        invariant
            from <= i <= parts@.len(),
            want == marked(views(parts@).skip(from as int), span(mark@, mark_style), style),
            views(out@) == before + want.take(i - from),
        decreases parts@.len() - i,
    {
        out.push(two(Span::styled(mark, mark_style), Span::styled(parts[i].as_str(), style)));
        assert(views(parts@).skip(from as int)[i - from] == parts@[i as int]@);
        i += 1;
        assert(views(out@) =~= before + want.take(i - from));
    }
    assert(want.take(i - from) =~= want);
}

fn lines_of_thought(id: &str, text: &str, complete: bool, expanded: bool, width: u16) -> (r: Vec<
    Line,
>)
    ensures
        views(r@) == thought_lines(id@, text@, complete, expanded, width as nat),
{
    let sign: &str = if id.is_empty() {
        "·"
    } else if expanded {
        "▾"
    } else {
        "▸"
    };
    let label: String = cat4(
        sign,
        " ",
        if complete {
            "Thought"
        } else {
            "Thinking"
        },
        ": ",
    );
    let taken: usize = to_chars(label.as_str()).len();
    let short: String = truncate_display(
        title_of_thought(text, complete).as_str(),
        (width as usize).saturating_sub(taken),
        Truncation::Right,
    );
    let mut r: Vec<Line> = Vec::new();
    r.push(
        two(
            Span { content: label, style: Style::fg(REASONING) },
            Span { content: short, style: Style::fg(SECONDARY) },
        ),
    );
    let ghost head = views(r@);
    if expanded {
        let parts: Vec<String> = safe_lines(text);
        push_marked(&mut r, &parts, 0, "  │ ", Style::fg(REASONING), Style::fg(MUTED));
        assert(views(parts@).skip(0) =~= views(parts@));
    }
    assert(head =~= seq![head[0]]);
    assert(views(r@) =~= thought_lines(id@, text@, complete, expanded, width as nat));
    r
}

/// The safe lines of a text, the first behind `first` and the others behind
/// `rest`.
pub open spec fn spoken(
    text: Seq<char>,
    first: Seq<char>,
    rest: Seq<char>,
    mark_style: Style,
    style: Style,
) -> Seq<LineView> {
    Seq::new(
        safe_line_list(text).len(),
        |i: int|
            pair(
                span(
                    if i == 0 {
                        first
                    } else {
                        rest
                    },
                    mark_style,
                ),
                span(safe_line_list(text)[i], style),
            ),
    )
}

fn lines_spoken(text: &str, first: &str, rest: &str, mark_style: Style, style: Style) -> (r: Vec<
    Line,
>)
    ensures
        views(r@) == spoken(text@, first@, rest@, mark_style, style),
{
    let parts: Vec<String> = safe_lines(text);
    let ghost want = spoken(text@, first@, rest@, mark_style, style);
    let mut r: Vec<Line> = Vec::new();
    let mut i: usize = 0;
    while i < parts.len()
        invariant
            i <= parts@.len(),
            views(parts@) == safe_line_list(text@),
            want == spoken(text@, first@, rest@, mark_style, style),
            views(r@) == want.take(i as int),
        decreases parts@.len() - i,
    {
        assert(views(parts@)[i as int] == parts@[i as int]@);
        let mark: &str = if i == 0 {
            first
        } else {
            rest
        };
        r.push(two(Span::styled(mark, mark_style), Span::styled(parts[i].as_str(), style)));
        i += 1;
        assert(views(r@) =~= want.take(i as int));
    }
    assert(views(r@) =~= want);
    r
}

/// A notification: a headline with the sign of a body, and the body where it is
/// unfolded; folded, a hint of how much there is and what unfolds it.
pub open spec fn notification(
    text: Seq<char>,
    expanded: bool,
    label: Seq<char>,
    color: Color,
    width: nat,
    hint: Seq<char>,
) -> Seq<LineView> {
    let parts = safe_line_list(text);
    let body = parts.skip(1);
    let sign = if body.len() == 0 {
        "  "@
    } else if expanded {
        "▾ "@
    } else {
        "▸ "@
    };
    let head = line(
        seq![
            span(label, title_style(color)),
            span(sign, fg(color)),
            span(
                truncated(parts[0], less(width, label.len() + 2), Truncation::Right),
                fg(PRIMARY),
            ),
        ],
    );
    if expanded {
        seq![head] + marked(body, span("     "@, plain()), fg(MUTED))
    } else if body.len() > 0 {
        seq![
            head,
            pair(
                span("     "@, plain()),
                span("… "@ + dec(body.len()) + " more line(s) — "@ + hint, fg(MUTED)),
            ),
        ]
    } else {
        seq![head]
    }
}

pub fn notification_lines(
    text: &str,
    expanded: bool,
    label: &str,
    color: Color,
    width: u16,
    hint: &str,
) -> (r: Vec<Line>)
    ensures
        views(r@) == notification(text@, expanded, label@, color, width as nat, hint@),
{
    let parts: Vec<String> = safe_lines(text);
    let ghost all = safe_line_list(text@);
    assert(views(parts@).len() == parts@.len());
    assert(all.len() > 0);
    assert(all[0] == parts@[0]@);
    let more: usize = parts.len() - 1;
    let sign: &str = if more == 0 {
        "  "
    } else if expanded {
        "▾ "
    } else {
        "▸ "
    };
    let taken: usize = to_chars(label).len();
    let short: String = truncate_display(
        parts[0].as_str(),
        (width as usize).saturating_sub(taken.saturating_add(2)),
        Truncation::Right,
    );
    let mut spans: Vec<Span> = Vec::new();
    spans.push(Span::styled(label, title(color)));
    spans.push(Span::styled(sign, Style::fg(color)));
    spans.push(Span { content: short, style: Style::fg(PRIMARY) });
    let mut r: Vec<Line> = Vec::new();
    let ghost want = notification(text@, expanded, label@, color, width as nat, hint@);
    assert(views(spans@) =~= want[0].spans);
    r.push(Line::of(spans));
    if expanded {
        push_marked(&mut r, &parts, 1, "     ", Style::plain(), Style::fg(MUTED));
    } else if more > 0 {
        let said: String = cat4("… ", decimal(more as u64).as_str(), " more line(s) — ", hint);
        r.push(
            two(Span::raw("     "), Span { content: said, style: Style::fg(MUTED) }),
        );
    }
    assert(views(r@) =~= want);
    r
}

/// Spans without a foreground take the one of the body text.
pub open spec fn in_primary(spans: Seq<SpanView>) -> Seq<SpanView> {
    spans.map_values(
        |s: SpanView|
            if s.style.fg is None {
                span(s.content, Style { fg: Some(PRIMARY), ..s.style })
            } else {
                s
            },
    )
}

/// A rendered line in the columns of the transcript.
pub open spec fn markdown_rows(l: LineView, width: nat) -> Seq<LineView> {
    if preformatted(l) {
        hard_wrapped(l, width)
    } else {
        wrapped(l, width)
    }
}

/// The rows of one rendered line, behind the name of the speaker where they are
/// the first.
pub open spec fn reply_rows(rows: Seq<LineView>, first: bool, label_width: nat) -> Seq<LineView> {
    Seq::new(
        rows.len(),
        |i: int|
            line(
                seq![
                    span(
                        if first && i == 0 {
                            truncated("ilar "@, label_width, Truncation::Right)
                        } else {
                            rep(' ', label_width)
                        },
                        title_style(ASSISTANT),
                    ),
                ] + in_primary(rows[i].spans),
            ),
    )
}

/// The rows of the first `n` rendered lines, and whether the speaker is still to
/// be named.
pub open spec fn reply_upto(page: Seq<LineView>, n: int, label_width: nat, width: nat) -> (
    Seq<LineView>,
    bool,
)
    decreases n,
{
    if n <= 0 || n > page.len() {
        (Seq::empty(), true)
    } else {
        let done = reply_upto(page, n - 1, label_width, width);
        if page[n - 1].spans.len() == 0 {
            (done.0.push(blank()), done.1)
        } else {
            let rows = markdown_rows(page[n - 1], width);
            (done.0 + reply_rows(rows, done.1, label_width), done.1 && rows.len() == 0)
        }
    }
}

/// The columns of the speaker's name beside a reply.
pub open spec fn reply_label_width(width: nat) -> nat {
    min(5, less(width, 2))
}

/// The columns that a reply is laid out in.
pub open spec fn reply_columns(width: nat) -> nat {
    less(width, reply_label_width(width))
}

/// The lines of a reply.
pub open spec fn reply_lines(text: Seq<char>, width: nat, pages: Seq<PageView>) -> Seq<LineView> {
    let label_width = reply_label_width(width);
    let columns = reply_columns(width);
    let page = rendered(pages, text, columns);
    reply_upto(page, page.len() as int, label_width, columns).0
}

fn primary_spans(spans: &Vec<Span>) -> (r: Vec<Span>)
    ensures
        views(r@) == in_primary(views(spans@)),
{
    let ghost want = in_primary(views(spans@));
    let mut r: Vec<Span> = Vec::new();
    let mut i: usize = 0;
    while i < spans.len()
        invariant
            i <= spans@.len(),
            want == in_primary(views(spans@)),
            views(r@) == want.take(i as int),
        decreases spans@.len() - i,
    {
        let mut s: Span = spans[i].copy();
        if s.style.fg.is_none() {
            s.style = Style { fg: Some(PRIMARY), ..s.style };
        }
        r.push(s);
        i += 1;
        assert(views(r@) =~= want.take(i as int));
    }
    assert(views(r@) =~= want);
    r
}

fn lines_of_reply(text: &str, width: u16, pages: &Vec<Page>) -> (r: Vec<Line>)
    requires
        has_page(views(pages@), text@, reply_columns(width as nat)),
    ensures
        views(r@) == reply_lines(text@, width as nat, views(pages@)),
{
    let room: usize = (width as usize).saturating_sub(2);
    let label_width: usize = if room < 5 {
        room
    } else {
        5
    };
    let columns: usize = (width as usize).saturating_sub(label_width);
    let page: Vec<Line> = render(pages, text, columns);
    let ghost all = views(page@);
    let mut first: bool = true;
    let mut r: Vec<Line> = Vec::new();
    let mut i: usize = 0;
    while i < page.len()
        invariant
            i <= page@.len(),
            all == views(page@),
            (views(r@), first) == reply_upto(all, i as int, label_width as nat, columns as nat),
        decreases page@.len() - i,
    {
        assert(all[i as int] == page@[i as int]@);
        assert(all[i as int].spans.len() == page@[i as int].spans@.len());
        if page[i].spans.len() == 0 {
            r.push(Line::blank());
        } else {
            let rows: Vec<Line> = wrap_markdown_line(&page[i], columns);
            let ghost shown = views(rows@);
            let ghost done = views(r@);
            let ghost named = first;
            let ghost want = reply_rows(shown, named, label_width as nat);
            assert(shown.len() == rows@.len());
            let mut k: usize = 0;
            assert(views(r@) =~= done + want.take(0));
            while k < rows.len()
                invariant
                    k <= rows@.len(),
                    shown == views(rows@),
                    want == reply_rows(shown, named, label_width as nat),
                    first == (named && k == 0),
                    views(r@) == done + want.take(k as int),
                decreases rows@.len() - k,
            {
                assert(shown[k as int] == rows@[k as int]@);
                let label: String = if first {
                    truncate_display("ilar ", label_width, Truncation::Right)
                } else {
                    repeat(' ', label_width)
                };
                first = false;
                let mut spans: Vec<Span> = Vec::new();
                spans.push(Span { content: label, style: title(ASSISTANT) });
                let mut body: Vec<Span> = primary_spans(&rows[k].spans);
                spans.append(&mut body);
                assert(views(spans@) =~= want[k as int].spans);
                r.push(Line::of(spans));
                k += 1;
                assert(views(r@) =~= done + want.take(k as int));
            }
            assert(want.take(k as int) =~= want);
        }
        i += 1;
    }
    r
}

/// The hint of a notification that a click unfolds.
pub open spec fn click_hint() -> Seq<char> {
    "click to expand"@
}

/// The hint of a note that a click or a key unfolds.
pub open spec fn key_hint() -> Seq<char> {
    "click or Enter to expand"@
}

/// The styled lines of one line of the transcript.
pub open spec fn entry_lines(l: ItemView, width: nat, scene: SceneView) -> Seq<LineView> {
    match l {
        ItemView::Assistant(text) => reply_lines(text, width, scene.pages),
        ItemView::Thought { id, text, complete, expanded } => thought_lines(
            id,
            text,
            complete,
            expanded,
            width,
        ),
        ItemView::User(text) => spoken(text, "you  "@, "     "@, title_style(USER), fg(PRIMARY)),
        ItemView::Incoming(text) => spoken(
            text,
            "task "@,
            "     "@,
            title_style(REASONING),
            fg(PRIMARY),
        ),
        ItemView::Task { text, expanded, .. } => notification(
            text,
            expanded,
            "task "@,
            REASONING,
            width,
            click_hint(),
        ),
        ItemView::Job { text, expanded, .. } => notification(
            text,
            expanded,
            "job  "@,
            WAITING,
            width,
            click_hint(),
        ),
        ItemView::Note { text, expanded, .. } => notification(
            text,
            expanded,
            "note "@,
            MUTED,
            width,
            key_hint(),
        ),
        ItemView::Tool(t) => seq![
            call_line(
                CallView {
                    name: t.name,
                    kind: t.kind,
                    arguments: t.arguments,
                    state: t.state,
                    progress: t.progress,
                    expanded: false,
                    full: false,
                },
                width,
                elapsed(scene),
                scene.now,
                0,
            ),
        ],
        ItemView::System(text) => spoken(text, "—    "@, "     "@, fg(MUTED), fg(MUTED)),
    }
}

pub fn transcript_entry_lines(entry: &Line_, width: u16, scene: &Scene) -> (r: Vec<Line>)
    requires
        prepared(scene@.pages, line_asks(entry@, width as nat)),
    ensures
        views(r@) == entry_lines(entry@, width as nat, scene@),
{
    match entry {
        Line_::Assistant(text) => {
            assert(line_asks(entry@, width as nat)[0].text == text@);
            lines_of_reply(text.as_str(), width, &scene.pages)
        },
        Line_::Thought { id, text, complete, expanded } => lines_of_thought(
            id.as_str(),
            text.as_str(),
            *complete,
            *expanded,
            width,
        ),
        Line_::User(text) => lines_spoken(
            text.as_str(),
            "you  ",
            "     ",
            title(USER),
            Style::fg(PRIMARY),
        ),
        Line_::Incoming(text) => lines_spoken(
            text.as_str(),
            "task ",
            "     ",
            title(REASONING),
            Style::fg(PRIMARY),
        ),
        Line_::Task { text, expanded, .. } => notification_lines(
            text.as_str(),
            *expanded,
            "task ",
            REASONING,
            width,
            "click to expand",
        ),
        Line_::Job { text, expanded, .. } => notification_lines(
            text.as_str(),
            *expanded,
            "job  ",
            WAITING,
            width,
            "click to expand",
        ),
        Line_::Note { text, expanded, .. } => notification_lines(
            text.as_str(),
            *expanded,
            "note ",
            MUTED,
            width,
            "click or Enter to expand",
        ),
        Line_::Tool(row) => {
            let mut r: Vec<Line> = Vec::new();
            r.push(
                tool_line_with_disclosure(
                    row.name.as_str(),
                    &row.kind,
                    row.arguments.as_str(),
                    row.state,
                    width,
                    scene.now.saturating_sub(scene.activity_started),
                    row.progress,
                    scene.now,
                    false,
                    false,
                    0,
                ),
            );
            assert(views(r@) =~= entry_lines(entry@, width as nat, scene@));
            r
        },
        Line_::System(text) => lines_spoken(
            text.as_str(),
            "—    ",
            "     ",
            Style::fg(MUTED),
            Style::fg(MUTED),
        ),
    }
}

} // verus!
