//! The sidebar: the panels of agents and services, and where panels land.

use vstd::prelude::*;
use crate::buffer::Rect;
use crate::chars::{cat2, cat3, cat4, dec, decimal, group_views, views};
use crate::format::{elapsed_text, format_elapsed, safe, safe_text};
use crate::measure::{text_width, width};
use crate::style::{
    fg, line, span, styled_text, underlined, Color, Line, LineView, Span, SpanView, Style,
};
use crate::text::{truncate_display, truncated, Truncation};
use crate::theme::{MUTED, PRIMARY, RUNNING, SUCCESS};
use crate::transcript::details::append_lines;
use crate::transcript::tool_line::less;

verus! {

broadcast use group_views;

pub const TODO_SIDEBAR_MIN_WIDTH: u16 = 121;

pub const TODO_SIDEBAR_WIDTH: u16 = 42;

/// How many agents the panel lists before it counts the rest.
pub const AGENT_PANEL_MAX: usize = 3;

// ---- Areas ----

#[derive(Debug, Clone, Copy, PartialEq, Eq, Structural)]
pub struct ContentAreas {
    pub transcript: Rect,
    pub todos: Option<Rect>,
}

/// `ratatui::layout::Layout::split` across a row of two: one column that takes at
/// least `least` columns and grows, one that takes `fixed`. Where both fit, the
/// second stands at the right edge and the first takes the rest. Both are as high
/// as the area. Where they do not fit, how they share the columns is left unsaid.
#[verifier::external_body]
fn two_columns(area: Rect, least: u16, fixed: u16) -> (r: (Rect, Rect))
    requires
        least <= i16::MAX,
    ensures
        r.0.y == area.y,
        r.1.y == area.y,
        r.0.height == area.bottom_edge() - area.y,
        r.1.height == area.bottom_edge() - area.y,
        area.right_edge() - area.x >= least + fixed ==> r.0.x == area.x && r.0.width
            == area.right_edge() - area.x - fixed && r.1.x == area.right_edge() - fixed && r.1.width
            == fixed,
{
    let columns = ratatui::layout::Layout::horizontal(
        [ratatui::layout::Constraint::Min(least), ratatui::layout::Constraint::Length(fixed)],
    ).split(ratatui::layout::Rect::new(area.x, area.y, area.width, area.height));
    let (a, b) = (columns[0], columns[1]);
    (
        Rect { x: a.x, y: a.y, width: a.width, height: a.height },
        Rect { x: b.x, y: b.y, width: b.width, height: b.height },
    )
}

/// A wide area has the sidebar at its right edge. A narrow one has none.
pub fn content_areas(area: Rect) -> (r: ContentAreas)
    ensures
        area.width < TODO_SIDEBAR_MIN_WIDTH ==> r == (ContentAreas {
            transcript: area,
            todos: None,
        }),
        area.width >= TODO_SIDEBAR_MIN_WIDTH ==> {
            &&& r.todos is Some
            &&& r.transcript.y == area.y && r.todos->0.y == area.y
            &&& r.transcript.height == area.bottom_edge() - area.y
            &&& r.todos->0.height == area.bottom_edge() - area.y
        },
        area.width >= TODO_SIDEBAR_MIN_WIDTH && area.right_edge() - area.x >= 3
            + TODO_SIDEBAR_WIDTH ==> {
            &&& r.transcript.x == area.x
            &&& r.transcript.width == area.right_edge() - area.x - TODO_SIDEBAR_WIDTH
            &&& r.todos->0.x == area.right_edge() - TODO_SIDEBAR_WIDTH
            &&& r.todos->0.width == TODO_SIDEBAR_WIDTH
        },
{
    if area.width < TODO_SIDEBAR_MIN_WIDTH {
        return ContentAreas { transcript: area, todos: None };
    }
    let (transcript, todos) = two_columns(area, 3, TODO_SIDEBAR_WIDTH);
    ContentAreas { transcript, todos: Some(todos) }
}

/// The rows of a panel around this content: with its border, and at most half of
/// the area.
pub open spec fn panel_height(area: Rect, content_rows: usize) -> int {
    let wanted = content_rows + 2;
    if wanted < area.height / 2 {
        wanted
    } else {
        (area.height / 2) as int
    }
}

/// Carve a bordered panel off the top of the area. Where not one row of content
/// would fit, nothing is carved.
pub fn carve_panel(area: &mut Rect, content_rows: usize) -> (r: Option<Rect>)
    requires
        panel_height(*old(area), content_rows) > 2 ==> old(area).y + panel_height(
            *old(area),
            content_rows,
        ) <= u16::MAX,
    ensures
        ({
            let whole = *old(area);
            let height = panel_height(whole, content_rows);
            if height <= 2 {
                r is None && *final(area) == whole
            } else {
                r == Some(Rect::at(whole.x, whole.y, whole.width as int, height)) && *final(area)
                    == Rect::at(
                    whole.x,
                    (whole.y + height) as u16,
                    whole.width as int,
                    whole.height - height,
                )
            }
        }),
{
    let wanted: usize = content_rows.saturating_add(2);
    let half: u16 = area.height / 2;
    let height: u16 = if wanted < half as usize {
        wanted as u16
    } else {
        half
    };
    if height <= 2 {
        return None;
    }
    let panel: Rect = Rect::new(area.x, area.y, area.width, height);
    *area = Rect::new(area.x, area.y + height, area.width, area.height - height);
    Some(panel)
}

/// A panel and what is left of the area are the area: the panel takes the top of
/// it, at most half, and the rest begins where the panel ends.
pub proof fn law_a_carved_panel_parts_the_area(area: Rect, content_rows: usize)
    requires
        area.x + area.width <= u16::MAX,
        area.y + area.height <= u16::MAX,
        panel_height(area, content_rows) > 2,
    ensures
        ({
            let height = panel_height(area, content_rows);
            let panel = Rect::at(area.x, area.y, area.width as int, height);
            let rest = Rect::at(
                area.x,
                (area.y + height) as u16,
                area.width as int,
                area.height - height,
            );
            &&& 2 * panel.height <= area.height
            &&& panel.bottom_edge() == rest.y
            &&& rest.bottom_edge() == area.bottom_edge()
            &&& forall|column: int, row: int| #[trigger]
                area.holds(column, row) <==> panel.holds(column, row) || rest.holds(column, row)
            &&& forall|column: int, row: int|
                !(#[trigger] panel.holds(column, row) && rest.holds(column, row))
        }),
{
}

/// Where a row of a panel's content lands, if the panel has room for it.
pub open spec fn disclosure_row(panel: Rect, index: usize) -> int {
    panel.y + 1 + index
}

pub open spec fn disclosure_shows(panel: Rect, index: usize) -> bool {
    disclosure_row(panel, index) < panel.bottom_edge() - 1
}

/// Where the disclosure of a panel can be clicked.
pub fn exited_disclosure_hit(panel: Rect, index: usize) -> (r: Option<Rect>)
    requires
        disclosure_shows(panel, index) ==> panel.x < u16::MAX,
    ensures
        r == (if disclosure_shows(panel, index) {
            Some(
                Rect::at(
                    (panel.x + 1) as u16,
                    disclosure_row(panel, index) as u16,
                    less(panel.width as nat, 2) as int,
                    1,
                ),
            )
        } else {
            None
        }),
{
    let row: usize = (panel.y as usize + 1).saturating_add(index);
    let edge: u16 = panel.bottom().saturating_sub(1);
    if row < edge as usize {
        Some(Rect::new(panel.x + 1, row as u16, panel.width.saturating_sub(2), 1))
    } else {
        None
    }
}

/// Mark a row as what the pointer is over.
pub fn underline_row(line: &mut Line)
    ensures
        final(line)@.spans == old(line)@.spans.map_values(
            |s: SpanView| SpanView { style: underlined(s.style), ..s },
        ),
        final(line)@.style == old(line)@.style,
{
    let ghost all = line@.spans;
    let ghost style = line.style;
    let n: usize = line.spans.len();
    let mut i: usize = 0;
    while i < n
        invariant
            i <= n,
            n == line.spans@.len(),
            n == all.len(),
            line.style == style,
            forall|k: int|
                0 <= k < i ==> (#[trigger] line.spans@[k])@ == (SpanView {
                    style: underlined(all[k].style),
                    ..all[k]
                }),
            forall|k: int| i <= k < n ==> (#[trigger] line.spans@[k])@ == all[k],
        decreases n - i,
    {
        let ghost before = line.spans@;
        let style: Style = line.spans[i].style.underlined();
        line.spans[i].style = style;
        assert(forall|k: int| 0 <= k < n && k != i ==> line.spans@[k] == before[k]);
        i += 1;
    }
    assert(line@.spans =~= all.map_values(
        |s: SpanView| SpanView { style: underlined(s.style), ..s },
    ));
}

// ---- Agents ----

/// An agent that is working, and for how many seconds.
#[derive(Debug, PartialEq, Eq)]
pub struct AgentRow {
    pub description: String,
    pub agent: String,
    pub background: bool,
    pub elapsed: u64,
}

/// What an agent was asked for, and who it is and for how long it works.
pub open spec fn agent_lines(agent: AgentRow, width: nat) -> Seq<LineView> {
    let marker = truncated("▸ "@, width, Truncation::Right);
    seq![
        line(
            seq![
                span(marker, fg(RUNNING)),
                span(
                    truncated(
                        safe(agent.description@),
                        less(width, text_width(marker)),
                        Truncation::Right,
                    ),
                    fg(PRIMARY),
                ),
            ],
        ),
        styled_text(
            truncated(
                "  "@ + safe(agent.agent@) + (if agent.background {
                    " · bg"@
                } else {
                    ""@
                }) + (" · "@ + elapsed_text(agent.elapsed as nat)),
                width,
                Truncation::Right,
            ),
            fg(MUTED),
        ),
    ]
}

/// The lines of the first `n` agents.
pub open spec fn agents_upto(agents: Seq<AgentRow>, n: int, width: nat) -> Seq<LineView>
    decreases n,
{
    if n <= 0 || n > agents.len() {
        Seq::empty()
    } else {
        agents_upto(agents, n - 1, width) + agent_lines(agents[n - 1], width)
    }
}

/// The panel of agents: the first few, and how many more there are.
pub open spec fn agent_panel(agents: Seq<AgentRow>, width: nat) -> Seq<LineView> {
    let columns = if width < 1 {
        1
    } else {
        width
    };
    if agents.len() <= AGENT_PANEL_MAX {
        agents_upto(agents, agents.len() as int, columns)
    } else {
        agents_upto(agents, AGENT_PANEL_MAX as int, columns).push(
            styled_text(
                truncated(
                    "  +"@ + dec((agents.len() - AGENT_PANEL_MAX) as nat) + " more"@,
                    columns,
                    Truncation::Right,
                ),
                fg(MUTED),
            ),
        )
    }
}

fn push_agent(out: &mut Vec<Line>, agent: &AgentRow, columns: usize)
    ensures
        views(final(out)@) == views(old(out)@) + agent_lines(*agent, columns as nat),
{
    let ghost before = views(out@);
    let marker: String = truncate_display("▸ ", columns, Truncation::Right);
    let remaining: usize = columns.saturating_sub(width(marker.as_str()));
    let about: String = truncate_display(
        safe_text(agent.description.as_str()).as_str(),
        remaining,
        Truncation::Right,
    );
    let mut spans: Vec<Span> = Vec::new();
    spans.push(Span::styled(marker.as_str(), Style::fg(RUNNING)));
    spans.push(Span::styled(about.as_str(), Style::fg(PRIMARY)));
    let ghost first = seq![span(marker@, fg(RUNNING)), span(about@, fg(PRIMARY))];
    assert(views(spans@) =~= first);
    let head: Line = Line::of(spans);
    let background: &str = if agent.background {
        " · bg"
    } else {
        ""
    };
    let who: String = safe_text(agent.agent.as_str());
    let since: String = cat2(" · ", format_elapsed(agent.elapsed).as_str());
    let text: String = cat4("  ", who.as_str(), background, since.as_str());
    let foot: Line = Line::styled(
        truncate_display(text.as_str(), columns, Truncation::Right).as_str(),
        Style::fg(MUTED),
    );
    let ghost want = agent_lines(*agent, columns as nat);
    assert(head@ == want[0]);
    assert(foot@ == want[1]);
    out.push(head);
    out.push(foot);
    assert(views(out@) =~= before + want);
}

pub fn agent_panel_lines(agents: &[AgentRow], width: usize) -> (r: Vec<Line>)
    ensures
        views(r@) == agent_panel(agents@, width as nat),
{
    let columns: usize = if width < 1 {
        1
    } else {
        width
    };
    let mut out: Vec<Line> = Vec::new();
    let mut i: usize = 0;
    while i < agents.len() && i < AGENT_PANEL_MAX
        invariant
            i <= agents@.len(),
            i <= AGENT_PANEL_MAX,
            views(out@) == agents_upto(agents@, i as int, columns as nat),
        decreases agents@.len() - i,
    {
        push_agent(&mut out, &agents[i], columns);
        i += 1;
    }
    if agents.len() > AGENT_PANEL_MAX {
        let more: String = cat3(
            "  +",
            decimal((agents.len() - AGENT_PANEL_MAX) as u64).as_str(),
            " more",
        );
        out.push(
            Line::styled(
                truncate_display(more.as_str(), columns, Truncation::Right).as_str(),
                Style::fg(MUTED),
            ),
        );
    }
    out
}

// ---- Services ----

/// The rows of the service panel, and which of them discloses the services that
/// have exited.
#[derive(Debug)]
pub struct ServicePanel {
    pub lines: Vec<Line>,
    pub exited_toggle: Option<usize>,
}

/// A service in one row.
pub open spec fn service_line(
    marker: Seq<char>,
    marker_color: Color,
    service: (String, bool, String),
    text_color: Color,
    width: nat,
) -> LineView {
    line(
        seq![
            span(marker, fg(marker_color)),
            span(
                truncated(
                    safe(service.0@ + " · "@ + service.2@),
                    less(width, 2),
                    Truncation::Right,
                ),
                fg(text_color),
            ),
        ],
    )
}

/// The rows of those of the first `n` services that run, or of those that do not.
pub open spec fn services_upto(
    services: Seq<(String, bool, String)>,
    n: int,
    running: bool,
    width: nat,
) -> Seq<LineView>
    decreases n,
{
    if n <= 0 || n > services.len() {
        Seq::empty()
    } else {
        let before = services_upto(services, n - 1, running, width);
        if services[n - 1].1 != running {
            before
        } else if running {
            before.push(service_line("● "@, SUCCESS, services[n - 1], PRIMARY, width))
        } else {
            before.push(service_line("○ "@, MUTED, services[n - 1], MUTED, width))
        }
    }
}

/// The row that discloses the services that have exited.
pub open spec fn disclosure_line(exited: nat, open: bool) -> LineView {
    line(
        seq![
            span(
                if open {
                    "▾ "@
                } else {
                    "▸ "@
                },
                fg(MUTED),
            ),
            span(dec(exited) + " exited"@, fg(MUTED)),
        ],
    )
}

/// Every service that runs. The others are counted, and listed on demand.
pub open spec fn services_shown(
    services: Seq<(String, bool, String)>,
    show_exited: bool,
    width: nat,
) -> (Seq<LineView>, Option<nat>) {
    let n = services.len() as int;
    let running = services_upto(services, n, true, width);
    let exited = services_upto(services, n, false, width);
    if exited.len() == 0 {
        (running, None)
    } else {
        let headed = running.push(disclosure_line(exited.len(), show_exited));
        (
            if show_exited {
                headed + exited
            } else {
                headed
            },
            Some(running.len()),
        )
    }
}

fn service_row(
    marker: &str,
    marker_color: Color,
    service: &(String, bool, String),
    text_color: Color,
    columns: usize,
) -> (r: Line)
    ensures
        r@ == service_line(marker@, marker_color, *service, text_color, columns as nat),
{
    let text: String = cat3(service.0.as_str(), " · ", service.2.as_str());
    let shown: String = truncate_display(
        safe_text(text.as_str()).as_str(),
        columns.saturating_sub(2),
        Truncation::Right,
    );
    let mut spans: Vec<Span> = Vec::new();
    spans.push(Span::styled(marker, Style::fg(marker_color)));
    spans.push(Span::styled(shown.as_str(), Style::fg(text_color)));
    assert(views(spans@) =~= seq![
        span(marker@, fg(marker_color)),
        span(shown@, fg(text_color)),
    ]);
    Line::of(spans)
}

fn service_rows(services: &[(String, bool, String)], running: bool, columns: usize) -> (r: Vec<Line>)
    ensures
        views(r@) == services_upto(services@, services@.len() as int, running, columns as nat),
{
    let mut out: Vec<Line> = Vec::new();
    let mut i: usize = 0;
    while i < services.len()
        invariant
            i <= services@.len(),
            views(out@) == services_upto(services@, i as int, running, columns as nat),
        decreases services@.len() - i,
    {
        if services[i].1 == running {
            if running {
                out.push(service_row("● ", SUCCESS, &services[i], PRIMARY, columns));
            } else {
                out.push(service_row("○ ", MUTED, &services[i], MUTED, columns));
            }
        }
        i += 1;
    }
    out
}

pub fn service_panel(services: &[(String, bool, String)], show_exited: bool, width: usize) -> (r:
    ServicePanel)
    ensures
        ({
            let want = services_shown(services@, show_exited, width as nat);
            &&& views(r.lines@) == want.0
            &&& match r.exited_toggle {
                Some(i) => want.1 == Some(i as nat),
                None => want.1 is None,
            }
        }),
{
    let mut lines: Vec<Line> = service_rows(services, true, width);
    let exited: Vec<Line> = service_rows(services, false, width);
    assert(views(lines@).len() == lines@.len());
    assert(views(exited@).len() == exited@.len());
    if exited.len() == 0 {
        return ServicePanel { lines, exited_toggle: None };
    }
    let at: usize = lines.len();
    let marker: &str = if show_exited {
        "▾ "
    } else {
        "▸ "
    };
    let count: String = cat2(decimal(exited.len() as u64).as_str(), " exited");
    let mut spans: Vec<Span> = Vec::new();
    spans.push(Span::styled(marker, Style::fg(MUTED)));
    spans.push(Span::styled(count.as_str(), Style::fg(MUTED)));
    assert(views(spans@) =~= disclosure_line(exited@.len(), show_exited).spans);
    lines.push(Line::of(spans));
    if show_exited {
        append_lines(&mut lines, exited);
    }
    ServicePanel { lines, exited_toggle: Some(at) }
}

} // verus!
