//! The one line that stands for a tool call, and the line that stands for a run
//! of them.

use vstd::prelude::*;
use crate::chars::{
    cat2, cat3, cat4, dec, decimal, from_range, group_views, join, own, rep, repeat, same,
    to_chars, views,
};
use crate::format::{
    bytes_text, elapsed_text, format_bytes, format_elapsed, join_strings, safe, safe_text,
};
use crate::measure::{text_width, width};
use crate::style::{bold, fg, line, span, Color, Line, LineView, Span, SpanView, Style};
use crate::text::{
    counted_columns, law_truncation_counts_within_its_columns, truncate_display, truncated,
    Truncation,
};
use crate::theme::{ERROR, MUTED, PRIMARY, REASONING, RUNNING, SECONDARY, SUCCESS, WAITING};
use crate::transcript::model::{KindView, ToolKind, ToolProgress, ToolState};
use crate::words::{pad, padded, split_words, starts, starts_with, words};

verus! {

broadcast use group_views;

/// A count of columns, as far as it can be counted.
pub open spec fn sat(n: nat) -> nat {
    if n <= usize::MAX {
        n
    } else {
        usize::MAX as nat
    }
}

/// `a - b`, or nothing.
pub open spec fn less(a: nat, b: nat) -> nat {
    if a >= b {
        (a - b) as nat
    } else {
        0
    }
}

pub open spec fn min(a: nat, b: nat) -> nat {
    if a <= b {
        a
    } else {
        b
    }
}

/// Behind the last slash among the first `n` characters.
pub open spec fn after_slash(s: Seq<char>, n: int) -> int
    decreases n,
{
    if n <= 0 || n > s.len() {
        0
    } else if s[n - 1] == '/' {
        n
    } else {
        after_slash(s, n - 1)
    }
}

/// The name a row shows: the tool's own, or the agent's with the model that it
/// was asked to use, if any.
pub open spec fn shown_name(tool_name: Seq<char>, kind: KindView) -> Seq<char> {
    match kind {
        KindView::Tool => tool_name,
        KindView::Agent { name, model } => match model {
            Some(model) => name + "@"@ + model.skip(after_slash(model, model.len() as int)),
            None => name,
        },
    }
}

pub fn display_name(tool_name: &str, kind: &ToolKind) -> (r: String)
    ensures
        r@ == shown_name(tool_name@, kind@),
{
    match kind {
        ToolKind::Tool => own(tool_name),
        ToolKind::Agent { name, model } => match model {
            Some(model) => {
                let v: Vec<char> = to_chars(model.as_str());
                let mut n: usize = v.len();
                while n > 0 && v[n - 1] != '/'
                    invariant
                        n <= v@.len(),
                        after_slash(v@, v@.len() as int) == after_slash(v@, n as int),
                    decreases n,
                {
                    n -= 1;
                }
                assert(v@.subrange(n as int, v@.len() as int) =~= v@.skip(n as int));
                cat3(name.as_str(), "@", from_range(&v, n, v.len()).as_str())
            },
            None => own(name.as_str()),
        },
    }
}

/// The kind of a call in a word, wide enough to align where there is room.
pub open spec fn kind_label(kind: KindView, width: nat) -> Seq<char> {
    let word = match kind {
        KindView::Tool => "tool"@,
        KindView::Agent { .. } => "agent"@,
    };
    if width >= 72 {
        padded(word, 6)
    } else {
        word + " "@
    }
}

pub open spec fn kind_color(kind: KindView) -> Color {
    match kind {
        KindView::Tool => SECONDARY,
        KindView::Agent { .. } => REASONING,
    }
}

/// The sign of a state. A running call turns with the time it has been active.
pub open spec fn state_icon(state: ToolState, elapsed: u64) -> Seq<char> {
    match state {
        ToolState::Running => if elapsed / 160 % 4 == 0 {
            "◐"@
        } else if elapsed / 160 % 4 == 1 {
            "◓"@
        } else if elapsed / 160 % 4 == 2 {
            "◑"@
        } else {
            "◒"@
        },
        ToolState::Complete => "•"@,
        ToolState::Succeeded => "✓"@,
        ToolState::Failed => "×"@,
    }
}

pub open spec fn state_color(state: ToolState) -> Color {
    match state {
        ToolState::Running => RUNNING,
        ToolState::Complete => SECONDARY,
        ToolState::Succeeded => SUCCESS,
        ToolState::Failed => ERROR,
    }
}

/// The sign of how far a row is unfolded.
pub open spec fn disclosure(expanded: bool, full: bool) -> Seq<char> {
    if !expanded {
        "▶"@
    } else if !full {
        "▾"@
    } else {
        "▼"@
    }
}

/// What a call that runs says of itself. Data is waited for after two seconds
/// without any.
pub open spec fn progress_text(
    tool_name: Seq<char>,
    state: ToolState,
    progress: ToolProgress,
    now: u64,
) -> Seq<char> {
    match (state, progress) {
        (ToolState::Running, ToolProgress::Receiving { received_bytes, last_data }) => {
            let quiet = less(now as nat, last_data as nat);
            if quiet >= 2000 {
                "waiting for provider · "@ + bytes_text(received_bytes as nat)
                    + " received · last data "@ + dec(quiet / 1000) + "s ago"@
            } else {
                "receiving "@ + bytes_text(received_bytes as nat)
            }
        },
        (ToolState::Running, ToolProgress::Queued) => "queued"@,
        (ToolState::Running, ToolProgress::Executing { received_bytes, started }) => {
            let elapsed = elapsed_text(less(now as nat, started as nat) / 1000);
            if tool_name == "task"@ {
                "running · "@ + elapsed
            } else if tool_name == "write"@ && received_bytes > 0 {
                "writing "@ + bytes_text(received_bytes as nat) + " · "@ + elapsed
            } else if tool_name == "write"@ {
                "writing · "@ + elapsed
            } else {
                "executing · "@ + elapsed
            }
        },
        (ToolState::Complete, _) => "done"@,
        _ => ""@,
    }
}

/// The columns that the sign, the label and the gaps of a row take.
pub open spec fn fixed_columns(label: Seq<char>, sign: Seq<char>, icon: Seq<char>) -> nat {
    sat(text_width(label + sign + "  "@) + text_width(icon))
}

/// The columns kept for the first word of the progress.
pub open spec fn progress_reserve(progress: Seq<char>) -> nat {
    if words(progress).len() == 0 {
        0
    } else {
        sat(text_width(words(progress)[0]) + 2)
    }
}

/// The columns that the name may take: between one and twenty.
pub open spec fn name_limit(width: nat, fixed: nat, reserve: nat) -> nat {
    let available = less(less(width, fixed), reserve);
    if available < 1 {
        1
    } else if available > 20 {
        20
    } else {
        available
    }
}

/// What a row says behind its sign: the progress, the arguments, or both.
pub open spec fn details(progress: Seq<char>, arguments: Seq<char>) -> Seq<char> {
    if arguments.len() > 0 && progress.len() > 0 {
        progress + " · "@ + arguments
    } else if arguments.len() > 0 {
        arguments
    } else {
        progress
    }
}

pub open spec fn details_color(progress: Seq<char>) -> Color {
    if starts(progress, "waiting"@) || progress == "queued"@ {
        WAITING
    } else {
        SECONDARY
    }
}

/// What the row of one call shows.
pub struct CallView {
    pub name: Seq<char>,
    pub kind: KindView,
    pub arguments: Seq<char>,
    pub state: ToolState,
    pub progress: ToolProgress,
    pub expanded: bool,
    pub full: bool,
}

/// The row of one call in `width` columns, `elapsed` milliseconds into the
/// activity. Siblings align their names to `name_column`.
pub open spec fn call_line(
    call: CallView,
    width: nat,
    elapsed: u64,
    now: u64,
    name_column: nat,
) -> LineView {
    let label = kind_label(call.kind, width);
    let sign = disclosure(call.expanded, call.full);
    let icon = state_icon(call.state, elapsed);
    let name = shown_name(call.name, call.kind);
    let fixed = fixed_columns(label, sign, icon);
    if width <= fixed {
        line(
            seq![
                span(
                    truncated(
                        label + sign + " "@ + name + " "@ + icon,
                        width,
                        Truncation::Right,
                    ),
                    fg(kind_color(call.kind)),
                ),
            ],
        )
    } else {
        spoken_line(
            span(label, fg(kind_color(call.kind))),
            sign,
            span(" "@ + icon, fg(state_color(call.state))),
            name,
            progress_text(call.name, call.state, call.progress, now),
            call.arguments,
            width,
            fixed,
            name_column,
        )
    }
}

/// The row of a call that has room for more than its sign, of which `fixed`
/// columns are taken: its name, then what it does and with what.
pub open spec fn spoken_line(
    label: SpanView,
    sign: Seq<char>,
    icon: SpanView,
    name: Seq<char>,
    progress: Seq<char>,
    arguments: Seq<char>,
    width: nat,
    fixed: nat,
    name_column: nat,
) -> LineView {
    let limit = name_limit(width, fixed, progress_reserve(progress));
    let short = truncated(name, limit, Truncation::Right);
    let padding = if width >= 72 {
        less(min(name_column, limit), text_width(short))
    } else {
        0
    };
    let used = sat(sat(fixed + text_width(short)) + padding);
    let given = join(words(safe(arguments)), " "@);
    let rest = truncated(
        details(progress, given),
        less(less(width, used), 1),
        Truncation::Right,
    );
    assembled(
        label,
        span(sign + " "@, fg(SECONDARY)),
        span(short + rep(' ', padding), bold(fg(PRIMARY))),
        icon,
        rest,
        details_color(progress),
    )
}

/// The columns of the name as it is cut to `limit`: those it measures, or those
/// that the cut counts where they are fewer.
pub open spec fn name_columns(name: Seq<char>, limit: nat) -> nat {
    min(
        text_width(truncated(name, limit, Truncation::Right)),
        counted_columns(name, limit, Truncation::Right),
    )
}

/// A row counts no more columns than it has: what is fixed, the name as it was cut
/// with its padding, and what is said behind a blank. Left out is a text without a
/// column of its own.
pub proof fn law_a_row_counts_within_its_width(
    name: Seq<char>,
    progress: Seq<char>,
    arguments: Seq<char>,
    width: nat,
    fixed: nat,
    name_column: nat,
)
    requires
        fixed < width <= usize::MAX,
        ({
            let said = details(progress, join(words(safe(arguments)), " "@));
            said.len() > 0 ==> text_width(said) > 0
        }),
    ensures
        ({
            let limit = name_limit(width, fixed, progress_reserve(progress));
            let short = truncated(name, limit, Truncation::Right);
            let padding = if width >= 72 {
                less(min(name_column, limit), text_width(short))
            } else {
                0
            };
            let used = sat(sat(fixed + text_width(short)) + padding);
            let counted = fixed + name_columns(name, limit) + padding;
            let said = details(progress, join(words(safe(arguments)), " "@));
            let room = less(less(width, used), 1);
            &&& counted <= width
            &&& truncated(said, room, Truncation::Right).len() > 0 ==> counted + 1
                + counted_columns(said, room, Truncation::Right) <= width
        }),
{
    let limit = name_limit(width, fixed, progress_reserve(progress));
    let short = truncated(name, limit, Truncation::Right);
    let padding = if width >= 72 {
        less(min(name_column, limit), text_width(short))
    } else {
        0
    };
    let used = sat(sat(fixed + text_width(short)) + padding);
    let said = details(progress, join(words(safe(arguments)), " "@));
    law_truncation_counts_within_its_columns(name, limit, Truncation::Right);
    law_truncation_counts_within_its_columns(
        said,
        less(less(width, used), 1),
        Truncation::Right,
    );
}

/// The parts of a row, with what it says last where it says something.
pub open spec fn assembled(
    label: SpanView,
    sign: SpanView,
    name: SpanView,
    icon: SpanView,
    rest: Seq<char>,
    color: Color,
) -> LineView {
    if rest.len() > 0 {
        line(seq![label, sign, name, icon, span(" "@ + rest, fg(color))])
    } else {
        line(seq![label, sign, name, icon])
    }
}

fn assemble(label: Span, sign: Span, name: Span, icon: Span, rest: &str, color: Color) -> (r: Line)
    ensures
        r@ == assembled(label@, sign@, name@, icon@, rest@, color),
{
    let mut spans: Vec<Span> = Vec::new();
    spans.push(label);
    spans.push(sign);
    spans.push(name);
    spans.push(icon);
    if !rest.is_empty() {
        spans.push(Span { content: cat2(" ", rest), style: Style::fg(color) });
        assert(views(spans@) =~= seq![
            label@,
            sign@,
            name@,
            icon@,
            span(" "@ + rest@, fg(color)),
        ]);
    } else {
        assert(views(spans@) =~= seq![label@, sign@, name@, icon@]);
    }
    Line::of(spans)
}

fn label_of(kind: &ToolKind, width: usize) -> (r: String)
    ensures
        r@ == kind_label(kind@, width as nat),
{
    let word: &str = match kind {
        ToolKind::Tool => "tool",
        ToolKind::Agent { .. } => "agent",
    };
    if width >= 72 {
        pad(word, 6)
    } else {
        cat2(word, " ")
    }
}

fn color_of(kind: &ToolKind) -> (r: Color)
    ensures
        r == kind_color(kind@),
{
    match kind {
        ToolKind::Tool => SECONDARY,
        ToolKind::Agent { .. } => REASONING,
    }
}

fn icon_of(state: ToolState, elapsed: u64) -> (r: (&'static str, Color))
    ensures
        r.0@ == state_icon(state, elapsed),
        r.1 == state_color(state),
{
    match state {
        ToolState::Running => {
            let frame: u64 = elapsed / 160 % 4;
            let icon: &'static str = if frame == 0 {
                "◐"
            } else if frame == 1 {
                "◓"
            } else if frame == 2 {
                "◑"
            } else {
                "◒"
            };
            (icon, RUNNING)
        },
        ToolState::Complete => ("•", SECONDARY),
        ToolState::Succeeded => ("✓", SUCCESS),
        ToolState::Failed => ("×", ERROR),
    }
}

fn progress_of(tool_name: &str, state: ToolState, progress: ToolProgress, now: u64) -> (r: String)
    ensures
        r@ == progress_text(tool_name@, state, progress, now),
{
    match (state, progress) {
        (ToolState::Running, ToolProgress::Receiving { received_bytes, last_data }) => {
            let quiet: u64 = now.saturating_sub(last_data);
            let bytes: String = format_bytes(received_bytes);
            if quiet >= 2000 {
                let mut r: String = cat4(
                    "waiting for provider · ",
                    bytes.as_str(),
                    " received · last data ",
                    decimal(quiet / 1000).as_str(),
                );
                r.push_str("s ago");
                r
            } else {
                cat2("receiving ", bytes.as_str())
            }
        },
        (ToolState::Running, ToolProgress::Queued) => own("queued"),
        (ToolState::Running, ToolProgress::Executing { received_bytes, started }) => {
            let elapsed: String = format_elapsed(now.saturating_sub(started) / 1000);
            if same(tool_name, "task") {
                cat2("running · ", elapsed.as_str())
            } else if same(tool_name, "write") && received_bytes > 0 {
                cat4("writing ", format_bytes(received_bytes).as_str(), " · ", elapsed.as_str())
            } else if same(tool_name, "write") {
                cat2("writing · ", elapsed.as_str())
            } else {
                cat2("executing · ", elapsed.as_str())
            }
        },
        (ToolState::Complete, _) => own("done"),
        _ => own(""),
    }
}

fn reserve_of(progress: &str) -> (r: usize)
    ensures
        r == progress_reserve(progress@),
{
    let parts: Vec<String> = split_words(progress);
    assert(views(parts@).len() == parts@.len());
    if parts.len() == 0 {
        0
    } else {
        assert(views(parts@)[0] == parts@[0]@);
        width(parts[0].as_str()).saturating_add(2)
    }
}

/// The row of one call. `elapsed` and `now` are milliseconds.
pub fn tool_line_with_disclosure(
    name: &str,
    kind: &ToolKind,
    arguments: &str,
    state: ToolState,
    width: u16,
    elapsed: u64,
    progress: ToolProgress,
    now: u64,
    expanded: bool,
    full: bool,
    name_column: usize,
) -> (r: Line)
    ensures
        r@ == call_line(
            CallView {
                name: name@,
                kind: kind@,
                arguments: arguments@,
                state,
                progress,
                expanded,
                full,
            },
            width as nat,
            elapsed,
            now,
            name_column as nat,
        ),
{
    let columns: usize = width as usize;
    let label: String = label_of(kind, columns);
    let (icon, icon_color) = icon_of(state, elapsed);
    let sign: &str = if !expanded {
        "▶"
    } else if !full {
        "▾"
    } else {
        "▼"
    };
    let shown: String = display_name(name, kind);
    let fixed: usize = crate::measure::width(
        cat3(label.as_str(), sign, "  ").as_str(),
    ).saturating_add(crate::measure::width(icon));
    if columns <= fixed {
        let mut text: String = cat4(label.as_str(), sign, " ", shown.as_str());
        text.push_str(" ");
        text.push_str(icon);
        return Line::one(
            truncate_display(text.as_str(), columns, Truncation::Right).as_str(),
            Style::fg(color_of(kind)),
        );
    }
    let doing: String = progress_of(name, state, progress, now);
    speak(
        Span { content: label, style: Style::fg(color_of(kind)) },
        sign,
        Span { content: cat2(" ", icon), style: Style::fg(icon_color) },
        shown.as_str(),
        doing,
        arguments,
        columns,
        fixed,
        name_column,
    )
}

fn speak(
    label: Span,
    sign: &str,
    icon: Span,
    shown: &str,
    doing: String,
    arguments: &str,
    columns: usize,
    fixed: usize,
    name_column: usize,
) -> (r: Line)
    ensures
        r@ == spoken_line(
            label@,
            sign@,
            icon@,
            shown@,
            doing@,
            arguments@,
            columns as nat,
            fixed as nat,
            name_column as nat,
        ),
{
    let available: usize = columns.saturating_sub(fixed).saturating_sub(
        reserve_of(doing.as_str()),
    );
    let limit: usize = if available < 1 {
        1
    } else if available > 20 {
        20
    } else {
        available
    };
    let short: String = truncate_display(shown, limit, Truncation::Right);
    let short_width: usize = crate::measure::width(short.as_str());
    let padding: usize = if columns >= 72 {
        let column: usize = if name_column <= limit {
            name_column
        } else {
            limit
        };
        column.saturating_sub(short_width)
    } else {
        0
    };
    let used: usize = fixed.saturating_add(short_width).saturating_add(padding);
    let given: String = join_strings(&split_words(safe_text(arguments).as_str()), " ");
    let color: Color = if starts_with(doing.as_str(), "waiting") || same(doing.as_str(), "queued") {
        WAITING
    } else {
        SECONDARY
    };
    let whole: String = if !given.as_str().is_empty() && !doing.as_str().is_empty() {
        cat3(doing.as_str(), " · ", given.as_str())
    } else if !given.as_str().is_empty() {
        given
    } else {
        doing
    };
    let rest: String = truncate_display(
        whole.as_str(),
        columns.saturating_sub(used).saturating_sub(1),
        Truncation::Right,
    );
    assemble(
        label,
        Span { content: cat2(sign, " "), style: Style::fg(SECONDARY) },
        Span {
            content: cat2(short.as_str(), repeat(' ', padding).as_str()),
            style: Style::fg(PRIMARY).bold(),
        },
        icon,
        rest.as_str(),
        color,
    )
}

/// The row of one call that is folded and alone.
pub fn tool_line(
    name: &str,
    kind: &ToolKind,
    arguments: &str,
    state: ToolState,
    width: u16,
    elapsed: u64,
    progress: ToolProgress,
    now: u64,
) -> (r: Line)
    ensures
        r@ == call_line(
            CallView {
                name: name@,
                kind: kind@,
                arguments: arguments@,
                state,
                progress,
                expanded: false,
                full: false,
            },
            width as nat,
            elapsed,
            now,
            0,
        ),
{
    tool_line_with_disclosure(
        name,
        kind,
        arguments,
        state,
        width,
        elapsed,
        progress,
        now,
        false,
        false,
        0,
    )
}

/// How many calls, in words.
pub open spec fn calls_text(calls: nat) -> Seq<char> {
    dec(calls) + " "@ + (if calls == 1 {
        "call"@
    } else {
        "calls"@
    })
}

pub fn call_count(calls: usize) -> (r: String)
    ensures
        r@ == calls_text(calls as nat),
{
    cat3(
        decimal(calls as u64).as_str(),
        " ",
        if calls == 1 {
            "call"
        } else {
            "calls"
        },
    )
}

/// The line of a run of calls: what runs, else what failed, else their number.
pub open spec fn group_line(
    calls: nat,
    running: nat,
    failed: nat,
    expanded: bool,
    width: nat,
) -> LineView {
    let sign = if expanded {
        "▾"@
    } else {
        "▸"@
    };
    let status = if running > 0 {
        dec(running) + " running · "@ + calls_text(calls)
    } else if failed > 0 {
        calls_text(calls) + " · "@ + dec(failed) + " failed"@
    } else {
        calls_text(calls)
    };
    let icon = if running > 0 {
        "◐"@
    } else if failed > 0 {
        "×"@
    } else {
        "✓"@
    };
    let color = if running > 0 {
        RUNNING
    } else if failed > 0 {
        ERROR
    } else {
        MUTED
    };
    line(
        seq![
            span(
                truncated(
                    "tools "@ + sign + " "@ + status + " "@ + icon,
                    width,
                    Truncation::Right,
                ),
                fg(color),
            ),
        ],
    )
}

pub fn tool_group_line(
    calls: usize,
    running: usize,
    failed: usize,
    expanded: bool,
    width: u16,
) -> (r: Line)
    ensures
        r@ == group_line(calls as nat, running as nat, failed as nat, expanded, width as nat),
{
    let sign: &str = if expanded {
        "▾"
    } else {
        "▸"
    };
    let count: String = call_count(calls);
    let status: String = if running > 0 {
        cat3(decimal(running as u64).as_str(), " running · ", count.as_str())
    } else if failed > 0 {
        cat4(count.as_str(), " · ", decimal(failed as u64).as_str(), " failed")
    } else {
        count
    };
    let icon: &str = if running > 0 {
        "◐"
    } else if failed > 0 {
        "×"
    } else {
        "✓"
    };
    let color: Color = if running > 0 {
        RUNNING
    } else if failed > 0 {
        ERROR
    } else {
        MUTED
    };
    let mut text: String = cat4("tools ", sign, " ", status.as_str());
    text.push_str(" ");
    text.push_str(icon);
    Line::one(
        truncate_display(text.as_str(), width as usize, Truncation::Right).as_str(),
        Style::fg(color),
    )
}

} // verus!
