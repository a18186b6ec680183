//! What the rows of the transcript show of its lines.

use vstd::prelude::*;
use crate::chars::{control, dec, join, law_a_line_ends_at_its_line_feed, lines, rep};
use crate::format::{bytes_text, elapsed_text, law_safe_text_is_kept, safe_line_list};
use crate::measure::text_width;
use crate::style::{line_width, plain, Color, LineView, Modifier, Style};
use crate::text::{hard_wrapped, truncated, wrapped, Truncation};
use crate::theme::{
    CODE, ERROR, MUTED, PRIMARY, REASONING, RUNNING, SECONDARY, SUCCESS, USER, WAITING,
};
use crate::transcript::details::{
    block, with_background, DetailLayout, RowView, TargetView,
};
use crate::transcript::lines::{entry_lines, markdown_rows, SceneView};
use crate::transcript::model::{ItemView, KindView, ToolProgress, ToolState, ToolView};
use crate::transcript::render::{timeline_branch, unfolded_rows, widest_name};
use crate::transcript::rows::indented;
use crate::transcript::tool_line::{
    after_slash, call_line, calls_text, details, details_color, disclosure, fixed_columns,
    group_line, kind_label, less, min, name_limit, progress_reserve, progress_text, sat, shown_name,
    state_icon, CallView,
};
use crate::words::{is_word, law_white_space_separates_words};

verus! {

/// Whether a text is one line that a terminal shows as it is.
pub open spec fn one_plain_line(text: Seq<char>) -> bool {
    &&& text.len() > 0
    &&& forall|i: int| 0 <= i < text.len() ==> !control(#[trigger] text[i])
}

pub proof fn lemma_plain_lines(a: Seq<char>, b: Seq<char>)
    requires
        one_plain_line(a),
        one_plain_line(b),
    ensures
        safe_line_list(a) == seq![a],
        lines(a + seq!['\n'] + b) == seq![a, b],
        safe_line_list(a + seq!['\n'] + b) == seq![a, b],
{
    assert forall|i: int| 0 <= i < a.len() implies a[i] != '\n' && a[i] != '\r' by {
        assert(!control(a[i]));
    }
    assert forall|i: int| 0 <= i < b.len() implies b[i] != '\n' && b[i] != '\r' by {
        assert(!control(b[i]));
    }
    law_a_line_ends_at_its_line_feed(a, b);
    law_a_line_ends_at_its_line_feed(b, a);
    law_safe_text_is_kept(a);
    law_safe_text_is_kept(b);
    assert(safe_line_list(a) =~= seq![a]);
    assert(lines(a + seq!['\n'] + b) =~= seq![a, b]);
    assert(safe_line_list(a + seq!['\n'] + b) =~= seq![a, b]);
}

/// Whether a line shows `text` in `style` behind the five columns of `mark`, which
/// are in `mark_style`.
pub open spec fn shows_behind(
    l: LineView,
    mark: Seq<char>,
    mark_style: Style,
    text: Seq<char>,
    style: Style,
) -> bool {
    &&& l.spans.len() == 2
    &&& l.spans[0].content == mark
    &&& l.spans[0].style == mark_style
    &&& l.spans[1].content == text
    &&& l.spans[1].style == style
}

/// The style of a speaker's name.
pub open spec fn name_style(color: Color) -> Style {
    Style {
        fg: Some(color),
        bg: None,
        modifier: Modifier {
            bold: true,
            dim: false,
            italic: false,
            underlined: false,
            reversed: false,
            crossed_out: false,
        },
    }
}

/// What a person said, what another session said and what the system says are shown
/// line by line, whole and in order: the first line behind the speaker, the others
/// below it.
pub proof fn law_what_is_said_is_shown(a: Seq<char>, b: Seq<char>, width: nat, scene: SceneView)
    requires
        one_plain_line(a),
        one_plain_line(b),
    ensures
        ({
            let both = a + seq!['\n'] + b;
            let none = seq![' ', ' ', ' ', ' ', ' '];
            let you = entry_lines(ItemView::User(both), width, scene);
            let task = entry_lines(ItemView::Incoming(both), width, scene);
            let system = entry_lines(ItemView::System(both), width, scene);
            let primary = Style { fg: Some(PRIMARY), ..plain() };
            let muted = Style { fg: Some(MUTED), ..plain() };
            &&& you.len() == 2 && task.len() == 2 && system.len() == 2
            &&& shows_behind(you[0], seq!['y', 'o', 'u', ' ', ' '], name_style(USER), a, primary)
            &&& shows_behind(you[1], none, name_style(USER), b, primary)
            &&& shows_behind(
                task[0],
                seq!['t', 'a', 's', 'k', ' '],
                name_style(REASONING),
                a,
                primary,
            )
            &&& shows_behind(task[1], none, name_style(REASONING), b, primary)
            &&& shows_behind(system[0], seq!['—', ' ', ' ', ' ', ' '], muted, a, muted)
            &&& shows_behind(system[1], none, muted, b, muted)
        }),
{
    lemma_plain_lines(a, b);
    reveal_strlit("you  ");
    reveal_strlit("task ");
    reveal_strlit("—    ");
    reveal_strlit("     ");
    assert("you  "@ =~= seq!['y', 'o', 'u', ' ', ' ']);
    assert("task "@ =~= seq!['t', 'a', 's', 'k', ' ']);
    assert("—    "@ =~= seq!['—', ' ', ' ', ' ', ' ']);
    assert("     "@ =~= seq![' ', ' ', ' ', ' ', ' ']);
}

/// A thought, unfolded, shows each of its lines behind a bar; folded, its title
/// alone. The sign tells whether it is unfolded, and the word whether it is over.
pub proof fn law_a_thought_shows_its_lines(
    id: Seq<char>,
    a: Seq<char>,
    b: Seq<char>,
    complete: bool,
    expanded: bool,
    width: nat,
    scene: SceneView,
)
    requires
        one_plain_line(a),
        one_plain_line(b),
    ensures
        ({
            let text = a + seq!['\n'] + b;
            let shown = entry_lines(
                ItemView::Thought { id, text, complete, expanded },
                width,
                scene,
            );
            let bar = seq![' ', ' ', '│', ' '];
            let label = shown[0].spans[0].content;
            let reasoning = Style { fg: Some(REASONING), ..plain() };
            let muted = Style { fg: Some(MUTED), ..plain() };
            &&& shown.len() == (if expanded {
                3nat
            } else {
                1
            })
            &&& expanded ==> shows_behind(shown[1], bar, reasoning, a, muted)
            &&& expanded ==> shows_behind(shown[2], bar, reasoning, b, muted)
            &&& shown[0].spans[0].style == reasoning
            &&& label[0] == (if id.len() == 0 {
                '·'
            } else if expanded {
                '▾'
            } else {
                '▸'
            })
            &&& label.skip(1) == (if complete {
                seq![' ', 'T', 'h', 'o', 'u', 'g', 'h', 't', ':', ' ']
            } else {
                seq![' ', 'T', 'h', 'i', 'n', 'k', 'i', 'n', 'g', ':', ' ']
            })
        }),
{
    lemma_plain_lines(a, b);
    reveal_strlit("  │ ");
    reveal_strlit("·");
    reveal_strlit("▾");
    reveal_strlit("▸");
    reveal_strlit(" ");
    reveal_strlit(": ");
    reveal_strlit("Thought");
    reveal_strlit("Thinking");
    assert("  │ "@ =~= seq![' ', ' ', '│', ' ']);
    let text = a + seq!['\n'] + b;
    let shown = entry_lines(ItemView::Thought { id, text, complete, expanded }, width, scene);
    let label = shown[0].spans[0].content;
    if complete {
        assert(label.skip(1) =~= seq![' ', 'T', 'h', 'o', 'u', 'g', 'h', 't', ':', ' ']);
    } else {
        assert(label.skip(1) =~= seq![' ', 'T', 'h', 'i', 'n', 'k', 'i', 'n', 'g', ':', ' ']);
    }
}

/// A report shows its headline behind what it is, and its body where it is unfolded;
/// folded, how many lines there are.
pub proof fn law_a_report_shows_its_headline(
    id: Seq<char>,
    a: Seq<char>,
    b: Seq<char>,
    expanded: bool,
    width: nat,
    scene: SceneView,
)
    requires
        one_plain_line(a),
        one_plain_line(b),
        text_width(a) + 7 <= width,
    ensures
        ({
            let text = a + seq!['\n'] + b;
            let none = seq![' ', ' ', ' ', ' ', ' '];
            let task = entry_lines(ItemView::Task { id, text, expanded }, width, scene);
            let job = entry_lines(ItemView::Job { id, text, expanded }, width, scene);
            let note = entry_lines(ItemView::Note { id, text, expanded }, width, scene);
            let muted = Style { fg: Some(MUTED), ..plain() };
            let sign = if expanded {
                seq!['▾', ' ']
            } else {
                seq!['▸', ' ']
            };
            &&& forall|l: LineView|
                #![trigger l.spans[0]]
                l == task[0] || l == job[0] || l == note[0] ==> {
                    &&& l.spans.len() == 3
                    &&& l.spans[1].content == sign
                    &&& l.spans[2].content == a
                    &&& l.spans[2].style == (Style { fg: Some(PRIMARY), ..plain() })
                }
            &&& task[0].spans[0].content == seq!['t', 'a', 's', 'k', ' ']
            &&& task[0].spans[0].style == name_style(REASONING)
            &&& job[0].spans[0].content == seq!['j', 'o', 'b', ' ', ' ']
            &&& job[0].spans[0].style == name_style(WAITING)
            &&& note[0].spans[0].content == seq!['n', 'o', 't', 'e', ' ']
            &&& note[0].spans[0].style == name_style(MUTED)
            &&& task.len() == 2 && job.len() == 2 && note.len() == 2
            &&& expanded ==> shows_behind(task[1], none, plain(), b, muted) && shows_behind(
                job[1],
                none,
                plain(),
                b,
                muted,
            ) && shows_behind(note[1], none, plain(), b, muted)
            &&& !expanded ==> task[1].spans[1].content.take(4) == seq!['…', ' ', '1', ' ']
                && job[1].spans[1].content.take(4) == seq!['…', ' ', '1', ' ']
                && note[1].spans[1].content.take(4) == seq!['…', ' ', '1', ' ']
        }),
{
    lemma_plain_lines(a, b);
    let text = a + seq!['\n'] + b;
    assert(safe_line_list(text).skip(1) =~= seq![b]);
    reveal_strlit("task ");
    reveal_strlit("job  ");
    reveal_strlit("note ");
    reveal_strlit("     ");
    reveal_strlit("▾ ");
    reveal_strlit("▸ ");
    reveal_strlit("… ");
    reveal_strlit(" more line(s) — ");
    assert("task "@ =~= seq!['t', 'a', 's', 'k', ' ']);
    assert("job  "@ =~= seq!['j', 'o', 'b', ' ', ' ']);
    assert("note "@ =~= seq!['n', 'o', 't', 'e', ' ']);
    assert("     "@ =~= seq![' ', ' ', ' ', ' ', ' ']);
    assert("▾ "@ =~= seq!['▾', ' ']);
    assert("▸ "@ =~= seq!['▸', ' ']);
    assert(dec(1) == seq!['1']);
    let task = entry_lines(ItemView::Task { id, text, expanded }, width, scene);
    let job = entry_lines(ItemView::Job { id, text, expanded }, width, scene);
    let note = entry_lines(ItemView::Note { id, text, expanded }, width, scene);
    if !expanded {
        assert(task[1].spans[1].content.take(4) =~= seq!['…', ' ', '1', ' ']);
        assert(job[1].spans[1].content.take(4) =~= seq!['…', ' ', '1', ' ']);
        assert(note[1].spans[1].content.take(4) =~= seq!['…', ' ', '1', ' ']);
    }
}

/// The row of a call says what kind of call it is, how far it is unfolded, its name,
/// and by sign and colour how it stands: failed, succeeded, done or running.
pub proof fn law_a_row_shows_how_its_call_stands(
    call: CallView,
    width: nat,
    elapsed: u64,
    now: u64,
    name_column: nat,
)
    requires
        fixed_columns(
            kind_label(call.kind, width),
            seq!['▶'],
            state_icon(call.state, elapsed),
        ) < width,
        fixed_columns(
            kind_label(call.kind, width),
            seq!['▾'],
            state_icon(call.state, elapsed),
        ) < width,
        fixed_columns(
            kind_label(call.kind, width),
            seq!['▼'],
            state_icon(call.state, elapsed),
        ) < width,
    ensures
        ({
            let spans = call_line(call, width, elapsed, now, name_column).spans;
            &&& 4 <= spans.len() <= 5
            &&& call.kind is Tool ==> spans[0].content.take(5) == seq!['t', 'o', 'o', 'l', ' ']
            &&& call.kind is Agent ==> spans[0].content.take(6) == seq![
                'a',
                'g',
                'e',
                'n',
                't',
                ' ',
            ]
            &&& spans[0].style == (Style {
                fg: Some(
                    if call.kind is Tool {
                        SECONDARY
                    } else {
                        REASONING
                    },
                ),
                ..plain()
            })
            &&& spans[1].content == (if !call.expanded {
                seq!['▶', ' ']
            } else if call.full {
                seq!['▼', ' ']
            } else {
                seq!['▾', ' ']
            })
            &&& spans[2].style == name_style(PRIMARY)
            &&& call.state == ToolState::Failed ==> spans[3].content == seq![' ', '×']
                && spans[3].style == (Style { fg: Some(ERROR), ..plain() })
            &&& call.state == ToolState::Succeeded ==> spans[3].content == seq![' ', '✓']
                && spans[3].style == (Style { fg: Some(SUCCESS), ..plain() })
            &&& call.state == ToolState::Complete ==> spans[3].content == seq![' ', '•']
                && spans[3].style == (Style { fg: Some(SECONDARY), ..plain() })
            &&& call.state == ToolState::Running ==> spans[3].style == (Style {
                fg: Some(RUNNING),
                ..plain()
            }) && (elapsed < 160 ==> spans[3].content == seq![' ', '◐'])
        }),
{
    reveal_strlit("tool");
    reveal_strlit("agent");
    reveal_strlit(" ");
    reveal_strlit("▶");
    reveal_strlit("▾");
    reveal_strlit("▼");
    reveal_strlit("×");
    reveal_strlit("✓");
    reveal_strlit("•");
    reveal_strlit("◐");
    assert("▶"@ =~= seq!['▶']);
    assert("▾"@ =~= seq!['▾']);
    assert("▼"@ =~= seq!['▼']);
    let spans = call_line(call, width, elapsed, now, name_column).spans;
    if call.kind is Tool {
        assert(spans[0].content.take(5) =~= seq!['t', 'o', 'o', 'l', ' ']);
    } else {
        assert(spans[0].content.take(6) =~= seq!['a', 'g', 'e', 'n', 't', ' ']);
    }
    assert(spans[1].content =~= (if !call.expanded {
        seq!['▶', ' ']
    } else if call.full {
        seq!['▼', ' ']
    } else {
        seq!['▾', ' ']
    }));
    match call.state {
        ToolState::Failed => assert(spans[3].content =~= seq![' ', '×']),
        ToolState::Succeeded => assert(spans[3].content =~= seq![' ', '✓']),
        ToolState::Complete => assert(spans[3].content =~= seq![' ', '•']),
        ToolState::Running => {
            if elapsed < 160 {
                assert(spans[3].content =~= seq![' ', '◐']);
            }
        },
    }
}

/// A running call turns a quarter every 160 milliseconds.
pub proof fn law_a_running_call_turns(elapsed: u64)
    ensures
        state_icon(ToolState::Running, elapsed) == (if elapsed % 640 < 160 {
            seq!['◐']
        } else if elapsed % 640 < 320 {
            seq!['◓']
        } else if elapsed % 640 < 480 {
            seq!['◑']
        } else {
            seq!['◒']
        }),
{
    reveal_strlit("◐");
    reveal_strlit("◓");
    reveal_strlit("◑");
    reveal_strlit("◒");
    assert(elapsed / 160 % 4 == (elapsed % 640) / 160);
    assert(state_icon(ToolState::Running, elapsed) =~= (if elapsed % 640 < 160 {
        seq!['◐']
    } else if elapsed % 640 < 320 {
        seq!['◓']
    } else if elapsed % 640 < 480 {
        seq!['◑']
    } else {
        seq!['◒']
    }));
}

proof fn lemma_after_slash(s: Seq<char>, n: int, at: int)
    requires
        0 <= at < n <= s.len(),
        s[at] == '/',
        forall|i: int| at < i < n ==> s[i] != '/',
    ensures
        after_slash(s, n) == at + 1,
    decreases n,
{
    if n - 1 > at {
        lemma_after_slash(s, n - 1, at);
    }
}

proof fn lemma_no_slash(s: Seq<char>, n: int)
    requires
        0 <= n <= s.len(),
        forall|i: int| 0 <= i < n ==> s[i] != '/',
    ensures
        after_slash(s, n) == 0,
    decreases n,
{
    if n > 0 {
        lemma_no_slash(s, n - 1);
    }
}

/// A call is named by its tool, an agent by its own name, with the model that it was
/// asked to use, without the provider of the model.
pub proof fn law_a_call_is_named(
    tool: Seq<char>,
    agent: Seq<char>,
    provider: Seq<char>,
    model: Seq<char>,
)
    requires
        forall|i: int| 0 <= i < model.len() ==> model[i] != '/',
    ensures
        shown_name(tool, KindView::Tool) == tool,
        shown_name(tool, KindView::Agent { name: agent, model: None }) == agent,
        shown_name(tool, KindView::Agent { name: agent, model: Some(model) }) == agent + seq!['@']
            + model,
        shown_name(
            tool,
            KindView::Agent { name: agent, model: Some(provider + seq!['/'] + model) },
        ) == agent + seq!['@'] + model,
{
    reveal_strlit("@");
    assert("@"@ =~= seq!['@']);
    let whole = provider + seq!['/'] + model;
    lemma_after_slash(whole, whole.len() as int, provider.len() as int);
    assert(whole.skip(provider.len() as int + 1) =~= model);
    lemma_no_slash(model, model.len() as int);
    assert(model.skip(0) =~= model);
}

/// A name that fits its columns is shown whole, and nothing but blanks behind it.
pub proof fn law_a_row_shows_the_name(
    call: CallView,
    width: nat,
    elapsed: u64,
    now: u64,
    name_column: nat,
)
    requires
        ({
            let label = kind_label(call.kind, width);
            let icon = state_icon(call.state, elapsed);
            let fixed = fixed_columns(label, disclosure(call.expanded, call.full), icon);
            let progress = progress_text(call.name, call.state, call.progress, now);
            &&& fixed < width
            &&& text_width(shown_name(call.name, call.kind)) <= name_limit(
                width,
                fixed,
                progress_reserve(progress),
            )
        }),
    ensures
        ({
            let name = shown_name(call.name, call.kind);
            let shown = call_line(call, width, elapsed, now, name_column).spans[2].content;
            &&& shown.len() >= name.len()
            &&& shown.take(name.len() as int) == name
            &&& forall|i: int| name.len() <= i < shown.len() ==> shown[i] == ' '
        }),
{
    let name = shown_name(call.name, call.kind);
    let shown = call_line(call, width, elapsed, now, name_column).spans[2].content;
    assert(shown.take(name.len() as int) =~= name);
}

/// What a call says of itself: what it receives, or how long nothing came; that it
/// waits its turn; for how long it runs. A call that is settled says nothing.
pub proof fn law_a_row_says_what_its_call_does(
    name: Seq<char>,
    state: ToolState,
    bytes: u64,
    since: u64,
    now: u64,
)
    requires
        since <= now,
    ensures
        ({
            let data = ToolProgress::Receiving { received_bytes: bytes, last_data: since };
            let work = ToolProgress::Executing { received_bytes: bytes, started: since };
            let quiet = (now - since) as nat;
            let text = bytes_text(bytes as nat);
            let lasted = elapsed_text(quiet / 1000);
            let runs = ToolState::Running;
            &&& quiet < 2000 ==> progress_text(name, runs, data, now) == "receiving "@ + text
            &&& quiet >= 2000 ==> progress_text(name, runs, data, now) == "waiting for provider · "@
                + text + " received · last data "@ + dec(quiet / 1000) + "s ago"@
            &&& progress_text(name, runs, ToolProgress::Queued, now) == "queued"@
            &&& progress_text("task"@, runs, work, now) == "running · "@ + lasted
            &&& progress_text("write"@, runs, work, now) == (if bytes > 0 {
                "writing "@ + text + " · "@ + lasted
            } else {
                "writing · "@ + lasted
            })
            &&& name != "task"@ && name != "write"@ ==> progress_text(name, runs, work, now)
                == "executing · "@ + lasted
            &&& forall|p: ToolProgress|
                progress_text(name, ToolState::Failed, p, now) == ""@ && progress_text(
                    name,
                    ToolState::Succeeded,
                    p,
                    now,
                ) == ""@ && #[trigger] progress_text(name, ToolState::Complete, p, now) == "done"@
        }),
{
    reveal_strlit("task");
    reveal_strlit("write");
    assert("task"@.len() != "write"@.len());
}

/// What a call does stands before what it was given.
pub proof fn law_progress_stands_before_the_arguments(progress: Seq<char>, given: Seq<char>)
    ensures
        progress.len() > 0 && given.len() > 0 ==> details(progress, given) == progress + seq![
            ' ',
            '·',
            ' ',
        ] + given,
        given.len() == 0 ==> details(progress, given) == progress,
        progress.len() == 0 ==> details(progress, given) == given,
        details_color("queued"@) == WAITING,
        details_color("waiting for "@ + given) == WAITING,
        details_color("receiving "@ + given) == SECONDARY,
        details_color("executing · "@ + given) == SECONDARY,
        details_color("running · "@ + given) == SECONDARY,
        details_color(Seq::empty()) == SECONDARY,
{
    reveal_strlit(" · ");
    assert(" · "@ =~= seq![' ', '·', ' ']);
    reveal_strlit("waiting");
    reveal_strlit("waiting for ");
    reveal_strlit("queued");
    reveal_strlit("receiving ");
    reveal_strlit("executing · ");
    reveal_strlit("running · ");
    let a = "receiving "@ + given;
    let b = "executing · "@ + given;
    let c = "running · "@ + given;
    let d = "waiting for "@ + given;
    assert(d.subrange(0, 7) =~= "waiting"@);
    assert(a.subrange(0, 7)[0] == 'r' && "waiting"@[0] == 'w');
    assert(b.subrange(0, 7)[0] == 'e');
    assert(c.subrange(0, 7)[0] == 'r');
    assert(a[0] != "queued"@[0] && b[0] != "queued"@[0] && c[0] != "queued"@[0]);
}

/// The line of a run of calls says how many there are; before that how many run,
/// where any does; else behind it how many failed, where any did.
pub proof fn law_a_group_counts_its_calls(
    calls: nat,
    running: nat,
    failed: nat,
    expanded: bool,
    width: nat,
)
    ensures
        ({
            let l = group_line(calls, running, failed, expanded, width);
            let sign = if expanded {
                seq!['▾']
            } else {
                seq!['▸']
            };
            let count = dec(calls) + (if calls == 1 {
                seq![' ', 'c', 'a', 'l', 'l']
            } else {
                seq![' ', 'c', 'a', 'l', 'l', 's']
            });
            let said = if running > 0 {
                dec(running) + seq![' ', 'r', 'u', 'n', 'n', 'i', 'n', 'g', ' ', '·', ' '] + count
                    + seq![' ', '◐']
            } else if failed > 0 {
                count + seq![' ', '·', ' '] + dec(failed) + seq![
                    ' ',
                    'f',
                    'a',
                    'i',
                    'l',
                    'e',
                    'd',
                    ' ',
                    '×',
                ]
            } else {
                count + seq![' ', '✓']
            };
            &&& l.spans.len() == 1
            &&& l.spans[0].content == truncated(
                seq!['t', 'o', 'o', 'l', 's', ' '] + sign + seq![' '] + said,
                width,
                Truncation::Right,
            )
            &&& l.spans[0].style == (Style {
                fg: Some(
                    if running > 0 {
                        RUNNING
                    } else if failed > 0 {
                        ERROR
                    } else {
                        MUTED
                    },
                ),
                ..plain()
            })
        }),
{
    reveal_strlit("tools ");
    reveal_strlit("▾");
    reveal_strlit("▸");
    reveal_strlit(" ");
    reveal_strlit("call");
    reveal_strlit("calls");
    reveal_strlit(" running · ");
    reveal_strlit(" · ");
    reveal_strlit(" failed");
    reveal_strlit("◐");
    reveal_strlit("×");
    reveal_strlit("✓");
    let sign = if expanded {
        "▾"@
    } else {
        "▸"@
    };
    let mine = if expanded {
        seq!['▾']
    } else {
        seq!['▸']
    };
    assert(sign =~= mine);
    let count = dec(calls) + (if calls == 1 {
        seq![' ', 'c', 'a', 'l', 'l']
    } else {
        seq![' ', 'c', 'a', 'l', 'l', 's']
    });
    assert(calls_text(calls) =~= count);
    if running > 0 {
        assert("tools "@ + sign + " "@ + (dec(running) + " running · "@ + calls_text(calls))
            + " "@ + "◐"@ =~= seq!['t', 'o', 'o', 'l', 's', ' '] + mine + seq![' '] + (dec(running)
            + seq![' ', 'r', 'u', 'n', 'n', 'i', 'n', 'g', ' ', '·', ' '] + count + seq![
            ' ',
            '◐',
        ]));
    } else if failed > 0 {
        assert("tools "@ + sign + " "@ + (calls_text(calls) + " · "@ + dec(failed) + " failed"@)
            + " "@ + "×"@ =~= seq!['t', 'o', 'o', 'l', 's', ' '] + mine + seq![' '] + (count
            + seq![' ', '·', ' '] + dec(failed) + seq![
            ' ',
            'f',
            'a',
            'i',
            'l',
            'e',
            'd',
            ' ',
            '×',
        ]));
    } else {
        assert("tools "@ + sign + " "@ + calls_text(calls) + " "@ + "✓"@ =~= seq![
            't',
            'o',
            'o',
            'l',
            's',
            ' ',
        ] + mine + seq![' '] + (count + seq![' ', '✓']));
    }
}

/// A block that is too long ends in the mark of more, which takes the click; what
/// stands above is what the whole block begins with.
pub proof fn law_a_long_block_ends_in_more(
    label: Seq<char>,
    content: Seq<LineView>,
    layout: DetailLayout,
    limit: nat,
    error: bool,
    more: Option<TargetView>,
)
    requires
        0 < limit < content.len() <= usize::MAX,
    ensures
        ({
            let short = block(label, content, layout, limit, false, error, more);
            let whole = block(label, content, layout, usize::MAX as nat, false, error, more);
            let last = short[limit - 1];
            &&& short.len() == limit
            &&& whole.len() == content.len()
            &&& forall|i: int| 0 <= i < limit - 1 ==> #[trigger] short[i] == whole[i]
            &&& last.target == more
            &&& last.line.spans.len() == 3
            &&& last.line.spans[2].content == truncated(
                seq!['…', ' ', 'm', 'o', 'r', 'e'],
                layout.content_width as nat,
                Truncation::Right,
            )
            &&& forall|i: int| 0 <= i < whole.len() ==> (#[trigger] whole[i]).target is None
            &&& forall|i: int|
                0 <= i < whole.len() ==> (#[trigger] whole[i]).line.spans.skip(2)
                    == content[i].spans
        }),
{
    reveal_strlit("… more");
    assert("… more"@ =~= seq!['…', ' ', 'm', 'o', 'r', 'e']);
    let whole = block(label, content, layout, usize::MAX as nat, false, error, more);
    assert(content.take(content.len() as int) =~= content);
    assert forall|i: int| 0 <= i < whole.len() implies (#[trigger] whole[i]).line.spans.skip(2)
        == content[i].spans by {
        assert(whole[i].line.spans.skip(2) =~= content[i].spans);
    }
}

/// The label of a block stands beside its first row alone, in the colour of errors
/// where it is one, and muted otherwise.
pub proof fn law_a_block_is_labelled(
    label: Seq<char>,
    content: Seq<LineView>,
    layout: DetailLayout,
    limit: nat,
    cut: bool,
    error: bool,
    more: Option<TargetView>,
    i: int,
)
    requires
        0 <= i < block(label, content, layout, limit, cut, error, more).len(),
        label.len() <= layout.label_width,
        text_width(label) <= layout.label_width,
    ensures
        ({
            let row = block(label, content, layout, limit, cut, error, more)[i].line;
            let beside = row.spans[1].content;
            &&& row.spans[0].content == rep(' ', layout.indent as nat)
            &&& beside.len() == layout.label_width
            &&& i == 0 ==> beside.take(label.len() as int) == label
            &&& forall|k: int|
                (if i == 0 {
                    label.len() as int
                } else {
                    0
                }) <= k < beside.len() ==> beside[k] == ' '
            &&& row.spans[1].style == (Style {
                fg: Some(
                    if error {
                        ERROR
                    } else {
                        MUTED
                    },
                ),
                ..plain()
            })
        }),
{
    let row = block(label, content, layout, limit, cut, error, more)[i].line;
    if i == 0 {
        assert(row.spans[1].content.take(label.len() as int) =~= label);
    }
}

/// Names of calls in a group are padded to the widest where there is room, so that what
/// follows them stands in one column.
pub proof fn law_names_of_a_group_align(
    call: CallView,
    width: nat,
    elapsed: u64,
    now: u64,
    name_column: nat,
)
    requires
        ({
            let label = kind_label(call.kind, width);
            let icon = state_icon(call.state, elapsed);
            let fixed = fixed_columns(label, disclosure(call.expanded, call.full), icon);
            let progress = progress_text(call.name, call.state, call.progress, now);
            let limit = name_limit(width, fixed, progress_reserve(progress));
            &&& fixed < width
            &&& text_width(shown_name(call.name, call.kind)) <= name_column <= limit
        }),
    ensures
        ({
            let name = shown_name(call.name, call.kind);
            let shown = call_line(call, width, elapsed, now, name_column).spans[2].content;
            shown.len() - name.len() == (if width >= 72 {
                name_column - text_width(name)
            } else {
                0
            })
        }),
{
}

/// The column that the names of a group are padded to is that of the widest of them.
pub proof fn law_the_widest_name_sets_the_column(calls: Seq<ItemView>, t: ToolView)
    ensures
        widest_name(Seq::empty()) == 0,
        ({
            let before = widest_name(calls);
            let after = widest_name(calls.push(ItemView::Tool(t)));
            let here = text_width(shown_name(t.name, t.kind));
            after >= before && after >= here && (after == before || after == here)
        }),
{
    assert(calls.push(ItemView::Tool(t)).drop_last() =~= calls);
}

/// The last entry of a timeline hangs on a corner and the others on a fork; the rows
/// below the first go on with the line where more follows.
pub proof fn law_a_branch_shows_whether_more_follows(i: int)
    ensures
        timeline_branch(0, true) == seq!['└', '─'],
        timeline_branch(0, false) == seq!['├', '─'],
        i > 0 ==> timeline_branch(i, true) == seq![' ', ' '],
        i > 0 ==> timeline_branch(i, false) == seq!['│', ' '],
{
    reveal_strlit("└─");
    reveal_strlit("├─");
    reveal_strlit("  ");
    reveal_strlit("│ ");
    assert("└─"@ =~= seq!['└', '─']);
    assert("├─"@ =~= seq!['├', '─']);
    assert("  "@ =~= seq![' ', ' ']);
    assert("│ "@ =~= seq!['│', ' ']);
}

/// A row behind a branch is the row it was, with the branch at the end of the indent,
/// and takes the clicks that it took.
pub proof fn law_a_branch_changes_nothing_of_a_row(row: RowView, indent: nat, branch: Seq<char>)
    requires
        branch.len() == 2,
    ensures
        ({
            let moved = indented(row, indent, branch);
            let lead = moved.line.spans[0].content;
            &&& moved.target == row.target
            &&& moved.line.spans.skip(1) == row.line.spans
            &&& lead.len() == indent
            &&& indent >= 2 ==> lead.skip(indent - 2) == branch
            &&& forall|i: int| 0 <= i < indent - 2 ==> lead[i] == ' '
        }),
{
    let moved = indented(row, indent, branch);
    assert(moved.line.spans.skip(1) =~= row.line.spans);
    if indent >= 2 {
        assert(moved.line.spans[0].content.skip(indent - 2) =~= branch);
    }
}

/// What a call printed is shown while it runs, and not once it is settled. What it
/// brought is shown of a tool, and of an agent that failed or has no timeline; of any
/// other agent the timeline speaks.
pub proof fn law_the_tail_is_shown_while_a_call_runs(
    t: ToolView,
    tail: Seq<char>,
    result: Option<Seq<char>>,
    width: nat,
    indent: nat,
)
    requires
        width > 0,
    ensures
        t.state != ToolState::Running ==> unfolded_rows(t, width, indent) == unfolded_rows(
            (ToolView { tail, ..t }),
            width,
            indent,
        ),
        t.state == ToolState::Running && tail.len() > 0 ==> unfolded_rows(
            (ToolView { tail, ..t }),
            width,
            indent,
        ).len() > unfolded_rows((ToolView { tail: Seq::empty(), ..t }), width, indent).len(),
        t.kind is Agent && t.child_lines.len() > 0 && t.state != ToolState::Failed
            ==> unfolded_rows(t, width, indent) == unfolded_rows(
            (ToolView { result, ..t }),
            width,
            indent,
        ),
        t.result is None ==> unfolded_rows(t, width, indent) == unfolded_rows(
            (ToolView {
                result: Some(seq!['p', 'e', 'n', 'd', 'i', 'n', 'g']),
                ..t
            }),
            width,
            indent,
        ),
{
    reveal_strlit("pending");
    assert("pending"@ =~= seq!['p', 'e', 'n', 'd', 'i', 'n', 'g']);
}

/// A tinted row is tinted to the margin: the blanks that it lacks follow it, on the
/// tint. A row without a tint, or one that is full, stays as it is.
pub proof fn law_a_tint_reaches_the_margin(l: LineView, width: nat, color: Color)
    ensures
        with_background(l, width, None) == l,
        line_width(l) >= width ==> with_background(l, width, Some(color)) == l,
        line_width(l) < width ==> {
            let tinted = with_background(l, width, Some(color));
            let n = l.spans.len() as int;
            &&& tinted.spans.len() == n + 1
            &&& tinted.spans.take(n) == l.spans
            &&& tinted.spans[n].content == rep(' ', (width - line_width(l)) as nat)
            &&& tinted.spans[n].style == (Style { bg: Some(color), ..plain() })
        },
{
    let tinted = with_background(l, width, Some(color));
    if line_width(l) < width {
        assert(tinted.spans.take(l.spans.len() as int) =~= l.spans);
    }
}

/// A block whose text was cut before it was laid out ends in the mark of more, however
/// few rows it has.
pub proof fn law_a_cut_block_ends_in_more(
    label: Seq<char>,
    content: Seq<LineView>,
    layout: DetailLayout,
    limit: nat,
    error: bool,
    more: Option<TargetView>,
)
    requires
        0 < content.len() <= limit,
    ensures
        ({
            let rows = block(label, content, layout, limit, true, error, more);
            let last = rows[content.len() - 1];
            &&& rows.len() == content.len()
            &&& last.target == more
            &&& last.line.spans[2].content == truncated(
                seq!['…', ' ', 'm', 'o', 'r', 'e'],
                layout.content_width as nat,
                Truncation::Right,
            )
        }),
{
    reveal_strlit("… more");
    assert("… more"@ =~= seq!['…', ' ', 'm', 'o', 'r', 'e']);
}

/// A code line, which begins with a bar in the colour of code, is cut where a row is
/// full, and keeps every blank. Any other line of a reply is broken at words.
pub proof fn law_code_is_cut_and_text_is_wrapped(l: LineView, width: nat)
    requires
        l.spans.len() > 0,
    ensures
        l.spans[0].content == seq!['│', ' '] && l.spans[0].style.fg == Some(CODE) ==> markdown_rows(
            l,
            width,
        ) == hard_wrapped(l, width),
        l.spans[0].content != seq!['│', ' '] || l.spans[0].style.fg != Some(CODE) ==> markdown_rows(
            l,
            width,
        ) == wrapped(l, width),
{
    reveal_strlit("│ ");
    assert("│ "@ =~= seq!['│', ' ']);
}

/// A settled call shows what it was given behind its sign, on one line with one blank
/// between two words, as far as it fits.
pub proof fn law_a_row_shows_what_its_call_was_given(
    call: CallView,
    a: Seq<char>,
    b: Seq<char>,
    width: nat,
    elapsed: u64,
    now: u64,
    name_column: nat,
)
    requires
        is_word(a),
        is_word(b),
        one_plain_line(a),
        one_plain_line(b),
        call.arguments == a + seq![' ', ' '] + b,
        call.state == ToolState::Succeeded || call.state == ToolState::Failed,
        fixed_columns(
            kind_label(call.kind, width),
            disclosure(call.expanded, call.full),
            state_icon(call.state, elapsed),
        ) < width,
    ensures
        ({
            let spans = call_line(call, width, elapsed, now, name_column).spans;
            let given = a + seq![' '] + b;
            &&& spans.len() == 5 ==> spans[4].style.fg == Some(SECONDARY)
            &&& spans.len() == 5 ==> exists|room: nat| #[trigger]
                truncated(given, room, Truncation::Right) == spans[4].content.skip(1)
                    && spans[4].content[0] == ' '
        }),
{
    let gap = seq![' ', ' '];
    law_white_space_separates_words(a, gap, b);
    assert forall|i: int| 0 <= i < call.arguments.len() implies !control(
        #[trigger] call.arguments[i],
    ) by {
        if i < a.len() {
            assert(call.arguments[i] == a[i]);
        } else if i >= a.len() + 2 {
            assert(call.arguments[i] == b[i - a.len() - 2]);
        }
    }
    law_safe_text_is_kept(call.arguments);
    reveal_strlit(" ");
    reveal_strlit("");
    reveal_strlit("waiting");
    reveal_strlit("queued");
    let parts = seq![a, b];
    assert(parts.drop_last() =~= seq![a]);
    assert(join(seq![a], " "@) == a);
    assert(join(parts, " "@) =~= a + seq![' '] + b);
    assert(progress_text(call.name, call.state, call.progress, now) =~= Seq::empty());
    let spans = call_line(call, width, elapsed, now, name_column).spans;
    if spans.len() == 5 {
        let given = a + seq![' '] + b;
        let name = shown_name(call.name, call.kind);
        let fixed = fixed_columns(
            kind_label(call.kind, width),
            disclosure(call.expanded, call.full),
            state_icon(call.state, elapsed),
        );
        let limit = name_limit(width, fixed, progress_reserve(Seq::empty()));
        let short = truncated(name, limit, Truncation::Right);
        let padding = if width >= 72 {
            less(min(name_column, limit), text_width(short))
        } else {
            0
        };
        let room = less(less(width, sat(sat(fixed + text_width(short)) + padding)), 1);
        assert(spans[4].content.skip(1) =~= truncated(given, room, Truncation::Right));
    }
}

} // verus!
