//! The transcript as text: a summary of what waits to be sent, and the whole as
//! Markdown.

use vstd::prelude::*;
use crate::chars::{cat2, cat3, dec, decimal, group_views, lines, split_lines, to_chars, views};
use crate::transcript::lines::{first_line, first_line_of};
use crate::transcript::model::{lemma_tool_view, ItemView, Line_, ToolRow, ToolState, ToolView};

verus! {

broadcast use {group_views, lemma_tool_view};

/// The text with its line feeds turned into spaces.
pub open spec fn on_one_line(s: Seq<char>) -> Seq<char> {
    s.map_values(
        |c: char|
            if c == '\n' {
                ' '
            } else {
                c
            },
    )
}

/// A message that has not been sent yet, on one line, with the number of its
/// images.
pub open spec fn pending_text(text: Seq<char>, images: nat) -> Seq<char> {
    if images == 0 {
        on_one_line(text)
    } else if images == 1 {
        on_one_line(text) + " · 1 image"@
    } else {
        on_one_line(text) + " · "@ + dec(images) + " images"@
    }
}

pub fn pending_summary(text: &str, images: usize) -> (r: String)
    ensures
        r@ == pending_text(text@, images as nat),
{
    let v: Vec<char> = to_chars(text);
    let mut flat: String = String::new();
    let mut i: usize = 0;
    while i < v.len()
        invariant
            i <= v@.len(),
            flat@ == on_one_line(v@).take(i as int),
        decreases v@.len() - i,
    {
        flat.push(
            if v[i] == '\n' {
                ' '
            } else {
                v[i]
            },
        );
        i += 1;
        assert(flat@ =~= on_one_line(v@).take(i as int));
    }
    assert(flat@ =~= on_one_line(v@));
    if images == 0 {
        flat
    } else if images == 1 {
        cat2(flat.as_str(), " · 1 image")
    } else {
        let mut r: String = cat3(flat.as_str(), " · ", decimal(images as u64).as_str());
        r.push_str(" images");
        r
    }
}

/// The first `n` lines, each behind `mark` and with its line feed.
pub open spec fn quoted(parts: Seq<Seq<char>>, n: int, mark: Seq<char>) -> Seq<char>
    decreases n,
{
    if n <= 0 || n > parts.len() {
        Seq::empty()
    } else {
        quoted(parts, n - 1, mark) + mark + parts[n - 1] + "\n"@
    }
}

/// The lines of a result that an export shows.
pub const EXPORTED_RESULT_LINES: usize = 40;

/// The result of a call in a fence.
pub open spec fn fenced(result: Seq<char>) -> Seq<char> {
    let all = lines(result);
    let n = if all.len() <= EXPORTED_RESULT_LINES {
        all.len() as int
    } else {
        EXPORTED_RESULT_LINES as int
    };
    "\n```\n"@ + quoted(all, n, ""@) + (if all.len() > EXPORTED_RESULT_LINES {
        "… (truncated)\n"@
    } else {
        ""@
    }) + "```\n"@
}

/// A call as Markdown.
pub open spec fn call_markdown(t: ToolView) -> Seq<char> {
    "\n- `"@ + t.name + "` "@ + t.arguments + (if t.state == ToolState::Failed {
        " (failed)"@
    } else {
        ""@
    }) + "\n"@ + (match t.result {
        Some(result) => fenced(result),
        None => ""@,
    })
}

/// A line of the transcript as Markdown.
pub open spec fn line_markdown(l: ItemView) -> Seq<char> {
    match l {
        ItemView::User(text) => "\n## You\n\n"@ + text + "\n"@,
        ItemView::Incoming(text) => "\n## Parent\n\n"@ + text + "\n"@,
        ItemView::Assistant(text) => "\n## ilar\n\n"@ + text + "\n"@,
        ItemView::Thought { text, .. } => "\n**Thought:**\n\n"@ + quoted(
            lines(text),
            lines(text).len() as int,
            "> "@,
        ),
        ItemView::Tool(t) => call_markdown(t),
        ItemView::Task { text, .. } => "\n*"@ + first_line(text) + "*\n"@,
        ItemView::Job { text, .. } => "\n*"@ + first_line(text) + "*\n"@,
        ItemView::Note { text, .. } => "\n*"@ + first_line(text) + "*\n"@,
        ItemView::System(text) => "\n*"@ + first_line(text) + "*\n"@,
    }
}

/// The first `n` lines of the transcript as Markdown.
pub open spec fn markdown_upto(session: Seq<char>, items: Seq<ItemView>, n: int) -> Seq<char>
    decreases n,
{
    if n <= 0 || n > items.len() {
        "# ilar session "@ + session + "\n"@
    } else {
        markdown_upto(session, items, n - 1) + line_markdown(items[n - 1])
    }
}

/// The first `n` of the parts, quoted.
fn quote(parts: &Vec<String>, n: usize, mark: &str) -> (r: String)
    requires
        n <= parts@.len(),
    ensures
        r@ == quoted(views(parts@), n as int, mark@),
{
    let ghost all = views(parts@);
    let mut r: String = String::new();
    let mut i: usize = 0;
    while i < n
        invariant
            i <= n <= parts@.len(),
            all == views(parts@),
            r@ == quoted(all, i as int, mark@),
        decreases n - i,
    {
        assert(all[i as int] == parts@[i as int]@);
        r.push_str(mark);
        r.push_str(parts[i].as_str());
        r.push_str("\n");
        i += 1;
    }
    r
}

fn fence(result: &str) -> (r: String)
    ensures
        r@ == fenced(result@),
{
    let parts: Vec<String> = split_lines(result);
    assert(views(parts@).len() == parts@.len());
    let n: usize = if parts.len() <= EXPORTED_RESULT_LINES {
        parts.len()
    } else {
        EXPORTED_RESULT_LINES
    };
    let mut r: String = cat2("\n```\n", quote(&parts, n, "").as_str());
    r.push_str(
        if parts.len() > EXPORTED_RESULT_LINES {
            "… (truncated)\n"
        } else {
            ""
        },
    );
    r.push_str("```\n");
    r
}

fn markdown_of_call(row: &ToolRow) -> (r: String)
    ensures
        r@ == call_markdown(row@),
{
    let mut r: String = cat3("\n- `", row.name.as_str(), "` ");
    r.push_str(row.arguments.as_str());
    r.push_str(
        if row.state == ToolState::Failed {
            " (failed)"
        } else {
            ""
        },
    );
    r.push_str("\n");
    match &row.result {
        Some(result) => {
            r.push_str(fence(result.as_str()).as_str());
        },
        None => {
            r.push_str("");
        },
    }
    r
}

fn markdown_of_line(l: &Line_) -> (r: String)
    ensures
        r@ == line_markdown(l@),
{
    match l {
        Line_::User(text) => cat3("\n## You\n\n", text.as_str(), "\n"),
        Line_::Incoming(text) => cat3("\n## Parent\n\n", text.as_str(), "\n"),
        Line_::Assistant(text) => cat3("\n## ilar\n\n", text.as_str(), "\n"),
        Line_::Thought { text, .. } => {
            let parts: Vec<String> = split_lines(text.as_str());
            assert(views(parts@).len() == parts@.len());
            cat2("\n**Thought:**\n\n", quote(&parts, parts.len(), "> ").as_str())
        },
        Line_::Tool(row) => markdown_of_call(row),
        Line_::Task { text, .. } => cat3("\n*", first_line_of(text.as_str()).as_str(), "*\n"),
        Line_::Job { text, .. } => cat3("\n*", first_line_of(text.as_str()).as_str(), "*\n"),
        Line_::Note { text, .. } => cat3("\n*", first_line_of(text.as_str()).as_str(), "*\n"),
        Line_::System(text) => cat3("\n*", first_line_of(text.as_str()).as_str(), "*\n"),
    }
}

/// The transcript as Markdown that can be shared.
pub fn transcript_markdown(session_id: &str, items: &Vec<Line_>) -> (r: String)
    ensures
        r@ == markdown_upto(session_id@, views(items@), items@.len() as int),
{
    let ghost all = views(items@);
    let mut r: String = cat3("# ilar session ", session_id, "\n");
    let mut i: usize = 0;
    while i < items.len()
        invariant
            i <= items@.len(),
            all == views(items@),
            r@ == markdown_upto(session_id@, all, i as int),
        decreases items@.len() - i,
    {
        assert(all[i as int] == items@[i as int]@);
        r.push_str(markdown_of_line(&items[i]).as_str());
        i += 1;
    }
    r
}

} // verus!
