//! What a watcher is told, and what a request that fails is answered.

use vstd::prelude::*;
use crate::serve::drive::{drive_error, refused, DriveErrorView, LeaseFailure};
use crate::serve::feed::framed;
use crate::serve::json::{lemma_entry, value_at, JsonView};
use crate::serve::page::{failure_status, StoreFailure};
use crate::serve::view::{delta_json, event_json, LiveDelta, Outlook};
use crate::serve::watch::{
    finishes, has_finished, running_before, LiveMessage, TailMessage, TailUpdate, ACTIVITY_CHARS,
};

verus! {

/// A watcher is told what happened to the log and where: a line that was added, with
/// what it says; a log that was cut back, with how far; that the log is to be read
/// again, is gone, or cannot be read; and what is being written.
pub proof fn law_a_watcher_is_told_what_happened(message: TailMessage, last_line: usize)
    ensures
        ({
            let frame = framed(message, last_line);
            let said = frame.event;
            match message {
                TailMessage::Update(TailUpdate::Appended { line, event }) => {
                    &&& said.name == "append"@
                    &&& said.id == Some(line)
                    &&& frame.line == line
                    &&& value_at(said.data, "line"@) == Some(JsonView::Number(line as u64))
                    &&& value_at(said.data, "event"@) == Some(event_json(event, Outlook::Alone))
                },
                TailMessage::Update(TailUpdate::Rewound { line, to, event }) => {
                    &&& said.name == "rewind"@
                    &&& said.id == Some(line)
                    &&& frame.line == line
                    &&& value_at(said.data, "line"@) == Some(JsonView::Number(line as u64))
                    &&& value_at(said.data, "to"@) == Some(JsonView::Number(to as u64))
                    &&& value_at(said.data, "event"@) == Some(event_json(event, Outlook::Alone))
                },
                TailMessage::Update(TailUpdate::Resync) => said.name == "resync"@ && frame.line
                    == 0 && value_at(said.data, "line"@) == Some(
                    JsonView::Number(last_line as u64),
                ),
                TailMessage::Update(TailUpdate::Deleted) => said.name == "deleted"@,
                TailMessage::Failed(why) => said.name == "error"@ && value_at(
                    said.data,
                    "message"@,
                ) == Some(JsonView::Text(why@)),
                TailMessage::Live(LiveMessage::Reset) => said.name == "delta"@,
                TailMessage::Live(LiveMessage::Delta(delta)) => said.name == "delta"@ && said.data
                    == delta_json(delta),
            }
        }),
        framed(message, last_line).terminal == (message is Failed || message == (
        TailMessage::Update(TailUpdate::Deleted))),
{
    let o = framed(message, last_line).event.data->Object_0;
    reveal_strlit("line");
    reveal_strlit("to");
    reveal_strlit("event");
    reveal_strlit("message");
    match message {
        TailMessage::Update(TailUpdate::Appended { .. }) => {
            assert(o[0].0 == "line"@);
            assert(o[1].0 == "event"@);
            lemma_entry(o, 0, 0, "line"@);
            lemma_entry(o, 0, 1, "event"@);
        },
        TailMessage::Update(TailUpdate::Rewound { .. }) => {
            assert(o[0].0 == "line"@);
            assert(o[1].0 == "to"@);
            assert(o[2].0 == "event"@);
            lemma_entry(o, 0, 0, "line"@);
            lemma_entry(o, 0, 1, "to"@);
            lemma_entry(o, 0, 2, "event"@);
        },
        TailMessage::Update(TailUpdate::Resync) => {
            assert(o[0].0 == "line"@);
            lemma_entry(o, 0, 0, "line"@);
        },
        TailMessage::Failed(_) => {
            assert(o[0].0 == "message"@);
            lemma_entry(o, 0, 0, "message"@);
        },
        _ => {},
    }
}

/// A failure is answered with the status of its kind and in its own words: a session
/// that is not there, one that another process writes, a request that makes no sense.
pub proof fn law_a_failure_has_the_status_of_its_kind(id: Seq<char>, why: Seq<char>)
    ensures
        failure_status(StoreFailure::NotFound) == 404,
        failure_status(StoreFailure::InvalidInput) == 400,
        failure_status(StoreFailure::Other) == 500,
        drive_error(refused(LeaseFailure::WouldBlock, true, id, why)).status == 409,
        drive_error(refused(LeaseFailure::WouldBlock, false, id, why)).status == 500,
        drive_error(refused(LeaseFailure::NotFound, true, id, why)).status == 404,
        drive_error(refused(LeaseFailure::NotFound, false, id, why)).message
            == "session not found: "@ + id,
        drive_error(refused(LeaseFailure::InvalidInput, true, id, why)).status == 400,
        drive_error(refused(LeaseFailure::InvalidInput, true, id, why)).message == why,
        drive_error(refused(LeaseFailure::Other, true, id, why)).status == 500,
        drive_error(refused(LeaseFailure::Other, true, id, why)).message == why,
        drive_error(DriveErrorView::Busy(why)).status == 503,
        drive_error(DriveErrorView::NotDriving).status == 404,
{
}

/// What a session is doing is the last tool that was started and has not finished, by
/// its name and what it does.
pub proof fn law_the_last_open_tool_is_what_runs(deltas: Seq<LiveDelta>, i: int, n: int)
    requires
        0 <= i < n <= deltas.len(),
        deltas[i] is ToolStarted,
        forall|k: int|
            0 <= k < deltas.len() ==> !((#[trigger] deltas[k]) is ToolFinished
                && deltas[k]->ToolFinished_id@ == deltas[i]->ToolStarted_id@),
        forall|a: int|
            i < a < n && (#[trigger] deltas[a]) is ToolStarted ==> exists|k: int|
                0 <= k < deltas.len() && #[trigger] finishes(
                    deltas[k],
                    deltas[a]->ToolStarted_id@,
                ),
        deltas[i]->ToolStarted_name@.len() + 2 + deltas[i]->ToolStarted_summary@.len()
            <= ACTIVITY_CHARS,
    ensures
        running_before(deltas, n) == Some(
            if deltas[i]->ToolStarted_summary@.len() == 0 {
                deltas[i]->ToolStarted_name@
            } else {
                deltas[i]->ToolStarted_name@ + seq![':', ' '] + deltas[i]->ToolStarted_summary@
            },
        ),
    decreases n,
{
    reveal_strlit(": ");
    assert(": "@ =~= seq![':', ' ']);
    if n - 1 > i {
        law_the_last_open_tool_is_what_runs(deltas, i, n - 1);
        if deltas[n - 1] is ToolStarted {
            assert(has_finished(deltas, deltas[n - 1]->ToolStarted_id@));
        }
    } else {
        let id = deltas[i]->ToolStarted_id@;
        if has_finished(deltas, id) {
            let k = choose|k: int| 0 <= k < deltas.len() && #[trigger] finishes(deltas[k], id);
            assert(deltas[k] is ToolFinished);
        }
    }
}

} // verus!
