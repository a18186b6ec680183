//! The stream of a session: what each change is sent as, where the client stands,
//! and what it has seen already.

use vstd::prelude::*;
use crate::chars::{group_views, own, same, views};
use crate::numbers::{number_of, parse_number};
use crate::serve::json::{group_json, no_entries, object, put, Json, JsonView};
use crate::serve::view::{
    delta_json, event_json, live_reset, project_event, project_live_delta, reset_json, LiveDelta,
    Outlook,
};
use crate::serve::watch::{LiveMessage, TailEnd, TailMessage, TailUpdate};
use crate::session::restore::parent_view;
use crate::words::{trim, trimmed};

verus! {

broadcast use {group_views, group_json};

/// A frame of the stream. Only a line of the log has an id.
#[derive(Debug, PartialEq, Eq)]
pub struct SseEvent {
    pub name: String,
    pub data: Json,
    pub id: Option<usize>,
}

#[verifier::ext_equal]
pub struct SseView {
    pub name: Seq<char>,
    pub data: JsonView,
    pub id: Option<usize>,
}

impl View for SseEvent {
    type V = SseView;

    open spec fn view(&self) -> SseView {
        SseView { name: self.name@, data: self.data@, id: self.id }
    }
}

pub open spec fn named(name: Seq<char>, data: JsonView) -> SseView {
    SseView { name, data, id: None }
}

fn name_event(name: &str, data: Json) -> (r: SseEvent)
    ensures
        r@ == named(name@, data@),
{
    SseEvent { name: own(name), data, id: None }
}

/// The line that a message is about, if it is about one.
pub open spec fn line_in(message: TailMessage) -> Option<usize> {
    match message {
        TailMessage::Update(TailUpdate::Appended { line, .. }) => Some(line),
        TailMessage::Update(TailUpdate::Rewound { line, .. }) => Some(line),
        _ => None,
    }
}

pub fn line_of(message: &TailMessage) -> (r: Option<usize>)
    ensures
        r == line_in(*message),
{
    match message {
        TailMessage::Update(TailUpdate::Appended { line, .. }) => Some(*line),
        TailMessage::Update(TailUpdate::Rewound { line, .. }) => Some(*line),
        _ => None,
    }
}

/// A frame, the line that the client has seen with it, and whether it is the last.
#[derive(Debug)]
pub struct Frame {
    pub event: SseEvent,
    pub line: usize,
    pub terminal: bool,
}

#[verifier::ext_equal]
pub struct FrameView {
    pub event: SseView,
    pub line: usize,
    pub terminal: bool,
}

impl View for Frame {
    type V = FrameView;

    open spec fn view(&self) -> FrameView {
        FrameView { event: self.event@, line: self.line, terminal: self.terminal }
    }
}

pub open spec fn message_json(message: Seq<char>) -> JsonView {
    JsonView::Object(Seq::empty().push(("message"@, JsonView::Text(message))))
}

fn message_entry(message: &str) -> (r: Json)
    ensures
        r@ == message_json(message@),
{
    let mut o: Vec<(String, Json)> = no_entries();
    put(&mut o, "message", Json::text(message));
    object(o)
}

pub open spec fn line_json(line: usize) -> JsonView {
    JsonView::Object(Seq::empty().push(("line"@, JsonView::Number(line as u64))))
}

fn line_entry(line: usize) -> (r: Json)
    ensures
        r@ == line_json(line),
{
    let mut o: Vec<(String, Json)> = no_entries();
    put(&mut o, "line", Json::Number(line as u64));
    object(o)
}

/// What a message is sent as. A stale view disarms the filter of lines that were
/// seen, for none of them can be trusted.
pub open spec fn framed(message: TailMessage, last_line: usize) -> FrameView {
    match message {
        TailMessage::Update(TailUpdate::Appended { line, event }) => FrameView {
            event: SseView {
                name: "append"@,
                data: JsonView::Object(
                    Seq::empty()
                        .push(("line"@, JsonView::Number(line as u64)))
                        .push(("event"@, event_json(event, Outlook::Alone))),
                ),
                id: Some(line),
            },
            line,
            terminal: false,
        },
        TailMessage::Update(TailUpdate::Rewound { line, to, event }) => FrameView {
            event: SseView {
                name: "rewind"@,
                data: JsonView::Object(
                    Seq::empty()
                        .push(("line"@, JsonView::Number(line as u64)))
                        .push(("to"@, JsonView::Number(to as u64)))
                        .push(("event"@, event_json(event, Outlook::Alone))),
                ),
                id: Some(line),
            },
            line,
            terminal: false,
        },
        TailMessage::Update(TailUpdate::Resync) => FrameView {
            event: named("resync"@, line_json(last_line)),
            line: 0,
            terminal: false,
        },
        TailMessage::Update(TailUpdate::Deleted) => FrameView {
            event: named("deleted"@, JsonView::Object(Seq::empty())),
            line: last_line,
            terminal: true,
        },
        TailMessage::Failed(message) => FrameView {
            event: named("error"@, message_json(message@)),
            line: last_line,
            terminal: true,
        },
        TailMessage::Live(LiveMessage::Reset) => FrameView {
            event: named("delta"@, reset_json()),
            line: last_line,
            terminal: false,
        },
        TailMessage::Live(LiveMessage::Delta(delta)) => FrameView {
            event: named("delta"@, delta_json(delta)),
            line: last_line,
            terminal: false,
        },
    }
}

pub fn frame(message: &TailMessage, last_line: usize) -> (r: Frame)
    ensures
        r@ == framed(*message, last_line),
{
    match message {
        TailMessage::Update(TailUpdate::Appended { line, event }) => {
            let mut o: Vec<(String, Json)> = no_entries();
            put(&mut o, "line", Json::Number(*line as u64));
            put(&mut o, "event", project_event(event));
            let event: SseEvent = SseEvent {
                name: own("append"),
                data: object(o),
                id: Some(*line),
            };
            Frame { event, line: *line, terminal: false }
        },
        TailMessage::Update(TailUpdate::Rewound { line, to, event }) => {
            let mut o: Vec<(String, Json)> = no_entries();
            put(&mut o, "line", Json::Number(*line as u64));
            put(&mut o, "to", Json::Number(*to as u64));
            put(&mut o, "event", project_event(event));
            let event: SseEvent = SseEvent {
                name: own("rewind"),
                data: object(o),
                id: Some(*line),
            };
            Frame { event, line: *line, terminal: false }
        },
        TailMessage::Update(TailUpdate::Resync) => Frame {
            event: name_event("resync", line_entry(last_line)),
            line: 0,
            terminal: false,
        },
        TailMessage::Update(TailUpdate::Deleted) => Frame {
            event: deleted_event(),
            line: last_line,
            terminal: true,
        },
        TailMessage::Failed(message) => Frame {
            event: name_event("error", message_entry(message.as_str())),
            line: last_line,
            terminal: true,
        },
        TailMessage::Live(LiveMessage::Reset) => Frame {
            event: name_event("delta", live_reset()),
            line: last_line,
            terminal: false,
        },
        TailMessage::Live(LiveMessage::Delta(delta)) => Frame {
            event: name_event("delta", project_live_delta(delta)),
            line: last_line,
            terminal: false,
        },
    }
}

fn deleted_event() -> (r: SseEvent)
    ensures
        r@ == named("deleted"@, JsonView::Object(Seq::empty())),
{
    name_event("deleted", object(no_entries()))
}

/// Only a line of the log has an id, and it is the line. Only the two changes of
/// a line move the client; the end of a log and its failure are the last frames.
pub proof fn law_only_lines_have_ids(message: TailMessage, last_line: usize)
    ensures
        ({
            let f = framed(message, last_line);
            &&& f.event.id == line_in(message)
            &&& line_in(message) is Some ==> f.line == line_in(message)->0 && !f.terminal
            &&& line_in(message) is None && message
                != TailMessage::Update(TailUpdate::Resync) ==> f.line == last_line
            &&& f.terminal <==> (message == TailMessage::Update(TailUpdate::Deleted)
                || message is Failed)
        }),
{
}

// ---- Where a stream begins ----

/// The line that a reconnecting client saw last.
pub open spec fn resume_line(header: Option<Seq<char>>) -> Option<usize> {
    match header {
        Some(value) => match number_of(trimmed(value), usize::MAX as nat) {
            Some(n) => Some(n as usize),
            None => None,
        },
        None => None,
    }
}

pub fn last_event_id(header: Option<&str>) -> (r: Option<usize>)
    ensures
        r == resume_line(parent_view(header)),
{
    match header {
        Some(value) => match parse_number(trim(value).as_str(), usize::MAX as u64) {
            Some(n) => Some(n as usize),
            None => None,
        },
        None => None,
    }
}

/// How a stream begins: with the end that the tail has already had, by reading
/// the lines that the client missed, or at a line.
#[derive(Debug)]
pub enum Beginning {
    Ended(SseEvent),
    CatchUp(usize),
    At(usize),
}

/// Whether this is how a stream begins. What the header says goes before the
/// query, which is as old as the page.
pub open spec fn begins(
    beginning: Beginning,
    line: usize,
    ended: Option<TailEnd>,
    header: Option<usize>,
    query: Option<usize>,
) -> bool {
    let resume = match header {
        Some(n) => Some(n),
        None => query,
    };
    match ended {
        Some(TailEnd::Deleted) => beginning matches Beginning::Ended(event) && event@ == named(
            "deleted"@,
            JsonView::Object(Seq::empty()),
        ),
        Some(TailEnd::Failed(why)) => beginning matches Beginning::Ended(event) && event@
            == named("error"@, message_json(why@)),
        None => match resume {
            Some(from) => if from < line {
                beginning == Beginning::CatchUp(from)
            } else {
                beginning == Beginning::At(from)
            },
            None => beginning == Beginning::At(line),
        },
    }
}

pub fn beginning(
    line: usize,
    ended: &Option<TailEnd>,
    header: Option<usize>,
    query: Option<usize>,
) -> (r: Beginning)
    ensures
        begins(r, line, *ended, header, query),
{
    let resume: Option<usize> = match header {
        Some(n) => Some(n),
        None => query,
    };
    match ended {
        Some(TailEnd::Deleted) => Beginning::Ended(deleted_event()),
        Some(TailEnd::Failed(why)) => Beginning::Ended(
            name_event("error", message_entry(why.as_str())),
        ),
        None => match resume {
            Some(from) => if from < line {
                Beginning::CatchUp(from)
            } else {
                Beginning::At(from)
            },
            None => Beginning::At(line),
        },
    }
}

/// The frames of the first `n` updates after a line, and the line they end at.
pub open spec fn caught_up(updates: Seq<TailUpdate>, n: int, from: usize) -> (Seq<SseView>, usize)
    decreases n,
{
    if n <= 0 || n > updates.len() {
        (Seq::empty(), from)
    } else {
        let (frames, last) = caught_up(updates, n - 1, from);
        let next = framed(TailMessage::Update(updates[n - 1]), last);
        (frames.push(next.event), next.line)
    }
}

pub open spec fn larger(a: usize, b: usize) -> usize {
    if a >= b {
        a
    } else {
        b
    }
}

/// What a client missed, and where it then stands. Where the lines cannot be
/// read, it is told that its view is stale.
pub open spec fn missed(
    replay: Option<(Vec<TailUpdate>, usize)>,
    from: usize,
    snapshot_line: usize,
) -> (Seq<SseView>, usize) {
    match replay {
        Some((updates, line)) => {
            let (frames, last) = caught_up(updates@, updates@.len() as int, from);
            (frames, larger(line, last))
        },
        None => (
            Seq::empty().push(named("resync"@, line_json(from))),
            snapshot_line,
        ),
    }
}

/// What a client missed: `replay` holds the updates after `from` and the line that
/// the log stands at, unless they cannot be read.
pub fn catch_up(
    replay: Option<(Vec<TailUpdate>, usize)>,
    from: usize,
    snapshot_line: usize,
) -> (r: (Vec<SseEvent>, usize))
    ensures
        (views(r.0@), r.1) == missed(replay, from, snapshot_line),
{
    let mut frames: Vec<SseEvent> = Vec::new();
    match replay {
        Some((updates, line)) => {
            let ghost all = updates@;
            let n: usize = updates.len();
            let mut rest: Vec<TailUpdate> = updates;
            let mut last: usize = from;
            let mut i: usize = 0;
            assert(all.skip(0) =~= all);
            while rest.len() > 0
                invariant
                    i <= n,
                    n == all.len(),
                    rest@ == all.skip(i as int),
                    (views(frames@), last) == caught_up(all, i as int, from),
                decreases n - i,
            {
                let update: TailUpdate = rest.remove(0);
                assert(update == all[i as int]);
                assert(all.skip(i as int).remove(0) =~= all.skip(i + 1));
                let message: TailMessage = TailMessage::Update(update);
                let next: Frame = frame(&message, last);
                last = next.line;
                frames.push(next.event);
                i += 1;
            }
            let at: usize = if line >= last {
                line
            } else {
                last
            };
            (frames, at)
        },
        None => {
            frames.push(name_event("resync", line_entry(from)));
            (frames, snapshot_line)
        },
    }
}

/// The frames of a turn that is running, as far as it got.
pub open spec fn live_frames(live: Seq<LiveDelta>) -> Seq<SseView> {
    live.map_values(|delta: LiveDelta| named("delta"@, delta_json(delta)))
}

pub fn frames_of_live(live: &Vec<LiveDelta>) -> (r: Vec<SseEvent>)
    ensures
        views(r@) == live_frames(live@),
{
    let ghost want = live_frames(live@);
    let mut r: Vec<SseEvent> = Vec::new();
    let mut i: usize = 0;
    while i < live.len()
        invariant
            i <= live@.len(),
            want == live_frames(live@),
            views(r@) == want.take(i as int),
        decreases live@.len() - i,
    {
        r.push(name_event("delta", project_live_delta(&live[i])));
        i += 1;
        assert(views(r@) =~= want.take(i as int));
    }
    assert(want.take(i as int) =~= want);
    r
}

// ---- A stream that is open ----

/// Where a client stands, whether the stream is over, and whether failures of
/// turns are still listened to.
#[derive(Debug)]
pub struct Feed {
    pub id: String,
    pub last_line: usize,
    pub done: bool,
    pub failures: bool,
}

#[verifier::ext_equal]
pub struct FeedView {
    pub id: Seq<char>,
    pub last_line: usize,
    pub done: bool,
    pub failures: bool,
}

impl View for Feed {
    type V = FeedView;

    open spec fn view(&self) -> FeedView {
        FeedView {
            id: self.id@,
            last_line: self.last_line,
            done: self.done,
            failures: self.failures,
        }
    }
}

/// What came from the tail or from the turns of this process.
#[derive(Debug)]
pub enum Source {
    Tail(TailMessage),
    /// A turn failed on a session.
    Failure { session_id: String, message: String },
    /// Failures were missed.
    MissedFailures,
    NoMoreFailures,
}

/// What follows from it. A line that the client has seen is not sent again. A
/// turn that failed here is told, and the stream goes on; one that failed
/// elsewhere is no concern of this stream.
pub open spec fn fed(feed: FeedView, source: Source) -> (FeedView, Option<SseView>) {
    match source {
        Source::Tail(message) => {
            let line = line_in(message);
            if line is Some && line->0 <= feed.last_line {
                (feed, None)
            } else {
                let f = framed(message, feed.last_line);
                (FeedView { last_line: f.line, done: f.terminal, ..feed }, Some(f.event))
            }
        },
        Source::Failure { session_id, message } => if session_id@ == feed.id {
            (
                feed,
                Some(
                    named(
                        "error"@,
                        JsonView::Object(
                            Seq::empty()
                                .push(("message"@, JsonView::Text(message@)))
                                .push(("scope"@, JsonView::Text("turn"@))),
                        ),
                    ),
                ),
            )
        } else {
            (feed, None)
        },
        Source::MissedFailures => (feed, None),
        Source::NoMoreFailures => (FeedView { failures: false, ..feed }, None),
    }
}

impl Feed {
    pub fn open(id: &str, last_line: usize, done: bool) -> (r: Feed)
        ensures
            r@ == (FeedView { id: id@, last_line, done, failures: true }),
    {
        Feed { id: own(id), last_line, done, failures: true }
    }

    /// What to send, if anything.
    pub fn next(&mut self, source: Source) -> (r: Option<SseEvent>)
        ensures
            final(self)@ == fed(old(self)@, source).0,
            match r {
                Some(event) => fed(old(self)@, source).1 == Some(event@),
                None => fed(old(self)@, source).1 is None,
            },
    {
        match source {
            Source::Tail(message) => {
                if let Some(line) = line_of(&message) {
                    if line <= self.last_line {
                        return None;
                    }
                }
                let f: Frame = frame(&message, self.last_line);
                self.last_line = f.line;
                self.done = f.terminal;
                Some(f.event)
            },
            Source::Failure { session_id, message } => if same(
                session_id.as_str(),
                self.id.as_str(),
            ) {
                let mut o: Vec<(String, Json)> = no_entries();
                put(&mut o, "message", Json::text(message.as_str()));
                put(&mut o, "scope", Json::text("turn"));
                Some(name_event("error", object(o)))
            } else {
                None
            },
            Source::MissedFailures => None,
            Source::NoMoreFailures => {
                self.failures = false;
                None
            },
        }
    }
}

/// No line is sent twice, and lines are sent in order: what is sent lies behind
/// what was seen, and is what the client has seen then. Sending it again sends
/// nothing.
pub proof fn law_no_line_is_sent_twice(feed: FeedView, message: TailMessage)
    requires
        line_in(message) is Some,
    ensures
        ({
            let (next, sent) = fed(feed, Source::Tail(message));
            &&& sent is Some <==> line_in(message)->0 > feed.last_line
            &&& sent is Some ==> next.last_line == line_in(message)->0 && sent->0.id == line_in(
                message,
            )
            &&& next.last_line >= feed.last_line
            &&& fed(next, Source::Tail(message)) == (next, None::<SseView>)
        }),
{
}

/// A turn that fails does not end the stream, and only the log's end or failure
/// does.
pub proof fn law_a_failed_turn_keeps_the_stream_open(feed: FeedView, source: Source)
    requires
        !feed.done,
    ensures
        fed(feed, source).0.done ==> source is Tail && framed(source->Tail_0, feed.last_line).terminal,
        source is Failure ==> fed(feed, source).0 == feed,
{
}

/// Sends every message of the tail in turn, from the first on.
pub open spec fn fed_all(feed: FeedView, messages: Seq<TailMessage>) -> (FeedView, Seq<SseView>)
    decreases messages.len(),
{
    if messages.len() == 0 {
        (feed, Seq::empty())
    } else {
        let (before, sent) = fed_all(feed, messages.drop_last());
        let (next, one) = fed(before, Source::Tail(messages.last()));
        (
            next,
            match one {
                Some(event) => sent.push(event),
                None => sent,
            },
        )
    }
}

/// Over any run of lines, whatever overlap it has with what was caught up, the ids
/// that are sent grow, and none is one that the client had seen.
pub proof fn law_a_resumed_stream_never_repeats(feed: FeedView, messages: Seq<TailMessage>)
    requires
        forall|i: int| 0 <= i < messages.len() ==> line_in(#[trigger] messages[i]) is Some,
    ensures
        ({
            let (after, sent) = fed_all(feed, messages);
            &&& after.last_line >= feed.last_line
            &&& forall|i: int|
                0 <= i < sent.len() ==> (#[trigger] sent[i]).id is Some && feed.last_line
                    < sent[i].id->0 <= after.last_line
            &&& forall|i: int, j: int|
                0 <= i < j < sent.len() ==> (#[trigger] sent[i]).id->0 < (#[trigger] sent[j]).id->0
        }),
    decreases messages.len(),
{
    if messages.len() > 0 {
        law_a_resumed_stream_never_repeats(feed, messages.drop_last());
        law_no_line_is_sent_twice(fed_all(feed, messages.drop_last()).0, messages.last());
    }
}

/// No line is lost: of a run of lines in their order, each that the client has not
/// seen is sent.
pub proof fn law_no_line_is_lost(feed: FeedView, messages: Seq<TailMessage>, k: int)
    requires
        forall|i: int| 0 <= i < messages.len() ==> line_in(#[trigger] messages[i]) is Some,
        forall|i: int, j: int|
            0 <= i < j < messages.len() ==> line_in(#[trigger] messages[i])->0 < line_in(
                #[trigger] messages[j],
            )->0,
        0 <= k < messages.len(),
        line_in(messages[k])->0 > feed.last_line,
    ensures
        exists|i: int|
            0 <= i < fed_all(feed, messages).1.len() && (#[trigger] fed_all(
                feed,
                messages,
            ).1[i]).id == line_in(messages[k]),
    decreases messages.len(),
{
    let front = messages.drop_last();
    let (before, sent) = fed_all(feed, front);
    let after = fed_all(feed, messages).1;
    if k < front.len() {
        assert(front[k] == messages[k]);
        law_no_line_is_lost(feed, front, k);
        let i = choose|i: int|
            0 <= i < sent.len() && (#[trigger] sent[i]).id == line_in(messages[k]);
        assert(after[i] == sent[i]);
    } else {
        lemma_fed_stands(feed, front);
        assert(before.last_line < line_in(messages.last())->0);
        law_no_line_is_sent_twice(before, messages.last());
        assert(after[sent.len() as int].id == line_in(messages[k]));
    }
}

/// After a run of lines the client stands where it stood, or at one of them.
proof fn lemma_fed_stands(feed: FeedView, messages: Seq<TailMessage>)
    requires
        forall|i: int| 0 <= i < messages.len() ==> line_in(#[trigger] messages[i]) is Some,
    ensures
        ({
            let at = fed_all(feed, messages).0.last_line;
            at == feed.last_line || exists|i: int|
                0 <= i < messages.len() && line_in(#[trigger] messages[i]) == Some(at)
        }),
    decreases messages.len(),
{
    if messages.len() > 0 {
        let front = messages.drop_last();
        lemma_fed_stands(feed, front);
        assert(messages[messages.len() - 1] == messages.last());
        assert(forall|i: int| 0 <= i < front.len() ==> front[i] == #[trigger] messages[i]);
    }
}

/// Catching up sends every line that was missed, each once and in order, and leaves
/// the client behind the last of them: a stream that goes on from there repeats
/// none of them.
pub proof fn law_catching_up_meets_the_stream(
    updates: Vec<TailUpdate>,
    line: usize,
    from: usize,
    snapshot_line: usize,
)
    requires
        forall|i: int|
            0 <= i < updates@.len() ==> line_in(
                TailMessage::Update(#[trigger] updates@[i]),
            ) is Some,
    ensures
        ({
            let (frames, at) = missed(Some((updates, line)), from, snapshot_line);
            &&& frames.len() == updates@.len()
            &&& forall|i: int|
                0 <= i < frames.len() ==> (#[trigger] frames[i]).id == line_in(
                    TailMessage::Update(updates@[i]),
                )
            &&& updates@.len() > 0 ==> frames.last().id->0 <= at
            &&& at >= line
        }),
{
    lemma_caught_up(updates@, updates@.len() as int, from);
}

proof fn lemma_caught_up(updates: Seq<TailUpdate>, n: int, from: usize)
    requires
        0 <= n <= updates.len(),
        forall|i: int|
            0 <= i < updates.len() ==> line_in(TailMessage::Update(#[trigger] updates[i])) is Some,
    ensures
        ({
            let (frames, last) = caught_up(updates, n, from);
            &&& frames.len() == n
            &&& forall|i: int|
                0 <= i < n ==> (#[trigger] frames[i]).id == line_in(
                    TailMessage::Update(updates[i]),
                )
            &&& n > 0 ==> last == frames.last().id->0
        }),
    decreases n,
{
    if n > 0 {
        lemma_caught_up(updates, n - 1, from);
        law_only_lines_have_ids(
            TailMessage::Update(updates[n - 1]),
            caught_up(updates, n - 1, from).1,
        );
    }
}

} // verus!
