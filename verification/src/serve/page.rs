//! What the read routes answer: pages of a transcript, whole results, images, and
//! errors.

use base64::Engine;
use vstd::prelude::*;
use crate::chars::{cat2, cat4, dec, decimal, group_views, own, same, views};
use crate::serve::json::{
    group_json, lemma_entry, no_entries, object, put, value_at, Json, JsonView,
};
use crate::serve::listing::{summary, summary_json, EntryView, SessionEntry};
use crate::serve::view::{
    event_json, project_page, totals_json, usage_totals, Outlook,
};
use crate::session::event::{ImageContent, SessionEvent};

verus! {

broadcast use {group_views, group_json};

/// Events on a page.
pub const PAGE_EVENTS: usize = 200;

/// The most events that may be asked for at once.
pub const MAX_PAGE_EVENTS: usize = 1000;

// ---- Errors ----

/// A request that failed: the status, and why.
#[derive(Debug, PartialEq, Eq)]
pub struct ApiError {
    pub status: u16,
    pub message: String,
}

#[verifier::ext_equal]
pub struct ErrorView {
    pub status: u16,
    pub message: Seq<char>,
}

impl View for ApiError {
    type V = ErrorView;

    open spec fn view(&self) -> ErrorView {
        ErrorView { status: self.status, message: self.message@ }
    }
}

/// How a read of the store failed.
#[derive(Clone, Copy, PartialEq, Eq, Structural, Debug)]
pub enum StoreFailure {
    NotFound,
    InvalidInput,
    Other,
}

pub open spec fn failure_status(kind: StoreFailure) -> u16 {
    match kind {
        StoreFailure::NotFound => 404,
        StoreFailure::InvalidInput => 400,
        StoreFailure::Other => 500,
    }
}

impl ApiError {
    pub fn not_found(message: String) -> (r: ApiError)
        ensures
            r@ == (ErrorView { status: 404, message: message@ }),
    {
        ApiError { status: 404, message }
    }

    /// The store's own words, under the status that its failure has.
    pub fn store(kind: StoreFailure, message: String) -> (r: ApiError)
        ensures
            r@ == (ErrorView { status: failure_status(kind), message: message@ }),
    {
        let status: u16 = match kind {
            StoreFailure::NotFound => 404,
            StoreFailure::InvalidInput => 400,
            StoreFailure::Other => 500,
        };
        ApiError { status, message }
    }

    /// The body of the answer.
    pub fn body(&self) -> (r: Json)
        ensures
            r@ == JsonView::Object(Seq::empty().push(("error"@, JsonView::Text(self@.message)))),
    {
        let mut o: Vec<(String, Json)> = no_entries();
        put(&mut o, "error", Json::text(self.message.as_str()));
        object(o)
    }
}

// ---- Pages ----

/// The page before `from`, or the last one. A page has at least one event, as far
/// as there are any, and never more than may be asked for.
pub open spec fn page_of(count: nat, from: Option<usize>, limit: Option<usize>) -> (nat, nat) {
    let asked = match limit {
        Some(n) => n,
        None => PAGE_EVENTS,
    };
    let size: nat = if asked < 1 {
        1
    } else if asked > MAX_PAGE_EVENTS {
        MAX_PAGE_EVENTS as nat
    } else {
        asked as nat
    };
    let end: nat = match from {
        Some(n) => if n < count {
            n as nat
        } else {
            count
        },
        None => count,
    };
    (
        if end >= size {
            (end - size) as nat
        } else {
            0
        },
        end,
    )
}

pub fn page_bounds(count: usize, from: Option<usize>, limit: Option<usize>) -> (r: (usize, usize))
    ensures
        (r.0 as nat, r.1 as nat) == page_of(count as nat, from, limit),
        r.0 <= r.1 <= count,
{
    let asked: usize = match limit {
        Some(n) => n,
        None => PAGE_EVENTS,
    };
    let size: usize = if asked < 1 {
        1
    } else if asked > MAX_PAGE_EVENTS {
        MAX_PAGE_EVENTS
    } else {
        asked
    };
    let end: usize = match from {
        Some(n) => if n < count {
            n
        } else {
            count
        },
        None => count,
    };
    (end.saturating_sub(size), end)
}

/// Pages walk back without a gap: the page before a cursor ends at it, begins
/// before it unless there is nothing left, and its own beginning is the next
/// cursor.
pub proof fn law_pages_reach_the_beginning(count: nat, from: Option<usize>, limit: Option<usize>)
    requires
        count <= usize::MAX,
    ensures
        ({
            let (start, end) = page_of(count, from, limit);
            &&& start <= end <= count
            &&& end - start <= MAX_PAGE_EVENTS
            &&& end > 0 ==> start < end
            &&& page_of(count, Some(start as usize), limit).1 == start
            &&& from is None ==> end == count
        }),
{
}

/// A page of a transcript. `view` is what is paged through, `line` where the log
/// stands, and `live` says whether something is running the session.
pub open spec fn page_json(
    id: Seq<char>,
    session: Option<(EntryView, bool)>,
    view: Seq<SessionEvent>,
    live: bool,
    bounds: (nat, nat),
    line: u64,
    plan_billed: bool,
) -> JsonView {
    JsonView::Object(
        Seq::empty()
            .push(("id"@, JsonView::Text(id)))
            .push(
                (
                    "session"@,
                    match session {
                        Some((entry, driven)) => summary_json(entry, driven),
                        None => JsonView::Null,
                    },
                ),
            )
            .push(
                (
                    "events"@,
                    JsonView::Array(
                        Seq::new(
                            (bounds.1 - bounds.0) as nat,
                            |i: int|
                                event_json(
                                    view.subrange(bounds.0 as int, bounds.1 as int)[i],
                                    Outlook::Whole { events: view, live },
                                ),
                        ),
                    ),
                ),
            )
            .push(("cursor"@, JsonView::Number(bounds.0 as u64)))
            .push(("has_more"@, JsonView::Bool(bounds.0 > 0)))
            .push(("count"@, JsonView::Number(view.len() as u64)))
            .push(("line"@, JsonView::Number(line)))
            .push(("usage"@, totals_json(view, plan_billed))),
    )
}

pub open spec fn row_view(session: Option<(&SessionEntry, bool)>) -> Option<(EntryView, bool)> {
    match session {
        Some((entry, driven)) => Some((entry@, driven)),
        None => None,
    }
}

/// A page of a transcript: of a whole session, or of one turn.
pub fn transcript(
    id: &str,
    session: Option<(&SessionEntry, bool)>,
    view: &[SessionEvent],
    live: bool,
    from: Option<usize>,
    limit: Option<usize>,
    line: u64,
    plan_billed: bool,
) -> (r: Json)
    ensures
        r@ == page_json(
            id@,
            row_view(session),
            view@,
            live,
            page_of(view@.len(), from, limit),
            line,
            plan_billed,
        ),
{
    let (start, end) = page_bounds(view.len(), from, limit);
    let page: &[SessionEvent] = vstd::slice::slice_subrange(view, start, end);
    let events: Vec<Json> = project_page(view, page, live);
    let row: Json = match session {
        Some((entry, driven)) => summary(entry, driven),
        None => Json::Null,
    };
    let (usage, _) = usage_totals(view, plan_billed);
    let mut o: Vec<(String, Json)> = no_entries();
    put(&mut o, "id", Json::text(id));
    put(&mut o, "session", row);
    let ghost shown = views(events@);
    assert(shown =~= Seq::new(
        (end - start) as nat,
        |i: int|
            event_json(
                view@.subrange(start as int, end as int)[i],
                Outlook::Whole { events: view@, live },
            ),
    ));
    let list: Json = Json::Array(events);
    assert(list@ == JsonView::Array(shown));
    put(&mut o, "events", list);
    put(&mut o, "cursor", Json::Number(start as u64));
    put(&mut o, "has_more", Json::Bool(start > 0));
    put(&mut o, "count", Json::Number(view.len() as u64));
    put(&mut o, "line", Json::Number(line));
    put(&mut o, "usage", usage);
    object(o)
}

/// What a page says of itself: the events on it, how many come before them, whether
/// any do, and how many there are.
pub open spec fn page_says(
    page: JsonView,
    events: Seq<JsonView>,
    cursor: int,
    count: int,
) -> bool {
    &&& value_at(page, "events"@) == Some(JsonView::Array(events))
    &&& value_at(page, "cursor"@) matches Some(JsonView::Number(n)) && n == cursor
    &&& value_at(page, "has_more"@) == Some(JsonView::Bool(cursor > 0))
    &&& value_at(page, "count"@) matches Some(JsonView::Number(n)) && n == count
}

proof fn lemma_page_entries(
    id: Seq<char>,
    session: Option<(EntryView, bool)>,
    view: Seq<SessionEvent>,
    live: bool,
    bounds: (nat, nat),
    line: u64,
    plan_billed: bool,
)
    requires
        bounds.0 <= bounds.1 <= view.len() <= usize::MAX,
    ensures
        ({
            let page = page_json(id, session, view, live, bounds, line, plan_billed);
            &&& value_at(page, "id"@) == Some(JsonView::Text(id))
            &&& value_at(page, "events"@) is Some
            &&& value_at(page, "line"@) == Some(JsonView::Number(line))
            &&& page_says(
                page,
                value_at(page, "events"@)->0->Array_0,
                bounds.0 as int,
                view.len() as int,
            )
            &&& value_at(page, "events"@)->0->Array_0.len() == bounds.1 - bounds.0
            &&& forall|i: int|
                0 <= i < bounds.1 - bounds.0 ==> #[trigger] value_at(
                    page,
                    "events"@,
                )->0->Array_0[i] == event_json(
                    view[bounds.0 + i],
                    Outlook::Whole { events: view, live },
                )
        }),
{
    reveal_strlit("id");
    reveal_strlit("session");
    reveal_strlit("events");
    reveal_strlit("cursor");
    reveal_strlit("has_more");
    reveal_strlit("count");
    reveal_strlit("line");
    reveal_strlit("usage");
    assert("events"@[0] != "cursor"@[0]);
    assert("count"@[0] != "usage"@[0]);
    let page = page_json(id, session, view, live, bounds, line, plan_billed);
    let o = page->Object_0;
    assert(o[0].0 == "id"@);
    assert(o[1].0 == "session"@);
    assert(o[2].0 == "events"@);
    assert(o[3].0 == "cursor"@);
    assert(o[4].0 == "has_more"@);
    assert(o[5].0 == "count"@);
    assert(o[6].0 == "line"@);
    lemma_entry(o, 0, 0, "id"@);
    lemma_entry(o, 0, 2, "events"@);
    lemma_entry(o, 0, 3, "cursor"@);
    lemma_entry(o, 0, 4, "has_more"@);
    lemma_entry(o, 0, 5, "count"@);
    lemma_entry(o, 0, 6, "line"@);
}

/// A page holds a run of the events, each as the whole session has it; it says that
/// there is more exactly when an event comes before its first one, and its cursor is
/// how many do. Without a cursor it is the last page. Where it says that there is
/// more, the page before its cursor has something on it and ends where this one
/// begins: following the cursors while there is more passes every event.
pub proof fn law_following_the_cursor_passes_every_event(
    id: Seq<char>,
    session: Option<(EntryView, bool)>,
    view: Seq<SessionEvent>,
    live: bool,
    from: Option<usize>,
    limit: Option<usize>,
    line: u64,
    plan_billed: bool,
)
    requires
        view.len() <= usize::MAX,
    ensures
        ({
            let page = page_json(
                id,
                session,
                view,
                live,
                page_of(view.len(), from, limit),
                line,
                plan_billed,
            );
            exists|events: Seq<JsonView>, cursor: int|
                {
                    &&& #[trigger] page_says(page, events, cursor, view.len() as int)
                    &&& 0 <= cursor <= cursor + events.len() <= view.len()
                    &&& forall|i: int|
                        0 <= i < events.len() ==> #[trigger] events[i] == event_json(
                            view[cursor + i],
                            Outlook::Whole { events: view, live },
                        )
                    &&& from is None ==> cursor + events.len() == view.len()
                    &&& from matches Some(n) ==> cursor + events.len() == (if n < view.len() {
                        n as int
                    } else {
                        view.len() as int
                    })
                    &&& cursor + events.len() > 0 ==> events.len() > 0
                    &&& cursor > 0 ==> {
                        let before = page_json(
                            id,
                            session,
                            view,
                            live,
                            page_of(view.len(), Some(cursor as usize), limit),
                            line,
                            plan_billed,
                        );
                        exists|earlier: Seq<JsonView>, next: int|
                            {
                                &&& #[trigger] page_says(
                                    before,
                                    earlier,
                                    next,
                                    view.len() as int,
                                )
                                &&& next + earlier.len() == cursor
                                &&& 0 <= next < cursor
                            }
                    }
                }
        }),
{
    let bounds = page_of(view.len(), from, limit);
    let page = page_json(id, session, view, live, bounds, line, plan_billed);
    lemma_page_entries(id, session, view, live, bounds, line, plan_billed);
    let events = value_at(page, "events"@)->0->Array_0;
    let cursor = bounds.0 as int;
    assert(page_says(page, events, cursor, view.len() as int));
    if cursor > 0 {
        let earlier_bounds = page_of(view.len(), Some(cursor as usize), limit);
        let before = page_json(id, session, view, live, earlier_bounds, line, plan_billed);
        lemma_page_entries(id, session, view, live, earlier_bounds, line, plan_billed);
        let earlier = value_at(before, "events"@)->0->Array_0;
        let next = earlier_bounds.0 as int;
        assert(page_says(before, earlier, next, view.len() as int));
        assert(next + earlier.len() == cursor);
    }
}

/// The rows of a listing, each with whether this server runs its turn.
pub open spec fn rows_json(rows: Seq<(EntryView, bool)>) -> JsonView {
    JsonView::Array(rows.map_values(|row: (EntryView, bool)| summary_json(row.0, row.1)))
}

/// A listing under a name.
pub fn listing(name: &str, rows: &Vec<(SessionEntry, bool)>) -> (r: Json)
    ensures
        r@ == JsonView::Object(Seq::empty().push((name@, rows_json(views(rows@))))),
{
    let ghost all = views(rows@);
    let ghost want = all.map_values(|row: (EntryView, bool)| summary_json(row.0, row.1));
    let mut list: Vec<Json> = Vec::new();
    let mut i: usize = 0;
    while i < rows.len()
        invariant
            i <= rows@.len(),
            all == views(rows@),
            want == all.map_values(|row: (EntryView, bool)| summary_json(row.0, row.1)),
            views(list@) == want.take(i as int),
        decreases rows@.len() - i,
    {
        assert(all[i as int] == rows@[i as int]@);
        list.push(summary(&rows[i].0, rows[i].1));
        i += 1;
        assert(views(list@) =~= want.take(i as int));
    }
    assert(want.take(i as int) =~= want);
    let array: Json = Json::Array(list);
    let mut o: Vec<(String, Json)> = no_entries();
    put(&mut o, name, array);
    object(o)
}

// ---- Whole results ----

/// The result of a call from `i` on, as it was recorded.
pub open spec fn result_from(events: Seq<SessionEvent>, i: int, call: Seq<char>) -> Option<Seq<char>>
    decreases events.len() - i,
{
    if i < 0 || i >= events.len() {
        None
    } else if events[i] is ToolResult && events[i]->ToolResult_tool_use_id@ == call {
        Some(events[i]->ToolResult_content@)
    } else {
        result_from(events, i + 1, call)
    }
}

pub fn result_text(events: &[SessionEvent], tool_use_id: &str) -> (r: Result<String, ApiError>)
    ensures
        match r {
            Ok(text) => result_from(events@, 0, tool_use_id@) == Some(text@),
            Err(error) => result_from(events@, 0, tool_use_id@) is None && error@ == (ErrorView {
                status: 404,
                message: "no tool result for "@ + tool_use_id@,
            }),
        },
{
    let mut i: usize = 0;
    while i < events.len()
        invariant
            i <= events@.len(),
            result_from(events@, 0, tool_use_id@) == result_from(
                events@,
                i as int,
                tool_use_id@,
            ),
        decreases events@.len() - i,
    {
        if let SessionEvent::ToolResult { tool_use_id: current, content, .. } = &events[i] {
            if same(current.as_str(), tool_use_id) {
                return Ok(own(content.as_str()));
            }
        }
        i += 1;
    }
    Err(ApiError::not_found(cat2("no tool result for ", tool_use_id)))
}

// ---- Images ----

/// The type that an image is served as. What is not known to be an image is bytes.
pub open spec fn served_type(media_type: Seq<char>) -> Seq<char> {
    if media_type == "image/png"@ || media_type == "image/jpeg"@ || media_type == "image/gif"@
        || media_type == "image/webp"@ {
        media_type
    } else {
        "application/octet-stream"@
    }
}

pub fn content_type(media_type: &str) -> (r: &'static str)
    ensures
        r@ == served_type(media_type@),
{
    if same(media_type, "image/png") {
        "image/png"
    } else if same(media_type, "image/jpeg") {
        "image/jpeg"
    } else if same(media_type, "image/gif") {
        "image/gif"
    } else if same(media_type, "image/webp") {
        "image/webp"
    } else {
        "application/octet-stream"
    }
}

/// No session decides what stands in a header: the type is one of five.
pub proof fn law_only_known_types_are_served(media_type: Seq<char>)
    ensures
        ({
            let t = served_type(media_type);
            t == "image/png"@ || t == "image/jpeg"@ || t == "image/gif"@ || t == "image/webp"@ || t
                == "application/octet-stream"@
        }),
{
}

/// The images of an event that has this id.
pub open spec fn images_of(event: SessionEvent, id: Seq<char>) -> Seq<ImageContent> {
    match event {
        SessionEvent::UserMessage { id: of, images, .. } => if of@ == id {
            images@
        } else {
            Seq::empty()
        },
        SessionEvent::ToolResult { id: of, images, .. } => if of@ == id {
            images@
        } else {
            Seq::empty()
        },
        _ => Seq::empty(),
    }
}

/// The image with this index on the event with this id, from `i` on.
pub open spec fn image_from(events: Seq<SessionEvent>, i: int, id: Seq<char>, n: int) -> Option<
    ImageContent,
>
    decreases events.len() - i,
{
    if i < 0 || i >= events.len() {
        None
    } else if n < images_of(events[i], id).len() {
        Some(images_of(events[i], id)[n])
    } else {
        image_from(events, i + 1, id, n)
    }
}

fn find_image<'a>(events: &'a [SessionEvent], event_id: &str, index: usize) -> (r: Option<
    &'a ImageContent,
>)
    ensures
        match r {
            Some(image) => image_from(events@, 0, event_id@, index as int) == Some(*image),
            None => image_from(events@, 0, event_id@, index as int) is None,
        },
{
    let mut i: usize = 0;
    while i < events.len()
        invariant
            i <= events@.len(),
            image_from(events@, 0, event_id@, index as int) == image_from(
                events@,
                i as int,
                event_id@,
                index as int,
            ),
        decreases events@.len() - i,
    {
        match &events[i] {
            SessionEvent::UserMessage { id, images, .. } => {
                if same(id.as_str(), event_id) && index < images.len() {
                    return Some(&images[index]);
                }
            },
            SessionEvent::ToolResult { id, images, .. } => {
                if same(id.as_str(), event_id) && index < images.len() {
                    return Some(&images[index]);
                }
            },
            _ => {},
        }
        i += 1;
    }
    None
}

/// What `base64` makes of a text in the standard alphabet: the bytes, or why it
/// is none.
pub uninterp spec fn base64_bytes(text: Seq<char>) -> Result<Seq<u8>, Seq<char>>;

/// `base64::engine::general_purpose::STANDARD.decode`, with the error as it prints
/// itself: a function of the text alone.
#[verifier::external_body]
fn decode_base64(text: &str) -> (r: Result<Vec<u8>, String>)
    ensures
        match r {
            Ok(bytes) => base64_bytes(text@) == Ok::<Seq<u8>, Seq<char>>(bytes@),
            Err(why) => base64_bytes(text@) == Err::<Seq<u8>, Seq<char>>(why@),
        },
{
    base64::engine::general_purpose::STANDARD.decode(text).map_err(|error| error.to_string())
}

/// What an image route answers: a type and bytes.
#[derive(Debug)]
pub struct ImageBody {
    pub content_type: String,
    pub bytes: Vec<u8>,
}

/// Whether this is what an image of this type is answered, given what its payload
/// decodes to.
pub open spec fn image_answer(
    answer: Result<ImageBody, ApiError>,
    media_type: Seq<char>,
    id: Seq<char>,
    n: nat,
    decoded: Result<Seq<u8>, Seq<char>>,
) -> bool {
    match (answer, decoded) {
        (Ok(body), Ok(bytes)) => body.content_type@ == served_type(media_type) && body.bytes@
            == bytes,
        (Err(error), Err(why)) => error@ == (ErrorView {
            status: 500,
            message: "image "@ + dec(n) + " on event "@ + id + (" is not valid base64: "@ + why),
        }),
        _ => false,
    }
}

pub open spec fn decoded_view(d: Result<Vec<u8>, String>) -> Result<Seq<u8>, Seq<char>> {
    match d {
        Ok(bytes) => Ok(bytes@),
        Err(why) => Err(why@),
    }
}

/// The answer for an image whose payload was decoded.
pub fn image_reply(
    media_type: &str,
    event_id: &str,
    index: usize,
    decoded: Result<Vec<u8>, String>,
) -> (r: Result<ImageBody, ApiError>)
    ensures
        image_answer(r, media_type@, event_id@, index as nat, decoded_view(decoded)),
{
    match decoded {
        Ok(bytes) => Ok(ImageBody { content_type: own(content_type(media_type)), bytes }),
        Err(why) => {
            let number: String = decimal(index as u64);
            let tail: String = cat2(" is not valid base64: ", why.as_str());
            let mut message: String = cat4("image ", number.as_str(), " on event ", event_id);
            message.push_str(tail.as_str());
            Err(ApiError { status: 500, message })
        },
    }
}

/// The bytes of an image, by the event that carries it and its index there.
pub fn image(events: &[SessionEvent], event_id: &str, index: usize) -> (r: Result<
    ImageBody,
    ApiError,
>)
    ensures
        match image_from(events@, 0, event_id@, index as int) {
            Some(image) => image_answer(
                r,
                image.media_type@,
                event_id@,
                index as nat,
                base64_bytes(image.data@),
            ),
            None => r is Err && r->Err_0@ == (ErrorView {
                status: 404,
                message: "no image "@ + dec(index as nat) + " on event "@ + event_id@,
            }),
        },
{
    match find_image(events, event_id, index) {
        Some(image) => image_reply(
            image.media_type.as_str(),
            event_id,
            index,
            decode_base64(image.data.as_str()),
        ),
        None => {
            let number: String = decimal(index as u64);
            Err(ApiError::not_found(cat4("no image ", number.as_str(), " on event ", event_id)))
        },
    }
}

/// An image is found on the first event with the id asked for that has as many, and is
/// the one with that number.
pub proof fn law_an_image_is_found_by_its_number(
    events: Seq<SessionEvent>,
    at: int,
    i: int,
    id: Seq<char>,
    n: int,
)
    requires
        0 <= at <= i < events.len(),
        0 <= n,
        match events[i] {
            SessionEvent::UserMessage { id: of, images, .. } => of@ == id && n < images@.len(),
            SessionEvent::ToolResult { id: of, images, .. } => of@ == id && n < images@.len(),
            _ => false,
        },
        forall|k: int|
            at <= k < i ==> match #[trigger] events[k] {
                SessionEvent::UserMessage { id: of, .. } => of@ != id,
                SessionEvent::ToolResult { id: of, .. } => of@ != id,
                _ => true,
            },
    ensures
        image_from(events, at, id, n) == Some(
            match events[i] {
                SessionEvent::UserMessage { images, .. } => images@[n],
                SessionEvent::ToolResult { images, .. } => images@[n],
                _ => arbitrary(),
            },
        ),
    decreases i - at,
{
    if at < i {
        assert(images_of(events[at], id).len() == 0);
        law_an_image_is_found_by_its_number(events, at + 1, i, id, n);
    }
}

/// An image that decodes is answered with its bytes, under its type where that is one
/// that is served.
pub proof fn law_an_image_is_answered_with_its_bytes(
    body: ImageBody,
    media_type: Seq<char>,
    id: Seq<char>,
    n: nat,
    bytes: Seq<u8>,
)
    requires
        image_answer(Ok(body), media_type, id, n, Ok(bytes)),
    ensures
        body.bytes@ == bytes,
        media_type == "image/png"@ || media_type == "image/jpeg"@ || media_type == "image/gif"@
            || media_type == "image/webp"@ ==> body.content_type@ == media_type,
{
}

/// A page ends where it was asked to, or with the last event, and has as many events as
/// were asked for: two hundred where none were named, at least one, at most a thousand,
/// and no more than there are before its end.
pub proof fn law_a_page_has_as_many_events_as_were_asked_for(
    count: nat,
    from: Option<usize>,
    limit: Option<usize>,
)
    ensures
        ({
            let (start, end) = page_of(count, from, limit);
            let size: int = match limit {
                None => 200,
                Some(n) => if n == 0 {
                    1
                } else if n <= 1000 {
                    n as int
                } else {
                    1000
                },
            };
            &&& end == (match from {
                Some(n) => if n <= count {
                    n as nat
                } else {
                    count
                },
                None => count,
            })
            &&& end >= size ==> end - start == size
            &&& end < size ==> start == 0
        }),
{
}

} // verus!
