//! The offer to go on with the last session of a directory: its end, shown
//! faintly.

use vstd::prelude::*;
use crate::chars::{cat4, group_views, own, views};
use crate::measure::text_width;
use crate::session::event::SessionEvent;
use crate::session::restore::{replayed_lines, restored, Extent, Liveness};
use crate::text::{truncate_display, truncated, Truncation};
use crate::transcript::model::{ItemView, Line_};

verus! {

broadcast use group_views;

/// The bytes of a log that are read, from its end.
pub const GHOST_TAIL_BYTES: u64 = 262144;

/// The events that are kept of what was read.
pub const GHOST_TAIL_EVENTS: usize = 60;

/// A log of at most so many bytes is read whole where its end held nothing.
pub const GHOST_WHOLE_READ_BYTES: u64 = 33554432;

/// The lines that are shown, from the end.
pub const GHOST_LINES: usize = 40;

/// The columns that the session's name may take.
pub const GHOST_TITLE_CHARS: usize = 56;

/// Whether the whole log is to be read: its end held no event, and it is small
/// enough. The size is unknown where the log could not be looked at.
pub fn wants_whole_read(tail_events: usize, bytes: Option<u64>) -> (r: bool)
    ensures
        r == (tail_events == 0 && bytes is Some && bytes->0 <= GHOST_WHOLE_READ_BYTES),
{
    match bytes {
        Some(n) => tail_events == 0 && n <= GHOST_WHOLE_READ_BYTES,
        None => false,
    }
}

/// The last items, at most `max` of them.
pub open spec fn last_of<T>(items: Seq<T>, max: nat) -> Seq<T> {
    if items.len() <= max {
        items
    } else {
        items.skip(items.len() - max)
    }
}

/// The last events of a log that was read whole.
pub fn last_events(events: Vec<SessionEvent>) -> (r: Vec<SessionEvent>)
    ensures
        r@ == last_of(events@, GHOST_TAIL_EVENTS as nat),
{
    let mut events: Vec<SessionEvent> = events;
    let n: usize = events.len();
    if n <= GHOST_TAIL_EVENTS {
        events
    } else {
        let r: Vec<SessionEvent> = events.split_off(n - GHOST_TAIL_EVENTS);
        r
    }
}

/// The events that an offer is made from: the end of the log, or failing that
/// the end of the whole.
pub fn ghost_events(tail: Vec<SessionEvent>, whole: Option<Vec<SessionEvent>>) -> (r: Vec<
    SessionEvent,
>)
    ensures
        r@ == (if tail@.len() > 0 {
            tail@
        } else {
            match whole {
                Some(events) => last_of(events@, GHOST_TAIL_EVENTS as nat),
                None => Seq::empty(),
            }
        }),
{
    if tail.len() > 0 {
        tail
    } else {
        match whole {
            Some(events) => last_events(events),
            None => Vec::new(),
        }
    }
}

/// Which session, and how long since it was used.
pub open spec fn header_text(title: Seq<char>, last_used: Seq<char>) -> Seq<char> {
    "previous session here: "@ + title + " · "@ + last_used
}

pub fn ghost_header(title: &str, last_used: &str) -> (r: String)
    ensures
        r@ == header_text(title@, last_used@),
{
    cat4("previous session here: ", title, " · ", last_used)
}

/// An offer.
#[derive(Debug)]
pub struct Offer {
    pub session_id: String,
    pub title: String,
    pub header: String,
    pub lines: Vec<Line_>,
}

#[verifier::ext_equal]
pub struct OfferView {
    pub session_id: Seq<char>,
    pub title: Seq<char>,
    pub header: Seq<char>,
    pub lines: Seq<ItemView>,
}

impl View for Offer {
    type V = OfferView;

    open spec fn view(&self) -> OfferView {
        OfferView {
            session_id: self.session_id@,
            title: self.title@,
            header: self.header@,
            lines: views(self.lines@),
        }
    }
}

/// The offer that a session's end makes. A session without a title was never
/// used, and one whose end shows nothing offers nothing.
pub open spec fn offer(
    session_id: Seq<char>,
    title: Option<Seq<char>>,
    last_used: Seq<char>,
    events: Seq<SessionEvent>,
) -> Option<OfferView> {
    match title {
        None => None,
        Some(title) => {
            let name = truncated(title, GHOST_TITLE_CHARS as nat, Truncation::Right);
            let lines = last_of(
                restored(events, None, None, Liveness::Settled, Extent::Compacted).lines,
                GHOST_LINES as nat,
            );
            if lines.len() == 0 {
                None
            } else {
                Some(
                    OfferView {
                        session_id,
                        title: name,
                        header: header_text(name, last_used),
                        lines,
                    },
                )
            }
        },
    }
}

/// The offer to go on with a session, given when it was last used, in words, and
/// its last events.
pub fn ghost_offer(
    session_id: &str,
    title: Option<&str>,
    last_used: &str,
    events: &Vec<SessionEvent>,
) -> (r: Option<Offer>)
    ensures
        ({
            let want = offer(
                session_id@,
                crate::session::restore::parent_view(title),
                last_used@,
                events@,
            );
            match r {
                Some(ghost) => want == Some(ghost@),
                None => want is None,
            }
        }),
{
    let title: &str = match title {
        Some(title) => title,
        None => return None,
    };
    let name: String = truncate_display(title, GHOST_TITLE_CHARS, Truncation::Right);
    let mut lines: Vec<Line_> = replayed_lines(events);
    let ghost all = views(lines@);
    assert(all.len() == lines@.len());
    let n: usize = lines.len();
    let shown: Vec<Line_> = if n <= GHOST_LINES {
        lines
    } else {
        let ghost before = lines@;
        let last: Vec<Line_> = lines.split_off(n - GHOST_LINES);
        assert(views(last@) =~= all.skip(n - GHOST_LINES));
        last
    };
    assert(views(shown@).len() == shown@.len());
    if shown.len() == 0 {
        return None;
    }
    let header: String = ghost_header(name.as_str(), last_used);
    Some(Offer { session_id: own(session_id), title: name, header, lines: shown })
}

/// An offer shows something, and no more than a few screens of it.
pub proof fn law_an_offer_is_short(
    session_id: Seq<char>,
    title: Option<Seq<char>>,
    last_used: Seq<char>,
    events: Seq<SessionEvent>,
)
    ensures
        offer(session_id, title, last_used, events) matches Some(made) ==> 0 < made.lines.len()
            <= GHOST_LINES,
        title is None ==> offer(session_id, title, last_used, events) is None,
{
}

/// An offer shows the end of what the session restores to, no more than forty lines of
/// it, under the session's title. There is one exactly where the session has a title and
/// shows anything.
pub proof fn law_an_offer_shows_the_end_of_its_session(
    session_id: Seq<char>,
    title: Option<Seq<char>>,
    last_used: Seq<char>,
    events: Seq<SessionEvent>,
)
    ensures
        ({
            let whole = restored(events, None, None, Liveness::Settled, Extent::Compacted).lines;
            match offer(session_id, title, last_used, events) {
                None => title is None || whole.len() == 0,
                Some(made) => {
                    &&& title is Some
                    &&& made.session_id == session_id
                    &&& 0 < made.lines.len() <= whole.len()
                    &&& made.lines.len() == (if whole.len() <= 40 {
                        whole.len() as int
                    } else {
                        40
                    })
                    &&& whole.skip(whole.len() - made.lines.len()) == made.lines
                    &&& text_width(title->0) <= 56 ==> made.title == title->0
                    &&& made.header == "previous session here: "@ + made.title + " · "@ + last_used
                },
            }
        }),
{
    let whole = restored(events, None, None, Liveness::Settled, Extent::Compacted).lines;
    if let Some(made) = offer(session_id, title, last_used, events) {
        assert(whole.skip(whole.len() - made.lines.len()) =~= made.lines);
    }
}

} // verus!
