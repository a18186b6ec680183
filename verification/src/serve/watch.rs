//! Following a session: how often to look, what a look amounts to, and when to
//! stop.

use vstd::prelude::*;
use crate::chars::{cat3, from_range, group_views, own, same, to_chars};
use crate::numbers::{number_of, parse_number};
use crate::serve::keyed::{keys_differ, place_of, put_value, take_value, value_of};
use crate::serve::view::LiveDelta;
use crate::session::event::SessionEvent;
use crate::session::restore::parent_view;
use crate::words::{trim, trimmed};

verus! {

broadcast use group_views;

/// Milliseconds between two looks at the directory.
pub const DIRECTORY_POLL: u128 = 1000;

/// Milliseconds between two looks at a session.
pub const TAIL_POLL: u128 = 250;

/// Milliseconds that a tail outlives its last subscriber.
pub const IDLE_LINGER: u128 = 30000;

/// Lines that a subscriber may fall behind.
pub const BROADCAST_CAPACITY: usize = 256;

/// A scratch of more bytes is not read.
pub const SCRATCH_MAX_BYTES: u64 = 4194304;

/// The bytes of a scratch that are read for what runs.
pub const ACTIVITY_SCAN_BYTES: u64 = 65536;

/// How much of what runs is shown.
pub const ACTIVITY_CHARS: usize = 80;

// ---- How often ----

/// The intervals, in milliseconds, and how many lines a channel holds.
#[derive(Debug, Clone, Copy, PartialEq, Eq, Structural)]
pub struct WatchConfig {
    pub directory_poll: u128,
    pub tail_poll: u128,
    pub idle_linger: u128,
    pub capacity: usize,
}

pub open spec fn usual_config() -> WatchConfig {
    WatchConfig {
        directory_poll: DIRECTORY_POLL,
        tail_poll: TAIL_POLL,
        idle_linger: IDLE_LINGER,
        capacity: BROADCAST_CAPACITY,
    }
}

/// Both intervals from one number, in the usual proportion.
pub open spec fn tuned_config(poll_ms: u64) -> WatchConfig {
    let tail: int = if poll_ms == 0 {
        1
    } else {
        poll_ms as int
    };
    WatchConfig { directory_poll: (4 * tail) as u128, tail_poll: tail as u128, ..usual_config() }
}

/// What was asked for: explicitly, or else by the environment where that is a
/// number. Nothing, or an interval of zero, asks for nothing.
pub open spec fn resolved_config(explicit: Option<u64>, env: Option<Seq<char>>) -> WatchConfig {
    let requested: Option<u64> = match explicit {
        Some(n) => Some(n),
        None => match env {
            Some(value) => match number_of(trimmed(value), u64::MAX as nat) {
                Some(n) => Some(n as u64),
                None => None,
            },
            None => None,
        },
    };
    match requested {
        Some(n) => if n > 0 {
            tuned_config(n)
        } else {
            usual_config()
        },
        None => usual_config(),
    }
}

impl Default for WatchConfig {
    fn default() -> (r: WatchConfig)
        ensures
            r == usual_config(),
    {
        WatchConfig {
            directory_poll: DIRECTORY_POLL,
            tail_poll: TAIL_POLL,
            idle_linger: IDLE_LINGER,
            capacity: BROADCAST_CAPACITY,
        }
    }
}

impl WatchConfig {
    pub fn with_poll_ms(poll_ms: u64) -> (r: WatchConfig)
        ensures
            r == tuned_config(poll_ms),
    {
        let tail: u128 = if poll_ms == 0 {
            1
        } else {
            poll_ms as u128
        };
        WatchConfig { directory_poll: 4 * tail, tail_poll: tail, ..WatchConfig::default() }
    }

    pub fn resolve(explicit: Option<u64>, env: Option<&str>) -> (r: WatchConfig)
        ensures
            r == resolved_config(explicit, parent_view(env)),
    {
        let requested: Option<u64> = match explicit {
            Some(n) => Some(n),
            None => match env {
                Some(value) => parse_number(trim(value).as_str(), u64::MAX),
                None => None,
            },
        };
        match requested {
            Some(n) => if n > 0 {
                WatchConfig::with_poll_ms(n)
            } else {
                WatchConfig::default()
            },
            None => WatchConfig::default(),
        }
    }
}

/// No setting makes a busy loop, and a directory is looked at a quarter as often
/// as a session.
pub proof fn law_polling_always_pauses(explicit: Option<u64>, env: Option<Seq<char>>)
    ensures
        ({
            let config = resolved_config(explicit, env);
            &&& config.tail_poll >= 1
            &&& config.directory_poll == 4 * config.tail_poll
        }),
{
}

// ---- What a look amounts to ----

/// A change of a session's log.
#[derive(Clone, Debug)]
pub enum TailUpdate {
    Appended { line: usize, event: SessionEvent },
    Rewound { line: usize, to: usize, event: SessionEvent },
    Resync,
    Deleted,
}

/// The scratch half of a tail. A reset voids everything that the scratch said.
#[derive(Clone, Debug)]
pub enum LiveMessage {
    Reset,
    Delta(LiveDelta),
}

/// What a tail hands to its subscribers.
#[derive(Clone, Debug)]
pub enum TailMessage {
    Update(TailUpdate),
    /// A line that cannot be read, in the store's own words.
    Failed(String),
    Live(LiveMessage),
}

/// Why a tail is over.
#[derive(Clone, Debug, PartialEq, Eq)]
pub enum TailEnd {
    Deleted,
    Failed(String),
}

/// What a subscriber's channel gave.
#[derive(Debug)]
pub enum Received {
    Message(TailMessage),
    /// Messages were dropped for this subscriber.
    Lagged,
    Closed,
}

/// The next message. A subscriber that missed some is told that its view is
/// stale; there is none from a tail that is gone.
pub fn next_message(received: Received) -> (r: Option<TailMessage>)
    ensures
        match received {
            Received::Message(message) => r == Some(message),
            Received::Lagged => r == Some(TailMessage::Update(TailUpdate::Resync)),
            Received::Closed => r is None,
        },
{
    match received {
        Received::Message(message) => Some(message),
        Received::Lagged => Some(TailMessage::Update(TailUpdate::Resync)),
        Received::Closed => None,
    }
}

/// The scratch of a running turn: how many lines of which generation were handed
/// on. A generation is a turn and a step of it.
#[derive(Debug)]
pub struct LiveTail {
    pub consumed: usize,
    pub generation: Option<(String, u64)>,
}

#[verifier::ext_equal]
pub struct LiveTailView {
    pub consumed: nat,
    pub generation: Option<(Seq<char>, u64)>,
}

impl View for LiveTail {
    type V = LiveTailView;

    open spec fn view(&self) -> LiveTailView {
        LiveTailView {
            consumed: self.consumed as nat,
            generation: match self.generation {
                Some((turn, step)) => Some((turn@, step)),
                None => None,
            },
        }
    }
}

/// Nothing was handed on.
pub open spec fn no_scratch() -> LiveTailView {
    LiveTailView { consumed: 0, generation: None }
}

/// What the lines from `i` on say, without those that open a generation.
pub open spec fn said_from(deltas: Seq<LiveDelta>, i: int) -> Seq<LiveMessage>
    decreases deltas.len() - i,
{
    if i < 0 || i >= deltas.len() {
        Seq::empty()
    } else if deltas[i] is TurnStarted {
        said_from(deltas, i + 1)
    } else {
        seq![LiveMessage::Delta(deltas[i])] + said_from(deltas, i + 1)
    }
}

/// The generation that a scratch holds.
pub open spec fn generation_of(deltas: Seq<LiveDelta>) -> Option<(Seq<char>, u64)> {
    if deltas.len() > 0 {
        match deltas[0] {
            LiveDelta::TurnStarted { turn, step } => Some((turn@, step)),
            _ => None,
        }
    } else {
        None
    }
}

/// A look at the scratch. One that is gone resets what it said. One whose head is
/// not there says nothing. Of a new generation everything is said, behind a reset
/// of the old one; of a known one, what is new.
pub open spec fn polled(tail: LiveTailView, read: Option<Vec<LiveDelta>>) -> (
    LiveTailView,
    Seq<LiveMessage>,
) {
    match read {
        None => (
            no_scratch(),
            if tail.generation is Some {
                seq![LiveMessage::Reset]
            } else {
                Seq::empty()
            },
        ),
        Some(deltas) => match generation_of(deltas@) {
            None => (tail, Seq::empty()),
            Some(generation) => {
                let next = LiveTailView {
                    consumed: deltas@.len(),
                    generation: Some(generation),
                };
                if tail.generation != Some(generation) || deltas@.len() < tail.consumed {
                    (
                        next,
                        (if tail.generation is Some {
                            seq![LiveMessage::Reset]
                        } else {
                            Seq::empty()
                        }) + said_from(deltas@, 0),
                    )
                } else {
                    (next, said_from(deltas@, tail.consumed as int))
                }
            },
        },
    }
}

impl LiveTail {
    pub fn open() -> (r: LiveTail)
        ensures
            r@ == no_scratch(),
    {
        LiveTail { consumed: 0, generation: None }
    }

    /// Drop the generation. Says whether there was one.
    pub fn forget(&mut self) -> (r: bool)
        ensures
            r == (old(self)@.generation is Some),
            final(self)@ == no_scratch(),
    {
        self.consumed = 0;
        let had: bool = self.generation.is_some();
        self.generation = None;
        had
    }

    fn follows(&self, turn: &str, step: u64) -> (r: bool)
        ensures
            r == (self@.generation == Some((turn@, step))),
    {
        match &self.generation {
            Some((known, at)) => same(known.as_str(), turn) && *at == step,
            None => false,
        }
    }

    /// Look at the scratch: what it holds, or nothing where it is gone.
    pub fn poll(&mut self, read: Option<Vec<LiveDelta>>) -> (r: Vec<LiveMessage>)
        ensures
            (final(self)@, r@) == polled(old(self)@, read),
    {
        let mut messages: Vec<LiveMessage> = Vec::new();
        let deltas: Vec<LiveDelta> = match read {
            Some(deltas) => deltas,
            None => {
                if self.forget() {
                    messages.push(LiveMessage::Reset);
                    assert(messages@ =~= seq![LiveMessage::Reset]);
                }
                return messages;
            },
        };
        let ghost all = deltas@;
        let n: usize = deltas.len();
        if n == 0 {
            return messages;
        }
        let (turn, step): (String, u64) = match &deltas[0] {
            LiveDelta::TurnStarted { turn, step } => (own(turn.as_str()), *step),
            _ => return messages,
        };
        assert(generation_of(all) == Some((turn@, step)));
        let fresh: bool = !self.follows(turn.as_str(), step) || n < self.consumed;
        let from: usize;
        if fresh {
            if self.forget() {
                messages.push(LiveMessage::Reset);
                assert(messages@ =~= seq![LiveMessage::Reset]);
            }
            from = 0;
        } else {
            from = self.consumed;
        }
        self.generation = Some((turn, step));
        self.consumed = n;
        let ghost head = messages@;
        let mut rest: Vec<LiveDelta> = deltas;
        let mut i: usize = 0;
        assert(rest@ =~= all.skip(0));
        assert(from > 0 ==> messages@ =~= Seq::empty());
        assert(head + said_from(all, from as int) =~= messages@ + said_from(all, from as int));
        while rest.len() > 0
            invariant
                i <= n,
                n == all.len(),
                from <= n,
                rest@ == all.skip(i as int),
                i <= from ==> messages@ == head,
                i > from ==> messages@ + said_from(all, i as int) == head + said_from(
                    all,
                    from as int,
                ),
            decreases n - i,
        {
            let delta: LiveDelta = rest.remove(0);
            assert(delta == all[i as int]);
            assert(all.skip(i as int).remove(0) =~= all.skip(i + 1));
            let ghost before = messages@;
            if i >= from {
                match delta {
                    LiveDelta::TurnStarted { .. } => {},
                    other => {
                        messages.push(LiveMessage::Delta(other));
                        assert(before + (seq![LiveMessage::Delta(other)] + said_from(all, i + 1))
                            =~= messages@ + said_from(all, i + 1));
                    },
                }
            }
            i += 1;
        }
        assert(i == n);
        assert(messages@ + Seq::<LiveMessage>::empty() =~= messages@);
        assert(head + Seq::<LiveMessage>::empty() =~= head);
        messages
    }
}

/// A second look at the same scratch says nothing.
pub proof fn law_each_scratch_line_is_said_once(tail: LiveTailView, read: Option<Vec<LiveDelta>>)
    ensures
        ({
            let once = polled(tail, read).0;
            polled(once, read) == (once, Seq::<LiveMessage>::empty())
        }),
{
    if let Some(deltas) = read {
        if generation_of(deltas@) is Some {
            assert(said_from(deltas@, deltas@.len() as int) =~= Seq::empty());
        }
    }
}

proof fn lemma_said_appends(a: Seq<LiveDelta>, b: Seq<LiveDelta>, i: int)
    requires
        0 <= i <= a.len(),
    ensures
        said_from(a + b, i) == said_from(a, i) + said_from(a + b, a.len() as int),
    decreases a.len() - i,
{
    if i < a.len() {
        lemma_said_appends(a, b, i + 1);
        assert((a + b)[i] == a[i]);
        if !(a[i] is TurnStarted) {
            assert(seq![LiveMessage::Delta(a[i])] + (said_from(a, i + 1) + said_from(
                a + b,
                a.len() as int,
            )) =~= (seq![LiveMessage::Delta(a[i])] + said_from(a, i + 1)) + said_from(
                a + b,
                a.len() as int,
            ));
        }
    } else {
        assert(said_from(a, i) + said_from(a + b, i) =~= said_from(a + b, i));
    }
}

/// A scratch that grows between two looks is said once, whole and in order: what
/// the two looks say together, one look at the end would have said.
pub proof fn law_a_growing_scratch_is_said_in_order(
    tail: LiveTailView,
    first: Vec<LiveDelta>,
    grown: Vec<LiveDelta>,
    more: Seq<LiveDelta>,
)
    requires
        grown@ == first@ + more,
        generation_of(first@) is Some,
        tail.consumed <= first@.len() || tail.generation != generation_of(first@),
    ensures
        ({
            let (then, said) = polled(tail, Some(first));
            let (after, later) = polled(then, Some(grown));
            (after, said + later) == polled(tail, Some(grown))
        }),
{
    let n = first@.len() as int;
    assert(grown@[0] == first@[0]);
    let (then, said) = polled(tail, Some(first));
    let (after, later) = polled(then, Some(grown));
    assert(generation_of(grown@) == generation_of(first@));
    let fresh = tail.generation != generation_of(first@);
    if fresh {
        lemma_said_appends(first@, more, 0);
        let reset: Seq<LiveMessage> = if tail.generation is Some {
            seq![LiveMessage::Reset]
        } else {
            Seq::empty()
        };
        assert((reset + said_from(first@, 0)) + said_from(grown@, n) =~= reset + (said_from(
            first@,
            0,
        ) + said_from(grown@, n)));
    } else {
        lemma_said_appends(first@, more, tail.consumed as int);
    }
}

/// What a subscriber has who was told `messages` on top of what it held: a reset
/// voids everything.
pub open spec fn told(held: Seq<LiveDelta>, messages: Seq<LiveMessage>) -> Seq<LiveDelta>
    decreases messages.len(),
{
    if messages.len() == 0 {
        held
    } else {
        match messages.last() {
            LiveMessage::Reset => Seq::empty(),
            LiveMessage::Delta(delta) => told(held, messages.drop_last()).push(delta),
        }
    }
}

/// Hold what is handed on, for those who subscribe later.
pub fn hold(held: &mut Vec<LiveDelta>, messages: Vec<LiveMessage>)
    ensures
        final(held)@ == told(old(held)@, messages@),
{
    let ghost all = messages@;
    let ghost before = held@;
    let mut rest: Vec<LiveMessage> = messages;
    let ghost mut i: int = 0;
    assert(all.take(0) =~= Seq::empty());
    assert(all.skip(0) =~= all);
    while rest.len() > 0
        invariant
            0 <= i <= all.len(),
            rest@ == all.skip(i),
            held@ == told(before, all.take(i)),
        decreases rest@.len(),
    {
        let message: LiveMessage = rest.remove(0);
        assert(all.skip(i).remove(0) =~= all.skip(i + 1));
        assert(all.take(i + 1).drop_last() =~= all.take(i));
        assert(all.take(i + 1).last() == message);
        match message {
            LiveMessage::Reset => {
                held.clear();
            },
            LiveMessage::Delta(delta) => {
                held.push(delta);
            },
        }
        proof {
            i = i + 1;
        }
    }
    assert(all.take(i) =~= all);
}

/// Deltas as they are handed on.
pub open spec fn as_deltas(held: Seq<LiveDelta>) -> Seq<LiveMessage> {
    held.map_values(|d: LiveDelta| LiveMessage::Delta(d))
}

proof fn lemma_told_deltas(held: Seq<LiveDelta>, more: Seq<LiveMessage>)
    requires
        forall|i: int| 0 <= i < more.len() ==> #[trigger] more[i] is Delta,
    ensures
        as_deltas(told(held, more)) == as_deltas(held) + more,
    decreases more.len(),
{
    if more.len() > 0 {
        lemma_told_deltas(held, more.drop_last());
        assert(more.last() is Delta);
        assert(as_deltas(told(held, more)) =~= as_deltas(told(held, more.drop_last())).push(
            more.last(),
        ));
        assert(more.drop_last().push(more.last()) =~= more);
    }
    assert(as_deltas(told(held, more)) =~= as_deltas(held) + more);
}

proof fn lemma_told_after_reset(held: Seq<LiveDelta>, more: Seq<LiveMessage>)
    ensures
        told(held, seq![LiveMessage::Reset] + more) == told(Seq::empty(), more),
    decreases more.len(),
{
    let all = seq![LiveMessage::Reset] + more;
    if more.len() > 0 {
        lemma_told_after_reset(held, more.drop_last());
        assert(all.drop_last() =~= seq![LiveMessage::Reset] + more.drop_last());
    } else {
        assert(all.last() is Reset);
    }
}

proof fn lemma_said_are_deltas(deltas: Seq<LiveDelta>, i: int)
    ensures
        forall|k: int|
            0 <= k < said_from(deltas, i).len() ==> #[trigger] said_from(deltas, i)[k] is Delta,
    decreases deltas.len() - i,
{
    if 0 <= i < deltas.len() {
        lemma_said_are_deltas(deltas, i + 1);
        let rest = said_from(deltas, i + 1);
        assert forall|k: int| 0 <= k < said_from(deltas, i).len() implies #[trigger] said_from(
            deltas,
            i,
        )[k] is Delta by {
            if !(deltas[i] is TurnStarted) && k > 0 {
                assert(said_from(deltas, i)[k] == rest[k - 1]);
            } else if deltas[i] is TurnStarted {
                assert(said_from(deltas, i)[k] == rest[k]);
            }
        }
    }
}

/// Whoever subscribes late is handed what the scratch says, all of it and nothing
/// else: what is held after a look is what the scratch holds, but for the line that
/// opens it. Where the scratch is gone nothing is held, and where its head is not
/// there what is held stays.
pub proof fn law_a_late_subscriber_has_what_the_scratch_says(
    tail: LiveTailView,
    held: Seq<LiveDelta>,
    read: Option<Vec<LiveDelta>>,
)
    requires
        tail.generation is None ==> held.len() == 0,
        read matches Some(deltas) ==> tail.generation is Some && generation_of(deltas@)
            == tail.generation && tail.consumed <= deltas@.len() ==> as_deltas(held) == said_from(
            deltas@.take(tail.consumed as int),
            0,
        ),
    ensures
        ({
            let now = told(held, polled(tail, read).1);
            match read {
                None => now.len() == 0,
                Some(deltas) => if generation_of(deltas@) is Some {
                    as_deltas(now) == said_from(deltas@, 0)
                } else {
                    now == held
                },
            }
        }),
{
    if let Some(deltas) = read {
        if generation_of(deltas@) is Some {
            let said = said_from(deltas@, 0);
            lemma_said_are_deltas(deltas@, 0);
            lemma_said_are_deltas(deltas@, tail.consumed as int);
            if tail.generation != generation_of(deltas@) || deltas@.len() < tail.consumed {
                lemma_told_deltas(Seq::empty(), said);
                assert(as_deltas(Seq::empty()) + said =~= said);
                if tail.generation is Some {
                    lemma_told_after_reset(held, said);
                } else {
                    assert(Seq::<LiveMessage>::empty() + said =~= said);
                    assert(held =~= Seq::empty());
                }
            } else {
                let n = tail.consumed as int;
                let more = said_from(deltas@, n);
                lemma_told_deltas(held, more);
                lemma_said_appends(deltas@.take(n), deltas@.skip(n), 0);
                assert(deltas@.take(n) + deltas@.skip(n) =~= deltas@);
            }
        }
    } else if tail.generation is Some {
        let reset = seq![LiveMessage::Reset];
        assert(reset.last() is Reset);
    }
}

/// A look at a session: what to hand on, whether and why it is over, and whether
/// to go on.
#[derive(Debug)]
pub struct Look {
    pub messages: Vec<TailMessage>,
    pub ended: Option<TailEnd>,
    pub alive: bool,
}

/// The updates as messages.
pub open spec fn as_messages(updates: Seq<TailUpdate>) -> Seq<TailMessage> {
    updates.map_values(|u: TailUpdate| TailMessage::Update(u))
}

pub open spec fn as_live(messages: Seq<LiveMessage>) -> Seq<TailMessage> {
    messages.map_values(|m: LiveMessage| TailMessage::Live(m))
}

pub open spec fn deletes(updates: Seq<TailUpdate>) -> bool {
    exists|i: int| 0 <= i < updates.len() && #[trigger] updates[i] is Deleted
}

/// Whether a look is what the log and the scratch gave. The committed lines come
/// first. Where the log is gone or cannot be read, that is the last thing said.
pub open spec fn look_is(
    look: Look,
    polled: Result<Vec<TailUpdate>, String>,
    live: Seq<LiveMessage>,
) -> bool {
    match polled {
        Ok(updates) => {
            &&& look.alive == !deletes(updates@)
            &&& look.ended == (if deletes(updates@) {
                Some(TailEnd::Deleted)
            } else {
                None
            })
            &&& look.messages@ == as_messages(updates@) + (if deletes(updates@) {
                Seq::empty()
            } else {
                as_live(live)
            })
        },
        Err(why) => {
            &&& !look.alive
            &&& look.ended matches Some(TailEnd::Failed(said)) && said@ == why@
            &&& look.messages@.len() == 1
            &&& look.messages@[0] matches TailMessage::Failed(said) && said@ == why@
        },
    }
}

pub fn step(polled: Result<Vec<TailUpdate>, String>, live: Vec<LiveMessage>) -> (r: Look)
    ensures
        look_is(r, polled, live@),
{
    let mut messages: Vec<TailMessage> = Vec::new();
    let updates: Vec<TailUpdate> = match polled {
        Ok(updates) => updates,
        Err(why) => {
            let ended: Option<TailEnd> = Some(TailEnd::Failed(own(why.as_str())));
            messages.push(TailMessage::Failed(why));
            return Look { messages, ended, alive: false };
        },
    };
    let ghost all = updates@;
    let n: usize = updates.len();
    let mut rest: Vec<TailUpdate> = updates;
    let mut gone: bool = false;
    let mut i: usize = 0;
    assert(all.skip(0) =~= all);
    assert(as_messages(all).take(0) =~= Seq::empty());
    while rest.len() > 0
        invariant
            i <= n,
            n == all.len(),
            rest@ == all.skip(i as int),
            messages@ == as_messages(all).take(i as int),
            gone <==> (exists|k: int| 0 <= k < i && #[trigger] all[k] is Deleted),
        decreases n - i,
    {
        let update: TailUpdate = rest.remove(0);
        assert(update == all[i as int]);
        assert(all.skip(i as int).remove(0) =~= all.skip(i + 1));
        if let TailUpdate::Deleted = &update {
            gone = true;
        }
        messages.push(TailMessage::Update(update));
        i += 1;
        assert(messages@ =~= as_messages(all).take(i as int));
    }
    assert(messages@ =~= as_messages(all));
    if gone {
        assert(messages@ + Seq::<TailMessage>::empty() =~= messages@);
        return Look { messages, ended: Some(TailEnd::Deleted), alive: false };
    }
    let ghost said = live@;
    let m: usize = live.len();
    let mut lines: Vec<LiveMessage> = live;
    let mut j: usize = 0;
    assert(said.skip(0) =~= said);
    assert(messages@ + as_live(said).take(0) =~= messages@);
    while lines.len() > 0
        invariant
            j <= m,
            m == said.len(),
            lines@ == said.skip(j as int),
            messages@ == as_messages(all) + as_live(said).take(j as int),
        decreases m - j,
    {
        let line: LiveMessage = lines.remove(0);
        assert(line == said[j as int]);
        assert(said.skip(j as int).remove(0) =~= said.skip(j + 1));
        messages.push(TailMessage::Live(line));
        j += 1;
        assert(messages@ =~= as_messages(all) + as_live(said).take(j as int));
    }
    assert(as_live(said).take(j as int) =~= as_live(said));
    Look { messages, ended: None, alive: true }
}

// ---- When to stop ----

/// Since when nobody listens, and whether that is long enough to retire. A tail
/// that somebody listens to is not idle.
pub open spec fn idle_next(
    idle_since: Option<u128>,
    subscribers: nat,
    now: u128,
    linger: u128,
) -> (Option<u128>, bool) {
    if subscribers > 0 {
        (None, false)
    } else {
        let since = match idle_since {
            Some(since) => since,
            None => now,
        };
        (
            Some(since),
            if since <= now {
                now - since >= linger
            } else {
                linger == 0
            },
        )
    }
}

pub fn idle_tick(idle_since: Option<u128>, subscribers: usize, now: u128, linger: u128) -> (r: (
    Option<u128>,
    bool,
))
    ensures
        r == idle_next(idle_since, subscribers as nat, now, linger),
{
    if subscribers > 0 {
        return (None, false);
    }
    let since: u128 = match idle_since {
        Some(since) => since,
        None => now,
    };
    let idle: u128 = if since <= now {
        now - since
    } else {
        0
    };
    (Some(since), idle >= linger)
}

/// The tails that are open: one for each session, by a number of its own.
#[derive(Debug)]
pub struct Tailers {
    pub open: Vec<(String, u64)>,
}

impl Tailers {
    /// No session has two tails.
    pub open spec fn wf(self) -> bool {
        keys_differ(self.open@)
    }

    /// The tail of a session.
    pub open spec fn of(self, id: Seq<char>) -> Option<u64> {
        value_of(self.open@, id)
    }

    pub fn new() -> (r: Tailers)
        ensures
            r.wf(),
            forall|id: Seq<char>| #[trigger] r.of(id) is None,
    {
        Tailers { open: Vec::new() }
    }

    pub fn get(&self, id: &str) -> (r: Option<u64>)
        ensures
            r == self.of(id@),
    {
        let i: usize = place_of(&self.open, id);
        if i < self.open.len() {
            Some(self.open[i].1)
        } else {
            None
        }
    }

    /// Keep a tail that was just primed, unless the session has one by now: that
    /// one wins. A tail that is over already is not kept. Says which one to hand
    /// to the subscriber.
    pub fn adopt(&mut self, id: &str, tailer: u64, alive: bool) -> (r: u64)
        requires
            old(self).wf(),
        ensures
            final(self).wf(),
            r == (match old(self).of(id@) {
                Some(existing) => existing,
                None => tailer,
            }),
            final(self).of(id@) == (match old(self).of(id@) {
                Some(existing) => Some(existing),
                None => if alive {
                    Some(tailer)
                } else {
                    None
                },
            }),
            forall|other: Seq<char>|
                other != id@ ==> #[trigger] final(self).of(other) == old(self).of(other),
    {
        let i: usize = place_of(&self.open, id);
        if i < self.open.len() {
            return self.open[i].1;
        }
        if alive {
            put_value(&mut self.open, id, tailer);
        }
        tailer
    }

    /// Retire a tail: it goes, and no other.
    pub fn retire(&mut self, id: &str, tailer: u64)
        requires
            old(self).wf(),
        ensures
            final(self).wf(),
            final(self).of(id@) == (if old(self).of(id@) == Some(tailer) {
                None
            } else {
                old(self).of(id@)
            }),
            forall|other: Seq<char>|
                other != id@ ==> #[trigger] final(self).of(other) == old(self).of(other),
    {
        let i: usize = place_of(&self.open, id);
        if i < self.open.len() && self.open[i].1 == tailer {
            take_value(&mut self.open, i);
        }
    }

    /// Retire a tail that is idle, unless somebody listens to it by now. Says
    /// whether it went.
    pub fn retire_idle(&mut self, id: &str, tailer: u64, subscribers: usize) -> (r: bool)
        requires
            old(self).wf(),
        ensures
            final(self).wf(),
            r == (subscribers == 0),
            subscribers > 0 ==> *final(self) == *old(self),
            subscribers == 0 ==> final(self).of(id@) == (if old(self).of(id@) == Some(tailer) {
                None
            } else {
                old(self).of(id@)
            }),
            forall|other: Seq<char>|
                other != id@ ==> #[trigger] final(self).of(other) == old(self).of(other),
    {
        if subscribers > 0 {
            return false;
        }
        self.retire(id, tailer);
        true
    }
}

// ---- What runs ----

/// Whether one of the lines says that a call has finished.
pub open spec fn has_finished(deltas: Seq<LiveDelta>, id: Seq<char>) -> bool {
    exists|i: int| 0 <= i < deltas.len() && #[trigger] finishes(deltas[i], id)
}

pub open spec fn finishes(delta: LiveDelta, id: Seq<char>) -> bool {
    delta matches LiveDelta::ToolFinished { id: of, .. } && of@ == id
}

/// A tool and what it does.
pub open spec fn tool_text(name: Seq<char>, summary: Seq<char>) -> Seq<char> {
    if summary.len() == 0 {
        name
    } else {
        name + ": "@ + summary
    }
}

/// The last tool started among the first `n` lines that has not finished.
pub open spec fn running_before(deltas: Seq<LiveDelta>, n: int) -> Option<Seq<char>>
    decreases n,
{
    if n <= 0 || n > deltas.len() {
        None
    } else {
        match deltas[n - 1] {
            LiveDelta::ToolStarted { id, name, summary } => if has_finished(deltas, id@) {
                running_before(deltas, n - 1)
            } else {
                let text = tool_text(name@, summary@);
                Some(
                    if text.len() > ACTIVITY_CHARS {
                        text.take(ACTIVITY_CHARS as int)
                    } else {
                        text
                    },
                )
            },
            _ => running_before(deltas, n - 1),
        }
    }
}

fn finished_in(deltas: &Vec<LiveDelta>, id: &str) -> (r: bool)
    ensures
        r == has_finished(deltas@, id@),
{
    let mut i: usize = 0;
    while i < deltas.len()
        invariant
            i <= deltas@.len(),
            forall|k: int| 0 <= k < i ==> !#[trigger] finishes(deltas@[k], id@),
        decreases deltas@.len() - i,
    {
        if let LiveDelta::ToolFinished { id: of, .. } = &deltas[i] {
            if same(of.as_str(), id) {
                assert(finishes(deltas@[i as int], id@));
                return true;
            }
        }
        i += 1;
    }
    false
}

/// The tool that a scratch says is running.
pub fn activity_of(deltas: &Vec<LiveDelta>) -> (r: Option<String>)
    ensures
        match r {
            Some(text) => running_before(deltas@, deltas@.len() as int) == Some(text@),
            None => running_before(deltas@, deltas@.len() as int) is None,
        },
{
    let mut n: usize = deltas.len();
    while n > 0
        invariant
            n <= deltas@.len(),
            running_before(deltas@, deltas@.len() as int) == running_before(deltas@, n as int),
        decreases n,
    {
        if let LiveDelta::ToolStarted { id, name, summary } = &deltas[n - 1] {
            if !finished_in(deltas, id.as_str()) {
                let text: String = if summary.as_str().is_empty() {
                    own(name.as_str())
                } else {
                    cat3(name.as_str(), ": ", summary.as_str())
                };
                let v: Vec<char> = to_chars(text.as_str());
                return if v.len() > ACTIVITY_CHARS {
                    assert(v@.subrange(0, ACTIVITY_CHARS as int) =~= v@.take(
                        ACTIVITY_CHARS as int,
                    ));
                    Some(from_range(&v, 0, ACTIVITY_CHARS))
                } else {
                    Some(text)
                };
            }
        }
        n -= 1;
    }
    None
}

} // verus!
