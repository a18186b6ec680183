//! The sessions that there are: what is known of each, when it has to be read
//! again, and the rows of the listing.

use vstd::prelude::*;
use crate::chars::{group_views, own, same, to_chars, views};
use crate::serve::json::{group_json, no_entries, object, put, text_or_null, Json, JsonView};
use crate::serve::stamp::{stamp, stamped};
use crate::serve::view::{limit_entry, limit_json};
use crate::session::event::{Moment, SessionMeta};
use crate::session::restore::parent_view;
use crate::transcript::model::{copy_opt, opt_text};
use crate::words::{ends, strip_suffix};

verus! {

broadcast use {group_views, group_json};

/// Seconds after which a scratch that nobody wrote to is a stalled turn's.
pub const STALE_SCRATCH: u64 = 60;

// ---- Heads ----

#[verifier::ext_equal]
pub struct MetaView {
    pub session_id: Seq<char>,
    pub parent_id: Option<Seq<char>>,
    pub agent: Seq<char>,
    pub model: Seq<char>,
    pub cwd: Option<Seq<char>>,
    pub context_limit: Option<u64>,
}

impl View for SessionMeta {
    type V = MetaView;

    open spec fn view(&self) -> MetaView {
        MetaView {
            session_id: self.session_id@,
            parent_id: opt_text(self.parent_id),
            agent: self.agent@,
            model: self.model@,
            cwd: opt_text(self.cwd),
            context_limit: self.context_limit,
        }
    }
}

fn copy_meta(meta: &SessionMeta) -> (r: SessionMeta)
    ensures
        r@ == meta@,
{
    SessionMeta {
        session_id: own(meta.session_id.as_str()),
        parent_id: copy_opt(&meta.parent_id),
        agent: own(meta.agent.as_str()),
        model: own(meta.model.as_str()),
        cwd: copy_opt(&meta.cwd),
        context_limit: meta.context_limit,
    }
}

/// What the head of a log says of its session.
#[derive(Debug)]
pub struct SessionHead {
    pub id: String,
    pub title: Option<String>,
    pub meta: SessionMeta,
    pub modified: Moment,
}

#[verifier::ext_equal]
pub struct HeadView {
    pub id: Seq<char>,
    pub title: Option<Seq<char>>,
    pub meta: MetaView,
    pub modified: Moment,
}

impl View for SessionHead {
    type V = HeadView;

    open spec fn view(&self) -> HeadView {
        HeadView {
            id: self.id@,
            title: opt_text(self.title),
            meta: self.meta@,
            modified: self.modified,
        }
    }
}

impl SessionHead {
    pub fn copy(&self) -> (r: SessionHead)
        ensures
            r@ == self@,
    {
        SessionHead {
            id: own(self.id.as_str()),
            title: copy_opt(&self.title),
            meta: copy_meta(&self.meta),
            modified: self.modified,
        }
    }
}

/// What a session is doing: nothing, something, or something that has not been
/// heard of for a while.
#[derive(Clone, Copy, PartialEq, Eq, Structural, Debug)]
pub enum LiveState {
    Working,
    Stalled,
    Idle,
}

pub open spec fn state_text(state: LiveState) -> Seq<char> {
    match state {
        LiveState::Working => "working"@,
        LiveState::Stalled => "stalled"@,
        LiveState::Idle => "idle"@,
    }
}

impl LiveState {
    pub fn as_str(self) -> (r: &'static str)
        ensures
            r@ == state_text(self),
    {
        match self {
            LiveState::Working => "working",
            LiveState::Stalled => "stalled",
            LiveState::Idle => "idle",
        }
    }
}

/// The scratch of a turn: when it was written, and the tool that runs.
#[derive(Debug)]
pub struct Scratch {
    pub modified: Moment,
    pub activity: Option<String>,
}

#[verifier::ext_equal]
pub struct ScratchView {
    pub modified: Moment,
    pub activity: Option<Seq<char>>,
}

impl View for Scratch {
    type V = ScratchView;

    open spec fn view(&self) -> ScratchView {
        ScratchView { modified: self.modified, activity: opt_text(self.activity) }
    }
}

pub open spec fn scratch_view(s: Option<Scratch>) -> Option<ScratchView> {
    match s {
        Some(s) => Some(s@),
        None => None,
    }
}

/// A point in time in nanoseconds.
pub open spec fn nanos_at(m: Moment) -> int {
    m.seconds * 1_000_000_000 + m.nanos
}

/// What a scratch says of a session at a point in time. One from the future is
/// fresh.
pub open spec fn state_at(scratch: Option<ScratchView>, now: Moment) -> LiveState {
    match scratch {
        None => LiveState::Idle,
        Some(s) => if nanos_at(now) - nanos_at(s.modified) >= STALE_SCRATCH * 1_000_000_000 {
            LiveState::Stalled
        } else {
            LiveState::Working
        },
    }
}

/// A row of the listing.
#[derive(Debug)]
pub struct SessionEntry {
    pub head: SessionHead,
    pub state: LiveState,
    pub activity: Option<String>,
}

#[verifier::ext_equal]
pub struct EntryView {
    pub head: HeadView,
    pub state: LiveState,
    pub activity: Option<Seq<char>>,
}

impl View for SessionEntry {
    type V = EntryView;

    open spec fn view(&self) -> EntryView {
        EntryView { head: self.head@, state: self.state, activity: opt_text(self.activity) }
    }
}

pub open spec fn row_of(head: HeadView, scratch: Option<ScratchView>, now: Moment) -> EntryView {
    EntryView {
        head,
        state: state_at(scratch, now),
        activity: match scratch {
            Some(s) => s.activity,
            None => None,
        },
    }
}

fn nanos(m: &Moment) -> (r: i128)
    ensures
        r == nanos_at(*m),
{
    m.seconds as i128 * 1_000_000_000 + m.nanos as i128
}

pub fn entry_of(head: &SessionHead, scratch: &Option<Scratch>, now: Moment) -> (r: SessionEntry)
    ensures
        r@ == row_of(head@, scratch_view(*scratch), now),
{
    match scratch {
        Some(scratch) => {
            let age: i128 = nanos(&now) - nanos(&scratch.modified);
            let state: LiveState = if age >= 60_000_000_000 {
                LiveState::Stalled
            } else {
                LiveState::Working
            };
            SessionEntry { head: head.copy(), state, activity: copy_opt(&scratch.activity) }
        },
        None => SessionEntry { head: head.copy(), state: LiveState::Idle, activity: None },
    }
}

/// A row on the wire. `driven` says whether this server runs the turn.
pub open spec fn summary_json(entry: EntryView, driven: bool) -> JsonView {
    JsonView::Object(
        Seq::empty()
            .push(("driven"@, JsonView::Bool(driven)))
            .push(("id"@, JsonView::Text(entry.head.id)))
            .push(("title"@, text_or_null(entry.head.title)))
            .push(("cwd"@, text_or_null(entry.head.meta.cwd)))
            .push(("agent"@, JsonView::Text(entry.head.meta.agent)))
            .push(("model"@, JsonView::Text(entry.head.meta.model)))
            .push(("context_limit"@, limit_json(entry.head.meta.context_limit)))
            .push(("parent_id"@, text_or_null(entry.head.meta.parent_id)))
            .push(("modified"@, stamped(entry.head.modified)))
            .push(("state"@, JsonView::Text(state_text(entry.state))))
            .push(("activity"@, text_or_null(entry.activity))),
    )
}

pub fn summary(entry: &SessionEntry, driven: bool) -> (r: Json)
    ensures
        r@ == summary_json(entry@, driven),
{
    let mut o: Vec<(String, Json)> = no_entries();
    put(&mut o, "driven", Json::Bool(driven));
    put(&mut o, "id", Json::text(entry.head.id.as_str()));
    put(&mut o, "title", Json::optional(&entry.head.title));
    put(&mut o, "cwd", Json::optional(&entry.head.meta.cwd));
    put(&mut o, "agent", Json::text(entry.head.meta.agent.as_str()));
    put(&mut o, "model", Json::text(entry.head.meta.model.as_str()));
    put(&mut o, "context_limit", limit_entry(entry.head.meta.context_limit));
    put(&mut o, "parent_id", Json::optional(&entry.head.meta.parent_id));
    put(&mut o, "modified", stamp(&entry.head.modified));
    put(&mut o, "state", Json::text(entry.state.as_str()));
    put(&mut o, "activity", Json::optional(&entry.activity));
    object(o)
}

// ---- The cache ----

/// A log as the directory shows it.
#[derive(Clone, Copy, PartialEq, Eq, Structural, Debug)]
pub struct Stat {
    pub len: u64,
    pub modified: Option<Moment>,
    pub inode: u64,
}

/// What is known of a log: how it looked when it was read, and its head, unless
/// it is no session's.
#[derive(Debug)]
pub struct Cached {
    pub id: String,
    pub stat: Stat,
    pub head: Option<SessionHead>,
    pub scratch: Option<Scratch>,
}

/// The first log with this id from `i` on, or the length.
pub open spec fn cached_from(cache: Seq<Cached>, i: int, id: Seq<char>) -> int
    decreases cache.len() - i,
{
    if i < 0 || i >= cache.len() || cache[i].id@ == id {
        i
    } else {
        cached_from(cache, i + 1, id)
    }
}

/// What is known under an id.
pub open spec fn known(cache: Seq<Cached>, id: Seq<char>) -> Option<Cached> {
    let i = cached_from(cache, 0, id);
    if 0 <= i < cache.len() {
        Some(cache[i])
    } else {
        None
    }
}

fn place(cache: &Vec<Cached>, id: &str) -> (r: usize)
    ensures
        r == cached_from(cache@, 0, id@),
        r <= cache@.len(),
        r < cache@.len() ==> cache@[r as int].id@ == id@,
{
    let mut i: usize = 0;
    while i < cache.len()
        invariant
            i <= cache@.len(),
            cached_from(cache@, 0, id@) == cached_from(cache@, i as int, id@),
        decreases cache@.len() - i,
    {
        if same(cache[i].id.as_str(), id) {
            return i;
        }
        i += 1;
    }
    i
}

/// Whether the directory shows a log of this id.
pub open spec fn is_seen(seen: Seq<(String, Stat)>, id: Seq<char>) -> bool {
    exists|i: int| 0 <= i < seen.len() && (#[trigger] seen[i]).0@ == id
}

/// The first `n` of what is known, without what the directory no longer shows.
pub open spec fn kept_upto(cache: Seq<Cached>, n: int, seen: Seq<(String, Stat)>) -> Seq<Cached>
    decreases n,
{
    if n <= 0 || n > cache.len() {
        Seq::empty()
    } else {
        let before = kept_upto(cache, n - 1, seen);
        if is_seen(seen, cache[n - 1].id@) {
            before.push(cache[n - 1])
        } else {
            before
        }
    }
}

/// Whether a log has to be read: it is not known, or does not look as it did.
pub open spec fn is_stale(cache: Seq<Cached>, id: Seq<char>, stat: Stat) -> bool {
    match known(cache, id) {
        Some(cached) => cached.stat != stat,
        None => true,
    }
}

/// Those of the first `n` logs that have to be read.
pub open spec fn stale_upto(cache: Seq<Cached>, seen: Seq<(String, Stat)>, n: int) -> Seq<
    (Seq<char>, Stat),
>
    decreases n,
{
    if n <= 0 || n > seen.len() {
        Seq::empty()
    } else {
        let before = stale_upto(cache, seen, n - 1);
        if is_stale(cache, seen[n - 1].0@, seen[n - 1].1) {
            before.push((seen[n - 1].0@, seen[n - 1].1))
        } else {
            before
        }
    }
}

pub open spec fn stat_views(v: Seq<(String, Stat)>) -> Seq<(Seq<char>, Stat)> {
    v.map_values(|p: (String, Stat)| (p.0@, p.1))
}

fn seen_in(seen: &Vec<(String, Stat)>, id: &str) -> (r: bool)
    ensures
        r == is_seen(seen@, id@),
{
    let mut i: usize = 0;
    while i < seen.len()
        invariant
            i <= seen@.len(),
            forall|k: int| 0 <= k < i ==> (#[trigger] seen@[k]).0@ != id@,
        decreases seen@.len() - i,
    {
        if same(seen[i].0.as_str(), id) {
            assert(seen@[i as int].0@ == id@);
            return true;
        }
        i += 1;
    }
    false
}

/// Forget what the directory no longer shows, and say what has to be read.
pub fn stale_heads(cache: &mut Vec<Cached>, seen: &Vec<(String, Stat)>) -> (r: Vec<(String, Stat)>)
    ensures
        final(cache)@ == kept_upto(old(cache)@, old(cache)@.len() as int, seen@),
        stat_views(r@) == stale_upto(final(cache)@, seen@, seen@.len() as int),
{
    let ghost all = cache@;
    let n: usize = cache.len();
    let mut done: usize = 0;
    let mut i: usize = 0;
    while done < n
        invariant
            i <= done <= n,
            n == all.len(),
            cache@ == kept_upto(all, done as int, seen@) + all.skip(done as int),
            i == kept_upto(all, done as int, seen@).len(),
        decreases n - done,
    {
        let ghost kept = kept_upto(all, done as int, seen@);
        assert(cache@[i as int] == all[done as int]);
        if seen_in(seen, cache[i].id.as_str()) {
            assert(kept.push(all[done as int]) + all.skip(done + 1) =~= cache@);
            i += 1;
        } else {
            cache.remove(i);
            assert(cache@ =~= kept + all.skip(done + 1));
        }
        done += 1;
    }
    assert(cache@ =~= kept_upto(all, n as int, seen@));
    let mut r: Vec<(String, Stat)> = Vec::new();
    let mut k: usize = 0;
    assert(stat_views(r@) =~= Seq::empty());
    while k < seen.len()
        invariant
            k <= seen@.len(),
            stat_views(r@) == stale_upto(cache@, seen@, k as int),
        decreases seen@.len() - k,
    {
        let at: usize = place(cache, seen[k].0.as_str());
        let stale: bool = if at < cache.len() {
            cache[at].stat != seen[k].1
        } else {
            true
        };
        if stale {
            let ghost before = stat_views(r@);
            r.push((own(seen[k].0.as_str()), seen[k].1));
            assert(stat_views(r@) =~= before.push((seen@[k as int].0@, seen@[k as int].1)));
        }
        k += 1;
    }
    r
}

/// What came of reading a head.
#[derive(Debug)]
pub enum HeadRead {
    Head(SessionHead),
    /// The log is no session's.
    NotASession,
    /// It could not be read for now.
    Failed,
}

/// What is known once a head was read. A log that is no session's is remembered
/// as such; one that could not be read is not.
pub open spec fn recorded(cache: Seq<Cached>, id: String, stat: Stat, read: HeadRead) -> Seq<Cached> {
    let i = cached_from(cache, 0, id@);
    match read {
        HeadRead::Failed => cache,
        HeadRead::Head(head) => {
            let entry = Cached { id, stat, head: Some(head), scratch: None };
            if i < cache.len() {
                cache.update(i, entry)
            } else {
                cache.push(entry)
            }
        },
        HeadRead::NotASession => {
            let entry = Cached { id, stat, head: None, scratch: None };
            if i < cache.len() {
                cache.update(i, entry)
            } else {
                cache.push(entry)
            }
        },
    }
}

pub fn record_head(cache: &mut Vec<Cached>, id: String, stat: Stat, read: HeadRead)
    ensures
        final(cache)@ == recorded(old(cache)@, id, stat, read),
{
    let at: usize = place(cache, id.as_str());
    let head: Option<SessionHead> = match read {
        HeadRead::Failed => return,
        HeadRead::Head(head) => Some(head),
        HeadRead::NotASession => None,
    };
    let entry: Cached = Cached { id, stat, head, scratch: None };
    if at < cache.len() {
        cache.set(at, entry);
    } else {
        cache.push(entry);
    }
}

/// The first scratch of a session from `i` on.
pub open spec fn scratch_from(scratches: Seq<(String, Scratch)>, i: int, id: Seq<char>) -> Option<
    ScratchView,
>
    decreases scratches.len() - i,
{
    if i < 0 || i >= scratches.len() {
        None
    } else if scratches[i].0@ == id {
        Some(scratches[i].1@)
    } else {
        scratch_from(scratches, i + 1, id)
    }
}

fn scratch_of(scratches: &Vec<(String, Scratch)>, id: &str) -> (r: Option<Scratch>)
    ensures
        scratch_view(r) == scratch_from(scratches@, 0, id@),
{
    let mut i: usize = 0;
    while i < scratches.len()
        invariant
            i <= scratches@.len(),
            scratch_from(scratches@, 0, id@) == scratch_from(scratches@, i as int, id@),
        decreases scratches@.len() - i,
    {
        if same(scratches[i].0.as_str(), id) {
            return Some(
                Scratch {
                    modified: scratches[i].1.modified,
                    activity: copy_opt(&scratches[i].1.activity),
                },
            );
        }
        i += 1;
    }
    None
}

/// Note which sessions run. A session without a scratch does not.
pub fn set_scratches(cache: &mut Vec<Cached>, scratches: &Vec<(String, Scratch)>)
    ensures
        final(cache)@.len() == old(cache)@.len(),
        forall|i: int|
            0 <= i < old(cache)@.len() ==> {
                let now = #[trigger] final(cache)@[i];
                let was = old(cache)@[i];
                &&& now.id == was.id && now.stat == was.stat && now.head == was.head
                &&& scratch_view(now.scratch) == scratch_from(scratches@, 0, was.id@)
            },
{
    let ghost all = cache@;
    let n: usize = cache.len();
    let mut i: usize = 0;
    while i < n
        invariant
            i <= n,
            n == all.len(),
            n == cache@.len(),
            forall|k: int|
                0 <= k < i ==> {
                    let now = #[trigger] cache@[k];
                    &&& now.id == all[k].id && now.stat == all[k].stat && now.head == all[k].head
                    &&& scratch_view(now.scratch) == scratch_from(scratches@, 0, all[k].id@)
                },
            forall|k: int| i <= k < n ==> #[trigger] cache@[k] == all[k],
        decreases n - i,
    {
        let ghost before = cache@;
        let scratch: Option<Scratch> = scratch_of(scratches, cache[i].id.as_str());
        cache[i].scratch = scratch;
        assert(forall|k: int| 0 <= k < n && k != i ==> cache@[k] == before[k]);
        i += 1;
    }
}

/// A directory that could not be read. Only where it is gone is everything that
/// was known gone too.
pub fn scan_failed(cache: &mut Vec<Cached>, not_found: bool)
    ensures
        final(cache)@ == (if not_found {
            Seq::<Cached>::empty()
        } else {
            old(cache)@
        }),
{
    if not_found {
        cache.clear();
    }
}

/// A log that looks as it did is not read again.
pub proof fn law_nothing_changed_nothing_read(
    cache: Seq<Cached>,
    seen: Seq<(String, Stat)>,
    n: int,
)
    requires
        0 <= n <= seen.len(),
        forall|i: int|
            0 <= i < seen.len() ==> known(cache, (#[trigger] seen[i]).0@) is Some && known(
                cache,
                seen[i].0@,
            )->0.stat == seen[i].1,
    ensures
        stale_upto(cache, seen, n) == Seq::<(Seq<char>, Stat)>::empty(),
    decreases n,
{
    if n > 0 {
        law_nothing_changed_nothing_read(cache, seen, n - 1);
        assert(known(cache, seen[n - 1].0@) is Some);
    }
}

/// What was read, be it a session's log or not, is not read again until it looks
/// different. What could not be read for now is.
pub proof fn law_a_read_is_remembered(cache: Seq<Cached>, id: String, stat: Stat, read: HeadRead)
    ensures
        !(read is Failed) ==> !is_stale(recorded(cache, id, stat, read), id@, stat),
        read is Failed ==> is_stale(recorded(cache, id, stat, read), id@, stat) == is_stale(
            cache,
            id@,
            stat,
        ),
{
    if !(read is Failed) {
        let i = cached_from(cache, 0, id@);
        let after = recorded(cache, id, stat, read);
        lemma_cached_from(cache, 0, id@);
        let at = if i < cache.len() {
            i
        } else {
            cache.len() as int
        };
        assert(after[at].id@ == id@);
        lemma_found(after, cache, 0, at, id@);
    }
}

proof fn lemma_cached_from(cache: Seq<Cached>, i: int, id: Seq<char>)
    requires
        0 <= i <= cache.len(),
    ensures
        i <= cached_from(cache, i, id) <= cache.len(),
        forall|k: int| i <= k < cached_from(cache, i, id) ==> (#[trigger] cache[k]).id@ != id,
    decreases cache.len() - i,
{
    if i < cache.len() && cache[i].id@ != id {
        lemma_cached_from(cache, i + 1, id);
    }
}

proof fn lemma_found(after: Seq<Cached>, cache: Seq<Cached>, i: int, at: int, id: Seq<char>)
    requires
        0 <= i <= at < after.len(),
        after[at].id@ == id,
        at <= cache.len(),
        forall|k: int| 0 <= k < at ==> #[trigger] after[k] == cache[k],
        forall|k: int| 0 <= k < at ==> (#[trigger] cache[k]).id@ != id,
    ensures
        cached_from(after, i, id) == at,
    decreases at - i,
{
    if i < at {
        assert(after[i] == cache[i]);
        lemma_found(after, cache, i + 1, at, id);
    }
}

/// What the cache says of a session.
#[derive(Debug)]
pub enum HeadAnswer {
    /// It was not seen yet.
    Unseen,
    /// Its log is no session's.
    NotASession,
    Row(SessionEntry),
}

/// A session's row. That a log is no session's is an answer.
pub fn head(cache: &Vec<Cached>, id: &str, now: Moment) -> (r: HeadAnswer)
    ensures
        match (r, known(cache@, id@)) {
            (HeadAnswer::Unseen, None) => true,
            (HeadAnswer::NotASession, Some(cached)) => cached.head is None,
            (HeadAnswer::Row(row), Some(cached)) => cached.head is Some && row@ == row_of(
                cached.head->0@,
                scratch_view(cached.scratch),
                now,
            ),
            _ => false,
        },
{
    let at: usize = place(cache, id);
    if at >= cache.len() {
        return HeadAnswer::Unseen;
    }
    match &cache[at].head {
        Some(head) => HeadAnswer::Row(entry_of(head, &cache[at].scratch, now)),
        None => HeadAnswer::NotASession,
    }
}

// ---- The order of rows ----

/// Whether a text comes before another or is it, character by character.
pub open spec fn text_upto(a: Seq<char>, b: Seq<char>) -> bool
    decreases a.len(),
{
    if a.len() == 0 {
        true
    } else if b.len() == 0 {
        false
    } else if a[0] != b[0] {
        a[0] < b[0]
    } else {
        text_upto(a.skip(1), b.skip(1))
    }
}

proof fn lemma_text_total(a: Seq<char>, b: Seq<char>)
    ensures
        text_upto(a, b) || text_upto(b, a),
    decreases a.len(),
{
    if a.len() > 0 && b.len() > 0 && a[0] == b[0] {
        lemma_text_total(a.skip(1), b.skip(1));
    }
}

proof fn lemma_text_transitive(a: Seq<char>, b: Seq<char>, c: Seq<char>)
    requires
        text_upto(a, b),
        text_upto(b, c),
    ensures
        text_upto(a, c),
    decreases a.len(),
{
    if a.len() > 0 && b.len() > 0 && c.len() > 0 && a[0] == b[0] && b[0] == c[0] {
        lemma_text_transitive(a.skip(1), b.skip(1), c.skip(1));
    }
}

/// Rows stand by when they were modified, the newest first, and then by id.
pub open spec fn row_upto(a: EntryView, b: EntryView) -> bool {
    nanos_at(a.head.modified) > nanos_at(b.head.modified) || (nanos_at(a.head.modified)
        == nanos_at(b.head.modified) && text_upto(a.head.id, b.head.id))
}

/// Whether the rows stand in order.
pub open spec fn in_order(rows: Seq<EntryView>) -> bool {
    forall|i: int, j: int|
        #![trigger rows[i], rows[j]]
        0 <= i < j < rows.len() ==> row_upto(rows[i], rows[j])
}

proof fn lemma_row_total(a: EntryView, b: EntryView)
    ensures
        row_upto(a, b) || row_upto(b, a),
{
    lemma_text_total(a.head.id, b.head.id);
}

proof fn lemma_row_transitive(a: EntryView, b: EntryView, c: EntryView)
    requires
        row_upto(a, b),
        row_upto(b, c),
    ensures
        row_upto(a, c),
{
    if nanos_at(a.head.modified) == nanos_at(b.head.modified) && nanos_at(b.head.modified)
        == nanos_at(c.head.modified) {
        lemma_text_transitive(a.head.id, b.head.id, c.head.id);
    }
}

fn text_is_upto(a: &str, b: &str) -> (r: bool)
    ensures
        r == text_upto(a@, b@),
{
    let x: Vec<char> = to_chars(a);
    let y: Vec<char> = to_chars(b);
    let mut i: usize = 0;
    assert(x@.skip(0) =~= x@);
    assert(y@.skip(0) =~= y@);
    while i < x.len()
        invariant
            i <= x@.len(),
            i <= y@.len(),
            text_upto(a@, b@) == text_upto(x@.skip(i as int), y@.skip(i as int)),
        decreases x@.len() - i,
    {
        if i >= y.len() {
            return false;
        }
        let p: char = x[i];
        let q: char = y[i];
        assert(x@.skip(i as int)[0] == p);
        assert(y@.skip(i as int)[0] == q);
        if p != q {
            return p < q;
        }
        assert(x@.skip(i as int).skip(1) =~= x@.skip(i + 1));
        assert(y@.skip(i as int).skip(1) =~= y@.skip(i + 1));
        i += 1;
    }
    true
}

fn row_is_upto(a: &SessionEntry, b: &SessionEntry) -> (r: bool)
    ensures
        r == row_upto(a@, b@),
{
    let x: i128 = nanos(&a.head.modified);
    let y: i128 = nanos(&b.head.modified);
    x > y || (x == y && text_is_upto(a.head.id.as_str(), b.head.id.as_str()))
}

proof fn lemma_insert_counts(s: Seq<EntryView>, i: int, x: EntryView)
    requires
        0 <= i <= s.len(),
    ensures
        s.insert(i, x).to_multiset() == s.to_multiset().insert(x),
{
    broadcast use vstd::seq_lib::group_to_multiset_ensures;

    let t = s.insert(i, x);
    assert(t[i] == x);
    assert(t.contains(x));
    assert(t.remove(i) =~= s);
    assert(t.to_multiset().count(x) > 0);
    assert(t.to_multiset() =~= t.to_multiset().remove(x).insert(x));
}

/// Put a row where it belongs.
fn place_row(rows: &mut Vec<SessionEntry>, row: SessionEntry)
    requires
        in_order(views(old(rows)@)),
    ensures
        in_order(views(final(rows)@)),
        views(final(rows)@).to_multiset() == views(old(rows)@).to_multiset().insert(row@),
{
    let ghost all = views(rows@);
    let ghost x = row@;
    let mut at: usize = 0;
    while at < rows.len() && row_is_upto(&rows[at], &row)
        invariant
            at <= rows@.len(),
            all == views(rows@),
            x == row@,
            forall|k: int| 0 <= k < at ==> row_upto(#[trigger] all[k], x),
        decreases rows@.len() - at,
    {
        assert(all[at as int] == rows@[at as int]@);
        at += 1;
    }
    proof {
        assert(all.len() == rows@.len());
        if at < rows@.len() {
            assert(all[at as int] == rows@[at as int]@);
            lemma_row_total(all[at as int], x);
            assert forall|k: int| at <= k < all.len() implies row_upto(x, #[trigger] all[k]) by {
                if k > at {
                    lemma_row_transitive(x, all[at as int], all[k]);
                }
            }
        }
    }
    rows.insert(at, row);
    proof {
        let now = views(rows@);
        assert(now =~= all.insert(at as int, x));
        lemma_insert_counts(all, at as int, x);
        assert forall|i: int, j: int|
            #![trigger now[i], now[j]]
            0 <= i < j < now.len() implies row_upto(now[i], now[j]) by {
            let a = if i < at {
                i
            } else {
                i - 1
            };
            let b = if j < at {
                j
            } else {
                j - 1
            };
            if i != at {
                assert(now[i] == all[a]);
            }
            if j != at {
                assert(now[j] == all[b]);
            }
        }
    }
}

/// Whether a log belongs in a listing: the sessions that nobody started, or those
/// that one session did.
pub open spec fn listed(cached: Cached, parent: Option<Seq<char>>) -> bool {
    cached.head is Some && opt_text(cached.head->0.meta.parent_id) == parent
}

/// The rows of the first `n` logs that belong.
pub open spec fn rows_upto(cache: Seq<Cached>, n: int, parent: Option<Seq<char>>, now: Moment) -> Seq<
    EntryView,
>
    decreases n,
{
    if n <= 0 || n > cache.len() {
        Seq::empty()
    } else {
        let before = rows_upto(cache, n - 1, parent, now);
        if listed(cache[n - 1], parent) {
            before.push(
                row_of(cache[n - 1].head->0@, scratch_view(cache[n - 1].scratch), now),
            )
        } else {
            before
        }
    }
}

fn belongs(parent_id: &Option<String>, parent: Option<&str>) -> (r: bool)
    ensures
        r == (opt_text(*parent_id) == parent_view(parent)),
{
    match (parent_id, parent) {
        (Some(a), Some(b)) => same(a.as_str(), b),
        (None, None) => true,
        _ => false,
    }
}

/// The rows of a listing, in order.
pub fn select(cache: &Vec<Cached>, parent: Option<&str>, now: Moment) -> (r: Vec<SessionEntry>)
    ensures
        in_order(views(r@)),
        views(r@).to_multiset() == rows_upto(
            cache@,
            cache@.len() as int,
            parent_view(parent),
            now,
        ).to_multiset(),
{
    broadcast use vstd::seq_lib::group_to_multiset_ensures;

    let mut rows: Vec<SessionEntry> = Vec::new();
    let mut i: usize = 0;
    while i < cache.len()
        invariant
            i <= cache@.len(),
            in_order(views(rows@)),
            views(rows@).to_multiset() == rows_upto(
                cache@,
                i as int,
                parent_view(parent),
                now,
            ).to_multiset(),
        decreases cache@.len() - i,
    {
        if let Some(head) = &cache[i].head {
            if belongs(&head.meta.parent_id, parent) {
                let row: SessionEntry = entry_of(head, &cache[i].scratch, now);
                proof {
                    vstd::seq_lib::to_multiset_build(
                        rows_upto(cache@, i as int, parent_view(parent), now),
                        row@,
                    );
                }
                place_row(&mut rows, row);
            }
        }
        i += 1;
    }
    rows
}

/// The sessions that nobody started.
pub fn sessions(cache: &Vec<Cached>, now: Moment) -> (r: Vec<SessionEntry>)
    ensures
        in_order(views(r@)),
        views(r@).to_multiset() == rows_upto(cache@, cache@.len() as int, None, now).to_multiset(),
{
    select(cache, None, now)
}

/// The sessions that one session started.
pub fn children(cache: &Vec<Cached>, parent_id: &str, now: Moment) -> (r: Vec<SessionEntry>)
    ensures
        in_order(views(r@)),
        views(r@).to_multiset() == rows_upto(
            cache@,
            cache@.len() as int,
            Some(parent_id@),
            now,
        ).to_multiset(),
{
    select(cache, Some(parent_id), now)
}

// ---- File names ----

/// What a file name stands for, going by its ending.
#[derive(Debug, PartialEq, Eq)]
pub enum FileKind {
    Log(String),
    Scratch(String),
    Other,
}

/// What a file name stands for: the log of a session, the scratch beside it, or
/// neither. Whether the rest of the name is an id is not looked at.
pub fn file_kind(name: &str) -> (r: FileKind)
    ensures
        match r {
            FileKind::Log(id) => ends(name@, ".jsonl"@) && id@ == name@.take(
                name@.len() - ".jsonl"@.len(),
            ),
            FileKind::Scratch(id) => !ends(name@, ".jsonl"@) && ends(name@, ".live"@) && id@
                == name@.take(name@.len() - ".live"@.len()),
            FileKind::Other => !ends(name@, ".jsonl"@) && !ends(name@, ".live"@),
        },
{
    match strip_suffix(name, ".jsonl") {
        Some(id) => FileKind::Log(id),
        None => match strip_suffix(name, ".live") {
            Some(id) => FileKind::Scratch(id),
            None => FileKind::Other,
        },
    }
}

/// A session that leaves no scratch is idle. One whose scratch was written less than a
/// minute ago works, and any other has stalled.
pub proof fn law_a_quiet_minute_is_a_stall(head: HeadView, scratch: ScratchView, now: Moment)
    requires
        scratch.modified.nanos < 1_000_000_000,
        now.nanos < 1_000_000_000,
    ensures
        row_of(head, None, now).state == LiveState::Idle,
        row_of(head, None, now).activity is None,
        row_of(head, Some(scratch), now).activity == scratch.activity,
        now.seconds - scratch.modified.seconds < 60 ==> row_of(head, Some(scratch), now).state
            == LiveState::Working,
        now.seconds - scratch.modified.seconds > 60 ==> row_of(head, Some(scratch), now).state
            == LiveState::Stalled,
        now.seconds - scratch.modified.seconds == 60 ==> row_of(head, Some(scratch), now).state
            == (if now.nanos >= scratch.modified.nanos {
            LiveState::Stalled
        } else {
            LiveState::Working
        }),
        row_of(head, Some(scratch), now).head == head,
{
}

/// What was written to last stands first; of two that were written to at one time, the
/// one whose id comes first.
pub proof fn law_the_newest_stands_first(a: EntryView, b: EntryView)
    requires
        a.head.modified.nanos < 1_000_000_000,
        b.head.modified.nanos < 1_000_000_000,
    ensures
        a.head.modified.seconds > b.head.modified.seconds ==> row_upto(a, b) && !row_upto(b, a),
        a.head.modified.seconds == b.head.modified.seconds && a.head.modified.nanos
            > b.head.modified.nanos ==> row_upto(a, b) && !row_upto(b, a),
        a.head.modified == b.head.modified && a.head.id.len() > 0 && b.head.id.len() > 0
            && a.head.id[0] < b.head.id[0] ==> row_upto(a, b) && !row_upto(b, a),
{
}

/// A listing has a row for each log that can be read and whose parent is the one asked
/// for, and for no other.
pub proof fn law_a_listing_is_of_its_parent(
    cache: Seq<Cached>,
    n: int,
    parent: Option<Seq<char>>,
    now: Moment,
)
    requires
        0 <= n <= cache.len(),
    ensures
        ({
            let rows = rows_upto(cache, n, parent, now);
            &&& forall|i: int|
                0 <= i < n && (#[trigger] cache[i]).head is Some && opt_text(
                    cache[i].head->0.meta.parent_id,
                ) == parent ==> exists|k: int|
                    0 <= k < rows.len() && (#[trigger] rows[k]).head == cache[i].head->0@
            &&& forall|k: int|
                0 <= k < rows.len() ==> exists|i: int|
                    0 <= i < n && (#[trigger] cache[i]).head is Some && (
                    #[trigger] rows[k]).head == cache[i].head->0@ && opt_text(
                        cache[i].head->0.meta.parent_id,
                    ) == parent
        }),
    decreases n,
{
    if n > 0 {
        law_a_listing_is_of_its_parent(cache, n - 1, parent, now);
        let before = rows_upto(cache, n - 1, parent, now);
        let rows = rows_upto(cache, n, parent, now);
        assert forall|i: int|
            0 <= i < n && (#[trigger] cache[i]).head is Some && opt_text(
                cache[i].head->0.meta.parent_id,
            ) == parent implies exists|k: int|
            0 <= k < rows.len() && (#[trigger] rows[k]).head == cache[i].head->0@ by {
            if i < n - 1 {
                let k = choose|k: int|
                    0 <= k < before.len() && (#[trigger] before[k]).head == cache[i].head->0@;
                assert(rows[k] == before[k]);
            } else {
                assert(rows[rows.len() - 1].head == cache[i].head->0@);
            }
        }
        assert forall|k: int| 0 <= k < rows.len() implies exists|i: int|
            0 <= i < n && (#[trigger] cache[i]).head is Some && (#[trigger] rows[k]).head
                == cache[i].head->0@ && opt_text(cache[i].head->0.meta.parent_id) == parent by {
            if k < before.len() {
                assert(rows[k] == before[k]);
            } else {
                assert(rows[k].head == cache[n - 1].head->0@);
            }
        }
    }
}

} // verus!
