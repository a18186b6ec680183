//! A session restored with the timelines of its agents, and what they spent.

use vstd::prelude::*;
use crate::chars::{group_views, own, same, views};
use crate::session::event::{no_usage, SessionLog, Usage};
use crate::session::restore::{
    add_usage, broken_off, ends_mid_turn, lemma_usage_sum, restored,
    restored_session_invocation_view,
    session_own_spend, spend_upto, usage_sum, Extent, Liveness, RestoredSessionView, RestoredView,
};
use crate::transcript::model::{
    copy_lines, lemma_tool_view, opt_text, ItemView, KindView, Line_, ToolKind, ToolRow, ToolView,
};
use crate::transcript::rows::has_text;

verus! {

broadcast use {group_views, lemma_tool_view};

/// How deep timelines are restored.
pub const MAX_RESTORED_DEPTH: usize = 8;

/// The first log from `i` on with this id, or the number of logs.
pub open spec fn log_index(logs: Seq<SessionLog>, i: int, id: Seq<char>) -> int
    decreases logs.len() - i,
{
    if i < 0 || i >= logs.len() || logs[i].id@ == id {
        i
    } else {
        log_index(logs, i + 1, id)
    }
}

/// Whether a log belongs to a session that `owner` started.
pub open spec fn child_of(log: SessionLog, owner: Seq<char>) -> bool {
    match log.meta {
        Some(meta) => opt_text(meta.parent_id) == Some(owner),
        None => false,
    }
}

/// The agent that a session ran.
pub open spec fn agent_of(log: SessionLog) -> Seq<char> {
    match log.meta {
        Some(meta) => meta.agent@,
        None => Seq::empty(),
    }
}

/// A timeline without the prompt that its agent's row shows already. It comes
/// first, or behind the summary or the switch of model that the timeline leads
/// with.
pub open spec fn without_prompt(lines: Seq<ItemView>) -> Seq<ItemView> {
    let at: int = if lines.len() > 0 && (lines[0] is Note || lines[0] is System) {
        1
    } else {
        0
    };
    if at < lines.len() && lines[at] is Incoming {
        lines.remove(at)
    } else {
        lines
    }
}

/// The timeline of an agent that has finished: the session, the call that it
/// answered, and its lines. Restored, they are whole; digested, they are what is
/// kept of them.
#[derive(Debug)]
pub struct Timeline {
    pub session: String,
    pub call: String,
    pub lines: Vec<Line_>,
}

#[verifier::ext_equal]
pub struct TimelineView {
    pub session: Seq<char>,
    pub call: Seq<char>,
    pub lines: Seq<ItemView>,
}

impl View for Timeline {
    type V = TimelineView;

    open spec fn view(&self) -> TimelineView {
        TimelineView { session: self.session@, call: self.call@, lines: views(self.lines@) }
    }
}

/// The first timeline from `i` on of this call of this session, or the number of
/// timelines.
pub open spec fn timeline_index(
    all: Seq<TimelineView>,
    i: int,
    session: Seq<char>,
    call: Seq<char>,
) -> int
    decreases all.len() - i,
{
    if i < 0 || i >= all.len() || (all[i].session == session && all[i].call == call) {
        i
    } else {
        timeline_index(all, i + 1, session, call)
    }
}

/// The timeline that a session's log leaves of the call, all of it but the prompt.
pub open spec fn whole_timeline(log: SessionLog, call: Seq<char>, liveness: Liveness) -> Seq<
    ItemView,
> {
    without_prompt(
        restored(log.events@, waits_on(log), Some(call), liveness, Extent::Compacted).lines,
    )
}

/// The timeline that is shown below a call. That of an agent which has finished is
/// digested.
pub open spec fn shown_timeline(
    log: SessionLog,
    session: Seq<char>,
    call: Seq<char>,
    liveness: Liveness,
    digests: Seq<TimelineView>,
) -> Seq<ItemView> {
    if liveness is Settled {
        digests[timeline_index(digests, 0, session, call)].lines
    } else {
        whole_timeline(log, call, liveness)
    }
}

pub open spec fn opt_timeline(t: Option<Timeline>) -> Option<TimelineView> {
    match t {
        Some(t) => Some(t@),
        None => None,
    }
}

/// The first timeline below the lines from `i` on that has finished and is not
/// digested yet. Below a timeline that is digested, only what it kept counts.
pub open spec fn undigested_from(
    lines: Seq<ItemView>,
    i: int,
    logs: Seq<SessionLog>,
    owner: Seq<char>,
    depth: nat,
    digests: Seq<TimelineView>,
) -> Option<TimelineView>
    decreases MAX_RESTORED_DEPTH - depth, lines.len() - i,
{
    if depth >= MAX_RESTORED_DEPTH || i < 0 || i >= lines.len() {
        None
    } else if !restorable(lines[i], logs, owner) {
        undigested_from(lines, i + 1, logs, owner, depth, digests)
    } else {
        let call = lines[i]->Tool_0.id;
        let session = lines[i]->Tool_0.child_session_id->0;
        let at = timeline_index(digests, 0, session, call);
        if at >= digests.len() {
            Some(
                TimelineView {
                    session,
                    call,
                    lines: whole_timeline(
                        logs[log_index(logs, 0, session)],
                        call,
                        Liveness::Settled,
                    ),
                },
            )
        } else {
            match undigested_from(digests[at].lines, 0, logs, session, depth + 1, digests) {
                Some(timeline) => Some(timeline),
                None => undigested_from(lines, i + 1, logs, owner, depth, digests),
            }
        }
    }
}

/// Whether every timeline below the lines that has finished is digested.
pub open spec fn all_digested(
    lines: Seq<ItemView>,
    logs: Seq<SessionLog>,
    owner: Seq<char>,
    depth: nat,
    liveness: Liveness,
    digests: Seq<TimelineView>,
) -> bool {
    liveness is Settled ==> undigested_from(lines, 0, logs, owner, depth, digests) is None
}

/// Lines with timelines restored below them: the lines, what the agents spent,
/// whether all of it has a price, and the sessions that were counted.
#[verifier::ext_equal]
pub struct WithChildren {
    pub lines: Seq<ItemView>,
    pub usage: Usage,
    pub priced: bool,
    pub counted: Seq<Seq<char>>,
}

/// The session whose timeline is restored below a line: the one that the line's
/// call names, where there is a log of it and `owner` started it.
pub open spec fn restorable(l: ItemView, logs: Seq<SessionLog>, owner: Seq<char>) -> bool {
    match l {
        ItemView::Tool(t) => match t.child_session_id {
            Some(session) => {
                let i = log_index(logs, 0, session);
                0 <= i < logs.len() && child_of(logs[i], owner)
            },
            None => false,
        },
        _ => false,
    }
}

/// The view of the question that a session waits on.
pub open spec fn waits_on(log: SessionLog) -> Option<Seq<char>> {
    opt_text(log.pending_question)
}

/// The first `n` lines with the timelines of their agents. Each session is
/// counted once, however many calls name it. A call that has an agent's timeline
/// is an agent's call, whatever tool made it. A timeline that has finished is
/// digested before anything is restored below it, so what the digest leaves out is
/// neither restored nor counted.
pub open spec fn children_upto(
    lines: Seq<ItemView>,
    n: int,
    logs: Seq<SessionLog>,
    owner: Seq<char>,
    depth: nat,
    liveness: Liveness,
    digests: Seq<TimelineView>,
    counted: Seq<Seq<char>>,
) -> WithChildren
    decreases MAX_RESTORED_DEPTH - depth, n,
{
    if depth >= MAX_RESTORED_DEPTH || n <= 0 || n > lines.len() {
        WithChildren { lines, usage: no_usage(), priced: true, counted }
    } else {
        let before = children_upto(lines, n - 1, logs, owner, depth, liveness, digests, counted);
        if !restorable(lines[n - 1], logs, owner) {
            before
        } else {
            let t = lines[n - 1]->Tool_0;
            let session = t.child_session_id->0;
            let log = logs[log_index(logs, 0, session)];
            let own = spend_upto(log.events@, log.events@.len() as int);
            let known = before.counted.contains(session);
            let below = shown_timeline(log, session, t.id, liveness, digests);
            let deeper = children_upto(
                below,
                below.len() as int,
                logs,
                session,
                depth + 1,
                liveness,
                digests,
                if known {
                    before.counted
                } else {
                    before.counted.push(session)
                },
            );
            WithChildren {
                lines: before.lines.update(
                    n - 1,
                    ItemView::Tool(
                        ToolView {
                            kind: if t.kind is Tool && deeper.lines.len() > 0 && agent_of(log).len()
                                > 0 {
                                KindView::Agent { name: agent_of(log), model: None }
                            } else {
                                t.kind
                            },
                            child_lines: deeper.lines,
                            ..t
                        },
                    ),
                ),
                usage: usage_sum(
                    if known {
                        before.usage
                    } else {
                        usage_sum(before.usage, own.0)
                    },
                    deeper.usage,
                ),
                priced: before.priced && (known || own.1) && deeper.priced,
                counted: deeper.counted,
            }
        }
    }
}

proof fn lemma_children_upto(
    lines: Seq<ItemView>,
    n: int,
    logs: Seq<SessionLog>,
    owner: Seq<char>,
    depth: nat,
    liveness: Liveness,
    digests: Seq<TimelineView>,
    counted: Seq<Seq<char>>,
)
    ensures
        ({
            let r = children_upto(lines, n, logs, owner, depth, liveness, digests, counted);
            r.lines.len() == lines.len() && forall|k: int|
                n <= k < lines.len() ==> #[trigger] r.lines[k] == lines[k]
        }),
    decreases n,
{
    if depth < MAX_RESTORED_DEPTH && 0 < n <= lines.len() {
        lemma_children_upto(lines, n - 1, logs, owner, depth, liveness, digests, counted);
    }
}

fn find_log(logs: &Vec<SessionLog>, id: &str) -> (r: Option<usize>)
    ensures
        match r {
            Some(i) => i == log_index(logs@, 0, id@) && i < logs@.len(),
            None => log_index(logs@, 0, id@) >= logs@.len(),
        },
{
    let mut i: usize = 0;
    while i < logs.len()
        invariant
            i <= logs@.len(),
            log_index(logs@, 0, id@) == log_index(logs@, i as int, id@),
        decreases logs@.len() - i,
    {
        if same(logs[i].id.as_str(), id) {
            return Some(i);
        }
        i += 1;
    }
    None
}

fn is_child_of(log: &SessionLog, owner: &str) -> (r: bool)
    ensures
        r == child_of(*log, owner@),
{
    match &log.meta {
        Some(meta) => match &meta.parent_id {
            Some(parent) => same(parent.as_str(), owner),
            None => false,
        },
        None => false,
    }
}

fn drop_prompt(lines: &mut Vec<Line_>)
    ensures
        views(final(lines)@) == without_prompt(views(old(lines)@)),
{
    let ghost all = views(lines@);
    let mut at: usize = 0;
    if lines.len() > 0 {
        assert(all[0] == lines@[0]@);
        match &lines[0] {
            Line_::Note { .. } | Line_::System(_) => {
                at = 1;
            },
            _ => {},
        }
    }
    if at < lines.len() {
        assert(all[at as int] == lines@[at as int]@);
        if let Line_::Incoming(_) = &lines[at] {
            lines.remove(at);
            assert(views(lines@) =~= all.remove(at as int));
        }
    }
}

fn pending_of(log: &SessionLog) -> (r: Option<&str>)
    ensures
        crate::session::restore::parent_view(r) == waits_on(*log),
{
    match &log.pending_question {
        Some(id) => Some(id.as_str()),
        None => None,
    }
}

/// The log of the session below a line, where there is one to restore.
fn log_below(line: &Line_, logs: &Vec<SessionLog>, owner: &str) -> (r: Option<usize>)
    ensures
        match r {
            Some(i) => restorable(line@, logs@, owner@) && i < logs@.len() && i == log_index(
                logs@,
                0,
                line@->Tool_0.child_session_id->0,
            ),
            None => !restorable(line@, logs@, owner@),
        },
{
    if let Line_::Tool(row) = line {
        if let Some(session) = &row.child_session_id {
            if let Some(i) = find_log(logs, session.as_str()) {
                if is_child_of(&logs[i], owner) {
                    return Some(i);
                }
            }
        }
    }
    None
}

/// Put a timeline below a call.
fn attach(row: &mut ToolRow, below: Vec<Line_>, log: &SessionLog)
    ensures
        final(row)@ == (ToolView {
            kind: if old(row)@.kind is Tool && below@.len() > 0 && agent_of(*log).len() > 0 {
                KindView::Agent { name: agent_of(*log), model: None }
            } else {
                old(row)@.kind
            },
            child_lines: views(below@),
            ..old(row)@
        }),
{
    let plain: bool = match &row.kind {
        ToolKind::Tool => true,
        ToolKind::Agent { .. } => false,
    };
    if plain && below.len() > 0 {
        if let Some(meta) = &log.meta {
            if !meta.agent.as_str().is_empty() {
                row.kind = ToolKind::Agent { name: own(meta.agent.as_str()), model: None };
            }
        }
    }
    row.child_lines = below;
}

fn find_timeline(all: &Vec<Timeline>, session: &str, call: &str) -> (r: Option<usize>)
    ensures
        match r {
            Some(i) => i == timeline_index(views(all@), 0, session@, call@) && i < all@.len(),
            None => timeline_index(views(all@), 0, session@, call@) >= all@.len(),
        },
{
    let ghost known = views(all@);
    let mut i: usize = 0;
    while i < all.len()
        invariant
            i <= all@.len(),
            known == views(all@),
            timeline_index(known, 0, session@, call@) == timeline_index(
                known,
                i as int,
                session@,
                call@,
            ),
        decreases all@.len() - i,
    {
        assert(known[i as int] == all@[i as int]@);
        if same(all[i].session.as_str(), session) && same(all[i].call.as_str(), call) {
            return Some(i);
        }
        i += 1;
    }
    None
}

/// Where the digest of a timeline is that has one.
fn digest_of(digests: &Vec<Timeline>, session: &str, call: &str) -> (r: usize)
    requires
        timeline_index(views(digests@), 0, session@, call@) < digests@.len(),
    ensures
        r == timeline_index(views(digests@), 0, session@, call@),
{
    match find_timeline(digests, session, call) {
        Some(i) => i,
        None => 0,
    }
}

fn timeline_of(log: &SessionLog, call: &str, liveness: Liveness) -> (r: Vec<Line_>)
    ensures
        views(r@) == whole_timeline(*log, call@, liveness),
{
    let mut lines: Vec<Line_> = restored_session_invocation_view(
        &log.events,
        pending_of(log),
        Some(call),
        liveness,
    ).lines;
    drop_prompt(&mut lines);
    lines
}

/// The first timeline below the lines that has finished and is not digested yet.
pub fn next_undigested(
    lines: &Vec<Line_>,
    logs: &Vec<SessionLog>,
    owner_session_id: &str,
    depth: usize,
    digests: &Vec<Timeline>,
) -> (r: Option<Timeline>)
    ensures
        opt_timeline(r) == undigested_from(
            views(lines@),
            0,
            logs@,
            owner_session_id@,
            depth as nat,
            views(digests@),
        ),
    decreases (if depth <= MAX_RESTORED_DEPTH {
        MAX_RESTORED_DEPTH - depth
    } else {
        0
    }),
{
    if depth >= MAX_RESTORED_DEPTH {
        return None;
    }
    let ghost all = views(lines@);
    let ghost known = views(digests@);
    let n: usize = lines.len();
    let mut i: usize = 0;
    while i < n
        invariant
            i <= n,
            n == lines@.len(),
            all == views(lines@),
            known == views(digests@),
            depth < MAX_RESTORED_DEPTH,
            undigested_from(all, 0, logs@, owner_session_id@, depth as nat, known)
                == undigested_from(
                all,
                i as int,
                logs@,
                owner_session_id@,
                depth as nat,
                known,
            ),
        decreases n - i,
    {
        assert(all[i as int] == lines@[i as int]@);
        if let Some(k) = log_below(&lines[i], logs, owner_session_id) {
            if let Line_::Tool(row) = &lines[i] {
                if let Some(session) = &row.child_session_id {
                    match find_timeline(digests, session.as_str(), row.id.as_str()) {
                        None => {
                            return Some(
                                Timeline {
                                    session: own(session.as_str()),
                                    call: own(row.id.as_str()),
                                    lines: timeline_of(
                                        &logs[k],
                                        row.id.as_str(),
                                        Liveness::Settled,
                                    ),
                                },
                            );
                        },
                        Some(at) => {
                            assert(known[at as int] == digests@[at as int]@);
                            let deeper: Option<Timeline> = next_undigested(
                                &digests[at].lines,
                                logs,
                                session.as_str(),
                                depth + 1,
                                digests,
                            );
                            if deeper.is_some() {
                                return deeper;
                            }
                        },
                    }
                }
            }
        }
        i += 1;
    }
    None
}

/// Restore the timelines of the agents that these lines started, and say what
/// they spent. `counted` holds the sessions that were counted already, and
/// `digests` the timelines of the agents that have finished.
pub fn restore_child_activity(
    lines: &mut Vec<Line_>,
    logs: &Vec<SessionLog>,
    owner_session_id: &str,
    depth: usize,
    liveness: Liveness,
    digests: &Vec<Timeline>,
    counted: &mut Vec<String>,
) -> (r: (Usage, bool))
    requires
        all_digested(
            views(old(lines)@),
            logs@,
            owner_session_id@,
            depth as nat,
            liveness,
            views(digests@),
        ),
    ensures
        ({
            let want = children_upto(
                views(old(lines)@),
                old(lines)@.len() as int,
                logs@,
                owner_session_id@,
                depth as nat,
                liveness,
                views(digests@),
                views(old(counted)@),
            );
            &&& views(final(lines)@) == want.lines
            &&& r.0 == want.usage
            &&& r.1 == want.priced
            &&& views(final(counted)@) == want.counted
        }),
    decreases (if depth <= MAX_RESTORED_DEPTH {
        MAX_RESTORED_DEPTH - depth
    } else {
        0
    }),
{
    let mut usage: Usage = Usage::none();
    let mut priced: bool = true;
    if depth >= MAX_RESTORED_DEPTH {
        return (usage, priced);
    }
    let ghost all = views(lines@);
    let ghost met = views(counted@);
    let n: usize = lines.len();
    let mut i: usize = 0;
    while i < n
        invariant
            i <= n,
            n == lines@.len(),
            n == all.len(),
            depth < MAX_RESTORED_DEPTH,
            liveness is Settled ==> undigested_from(
                all,
                i as int,
                logs@,
                owner_session_id@,
                depth as nat,
                views(digests@),
            ) is None,
            (WithChildren {
                lines: views(lines@),
                usage,
                priced,
                counted: views(counted@),
            }) == children_upto(
                all,
                i as int,
                logs@,
                owner_session_id@,
                depth as nat,
                liveness,
                views(digests@),
                met,
            ),
        decreases n - i,
    {
        proof {
            lemma_children_upto(
                all,
                i as int,
                logs@,
                owner_session_id@,
                depth as nat,
                liveness,
                views(digests@),
                met,
            );
        }
        let ghost before = views(lines@);
        assert(before[i as int] == lines@[i as int]@);
        assert(before[i as int] == all[i as int]);
        if let Some(k) = log_below(&lines[i], logs, owner_session_id) {
            if let Line_::Tool(row) = &mut lines[i] {
                let ghost t = row@;
                let session: String = match &row.child_session_id {
                    Some(session) => own(session.as_str()),
                    None => String::new(),
                };
                assert(t.child_session_id == Some(session@));
                if !has_text(counted, session.as_str()) {
                    let (own_usage, own_priced) = session_own_spend(&logs[k]);
                    add_usage(&mut usage, &own_usage);
                    priced = priced && own_priced;
                    counted.push(own(session.as_str()));
                }
                let mut below: Vec<Line_> = if liveness == Liveness::Settled {
                    let at: usize = digest_of(digests, session.as_str(), row.id.as_str());
                    assert(views(digests@)[at as int] == digests@[at as int]@);
                    copy_lines(&digests[at].lines)
                } else {
                    timeline_of(&logs[k], row.id.as_str(), liveness)
                };
                let (deeper_usage, deeper_priced) = restore_child_activity(
                    &mut below,
                    logs,
                    session.as_str(),
                    depth + 1,
                    liveness,
                    digests,
                    counted,
                );
                add_usage(&mut usage, &deeper_usage);
                priced = priced && deeper_priced;
                assert(views(below@).len() == below@.len());
                attach(row, below, &logs[k]);
            }
            assert(views(lines@) =~= before.update(i as int, lines@[i as int]@));
        }
        i += 1;
    }
    (usage, priced)
}

/// The id that the agents of a session name as its own.
pub open spec fn owner_of(session: SessionLog) -> Seq<char> {
    match session.meta {
        Some(meta) => meta.session_id@,
        None => Seq::empty(),
    }
}

/// What a session restores to on its own.
pub open spec fn restored_alone(session: SessionLog, liveness: Liveness) -> RestoredView {
    restored(session.events@, waits_on(session), None, liveness, Extent::Compacted)
}

/// What a session restores to with its agents.
pub open spec fn restored_with_logs(
    session: SessionLog,
    logs: Seq<SessionLog>,
    liveness: Liveness,
    digests: Seq<TimelineView>,
) -> RestoredView {
    let alone = restored_alone(session, liveness);
    let whole = children_upto(
        alone.lines,
        alone.lines.len() as int,
        logs,
        owner_of(session),
        0,
        liveness,
        digests,
        Seq::empty(),
    );
    RestoredView {
        lines: whole.lines,
        task_usage: whole.usage,
        task_priced: whole.priced,
        resume_offer: session.pending_question is None && broken_off(
            session.events@,
            session.events@.len() as int,
        ) == Some(true),
        history_before: session.event_base as nat,
        ..alone
    }
}

/// Restore a session with its agents. `logs` holds the logs of the sessions that
/// can be read, and `digests` the digests of the timelines that have finished.
/// Where one of those is missing, its timeline comes back to be digested.
pub fn restored_session_view_with_store(
    session: &SessionLog,
    logs: &Vec<SessionLog>,
    liveness: Liveness,
    digests: &Vec<Timeline>,
) -> (r: Result<RestoredSessionView, Timeline>)
    ensures
        ({
            let missing = if liveness is Settled {
                undigested_from(
                    restored_alone(*session, liveness).lines,
                    0,
                    logs@,
                    owner_of(*session),
                    0,
                    views(digests@),
                )
            } else {
                None
            };
            match r {
                Ok(view) => missing is None && view@ == restored_with_logs(
                    *session,
                    logs@,
                    liveness,
                    views(digests@),
                ),
                Err(timeline) => missing == Some(timeline@),
            }
        }),
{
    let mut view: RestoredSessionView = restored_session_invocation_view(
        &session.events,
        pending_of(session),
        None,
        liveness,
    );
    view.history_before = session.event_base;
    let owner: &str = match &session.meta {
        Some(meta) => meta.session_id.as_str(),
        None => "",
    };
    proof {
        reveal_strlit("");
        assert(session.meta is None ==> owner@ =~= Seq::<char>::empty());
    }
    if liveness == Liveness::Settled {
        if let Some(timeline) = next_undigested(&view.lines, logs, owner, 0, digests) {
            return Err(timeline);
        }
    }
    let mut counted: Vec<String> = Vec::new();
    assert(views(view.lines@).len() == view.lines@.len());
    let (usage, priced) = restore_child_activity(
        &mut view.lines,
        logs,
        owner,
        0,
        liveness,
        digests,
        &mut counted,
    );
    view.task_usage = usage;
    view.task_priced = priced;
    view.resume_offer = session.pending_question.is_none() && ends_mid_turn(&session.events);
    Ok(view)
}

/// Restore a session that nothing drives, without its agents.
pub fn restored_session_view(session: &SessionLog) -> (r: RestoredSessionView)
    ensures
        r@ == (RestoredView {
            history_before: session.event_base as nat,
            ..restored(
                session.events@,
                waits_on(*session),
                None,
                Liveness::Settled,
                Extent::Compacted,
            )
        }),
{
    let mut view: RestoredSessionView = restored_session_invocation_view(
        &session.events,
        pending_of(session),
        None,
        Liveness::Settled,
    );
    view.history_before = session.event_base;
    view
}

/// What comes back to be digested has no digest yet: once it is digested, it does
/// not come back.
pub proof fn law_only_what_has_no_digest_comes_back(
    lines: Seq<ItemView>,
    i: int,
    logs: Seq<SessionLog>,
    owner: Seq<char>,
    depth: nat,
    digests: Seq<TimelineView>,
)
    ensures
        undigested_from(lines, i, logs, owner, depth, digests) matches Some(timeline) ==> forall|
            k: int,
        |
            0 <= k < digests.len() ==> !((#[trigger] digests[k]).session == timeline.session
                && digests[k].call == timeline.call),
    decreases MAX_RESTORED_DEPTH - depth, lines.len() - i,
{
    if depth < MAX_RESTORED_DEPTH && 0 <= i < lines.len() {
        law_only_what_has_no_digest_comes_back(lines, i + 1, logs, owner, depth, digests);
        if restorable(lines[i], logs, owner) {
            let call = lines[i]->Tool_0.id;
            let session = lines[i]->Tool_0.child_session_id->0;
            let at = timeline_index(digests, 0, session, call);
            lemma_timeline_index(digests, 0, session, call);
            if at < digests.len() {
                law_only_what_has_no_digest_comes_back(
                    digests[at].lines,
                    0,
                    logs,
                    session,
                    depth + 1,
                    digests,
                );
            }
        }
    }
}

proof fn lemma_timeline_index(
    all: Seq<TimelineView>,
    i: int,
    session: Seq<char>,
    call: Seq<char>,
)
    requires
        0 <= i <= all.len(),
    ensures
        i <= timeline_index(all, i, session, call) <= all.len(),
        forall|k: int|
            i <= k < timeline_index(all, i, session, call) ==> !((#[trigger] all[k]).session
                == session && all[k].call == call),
    decreases all.len() - i,
{
    if i < all.len() && !(all[i].session == session && all[i].call == call) {
        lemma_timeline_index(all, i + 1, session, call);
    }
}

/// What a session of the store spent.
pub open spec fn spent_by(logs: Seq<SessionLog>, session: Seq<char>) -> (Usage, bool) {
    let log = logs[log_index(logs, 0, session)];
    spend_upto(log.events@, log.events@.len() as int)
}

/// What several sessions spent.
pub open spec fn spent_by_all(logs: Seq<SessionLog>, sessions: Seq<Seq<char>>) -> (Usage, bool)
    decreases sessions.len(),
{
    if sessions.len() == 0 {
        (no_usage(), true)
    } else {
        let before = spent_by_all(logs, sessions.drop_last());
        let last = spent_by(logs, sessions.last());
        (usage_sum(before.0, last.0), before.1 && last.1)
    }
}

proof fn lemma_spent_by_both(logs: Seq<SessionLog>, a: Seq<Seq<char>>, b: Seq<Seq<char>>)
    ensures
        spent_by_all(logs, a + b) == (
            usage_sum(spent_by_all(logs, a).0, spent_by_all(logs, b).0),
            spent_by_all(logs, a).1 && spent_by_all(logs, b).1,
        ),
    decreases b.len(),
{
    lemma_usage_sum(spent_by_all(logs, a).0, no_usage(), no_usage());
    if b.len() == 0 {
        assert(a + b =~= a);
    } else {
        lemma_spent_by_both(logs, a, b.drop_last());
        assert((a + b).drop_last() =~= a + b.drop_last());
        assert((a + b).last() == b.last());
        lemma_usage_sum(
            spent_by_all(logs, a).0,
            spent_by_all(logs, b.drop_last()).0,
            spent_by(logs, b.last()).0,
        );
    }
}

/// Each agent's session is counted once, however many calls name it and however
/// deep they are: the spend of the agents is that of the sessions counted, no two
/// of which are the same.
pub proof fn law_each_session_is_counted_once(
    lines: Seq<ItemView>,
    n: int,
    logs: Seq<SessionLog>,
    owner: Seq<char>,
    depth: nat,
    liveness: Liveness,
    digests: Seq<TimelineView>,
    counted: Seq<Seq<char>>,
)
    requires
        counted.no_duplicates(),
    ensures
        ({
            let r = children_upto(lines, n, logs, owner, depth, liveness, digests, counted);
            &&& r.counted.no_duplicates()
            &&& counted.len() <= r.counted.len()
            &&& r.counted.take(counted.len() as int) == counted
            &&& (r.usage, r.priced) == spent_by_all(logs, r.counted.skip(counted.len() as int))
        }),
    decreases MAX_RESTORED_DEPTH - depth, n,
{
    let m = counted.len() as int;
    assert(counted.take(m) =~= counted);
    assert(counted.skip(m) =~= Seq::empty());
    if depth < MAX_RESTORED_DEPTH && 0 < n <= lines.len() {
        law_each_session_is_counted_once(lines, n - 1, logs, owner, depth, liveness, digests, counted);
        let before = children_upto(lines, n - 1, logs, owner, depth, liveness, digests, counted);
        if restorable(lines[n - 1], logs, owner) {
            let t = lines[n - 1]->Tool_0;
            let session = t.child_session_id->0;
            let log = logs[log_index(logs, 0, session)];
            let below = shown_timeline(log, session, t.id, liveness, digests);
            let known = before.counted.contains(session);
            let now = if known {
                before.counted
            } else {
                before.counted.push(session)
            };
            law_each_session_is_counted_once(
                below,
                below.len() as int,
                logs,
                session,
                depth + 1,
                liveness,
                digests,
                now,
            );
            let deeper = children_upto(
                below,
                below.len() as int,
                logs,
                session,
                depth + 1,
                liveness,
                digests,
                now,
            );
            let all = deeper.counted;
            assert(all.take(m) =~= all.take(now.len() as int).take(m));
            assert(now.take(m) =~= before.counted.take(m));
            let front = now.skip(m);
            let back = all.skip(now.len() as int);
            assert(all.skip(m) =~= front + back) by {
                assert(forall|k: int|
                    0 <= k < now.len() ==> all.take(now.len() as int)[k] == #[trigger] all[k]);
            }
            lemma_spent_by_both(logs, front, back);
            if !known {
                assert(front.drop_last() =~= before.counted.skip(m));
                assert(front.last() == session);
            } else {
                assert(front =~= before.counted.skip(m));
            }
        }
    }
}

} // verus!
