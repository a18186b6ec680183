//! Watching sessions: intervals, tails, scratches and the listing.

use ilar_tui::serve::json::Json;
use ilar_tui::serve::listing::{
    children, entry_of, file_kind, head, record_head, scan_failed, sessions, set_scratches,
    stale_heads, summary, Cached, FileKind, HeadAnswer, HeadRead, LiveState, Scratch, SessionHead,
    Stat, STALE_SCRATCH,
};
use ilar_tui::serve::page::listing;
use ilar_tui::serve::view::LiveDelta;
use ilar_tui::serve::watch::{
    activity_of, hold, idle_tick, next_message, step, LiveMessage, LiveTail, Received, TailEnd,
    TailMessage, TailUpdate, Tailers, WatchConfig, ACTIVITY_CHARS,
};
use ilar_tui::session::event::{Moment, SessionEvent, SessionMeta};

#[test]
fn the_poll_interval_flag_outranks_the_environment() {
    assert_eq!(WatchConfig::resolve(None, None), WatchConfig::default());
    assert_eq!(
        WatchConfig::resolve(None, Some("40")),
        WatchConfig::with_poll_ms(40)
    );
    assert_eq!(
        WatchConfig::resolve(Some(10), Some("40")),
        WatchConfig::with_poll_ms(10)
    );
    // Nonsense is ignored, not obeyed into a busy loop.
    assert_eq!(
        WatchConfig::resolve(None, Some("soon")),
        WatchConfig::default()
    );
    assert_eq!(
        WatchConfig::resolve(None, Some("0")),
        WatchConfig::default()
    );
    assert_eq!(
        WatchConfig::with_poll_ms(50).directory_poll,
        200,
        "the shipped 1:4 ratio survives tuning"
    );
}

fn at(seconds: i64) -> Moment {
    Moment { seconds, nanos: 0 }
}

fn topic(id: &str) -> SessionEvent {
    SessionEvent::Topic { id: id.to_string(), text: "t".to_string(), ts: at(0) }
}

// ---- Tails ----

#[test]
fn a_subscriber_that_fell_behind_is_told_so() {
    assert!(matches!(
        next_message(Received::Lagged),
        Some(TailMessage::Update(TailUpdate::Resync))
    ));
    assert!(next_message(Received::Closed).is_none());
    assert!(matches!(
        next_message(Received::Message(TailMessage::Failed("x".to_string()))),
        Some(TailMessage::Failed(_))
    ));
}

#[test]
fn a_tail_ends_with_its_session_or_with_a_line_it_cannot_read() {
    let look = step(
        Ok(vec![TailUpdate::Appended { line: 3, event: topic("a") }]),
        vec![LiveMessage::Reset],
    );
    assert!(look.alive);
    assert_eq!(look.messages.len(), 2);

    let look = step(Ok(vec![TailUpdate::Deleted]), vec![]);
    assert!(!look.alive);
    assert_eq!(look.ended, Some(TailEnd::Deleted));

    let look = step(Err("newer".to_string()), vec![LiveMessage::Reset]);
    assert!(!look.alive);
    assert_eq!(look.ended, Some(TailEnd::Failed("newer".to_string())));
    assert_eq!(look.messages.len(), 1);
}

#[test]
fn a_tail_lingers_and_then_retires() {
    let (since, over) = idle_tick(None, 0, 100, 30);
    assert_eq!((since, over), (Some(100), false));
    assert_eq!(idle_tick(since, 0, 129, 30), (Some(100), false));
    assert_eq!(idle_tick(since, 0, 130, 30), (Some(100), true));
    assert_eq!(idle_tick(since, 1, 130, 30), (None, false));
}

#[test]
fn a_session_has_one_tail() {
    let mut tailers = Tailers::new();
    assert_eq!(tailers.get("s"), None);
    assert_eq!(tailers.adopt("s", 1, true), 1);
    assert_eq!(tailers.adopt("s", 2, true), 1, "the first one wins");
    assert_eq!(tailers.adopt("over", 3, false), 3);
    assert_eq!(tailers.get("over"), None);
    tailers.retire("s", 2);
    assert_eq!(tailers.get("s"), Some(1), "only its own");
    assert!(!tailers.retire_idle("s", 1, 1));
    assert!(tailers.retire_idle("s", 1, 0));
    assert_eq!(tailers.get("s"), None);
}

fn turn(name: &str, texts: &[&str]) -> Option<Vec<LiveDelta>> {
    let mut lines = vec![LiveDelta::TurnStarted { turn: name.to_string(), step: 1 }];
    lines.extend(texts.iter().map(|text| LiveDelta::TextDelta { text: text.to_string() }));
    Some(lines)
}

fn texts(messages: &[LiveMessage]) -> Vec<String> {
    messages
        .iter()
        .map(|message| match message {
            LiveMessage::Reset => "reset".to_string(),
            LiveMessage::Delta(LiveDelta::TurnStarted { turn, .. }) => turn.clone(),
            LiveMessage::Delta(LiveDelta::TextDelta { text }) => text.clone(),
            LiveMessage::Delta(other) => format!("{other:?}"),
        })
        .collect()
}

#[test]
fn each_scratch_line_is_said_once() {
    let mut tail = LiveTail::open();
    assert!(tail.poll(None).is_empty());
    let first = texts(&tail.poll(turn("t1", &["a"])));
    assert_eq!(first.last().map(String::as_str), Some("a"));
    assert_eq!(texts(&tail.poll(turn("t1", &["a", "b"]))), ["b"]);
    assert!(tail.poll(turn("t1", &["a", "b"])).is_empty());
    // Another turn voids what was said of the last one.
    let next = texts(&tail.poll(turn("t2", &["c"])));
    assert_eq!(next, ["reset", "c"]);
    // And so does a scratch that is gone.
    assert_eq!(texts(&tail.poll(None)), ["reset"]);
    assert!(tail.poll(None).is_empty());
    assert!(!tail.forget());
}

#[test]
fn a_late_subscriber_gets_what_the_running_step_has_streamed() {
    let head = || LiveDelta::TurnStarted { turn: "t1".to_string(), step: 0 };
    let said = |text: &str| LiveDelta::TextDelta { text: text.to_string() };
    let mut tail = LiveTail::open();
    let mut held: Vec<LiveDelta> = Vec::new();
    let mut look = |read: Option<Vec<LiveDelta>>| {
        let messages = tail.poll(read);
        hold(&mut held, messages);
        format!("{held:?}")
    };
    let of = |deltas: Vec<LiveDelta>| format!("{deltas:?}");
    assert_eq!(look(Some(vec![head(), said("a")])), of(vec![said("a")]));
    assert_eq!(
        look(Some(vec![head(), said("a"), said("b")])),
        of(vec![said("a"), said("b")])
    );
    // A head that is not there says nothing, and voids nothing.
    assert_eq!(look(Some(Vec::new())), of(vec![said("a"), said("b")]));
    // Another step starts over.
    let next = LiveDelta::TurnStarted { turn: "t1".to_string(), step: 1 };
    assert_eq!(look(Some(vec![next, said("c")])), of(vec![said("c")]));
    assert_eq!(look(None), of(Vec::new()));
}

#[test]
fn what_runs_is_the_last_tool_that_has_not_finished() {
    let started = |id: &str, summary: &str| LiveDelta::ToolStarted {
        id: id.to_string(),
        name: "bash".to_string(),
        summary: summary.to_string(),
    };
    let finished = |id: &str| LiveDelta::ToolFinished { id: id.to_string(), ok: true };
    assert_eq!(activity_of(&vec![]), None);
    let running = activity_of(&vec![started("1", "ls"), finished("1"), started("2", "make")]);
    assert!(running.as_deref().unwrap().contains("make"), "{running:?}");
    assert_eq!(activity_of(&vec![started("1", "ls"), finished("1")]), None);
    assert_eq!(activity_of(&vec![started("1", "")]).as_deref(), Some("bash"));
    let long = activity_of(&vec![started("1", &"x".repeat(500))]).unwrap();
    assert!(long.chars().count() <= ACTIVITY_CHARS + 1, "{long}");
}

// ---- The listing ----

fn session(id: &str, parent: Option<&str>, modified: i64) -> SessionHead {
    SessionHead {
        id: id.to_string(),
        title: Some(format!("title {id}")),
        meta: SessionMeta {
            session_id: id.to_string(),
            parent_id: parent.map(str::to_string),
            agent: "build".to_string(),
            model: "m".to_string(),
            cwd: Some("/w".to_string()),
            context_limit: Some(200_000),
        },
        modified: at(modified),
    }
}

fn stat(modified: i64) -> Stat {
    Stat { len: 10, modified: Some(at(modified)), inode: 1 }
}

#[test]
fn only_changed_sessions_are_read_again() {
    let mut cache: Vec<Cached> = Vec::new();
    let seen = vec![("a".to_string(), stat(1)), ("b".to_string(), stat(2))];
    let stale = stale_heads(&mut cache, &seen);
    assert_eq!(stale.len(), 2);
    record_head(&mut cache, "a".to_string(), stat(1), HeadRead::Head(session("a", None, 1)));
    record_head(&mut cache, "b".to_string(), stat(2), HeadRead::Head(session("b", None, 2)));
    assert!(stale_heads(&mut cache, &seen).is_empty());

    let touched = vec![("a".to_string(), stat(5)), ("b".to_string(), stat(2))];
    let stale = stale_heads(&mut cache, &touched);
    assert_eq!(stale.len(), 1);
    assert_eq!(stale[0].0, "a");

    // A session that is gone is forgotten.
    let gone = vec![("b".to_string(), stat(2))];
    assert!(stale_heads(&mut cache, &gone).is_empty());
    assert_eq!(cache.len(), 1);
    scan_failed(&mut cache, false);
    assert_eq!(cache.len(), 1);
    scan_failed(&mut cache, true);
    assert!(cache.is_empty());
}

#[test]
fn a_file_that_is_no_session_is_read_once() {
    let mut cache: Vec<Cached> = Vec::new();
    let seen = vec![("x".to_string(), stat(1))];
    assert_eq!(stale_heads(&mut cache, &seen).len(), 1);
    record_head(&mut cache, "x".to_string(), stat(1), HeadRead::NotASession);
    assert!(stale_heads(&mut cache, &seen).is_empty());
    assert!(sessions(&cache, at(0)).is_empty());
    assert!(matches!(head(&cache, "x", at(0)), HeadAnswer::NotASession));
    // One that could not be read for now is tried again.
    let later = vec![("y".to_string(), stat(1))];
    assert_eq!(stale_heads(&mut cache, &later).len(), 1);
    record_head(&mut cache, "y".to_string(), stat(1), HeadRead::Failed);
    assert_eq!(stale_heads(&mut cache, &later).len(), 1);
}

#[test]
fn the_listing_is_newest_first_and_keeps_children_apart() {
    let mut cache: Vec<Cached> = Vec::new();
    for head in [
        session("a", None, 1),
        session("c", None, 9),
        session("b", None, 9),
        session("k", Some("a"), 5),
    ] {
        record_head(&mut cache, head.id.clone(), stat(1), HeadRead::Head(head));
    }
    let ids: Vec<String> = sessions(&cache, at(10)).iter().map(|e| e.head.id.clone()).collect();
    assert_eq!(ids, ["b", "c", "a"]);
    let below: Vec<String> =
        children(&cache, "a", at(10)).iter().map(|e| e.head.id.clone()).collect();
    assert_eq!(below, ["k"]);
    assert!(children(&cache, "b", at(10)).is_empty());

    assert!(matches!(head(&cache, "k", at(10)), HeadAnswer::Row(row) if row.head.id == "k"));
    assert!(matches!(head(&cache, "z", at(10)), HeadAnswer::Unseen));
}

#[test]
fn liveness_is_read_off_the_scratch() {
    let head = session("a", None, 1);
    let scratch = |seconds: i64| {
        Some(Scratch { modified: at(seconds), activity: Some("bash: make".to_string()) })
    };
    let idle = entry_of(&head, &None, at(100));
    assert_eq!((idle.state, idle.activity), (LiveState::Idle, None));
    let working = entry_of(&head, &scratch(99), at(100));
    assert_eq!(working.state, LiveState::Working);
    assert_eq!(working.activity.as_deref(), Some("bash: make"));
    let stalled = entry_of(&head, &scratch(0), at(STALE_SCRATCH as i64 + 100));
    assert_eq!(stalled.state, LiveState::Stalled);

    let row = summary(&working, true);
    assert_eq!(row.get("driven"), Some(&Json::Bool(true)));
    assert_eq!(row.get("state"), Some(&Json::Text("working".to_string())));
    assert_eq!(row.get("parent_id"), Some(&Json::Null));
    assert_eq!(row.get("context_limit"), Some(&Json::Number(200_000)));
    assert_eq!(
        row.get("modified"),
        Some(&Json::Text("1970-01-01T00:00:01+00:00".to_string()))
    );
}

#[test]
fn scratches_are_put_beside_their_sessions() {
    let mut cache: Vec<Cached> = Vec::new();
    record_head(&mut cache, "a".to_string(), stat(1), HeadRead::Head(session("a", None, 1)));
    set_scratches(
        &mut cache,
        &vec![("a".to_string(), Scratch { modified: at(50), activity: None })],
    );
    assert_eq!(sessions(&cache, at(51))[0].state, LiveState::Working);
    set_scratches(&mut cache, &vec![]);
    assert_eq!(sessions(&cache, at(51))[0].state, LiveState::Idle);
}

#[test]
fn files_are_told_apart_by_their_names() {
    assert_eq!(file_kind("a.jsonl"), FileKind::Log("a".to_string()));
    assert_eq!(file_kind("a.live"), FileKind::Scratch("a".to_string()));
    assert_eq!(file_kind("a.txt"), FileKind::Other);
}

#[test]
fn a_listing_says_which_sessions_are_driven_here() {
    let rows = vec![
        (entry_of(&session("a", None, 1), &None, at(2)), true),
        (entry_of(&session("b", None, 1), &None, at(2)), false),
    ];
    let listed = listing("sessions", &rows);
    let Some(Json::Array(shown)) = listed.get("sessions") else {
        panic!("a listing is an array: {listed:?}");
    };
    let facts: Vec<(Option<&Json>, Option<&Json>)> =
        shown.iter().map(|row| (row.get("id"), row.get("driven"))).collect();
    assert_eq!(
        facts,
        [
            (Some(&Json::Text("a".to_string())), Some(&Json::Bool(true))),
            (Some(&Json::Text("b".to_string())), Some(&Json::Bool(false))),
        ]
    );
    assert_eq!(
        shown[0].get("modified"),
        Some(&Json::Text("1970-01-01T00:00:01+00:00".to_string()))
    );
    assert_eq!(listing("children", &vec![]).get("children"), Some(&Json::Array(vec![])));
}

#[test]
fn a_clock_that_went_back_is_no_idle_time() {
    assert_eq!(idle_tick(Some(200), 0, 100, 30), (Some(200), false));
}
