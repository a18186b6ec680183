//! Who may ask, and what the routes answer.

use ilar_tui::serve::auth::{
    authority, bearer, generate_token, host_allowed, origin_allowed, query_token, refuse_name,
    require_known_host, require_token, required_token, split_host_port, token_of, url_for, Bind,
    NameCheck,
};
use ilar_tui::serve::bind::{bind_failed, exposure_warning, BindStep};
use ilar_tui::serve::feed::{
    beginning, catch_up, frame, frames_of_live, last_event_id, Beginning, Feed, Source,
};
use ilar_tui::serve::json::Json;
use ilar_tui::serve::page::{
    content_type, image, image_reply, page_bounds, result_text, transcript, ApiError, StoreFailure,
    MAX_PAGE_EVENTS, PAGE_EVENTS,
};
use ilar_tui::serve::percent::{constant_time_eq, percent_decode, percent_encode};
use ilar_tui::serve::view::LiveDelta;
use ilar_tui::serve::watch::{LiveMessage, TailEnd, TailMessage, TailUpdate};
use ilar_tui::session::event::{ImageContent, Moment, SessionEvent};

const LOOPBACK: Bind = Bind { loopback: true, port: 4527 };
const PUBLIC: Bind = Bind { loopback: false, port: 7777 };

/// Whether the name before the port is an address.
fn literal(host: &str) -> bool {
    split_host_port(host)
        .is_some_and(|(name, _)| ["127.0.0.1", "::1", "10.0.0.2"].contains(&name.as_str()))
}

fn host(name: Option<&str>, bind: &Bind) -> bool {
    host_allowed(name, name.is_some_and(literal), bind)
}

fn origin(name: &str, bind: &Bind) -> bool {
    let literal = authority(name).is_some_and(|host| literal(&host));
    origin_allowed(name, literal, bind)
}

fn topic(id: &str) -> SessionEvent {
    SessionEvent::Topic {
        id: id.to_string(),
        text: "serve".to_string(),
        ts: Moment { seconds: 1_700_000_000, nanos: 0 },
    }
}

#[test]
fn a_loopback_bind_needs_no_token_and_anything_else_does() {
    assert_eq!(required_token(true, None), Ok(None));

    let generated = required_token(false, None).unwrap().unwrap();
    assert_eq!(generated.len(), 64, "256 bits, hex");
    assert!(generated.chars().all(|c| c.is_ascii_hexdigit()));
    assert_ne!(
        Some(generated),
        generate_token(),
        "one per process, not a constant"
    );

    assert_eq!(
        required_token(true, Some("  hunter2 ")),
        Ok(Some("hunter2".to_string()))
    );
    assert_eq!(required_token(true, Some("  ")), Ok(None));
    assert_eq!(
        required_token(false, Some("pinned")),
        Ok(Some("pinned".to_string()))
    );
}

#[test]
fn the_printed_url_carries_a_token_in_the_fragment_only() {
    assert_eq!(url_for("127.0.0.1:7777", None), "http://127.0.0.1:7777/");
    assert_eq!(
        url_for("10.0.0.2:7777", Some("abc")),
        "http://10.0.0.2:7777/#token=abc",
        "a fragment is not sent upstream and not logged"
    );
    assert_eq!(
        url_for("10.0.0.2:7777", Some("p@ss word%1")),
        "http://10.0.0.2:7777/#token=p%40ss%20word%251"
    );
}

#[test]
fn only_this_servers_own_address_may_be_named() {
    let bind = LOOPBACK;
    assert!(host(Some("127.0.0.1:4527"), &bind));
    assert!(host(Some("localhost:4527"), &bind));
    assert!(host(Some("LocalHost:4527"), &bind));
    assert!(host(Some("[::1]:4527"), &bind));
    assert!(host(Some("127.0.0.1"), &bind));
    assert!(host(Some("localhost"), &bind));

    assert!(!host(Some("evil.com"), &bind), "the whole point");
    assert!(!host(Some("evil.com:4527"), &bind));
    assert!(!host(Some("localhost.evil.com:4527"), &bind));
    assert!(!host(Some("127.0.0.1:9999"), &bind), "another port");
    assert!(!host(Some(""), &bind));

    assert!(host(None, &bind));
    assert!(!host(None, &PUBLIC));

    let public = PUBLIC;
    assert!(host(Some("10.0.0.2:7777"), &public));
    assert!(host(Some("localhost:7777"), &public));
    assert!(!host(Some("box.local:7777"), &public));

    assert!(origin("http://127.0.0.1:4527", &bind));
    assert!(origin("https://localhost:4527", &bind));
    assert!(!origin("http://evil.com", &bind));
    assert!(!origin("null", &bind), "a sandboxed frame");
    assert!(!origin("127.0.0.1:4527", &bind), "not an origin");
}

#[test]
fn a_host_splits_into_a_name_and_an_optional_port() {
    let split = |host: &str| split_host_port(host);
    let parts = |name: &str, port: Option<u16>| Some((name.to_string(), port));
    assert_eq!(split("localhost:80"), parts("localhost", Some(80)));
    assert_eq!(split("localhost"), parts("localhost", None));
    assert_eq!(split("[::1]:4527"), parts("::1", Some(4527)));
    assert_eq!(split("[::1]"), parts("::1", None));
    assert_eq!(split("localhost:nope"), None);
    assert_eq!(split(""), None);
}

#[test]
fn a_token_is_read_from_the_header_or_the_query() {
    assert_eq!(bearer(Some("Bearer abc123")), Some("abc123".into()));
    assert_eq!(
        bearer(Some("bearer abc123")),
        Some("abc123".into()),
        "scheme is case-insensitive"
    );
    assert_eq!(bearer(Some("Basic abc123")), None);

    assert_eq!(query_token(Some("token=abc123")), Some("abc123".into()));
    assert_eq!(query_token(Some("from=3&token=abc")), Some("abc".into()));
    assert_eq!(query_token(Some("from=3")), None);
    assert_eq!(query_token(None), None);

    assert_eq!(
        query_token(Some("token=p%40ss%20word%25")),
        Some("p@ss word%".into())
    );
    assert_eq!(
        query_token(Some("from=3&token=a%2Bb")),
        Some("a+b".into()),
        "an encoded plus is a plus"
    );
    assert_eq!(
        query_token(Some("token=a+b")),
        Some("a+b".into()),
        "and a bare one is not a space: nothing here is form-encoded"
    );
    assert_eq!(query_token(Some("token=%zz%")), Some("%zz%".into()));
}

#[test]
fn a_pinned_token_survives_the_url_it_is_printed_in() {
    for token in ["p@ss word", "100%", "a+b", "üni/code?&#", "plain"] {
        let url = url_for("127.0.0.1:4527", Some(token));
        let printed = url.split_once("#token=").expect("a fragment").1;
        assert_eq!(
            query_token(Some(&format!("token={printed}"))).as_deref(),
            Some(token)
        );
    }
}

#[test]
fn tokens_compare_without_an_early_exit() {
    assert!(constant_time_eq("abc", "abc"));
    assert!(!constant_time_eq("abc", "abd"));
    assert!(!constant_time_eq("abc", "abcd"));
    assert!(!constant_time_eq("", "a"));
    assert!(constant_time_eq("", ""));
}

#[test]
fn a_transcript_pages_backwards_to_the_beginning() {
    assert_eq!(page_bounds(500, None, Some(200)), (300, 500));
    assert_eq!(page_bounds(500, Some(300), Some(200)), (100, 300));
    assert_eq!(page_bounds(500, Some(100), Some(200)), (0, 100));
    assert_eq!(page_bounds(0, None, None), (0, 0));
    // Bounds are clamped, never trusted.
    assert_eq!(page_bounds(10, Some(99), None), (0, 10));
    assert_eq!(page_bounds(10, None, Some(0)), (9, 10));
    assert_eq!(
        page_bounds(10_000, None, Some(usize::MAX)),
        (10_000 - MAX_PAGE_EVENTS, 10_000)
    );
    assert_eq!(page_bounds(500, None, None), (500 - PAGE_EVENTS, 500));
}

#[test]
fn only_known_image_types_reach_a_content_type_header() {
    assert_eq!(content_type("image/png"), "image/png");
    assert_eq!(content_type("image/webp"), "image/webp");
    assert_eq!(
        content_type("text/html\r\nX-Evil: 1"),
        "application/octet-stream",
        "a session file cannot dictate a response header"
    );
}

#[test]
fn the_sse_envelope_ids_only_the_line_bearing_frames() {
    let appended = frame(
        &TailMessage::Update(TailUpdate::Appended { line: 42, event: topic("topic-1") }),
        7,
    );
    assert_eq!(appended.line, 42);
    assert_eq!(appended.event.id, Some(42));
    assert!(!appended.terminal);

    let rewound = frame(
        &TailMessage::Update(TailUpdate::Rewound { line: 43, to: 7, event: topic("topic-1") }),
        42,
    );
    assert_eq!(rewound.line, 43);

    let resync = frame(&TailMessage::Update(TailUpdate::Resync), 43);
    assert_eq!(resync.line, 0);
    assert_eq!(resync.event.id, None);
    let deleted = frame(&TailMessage::Update(TailUpdate::Deleted), 43);
    assert_eq!(deleted.line, 43);
    assert!(deleted.terminal);
    assert!(frame(&TailMessage::Failed("newer ilar?".into()), 43).terminal);
}

// ---- Names and tokens ----

#[test]
fn an_unknown_name_is_refused_with_a_reason() {
    let check = |host: Option<&str>, from: Option<&str>| {
        require_known_host(
            host,
            host.is_some_and(literal),
            from,
            from.and_then(authority).is_some_and(|host| literal(&host)),
            &LOOPBACK,
        )
    };
    assert_eq!(check(Some("localhost:4527"), None), NameCheck::Known);
    assert_eq!(
        check(Some("localhost:4527"), Some("http://127.0.0.1:4527")),
        NameCheck::Known
    );
    assert_eq!(check(Some("evil.com:4527"), None), NameCheck::UnknownHost);
    assert_eq!(
        check(Some("localhost:4527"), Some("http://evil.com")),
        NameCheck::UnknownOrigin
    );
    let text = refuse_name("host", "\"evil.com\"", "127.0.0.1:4527", 4527);
    assert!(text.starts_with("host \"evil.com\" is not this server's address"), "{text}");
    assert!(text.contains("on port 4527"), "{text}");
}

#[test]
fn nothing_private_is_served_without_the_token() {
    assert!(require_token(None, "/api/sessions", None, None));
    assert!(require_token(Some("t"), "/", None, None), "the page itself");
    assert!(!require_token(Some("t"), "/api/sessions", None, None));
    assert!(require_token(Some("t"), "/api/sessions", Some("Bearer t"), None));
    assert!(require_token(Some("t"), "/api/sessions", None, Some("token=t")));
    assert!(!require_token(Some("t"), "/api/sessions", Some("Bearer u"), Some("token=t")));
}

#[test]
fn a_token_is_written_in_hexadecimal() {
    let bytes: Vec<u8> = (0..32).collect();
    let token = token_of(&bytes);
    assert!(token.starts_with("000102030405060708090a0b"), "{token}");
    assert!(token.ends_with("1e1f"), "{token}");
}

#[test]
fn escaping_loses_nothing() {
    for text in ["", "a b", "100%", "ü/?#&=+", "~._-", "%41", "日本"] {
        let escaped = percent_encode(text);
        assert!(!escaped.contains('&') && !escaped.contains(' '), "{escaped}");
        assert_eq!(percent_decode(&escaped), text);
    }
    assert_eq!(percent_encode("ü"), "%C3%BC");
    assert_eq!(percent_decode("%ff"), "\u{fffd}", "what is no text is replaced");
}

#[test]
fn only_an_address_that_nobody_asked_for_gives_way() {
    assert_eq!(
        bind_failed(false, true, "127.0.0.1:4527"),
        BindStep::AnyPort(
            "note: 127.0.0.1:4527 is taken; using an ephemeral port".to_string()
        )
    );
    assert_eq!(
        bind_failed(false, false, "127.0.0.1:4527"),
        BindStep::Fail("binding 127.0.0.1:4527".to_string())
    );
    assert_eq!(
        bind_failed(true, true, "127.0.0.1:9"),
        BindStep::Fail(
            "binding 127.0.0.1:9 — pick another port, or --bind 127.0.0.1:0 for an ephemeral one"
                .to_string()
        )
    );
    assert_eq!(exposure_warning(true, "127.0.0.1:9"), None);
    assert!(exposure_warning(false, "10.0.0.2:9")
        .unwrap()
        .starts_with("warning: 10.0.0.2:9 is not loopback."));
}

// ---- Pages, results and images ----

fn picture(data: &str) -> SessionEvent {
    SessionEvent::UserMessage {
        id: "u1".to_string(),
        text: "look".to_string(),
        markers: String::new(),
        images: vec![ImageContent {
            media_type: "image/png".to_string(),
            data: data.to_string(),
            bytes: 3,
        }],
        ts: Moment { seconds: 0, nanos: 0 },
    }
}

#[test]
fn an_image_is_served_as_the_bytes_it_was_attached_as() {
    let events = vec![topic("t"), picture("AQID")];
    let body = image(&events, "u1", 0).unwrap();
    assert_eq!(body.content_type, "image/png");
    assert_eq!(body.bytes, [1, 2, 3]);

    let missing = image(&events, "u1", 1).unwrap_err();
    assert_eq!(missing.status, 404);
    assert_eq!(missing.message, "no image 1 on event u1");
    assert_eq!(image(&events, "t", 0).unwrap_err().status, 404);

    let broken = image(&[picture("not base64!")], "u1", 0).unwrap_err();
    assert_eq!(broken.status, 500);
    assert!(
        broken.message.starts_with("image 0 on event u1 is not valid base64: "),
        "{}",
        broken.message
    );
    let reply = image_reply("image/svg+xml", "u1", 0, Ok(vec![7])).unwrap();
    assert_eq!(reply.content_type, "application/octet-stream");
}

fn result(id: &str, of: &str, content: &str) -> SessionEvent {
    SessionEvent::ToolResult {
        id: id.to_string(),
        tool_use_id: of.to_string(),
        content: content.to_string(),
        redacted: content.to_string(),
        is_error: false,
        markers: String::new(),
        images: Vec::new(),
        child_session_id: None,
        ts: Moment { seconds: 0, nanos: 0 },
    }
}

#[test]
fn a_result_is_found_by_its_call() {
    let events = vec![result("r1", "call-1", "one"), result("r2", "call-2", "two")];
    assert_eq!(result_text(&events, "call-2").as_deref(), Ok("two"));
    let missing = result_text(&events, "call-3").unwrap_err();
    assert_eq!(missing.status, 404);
    assert_eq!(missing.message, "no tool result for call-3");
}

#[test]
fn errors_have_a_status_and_words() {
    let store = |kind| ApiError::store(kind, "why".to_string());
    assert_eq!(store(StoreFailure::NotFound).status, 404);
    assert_eq!(store(StoreFailure::InvalidInput).status, 400);
    assert_eq!(store(StoreFailure::Other).status, 500);
    assert_eq!(
        ApiError::not_found("gone".to_string()).body().get("error"),
        Some(&Json::Text("gone".to_string()))
    );
}

#[test]
fn a_page_says_what_comes_before_it() {
    let events: Vec<SessionEvent> = (0..5).map(|n| topic(&format!("t{n}"))).collect();
    let page = transcript("s1", None, &events, false, None, Some(2), 9, false);
    let Some(Json::Array(shown)) = page.get("events") else {
        panic!("{page:?}");
    };
    assert_eq!(shown.len(), 2);
    assert_eq!(shown[0].get("id"), Some(&Json::Text("t3".to_string())));
    assert_eq!(page.get("line"), Some(&Json::Number(9)));
}

// ---- Streams ----

#[test]
fn a_stream_resumes_at_what_the_client_saw() {
    assert_eq!(last_event_id(Some(" 41 ")), Some(41));
    assert_eq!(last_event_id(Some("x")), None);
    assert_eq!(last_event_id(None), None);

    let at = |b: Beginning| match b {
        Beginning::CatchUp(n) => ("catch up", n),
        Beginning::At(n) => ("at", n),
        Beginning::Ended(event) => {
            assert!(!event.name.is_empty());
            ("ended", 0)
        }
    };
    assert_eq!(at(beginning(50, &None, None, None)), ("at", 50));
    assert_eq!(at(beginning(50, &None, Some(41), Some(3))), ("catch up", 41));
    assert_eq!(at(beginning(50, &None, None, Some(3))), ("catch up", 3));
    assert_eq!(at(beginning(50, &Some(TailEnd::Deleted), Some(41), None)).0, "ended");
    assert_eq!(
        at(beginning(50, &Some(TailEnd::Failed("why".to_string())), None, None)).0,
        "ended"
    );
}

#[test]
fn missed_lines_are_sent_in_order_and_once() {
    let replay = vec![
        TailUpdate::Appended { line: 4, event: topic("t4") },
        TailUpdate::Appended { line: 5, event: topic("t5") },
    ];
    let (frames, line) = catch_up(Some((replay, 5)), 3, 9);
    assert_eq!(frames.iter().map(|f| f.id).collect::<Vec<_>>(), [Some(4), Some(5)]);
    assert_eq!(line, 5);

    let mut feed = Feed::open("s1", line, false);
    let again = TailMessage::Update(TailUpdate::Appended { line: 5, event: topic("t5") });
    assert!(feed.next(Source::Tail(again)).is_none());
    let next = TailMessage::Update(TailUpdate::Appended { line: 6, event: topic("t6") });
    let event = feed.next(Source::Tail(next)).unwrap();
    assert_eq!(event.name, "append");
    assert_eq!(event.id, Some(6));
    assert_eq!(feed.last_line, 6);
}

#[test]
fn a_failed_turn_is_told_and_the_stream_goes_on() {
    let mut feed = Feed::open("s1", 3, false);
    let failure = |id: &str| Source::Failure {
        session_id: id.to_string(),
        message: "the turn failed: no key".to_string(),
    };
    assert!(feed.next(failure("other")).is_none());
    let event = feed.next(failure("s1")).unwrap();
    assert_eq!(
        event.data.get("message"),
        Some(&Json::Text("the turn failed: no key".to_string()))
    );
    assert_eq!(event.id, None);
    assert!(!feed.done);
    assert!(feed.next(Source::MissedFailures).is_none());
    assert!(feed.next(Source::NoMoreFailures).is_none());
    assert!(!feed.failures);
    assert!(feed.next(Source::Tail(TailMessage::Update(TailUpdate::Deleted))).is_some());
    assert!(feed.done);
}

#[test]
fn scratch_lines_are_frames_without_ids() {
    let live = vec![
        LiveDelta::TurnStarted { turn: "t1".to_string(), step: 2 },
        LiveDelta::TextDelta { text: "hi".to_string() },
    ];
    let frames = frames_of_live(&live);
    assert_eq!(frames.len(), 2);
    assert!(frames.iter().all(|f| f.id.is_none() && f.name == "delta"));
    assert_eq!(
        frames[1].data.get("type"),
        Some(&Json::Text("text_delta".to_string()))
    );
    let reset = frame(&TailMessage::Live(LiveMessage::Reset), 7);
    assert_eq!(reset.line, 7);
    assert_eq!(reset.event.id, None);
}
