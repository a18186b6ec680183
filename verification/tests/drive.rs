//! Who runs what, and how reports are delivered between turns.

use ilar_tui::serve::drive::{
    acquire_failure, asked_for, created, head_failure, is_own, message_text, new_session,
    not_a_directory, steer_failed, submit_target, turn_cwd, turn_failed, Claim, DriveError,
    DrivenTurn, Fate, FollowUp, FollowUpAction, FollowUpEvent, Lanes, LeaseFailure, Registry,
    Route, RouteAction, RouteEvent, SubmitTarget, LEASE_RETRY_LIMIT, RETRY_BASE, RETRY_CEILING,
    ROUTE_RETRY_LIMIT, SLOT_RETRY, WATCHING_ONLY,
};
use ilar_tui::serve::json::Json;

#[test]
fn a_second_message_sees_this_server_starting_and_says_so() {
    let mut drive = Registry::new();
    let Claim::Start(slot) = drive.claim("session").unwrap() else {
        panic!("the first message claims the session");
    };
    assert!(drive.drives("session"), "claimed before the runtime exists");

    let refused = drive.claim("session").unwrap_err();
    assert_eq!(refused.status(), 503);
    assert!(
        refused.message().contains("already starting here"),
        "{}",
        refused.message()
    );
    assert_ne!(refused.message(), WATCHING_ONLY);

    // And the claim is given back, on every path out.
    drive.release("session", slot);
    assert!(!drive.drives("session"));
    assert!(matches!(drive.claim("session").unwrap(), Claim::Start(_)));
}

#[test]
fn an_abort_closes_the_entrys_ears_without_dropping_the_session() {
    let mut drive = Registry::new();
    let Claim::Start(slot) = drive.claim("session").unwrap() else {
        panic!("claimed");
    };
    assert!(drive.listen("session", slot));

    assert!(matches!(drive.claim("session").unwrap(), Claim::Steer));

    assert_eq!(drive.abort("session").unwrap(), Fate::Aborted);
    assert!(
        drive.drives("session"),
        "the lease is still held until the turn returns"
    );
    let refused = drive.claim("session").unwrap_err();
    assert!(
        refused.message().contains("stopping"),
        "{}",
        refused.message()
    );
    assert!(
        !drive.listen("session", slot),
        "nothing is accepted into the closed loop"
    );

    drive.release("session", slot);
    assert!(matches!(drive.claim("session").unwrap(), Claim::Start(_)));
}

#[test]
fn nothing_is_aborted_where_nothing_runs() {
    let mut running = Registry::new();
    let error = running.abort("s1").unwrap_err();
    assert_eq!(error, DriveError::NotDriving);
    assert_eq!(error.status(), 404);
}

#[test]
fn a_finished_turn_does_not_evict_its_successor() {
    let mut running = Registry::new();
    let first = running.reserve("s1");
    running.release("s1", first);
    let second = running.try_reserve("s1").unwrap();
    assert_ne!(first, second);
    running.release("s1", first);
    assert!(running.drives("s1"), "only its own claim");
    assert!(!running.listen("s1", first));
    assert_eq!(running.try_reserve("s1"), None);
    assert!(running.try_reserve("s2").is_some());
    running.stop_all();
    assert!(running.drives("s1") && running.drives("s2"));
    assert!(running.claim("s2").unwrap_err().message().contains("stopping"));
}

#[test]
fn a_message_steers_waits_or_starts() {
    let turn = |steer: bool, stopping: bool| Some(DrivenTurn { steer, stopping, epoch: 0 });
    assert_eq!(submit_target(None), SubmitTarget::StartTurn);
    assert_eq!(submit_target(turn(true, false)), SubmitTarget::Steer);
    assert_eq!(submit_target(turn(false, false)), SubmitTarget::Queue);
    assert_eq!(submit_target(turn(true, true)), SubmitTarget::Queue);
    assert_eq!(steer_failed().status(), 503);
    assert!(steer_failed().message().contains("finishing"));
}

#[test]
fn every_refusal_has_its_status() {
    let why = || "why".to_string();
    let cases = [
        (DriveError::Locked, 409, WATCHING_ONLY),
        (DriveError::Busy(why()), 503, "why"),
        (DriveError::NotFound(why()), 404, "why"),
        (
            DriveError::NotDriving,
            404,
            "no turn is running here that this server can abort",
        ),
        (DriveError::Invalid(why()), 400, "why"),
        (DriveError::Failed(why()), 500, "why"),
    ];
    for (error, status, message) in cases {
        assert_eq!(error.status(), status);
        assert_eq!(error.message(), message);
        let answer = error.answer();
        assert_eq!((answer.status, answer.message.as_str()), (status, message));
    }
}

#[test]
fn a_lease_that_cannot_be_had_says_who_has_it() {
    let why = || "io".to_string();
    let lease = |kind| acquire_failure(kind, "s1", why());
    assert_eq!(lease(LeaseFailure::WouldBlock), DriveError::Locked);
    assert_eq!(
        lease(LeaseFailure::NotFound),
        DriveError::NotFound("session not found: s1".to_string())
    );
    assert_eq!(lease(LeaseFailure::InvalidInput), DriveError::Invalid(why()));
    assert_eq!(lease(LeaseFailure::Other), DriveError::Failed(why()));
    assert_eq!(
        head_failure(LeaseFailure::NotFound, "s1", why()),
        DriveError::NotFound("session not found: s1".to_string())
    );
    assert_eq!(
        head_failure(LeaseFailure::WouldBlock, "s1", why()),
        DriveError::Failed(why())
    );
    assert_eq!(
        head_failure(LeaseFailure::InvalidInput, "s1", why()),
        DriveError::Invalid(why())
    );
}

#[test]
fn what_is_asked_is_trimmed_and_may_not_be_empty() {
    assert_eq!(message_text("  hi \n"), Ok("hi".to_string()));
    assert_eq!(
        message_text(" \t"),
        Err(DriveError::Invalid("an empty message says nothing".to_string()))
    );
    let request = new_session(" go ", Some("  "), Some(" opus ")).unwrap();
    assert_eq!(request.prompt, "go");
    assert_eq!(request.cwd, None);
    assert_eq!(request.model.as_deref(), Some("opus"));
    assert_eq!(
        new_session("  ", None, None).unwrap_err(),
        DriveError::Invalid("a prompt is required".to_string())
    );
    assert_eq!(asked_for(None), None);
    assert_eq!(
        not_a_directory("/nope"),
        DriveError::Invalid("/nope is not a directory".to_string())
    );
    assert_eq!(turn_cwd(Some("/w".to_string()), true).as_deref(), Some("/w"));
    assert_eq!(turn_cwd(Some("/gone".to_string()), false), None);
}

#[test]
fn writes_are_answered_with_what_they_did() {
    assert_eq!(Fate::Started.as_str(), "started");
    assert_eq!(
        Fate::Steering.body().get("fate"),
        Some(&Json::Text("steering".to_string()))
    );
    assert_eq!(
        Fate::Aborted.body().get("fate"),
        Some(&Json::Text("aborted".to_string()))
    );
    let new = created("s9");
    assert_eq!(new.get("id"), Some(&Json::Text("s9".to_string())));
    assert_eq!(new.get("fate"), Some(&Json::Text("started".to_string())));
    let failure = turn_failed("s9", "no key");
    assert_eq!(failure.session_id, "s9");
    assert_eq!(failure.message, "the turn failed: no key");
}

#[test]
fn a_report_is_delivered_between_turns() {
    let (mut delivery, action) = FollowUp::begin();
    assert_eq!(action, FollowUpAction::CheckLog);
    let mut next = |event| delivery.next("s1", event);
    assert_eq!(next(FollowUpEvent::Delivered(false)), FollowUpAction::TakeSlot);
    assert_eq!(next(FollowUpEvent::Slot(false)), FollowUpAction::Wait(SLOT_RETRY));
    assert_eq!(next(FollowUpEvent::Paused(true)), FollowUpAction::CheckLog);
    assert_eq!(next(FollowUpEvent::Delivered(false)), FollowUpAction::TakeSlot);
    assert_eq!(next(FollowUpEvent::Slot(true)), FollowUpAction::TakeLease);
    assert_eq!(next(FollowUpEvent::Leased), FollowUpAction::Run);
    assert_eq!(next(FollowUpEvent::Delivered(true)), FollowUpAction::GiveUp(None));
    assert_eq!(next(FollowUpEvent::Paused(false)), FollowUpAction::GiveUp(None));
    assert_eq!(
        next(FollowUpEvent::LeaseFailed("io".to_string())),
        FollowUpAction::GiveUp(Some(
            "serve: dropping a task completion for s1: io".to_string()
        ))
    );
}

#[test]
fn a_held_session_is_tried_less_and_less_often() {
    let (mut delivery, _) = FollowUp::begin();
    let mut waits = Vec::new();
    loop {
        match delivery.next("s1", FollowUpEvent::Held) {
            FollowUpAction::ReleaseAndWait(ms) => waits.push(ms),
            FollowUpAction::GiveUp(why) => {
                assert_eq!(
                    why.as_deref(),
                    Some(
                        "serve: dropping a task completion for s1: the session is held by \
                         another process"
                    )
                );
                break;
            }
            other => panic!("{other:?}"),
        }
    }
    assert_eq!(waits.len(), LEASE_RETRY_LIMIT as usize);
    assert_eq!(waits[..5], [RETRY_BASE, 1000, 2000, 4000, RETRY_CEILING]);
    assert!(waits[5..].iter().all(|ms| *ms == RETRY_CEILING));
}

#[test]
fn a_report_for_a_deeper_session_is_routed_a_few_times() {
    let (mut route, action) = Route::begin();
    assert_eq!(action, RouteAction::Route);
    let mut routed = 1;
    let why = loop {
        assert!(matches!(route.next("s1", RouteEvent::Requeue), RouteAction::Wait(_)));
        match route.next("s1", RouteEvent::Paused(true)) {
            RouteAction::Route => routed += 1,
            RouteAction::GiveUp(why) => break why,
            other => panic!("{other:?}"),
        }
    };
    assert_eq!(routed, ROUTE_RETRY_LIMIT);
    assert_eq!(
        why.as_deref(),
        Some("serve: dropping a task completion for s1 after 8 attempts")
    );
    let (mut route, _) = Route::begin();
    assert_eq!(route.next("s1", RouteEvent::Propagate), RouteAction::Climb);
    assert_eq!(route.next("s1", RouteEvent::Complete), RouteAction::Done);
    assert_eq!(
        route.next("s1", RouteEvent::Failed("x".to_string())),
        RouteAction::GiveUp(Some("serve: routing a task completion failed: x".to_string()))
    );
    assert_eq!(route.next("s1", RouteEvent::Paused(false)), RouteAction::GiveUp(None));
    assert!(is_own("s1", "s1"));
    assert!(!is_own("s1", "s2"));
}

#[test]
fn each_session_has_one_lane() {
    let mut lanes = Lanes::new();
    assert_eq!(lanes.dispatch("s1", 0), (0, true));
    assert_eq!(lanes.dispatch("s2", 1), (1, true));
    assert_eq!(lanes.dispatch("s1", 2), (0, false));
}
