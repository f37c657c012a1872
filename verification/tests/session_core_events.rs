use std::cell::RefCell;

use daimonos_session::session_core::event_router::{
    tell_handlers, SessionEventError, SessionEventRouter, SessionReplay,
};
use daimonos_session::session_protocol::{AssistantOutcome, SessionEvent, TurnStatus};

fn delta(text: &str) -> SessionEvent {
    SessionEvent::AssistantDelta { text: text.to_string() }
}

/// Runs no handler: none of them panics.
fn silent<H>(_: &H, _: u64, _: &SessionEvent) -> bool {
    false
}

#[test]
fn event_router_assigns_monotonic_sequences_and_forwards_events() {
    let seen: RefCell<Vec<(u64, SessionEvent)>> = RefCell::new(Vec::new());
    let mut router: SessionEventRouter<u8> = SessionEventRouter::new(Some(7));
    let hook = |handler: &u8, seq: u64, event: &SessionEvent| {
        assert_eq!(*handler, 7);
        seen.borrow_mut().push((seq, event.clone()));
        false
    };
    let running = SessionEvent::TurnStatusChanged { status: TurnStatus::Running };
    assert_eq!(router.emit(running.clone(), hook), Ok(1));
    assert_eq!(router.emit(delta("hello"), hook), Ok(2));
    assert_eq!(router.latest_sequence(), 2);
    assert_eq!(seen.into_inner(), vec![(1, running), (2, delta("hello"))]);
}

#[test]
fn event_router_contains_adapter_panics() {
    let told: RefCell<Vec<&str>> = RefCell::new(Vec::new());
    let mut router: SessionEventRouter<&str> = SessionEventRouter::new(Some("fails"));
    let _ = router.subscribe(1, "works").unwrap();
    let done = SessionEvent::AssistantDone { outcome: AssistantOutcome::Completed };
    let result = router.emit(done, |handler, _, _| {
        told.borrow_mut().push(*handler);
        *handler == "fails"
    });
    assert_eq!(result, Err(SessionEventError::HandlerPanicked));
    assert_eq!(router.latest_sequence(), 1);
    assert_eq!(told.into_inner(), vec!["fails", "works"]);
}

#[test]
fn event_router_subscription_stops_delivery_when_dropped() {
    let seen: RefCell<Vec<(u64, SessionEvent)>> = RefCell::new(Vec::new());
    let mut router: SessionEventRouter<&str> = SessionEventRouter::new(None);
    let subscription = router.subscribe(1, "client").expect("first bounded subscriber");
    let hook = |_: &&str, seq: u64, event: &SessionEvent| {
        seen.borrow_mut().push((seq, event.clone()));
        false
    };
    router.emit(delta("first"), hook).unwrap();
    router.unsubscribe(subscription);
    router.emit(delta("second"), hook).unwrap();
    let seen = seen.into_inner();
    assert_eq!(seen.len(), 1);
    assert_eq!(seen[0].0, 1);
}

#[test]
fn event_router_replays_retained_suffix_and_marks_evicted_gaps() {
    let mut router: SessionEventRouter<u8> = SessionEventRouter::new_with_replay(None, 2);
    for text in ["one", "two", "three"] {
        router.emit(delta(text), silent).unwrap();
    }

    assert!(matches!(
        router.replay_since(1),
        SessionReplay::Available {
            events,
            latest_seq: 3,
        } if events.iter().map(|(seq, _)| *seq).collect::<Vec<_>>() == vec![2, 3]
    ));
    assert_eq!(router.replay_since(0), SessionReplay::SnapshotRequired { latest_seq: 3 });
    assert_eq!(
        router.replay_since(3),
        SessionReplay::Available { events: Vec::new(), latest_seq: 3 }
    );
    assert_eq!(router.replay_since(4), SessionReplay::SnapshotRequired { latest_seq: 3 });
}

#[test]
fn subscriptions_are_bounded_beside_the_fixed_handler() {
    let mut router: SessionEventRouter<&str> = SessionEventRouter::new(Some("fixed"));
    let first = router.subscribe(1, "one").unwrap();
    assert_eq!(
        router.subscribe(1, "two"),
        Err(SessionEventError::HandlerLimitReached { max: 1 })
    );
    router.unsubscribe(first);
    assert!(router.subscribe(1, "three").is_ok());
    assert_eq!(router.handlers().len(), 2);
}

#[test]
fn capture_sees_every_event_before_the_subscription() {
    let mut router: SessionEventRouter<&str> = SessionEventRouter::new_with_replay(None, 4);
    router.emit(delta("before"), silent).unwrap();
    let seen = router.latest_sequence();
    let (_, captured) = router.subscribe_and_capture(1, "client", || seen).unwrap();
    assert_eq!(captured, 1);
    let next = router.emit(delta("after"), silent).unwrap();
    assert_eq!(next, 2);
    assert!(matches!(
        router.replay_since(captured),
        SessionReplay::Available { events, latest_seq: 2 } if events == vec![(2, delta("after"))]
    ));
}

#[test]
fn recorded_event_is_told_apart_from_the_router() {
    let told: RefCell<Vec<(&str, u64)>> = RefCell::new(Vec::new());
    let mut router: SessionEventRouter<&str> = SessionEventRouter::new_with_replay(None, 4);
    let first = router.subscribe(2, "first").unwrap();
    let event = delta("text");
    let sequence = router.record(&event).unwrap();
    assert_eq!(sequence, 1);
    assert_eq!(router.latest_sequence(), 1);
    let handlers = router.handlers().to_vec();
    let second = router.subscribe(2, "second").unwrap();
    assert!(first.handler_id() > 0 && second.handler_id() > first.handler_id());
    router.unsubscribe(first);
    let result = tell_handlers(&handlers, sequence, &event, |handler, seq, _| {
        told.borrow_mut().push((*handler, seq));
        *handler == "first"
    });
    assert_eq!(result, Err(SessionEventError::HandlerPanicked));
    assert_eq!(told.into_inner(), vec![("first", 1)]);
    assert_eq!(tell_handlers(router.handlers(), 2, &event, |_, _, _| false), Ok(2));
    assert_eq!(
        router.replay_since(0),
        SessionReplay::Available { events: vec![(1, delta("text"))], latest_seq: 1 }
    );
}

#[test]
fn registered_handlers_are_the_live_subscriptions() {
    let mut router: SessionEventRouter<&str> = SessionEventRouter::new(Some("fixed"));
    let a = router.subscribe(3, "a").unwrap();
    let b = router.subscribe(3, "b").unwrap();
    router.emit(delta("x"), silent).unwrap();
    let c = router.subscribe(3, "c").unwrap();
    assert_eq!(
        router.subscribe(3, "d"),
        Err(SessionEventError::HandlerLimitReached { max: 3 })
    );
    router.unsubscribe(b);
    let names: Vec<&str> = router.handlers().iter().map(|(_, name)| *name).collect();
    assert_eq!(names, vec!["fixed", "a", "c"]);
    router.unsubscribe(c);
    router.unsubscribe(a);
    assert_eq!(router.handlers().len(), 1);
}
