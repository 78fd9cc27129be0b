use yrs_ax::conn::{
    process_msg, signaling_conn, try_send, ConnEvent, ConnPhase, Outcome, SendPhase,
};
use yrs_ax::message::{CloseFrame, Frame, Incoming, Signal};
use yrs_ax::service::SignalingService;
use yrs_ax::state::{ConnState, Reaction};

type Phase = ConnPhase<&'static str, &'static str>;

fn subscribe(topics: Vec<&str>) -> Incoming<'_> {
    Incoming::Text {
        json: "{}",
        signal: Signal::Subscribe { topics },
    }
}

fn unsubscribe(topics: Vec<&str>) -> Incoming<'_> {
    Incoming::Text {
        json: "{}",
        signal: Signal::Unsubscribe { topics },
    }
}

fn publish<'a>(topic: &'a str, json: &'a str) -> Incoming<'a> {
    Incoming::Text {
        json,
        signal: Signal::Publish { topic },
    }
}

fn done(outcome: Outcome) -> bool {
    matches!(outcome, Outcome::Done)
}

fn recipients(service: &SignalingService, topic: &str) -> Vec<u64> {
    let mut conns = service.publish(topic, Frame::Text(String::new())).pending;
    conns.sort();
    conns
}

#[test]
fn a_published_text_goes_to_the_subscribers_as_it_is() {
    let mut service = SignalingService::new();
    let (mut one, mut two) = (ConnState::default(), ConnState::default());
    assert!(done(process_msg(subscribe(vec!["room1", "room2"]), 1, &mut one, &mut service)));
    assert!(done(process_msg(subscribe(vec!["room1"]), 2, &mut two, &mut service)));
    let json = r#"{"type":"publish","topic":"room1","offer":1}"#;
    match process_msg(publish("room1", json), 2, &mut two, &mut service) {
        Outcome::Publish(mut publication) => {
            assert_eq!(publication.topic, "room1");
            assert_eq!(publication.msg, Frame::Text(json.to_string()));
            publication.pending.sort();
            // the sender is a subscriber like any other
            assert_eq!(publication.pending, vec![1, 2]);
            assert!(publication.failed.is_empty());
        }
        _ => panic!("nothing was published"),
    }
}

#[test]
fn publishing_on_an_unknown_topic_reaches_nobody() {
    let mut service = SignalingService::new();
    match process_msg(publish("room1", "{}"), 1, &mut ConnState::default(), &mut service) {
        Outcome::Publish(publication) => assert_eq!(publication.next(), None),
        _ => panic!("nothing was published"),
    }
    assert_eq!(service.topics.len(), 0);
}

#[test]
fn naming_no_topics_changes_nothing() {
    let mut service = SignalingService::new();
    let mut state = ConnState::default();
    assert!(done(process_msg(subscribe(vec![]), 1, &mut state, &mut service)));
    assert!(done(process_msg(unsubscribe(vec![]), 1, &mut state, &mut service)));
    assert_eq!(service.topics.len(), 0);
    assert_eq!(state.subscribed_topics.len(), 0);
    assert!(matches!(state.receive(subscribe(vec![])), Reaction::Ignore));
    assert!(matches!(state.receive(unsubscribe(vec![])), Reaction::Ignore));
}

#[test]
fn unsubscribing_does_not_forget_the_topic() {
    let mut service = SignalingService::new();
    let mut state = ConnState::default();
    process_msg(subscribe(vec!["a"]), 1, &mut state, &mut service);
    assert!(done(process_msg(unsubscribe(vec!["a"]), 1, &mut state, &mut service)));
    assert!(recipients(&service, "a").is_empty());
    assert!(state.subscribed_topics.contains("a"));
}

#[test]
fn a_close_frame_ends_all_subscriptions() {
    let mut service = SignalingService::new();
    let (mut one, mut two) = (ConnState::default(), ConnState::default());
    process_msg(subscribe(vec!["a", "b"]), 1, &mut one, &mut service);
    process_msg(subscribe(vec!["b"]), 2, &mut two, &mut service);
    process_msg(subscribe(vec!["c"]), 1, &mut one, &mut service);
    let close = Incoming::Close(Some(CloseFrame {
        code: 1000,
        reason: String::new(),
    }));
    assert!(done(process_msg(close, 1, &mut one, &mut service)));
    assert!(one.closed);
    assert_eq!(one.subscribed_topics.len(), 0);
    assert!(!service.is_subscribed(1));
    assert_eq!(service.topics.len(), 1);
    assert_eq!(recipients(&service, "b"), vec![2]);
    assert!(!two.closed);
}

#[test]
fn a_ping_is_answered_with_its_payload() {
    let mut service = SignalingService::new();
    let mut state = ConnState::default();
    state.pong_received = false;
    match process_msg(Incoming::Ping(vec![1, 2, 3]), 1, &mut state, &mut service) {
        Outcome::Reply(frame) => assert_eq!(frame, Frame::Pong(vec![1, 2, 3])),
        _ => panic!("no answer"),
    }
    assert!(!state.pong_received);
}

#[test]
fn a_pong_is_noted_and_binary_frames_are_not() {
    let mut service = SignalingService::new();
    let mut state = ConnState::default();
    state.pong_received = false;
    assert!(done(process_msg(Incoming::Binary(vec![1]), 1, &mut state, &mut service)));
    assert!(!state.pong_received);
    assert!(done(process_msg(Incoming::Pong(vec![]), 1, &mut state, &mut service)));
    assert!(state.pong_received);
    assert!(!state.closed);
}

#[test]
fn the_reaction_says_what_to_do() {
    let mut state = ConnState::default();
    assert!(matches!(
        state.receive(subscribe(vec!["a"])),
        Reaction::Subscribe(topics) if topics == vec!["a"]
    ));
    // only the service notes the topics
    assert_eq!(state.subscribed_topics.len(), 0);
    assert!(matches!(
        state.receive(unsubscribe(vec!["a", "b"])),
        Reaction::Unsubscribe(topics) if topics == vec!["a", "b"]
    ));
    state.subscribed_topics.insert("a");
    assert!(matches!(
        state.receive(Incoming::Close(None)),
        Reaction::Leave(topics) if topics == vec!["a".to_string()]
    ));
}

#[test]
fn a_silent_peer_is_closed_at_the_second_tick() {
    let mut state = ConnState::default();
    let phase: Phase = signaling_conn(&mut state, ConnPhase::Listening, ConnEvent::Tick);
    assert!(matches!(&phase, ConnPhase::Pinging(frame) if *frame == Frame::Ping(vec![])));
    assert!(!state.pong_received);
    let phase = signaling_conn(&mut state, phase, ConnEvent::Done(Ok(())));
    assert!(matches!(phase, ConnPhase::Listening));
    let phase = signaling_conn(&mut state, phase, ConnEvent::Tick);
    assert!(matches!(phase, ConnPhase::Closing(Ok(()))));
    let phase = signaling_conn(&mut state, phase, ConnEvent::Done(Ok(())));
    assert!(matches!(phase, ConnPhase::Finished(Ok(()))));
    let phase = signaling_conn(&mut state, phase, ConnEvent::Tick);
    assert!(matches!(phase, ConnPhase::Finished(Ok(()))));
}

#[test]
fn a_peer_that_answers_is_pinged_again() {
    let mut state = ConnState::default();
    let phase: Phase = signaling_conn(&mut state, ConnPhase::Listening, ConnEvent::Tick);
    let phase = signaling_conn(&mut state, phase, ConnEvent::Done(Ok(())));
    let phase = signaling_conn(&mut state, phase, ConnEvent::Arrived("pong"));
    assert!(matches!(phase, ConnPhase::Processing("pong")));
    state.receive(Incoming::Pong(vec![]));
    let phase = signaling_conn(&mut state, phase, ConnEvent::Done(Ok(())));
    assert!(matches!(phase, ConnPhase::Listening));
    let phase = signaling_conn(&mut state, phase, ConnEvent::Tick);
    assert!(matches!(phase, ConnPhase::Pinging(_)));
}

#[test]
fn a_failed_ping_closes_the_connection_and_is_reported() {
    let mut state = ConnState::default();
    let phase: Phase = signaling_conn(
        &mut state,
        ConnPhase::Pinging(Frame::Ping(vec![])),
        ConnEvent::Done(Err("ping")),
    );
    assert!(matches!(phase, ConnPhase::Closing(Err("ping"))));
    let phase = signaling_conn(&mut state, phase, ConnEvent::Done(Ok(())));
    assert!(matches!(phase, ConnPhase::Finished(Err("ping"))));
}

#[test]
fn the_end_of_the_stream_closes_the_connection() {
    let mut state = ConnState::default();
    let phase: Phase = signaling_conn(&mut state, ConnPhase::Listening, ConnEvent::Ended);
    assert!(matches!(phase, ConnPhase::Closing(Ok(()))));
    let phase = signaling_conn(&mut state, phase, ConnEvent::Done(Err("close")));
    assert!(matches!(phase, ConnPhase::Finished(Err("close"))));
}

#[test]
fn a_broken_stream_closes_the_connection() {
    let mut state = ConnState::default();
    let phase: Phase = signaling_conn(&mut state, ConnPhase::Listening, ConnEvent::Failed("read"));
    assert!(matches!(phase, ConnPhase::Closing(Err("read"))));
    let phase = signaling_conn(&mut state, phase, ConnEvent::Done(Err("close")));
    assert!(matches!(phase, ConnPhase::Finished(Err("close"))));
}

#[test]
fn a_message_that_cannot_be_processed_ends_the_connection() {
    let mut state = ConnState::default();
    let phase: Phase =
        signaling_conn(&mut state, ConnPhase::Processing("m"), ConnEvent::Done(Err("reply")));
    assert!(matches!(phase, ConnPhase::Finished(Err("reply"))));
}

#[test]
fn events_that_are_not_awaited_change_nothing() {
    let mut state = ConnState::default();
    let phase: Phase = signaling_conn(&mut state, ConnPhase::Processing("m"), ConnEvent::Tick);
    assert!(matches!(phase, ConnPhase::Processing("m")));
    let phase: Phase = signaling_conn(&mut state, ConnPhase::Listening, ConnEvent::Done(Err("e")));
    assert!(matches!(phase, ConnPhase::Listening));
    let phase: Phase = signaling_conn(&mut state, ConnPhase::Closing(Ok(())), ConnEvent::Ended);
    assert!(matches!(phase, ConnPhase::Closing(Ok(()))));
    assert!(state.pong_received);
}

#[test]
fn sending_succeeds_at_once() {
    let phase: SendPhase<&str> = try_send(SendPhase::Sending, Ok(()));
    assert!(matches!(phase, SendPhase::Finished(Ok(()))));
    let phase = try_send(phase, Err("late"));
    assert!(matches!(phase, SendPhase::Finished(Ok(()))));
}

#[test]
fn a_failed_send_closes_and_fails() {
    let phase = try_send(SendPhase::Sending, Err("send"));
    assert!(matches!(phase, SendPhase::Closing("send")));
    assert!(matches!(try_send(phase, Ok(())), SendPhase::Finished(Err("send"))));
    assert!(matches!(
        try_send(SendPhase::Closing("send"), Err("close")),
        SendPhase::Finished(Err("close"))
    ));
}
