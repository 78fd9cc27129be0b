use std::collections::HashSet;
use std::sync::Arc;
use std::time::Duration;
use yrs_ax::conn::PING_TIMEOUT;
use yrs_ax::message::Frame;
use yrs_ax::publication::Publication;
use yrs_ax::service::SignalingService;
use yrs_ax::state::ConnState;
use yrs_ax::topics::{to_vec, Topics};

fn sorted(mut conns: Vec<u64>) -> Vec<u64> {
    conns.sort();
    conns
}

fn recipients(service: &SignalingService, topic: &str) -> Vec<u64> {
    sorted(service.publish(topic, Frame::Text(String::new())).pending)
}

/// Delivers to all but `unreachable` and returns who was addressed.
fn deliver(publication: &mut Publication, unreachable: &[u64]) -> Vec<u64> {
    let mut addressed = Vec::new();
    while let Some((conn, frame)) = publication.next() {
        assert_eq!(frame, publication.msg);
        addressed.push(conn);
        publication.report(!unreachable.contains(&conn));
    }
    sorted(addressed)
}

#[test]
fn test_signaling_service_new() {
    let service = SignalingService::new();
    assert_eq!(service.topics.len(), 0);
}

#[test]
fn test_signaling_service_default() {
    let service = SignalingService::default();
    assert_eq!(service.topics.len(), 0);
}

#[test]
fn test_conn_state_default() {
    let state = ConnState::default();
    assert!(!state.closed);
    assert!(state.pong_received);
    assert_eq!(state.subscribed_topics.len(), 0);
}

#[test]
fn test_conn_state_subscribed_topics() {
    let mut state = ConnState::default();

    // Add topics
    let topic1: Arc<str> = "room1".into();
    let topic2: Arc<str> = "room2".into();

    state.subscribed_topics.insert(&topic1);
    state.subscribed_topics.insert(&topic2);

    assert_eq!(state.subscribed_topics.len(), 2);
    assert!(state.subscribed_topics.contains(&topic1));
    assert!(state.subscribed_topics.contains(&topic2));

    // Drain topics
    let drained: Vec<_> = state.subscribed_topics.drain();
    assert_eq!(drained.len(), 2);
    assert_eq!(state.subscribed_topics.len(), 0);
}

#[test]
fn test_ping_timeout_constant() {
    assert_eq!(Duration::from_secs(PING_TIMEOUT), Duration::from_secs(30));
}

#[test]
fn test_topics_write_access() {
    // Test that we can write to topics
    let mut topics = Topics::new();
    topics.insert("test-room".to_string(), HashSet::new());

    assert_eq!(topics.len(), 1);
    assert!(topics.contains_key("test-room"));
}

#[test]
fn subscribed_topics_hold_each_name_once() {
    let mut state = ConnState::default();
    assert!(state.subscribed_topics.insert("room"));
    assert!(!state.subscribed_topics.insert("room"));
    assert_eq!(state.subscribed_topics.len(), 1);
    assert_eq!(state.subscribed_topics.drain(), vec!["room".to_string()]);
    assert!(!state.subscribed_topics.contains("room"));
    assert!(state.subscribed_topics.drain().is_empty());
}

#[test]
fn topics_survive_removals_in_the_middle() {
    let mut topics = Topics::new();
    for (i, name) in ["a", "b", "c", "d"].iter().enumerate() {
        topics.insert(name.to_string(), HashSet::from([i as u64]));
    }
    assert_eq!(topics.remove("b"), Some(HashSet::from([1])));
    assert_eq!(topics.remove("b"), None);
    assert_eq!(topics.len(), 3);
    assert_eq!(topics.get("a"), Some(&HashSet::from([0])));
    assert_eq!(topics.get("b"), None);
    assert_eq!(topics.get("c"), Some(&HashSet::from([2])));
    assert_eq!(topics.get("d"), Some(&HashSet::from([3])));
    topics.add("d", 9);
    assert_eq!(topics.get("d"), Some(&HashSet::from([3, 9])));
    assert_eq!(topics.remove("d"), Some(HashSet::from([3, 9])));
    topics.insert("a".to_string(), HashSet::from([7]));
    assert_eq!(topics.get("a"), Some(&HashSet::from([7])));
    assert_eq!(topics.len(), 2);
    assert!(topics.discard("a", 7));
    assert!(!topics.discard("x", 7));
    assert_eq!(topics.get("a"), Some(&HashSet::new()));
    assert_eq!(topics.subscribers(), HashSet::from([2]));
    assert!(topics.is_subscribed(2));
    assert!(!topics.is_subscribed(7));
    topics.clear();
    assert_eq!(topics.len(), 0);
    assert!(!topics.contains_key("c"));
}

#[test]
fn a_set_is_listed_without_repetition() {
    let set = HashSet::from([5, 3, 8]);
    assert_eq!(sorted(to_vec(&set)), vec![3, 5, 8]);
    assert!(to_vec(&HashSet::new()).is_empty());
}

#[test]
fn subscribing_reaches_the_topics_named() {
    let mut service = SignalingService::new();
    let (mut one, mut two) = (ConnState::default(), ConnState::default());
    service.subscribe(1, &vec!["a", "b", "a"], &mut one);
    service.subscribe(2, &vec!["b", "c"], &mut two);
    assert_eq!(service.topics.len(), 3);
    assert_eq!(recipients(&service, "a"), vec![1]);
    assert_eq!(recipients(&service, "b"), vec![1, 2]);
    assert_eq!(recipients(&service, "c"), vec![2]);
    assert!(recipients(&service, "d").is_empty());
    assert_eq!(one.subscribed_topics.len(), 2);
    assert!(one.subscribed_topics.contains("a") && one.subscribed_topics.contains("b"));
    assert!(!one.subscribed_topics.contains("c"));
    assert!(one.pong_received && !one.closed);
}

#[test]
fn subscribing_twice_is_subscribing_once() {
    let mut service = SignalingService::new();
    let mut state = ConnState::default();
    service.subscribe(1, &vec!["a"], &mut state);
    service.subscribe(1, &vec!["b", "a"], &mut state);
    assert_eq!(recipients(&service, "a"), vec![1]);
    assert_eq!(recipients(&service, "b"), vec![1]);
    assert_eq!(state.subscribed_topics.len(), 2);
}

#[test]
fn unsubscribing_keeps_the_topic() {
    let mut service = SignalingService::new();
    let mut state = ConnState::default();
    service.subscribe(1, &vec!["a", "b"], &mut state);
    service.unsubscribe(1, &vec!["a", "unknown"]);
    assert!(recipients(&service, "a").is_empty());
    assert_eq!(recipients(&service, "b"), vec![1]);
    assert!(service.topics.contains_key("a"));
    assert!(!service.topics.contains_key("unknown"));
    assert!(service.is_subscribed(1));
    service.unsubscribe(1, &vec!["b"]);
    assert!(!service.is_subscribed(1));
    assert_eq!(service.topics.len(), 2);
}

#[test]
fn leaving_removes_topics_that_stand_empty() {
    let mut service = SignalingService::new();
    let (mut one, mut two) = (ConnState::default(), ConnState::default());
    service.subscribe(1, &vec!["a", "b"], &mut one);
    service.subscribe(2, &vec!["b"], &mut two);
    service.leave(1, &one.subscribed_topics.drain());
    assert!(!service.topics.contains_key("a"));
    assert_eq!(recipients(&service, "b"), vec![2]);
    assert_eq!(service.topics.len(), 1);
}

#[test]
fn leaving_removes_a_topic_that_was_unsubscribed_before() {
    let mut service = SignalingService::new();
    let mut state = ConnState::default();
    service.subscribe(1, &vec!["a"], &mut state);
    service.unsubscribe(1, &vec!["a"]);
    assert!(service.topics.contains_key("a"));
    service.leave(1, &state.subscribed_topics.drain());
    assert_eq!(service.topics.len(), 0);
}

#[test]
fn a_publication_addresses_each_subscriber_once() {
    let mut service = SignalingService::new();
    for conn in 1..=4 {
        service.subscribe(conn, &vec!["a", "b"], &mut ConnState::default());
    }
    let mut publication = service.publish("a", Frame::Binary(vec![1, 2]));
    assert_eq!(publication.topic, "a");
    assert_eq!(deliver(&mut publication, &[]), vec![1, 2, 3, 4]);
    assert!(!publication.has_failures());
    assert_eq!(publication.next(), None);
    publication.report(false);
    assert!(!publication.has_failures());
    service.drop_failed(&publication);
    assert_eq!(recipients(&service, "a"), vec![1, 2, 3, 4]);
}

#[test]
fn those_who_cannot_be_reached_are_dropped_from_that_topic() {
    let mut service = SignalingService::new();
    for conn in 1..=4 {
        service.subscribe(conn, &vec!["a", "b"], &mut ConnState::default());
    }
    let mut publication = service.publish("a", Frame::Text("hello".to_string()));
    assert_eq!(deliver(&mut publication, &[2, 4]), vec![1, 2, 3, 4]);
    assert!(publication.has_failures());
    assert_eq!(sorted(publication.failed.iter().copied().collect()), vec![2, 4]);
    service.drop_failed(&publication);
    assert_eq!(recipients(&service, "a"), vec![1, 3]);
    assert_eq!(recipients(&service, "b"), vec![1, 2, 3, 4]);
}

#[test]
fn dropping_everybody_keeps_the_topic() {
    let mut service = SignalingService::new();
    service.subscribe(1, &vec!["a"], &mut ConnState::default());
    let mut publication = service.publish("a", Frame::Text("hello".to_string()));
    deliver(&mut publication, &[1]);
    service.drop_failed(&publication);
    assert!(service.topics.contains_key("a"));
    assert!(recipients(&service, "a").is_empty());
}

#[test]
fn a_topic_closed_during_delivery_stays_closed() {
    let mut service = SignalingService::new();
    service.subscribe(1, &vec!["a"], &mut ConnState::default());
    let mut publication = service.publish("a", Frame::Text("hello".to_string()));
    deliver(&mut publication, &[1]);
    service.close_topic("a");
    service.drop_failed(&publication);
    assert_eq!(service.topics.len(), 0);
}

#[test]
fn closing_a_topic_names_its_subscribers() {
    let mut service = SignalingService::new();
    service.subscribe(1, &vec!["a", "b"], &mut ConnState::default());
    service.subscribe(2, &vec!["a"], &mut ConnState::default());
    assert_eq!(sorted(service.close_topic("a")), vec![1, 2]);
    assert!(!service.topics.contains_key("a"));
    assert_eq!(recipients(&service, "b"), vec![1]);
    assert!(service.close_topic("a").is_empty());
}

#[test]
fn closing_the_service_names_everybody_once() {
    let mut service = SignalingService::new();
    service.subscribe(1, &vec!["a", "b"], &mut ConnState::default());
    service.subscribe(2, &vec!["a", "c"], &mut ConnState::default());
    assert_eq!(sorted(service.close()), vec![1, 2]);
    assert_eq!(service.topics.len(), 0);
    assert!(service.close().is_empty());
}

#[test]
fn a_frame_is_copied_whole() {
    let close = Frame::Close(Some(yrs_ax::message::CloseFrame {
        code: 1001,
        reason: "gone".to_string(),
    }));
    assert_eq!(close.clone(), close);
    assert_eq!(Frame::Close(None).clone(), Frame::Close(None));
    assert_eq!(Frame::Ping(vec![7]).clone(), Frame::Ping(vec![7]));
    assert_eq!(Frame::Pong(vec![8]).clone(), Frame::Pong(vec![8]));
}
