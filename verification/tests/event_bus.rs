//! Tests for the bounded broadcast event bus.

use ijoka_core::bus::EventBus;
use ijoka_core::model::AgentEvent;

fn event(kind: &str) -> AgentEvent {
    AgentEvent {
        id: None,
        event_type: kind.to_string(),
        source_agent: "hook-agent".to_string(),
        session_id: "s1".to_string(),
        project_dir: "/p".to_string(),
        tool_name: None,
        payload: None,
        feature_id: None,
        created_at: 0,
    }
}

fn kinds(events: &[AgentEvent]) -> Vec<String> {
    events.iter().map(|e| e.event_type.clone()).collect()
}

#[test]
fn subscriber_sees_all_events_in_publish_order() {
    let mut bus = EventBus::new(100);
    let sub = bus.subscribe();
    bus.publish(&event("e1"));
    bus.publish(&event("e2"));
    bus.publish(&event("e3"));
    let seen = bus.poll(sub);
    assert_eq!(kinds(&seen), vec!["e1", "e2", "e3"]);
}

#[test]
fn subscriber_only_sees_events_published_after_it_joined() {
    let mut bus = EventBus::new(100);
    bus.publish(&event("before"));
    let sub = bus.subscribe();
    bus.publish(&event("after"));
    assert_eq!(kinds(&bus.poll(sub)), vec!["after"]);
}

#[test]
fn poll_advances_the_cursor() {
    let mut bus = EventBus::new(100);
    let sub = bus.subscribe();
    bus.publish(&event("e1"));
    assert_eq!(kinds(&bus.poll(sub)), vec!["e1"]);
    assert!(bus.poll(sub).is_empty());
    bus.publish(&event("e2"));
    assert_eq!(kinds(&bus.poll(sub)), vec!["e2"]);
}

#[test]
fn slow_subscriber_loses_only_the_oldest_events() {
    let mut bus = EventBus::new(2);
    let sub = bus.subscribe();
    bus.publish(&event("e1"));
    bus.publish(&event("e2"));
    bus.publish(&event("e3"));
    // the bound dropped the oldest undelivered event for this subscriber
    assert_eq!(kinds(&bus.poll(sub)), vec!["e2", "e3"]);
}

#[test]
fn subscribers_have_independent_cursors() {
    let mut bus = EventBus::new(100);
    let a = bus.subscribe();
    bus.publish(&event("e1"));
    let b = bus.subscribe();
    bus.publish(&event("e2"));

    assert_eq!(kinds(&bus.poll(a)), vec!["e1", "e2"]);
    assert_eq!(kinds(&bus.poll(b)), vec!["e2"]);
}

#[test]
fn a_lagging_subscriber_never_blocks_publishing() {
    let mut bus = EventBus::new(3);
    let lagging = bus.subscribe();
    for k in 0..10 {
        bus.publish(&event(&format!("e{}", k)));
    }
    // publishing went on regardless; the laggard gets the newest stretch
    assert_eq!(kinds(&bus.poll(lagging)), vec!["e7", "e8", "e9"]);
}
