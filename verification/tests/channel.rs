use serde_json::Value;
use sidepulse_bridge::channel::{Channel, Delivery};
use sidepulse_bridge::hub::Hub;
use sidepulse_bridge::json::{queued_json_value, queued_value, Parsed};

const SEC: u128 = 1_000_000_000;
const TTL: u128 = 300 * SEC;

#[test]
fn recovery_queue_keeps_the_latest_five_in_fifo_order() {
    let mut channel = Channel::new(0);
    for n in 1..=6 {
        channel.enqueue(format!("message-{n}"), n, TTL);
    }

    assert_eq!(
        channel.drain_queue(7, TTL),
        vec![
            "message-2",
            "message-3",
            "message-4",
            "message-5",
            "message-6"
        ]
    );
    assert!(channel.drain_queue(8, TTL).is_empty());
}

#[test]
fn recovery_queue_returns_json_objects_and_plain_text() {
    let mut object = serde_json::Map::new();
    object.insert("title".to_string(), Value::from("Title"));
    object.insert("text".to_string(), Value::from("Message"));
    assert_eq!(
        queued_json_value(r#"{"title":"Title","text":"Message"}"#.into()),
        Value::Object(object)
    );
    assert_eq!(
        queued_json_value("plain text".into()),
        Value::from("plain text")
    );
}

#[test]
fn json_that_is_no_object_is_handed_out_as_text() {
    for text in ["[1,2]", "17", "\"quoted\"", "null", "true", "{\"a\":", ""] {
        assert_eq!(queued_json_value(text.to_string()), Value::from(text));
    }
}

#[test]
fn queued_value_goes_by_what_was_parsed() {
    let object = Value::Object(serde_json::Map::new());
    assert_eq!(
        queued_value("x".to_string(), Parsed::Object(object.clone())),
        object
    );
    for other in [
        Parsed::Null(Value::Null),
        Parsed::Bool(Value::from(true)),
        Parsed::Number(Value::from(17)),
        Parsed::Text(Value::from("y")),
        Parsed::Array(Value::from(vec![1])),
        Parsed::Invalid,
    ] {
        assert_eq!(queued_value("x".to_string(), other), Value::from("x"));
    }
}

#[test]
fn messages_expire() {
    let mut channel = Channel::new(0);
    channel.enqueue("old".to_string(), 0, TTL);
    channel.enqueue("young".to_string(), 1, TTL);
    assert_eq!(channel.drain_queue(TTL, TTL), vec!["young"]);

    channel.enqueue("a".to_string(), 0, TTL);
    channel.enqueue("b".to_string(), TTL, TTL);
    assert_eq!(channel.drain_queue(TTL, TTL), vec!["b"]);
}

#[test]
fn expired_messages_make_room_before_fresh_ones() {
    let mut channel = Channel::new(0);
    for n in 0..3 {
        channel.enqueue(format!("old-{n}"), 0, TTL);
    }
    for n in 0..2 {
        channel.enqueue(format!("new-{n}"), TTL - 1, TTL);
    }
    for n in 2..5 {
        channel.enqueue(format!("new-{n}"), TTL, TTL);
    }
    assert_eq!(
        channel.drain_queue(TTL, TTL),
        vec!["new-0", "new-1", "new-2", "new-3", "new-4"]
    );
}

#[test]
fn a_message_stamped_ahead_counts_as_fresh() {
    let mut channel = Channel::new(0);
    channel.enqueue("ahead".to_string(), 10, TTL);
    assert_eq!(channel.drain_queue(0, TTL), vec!["ahead"]);
    channel.enqueue("never".to_string(), 10, 0);
    assert!(channel.drain_queue(0, 0).is_empty());
}

#[test]
fn posts_are_queued_without_and_live_with_a_listener() {
    let mut channel = Channel::new(0);
    assert_eq!(
        channel.post("one".to_string(), 1, TTL),
        Delivery::Queued
    );
    let (mut rx, backlog) = channel.listen(2, TTL);
    assert_eq!(backlog, vec!["one"]);
    assert_eq!(channel.post("two".to_string(), 3, TTL), Delivery::Live);
    assert_eq!(rx.try_recv().unwrap(), "two");
    assert!(rx.try_recv().is_err());
    drop(rx);
    assert_eq!(
        channel.post("three".to_string(), 4, TTL),
        Delivery::Queued
    );
    assert_eq!(channel.drain_queue(5, TTL), vec!["three"]);
}

#[test]
fn settling_follows_the_broadcast() {
    let mut channel = Channel::new(0);
    assert_eq!(channel.settle(Ok(2), 1, TTL), Delivery::Live);
    assert!(channel.drain_queue(1, TTL).is_empty());
    assert_eq!(
        channel.settle(Err("back".to_string()), 1, TTL),
        Delivery::Queued
    );
    assert_eq!(channel.drain_queue(1, TTL), vec!["back"]);
}

#[test]
fn idle_channels_are_not_kept() {
    let mut channel = Channel::new(0);
    assert!(channel.is_kept(0, 300 * SEC - 1, TTL));
    assert!(!channel.is_kept(0, 300 * SEC, TTL));
    assert!(channel.is_kept(1, 300 * SEC, TTL));
    // A longer time to live keeps the channel longer, a shorter one does not
    // shorten its stay.
    assert!(channel.is_kept(0, 300 * SEC, 400 * SEC));
    assert!(!channel.is_kept(0, 400 * SEC, 400 * SEC));
    assert!(channel.is_kept(0, 299 * SEC, SEC));
    channel.touch(SEC);
    assert!(channel.is_kept(0, 300 * SEC, TTL));

    assert!(!channel.is_live(301 * SEC, TTL));
    let (rx, _) = channel.listen(SEC, TTL);
    assert!(channel.is_live(301 * SEC, TTL));
    drop(rx);
    assert!(!channel.is_live(301 * SEC, TTL));
}

#[test]
fn hub_keeps_channels_apart() {
    let mut hub = Hub::new();
    assert_eq!(
        hub.post("a", "to a".to_string(), 1, TTL),
        Delivery::Queued
    );
    hub.enqueue("b", "to b".to_string(), 1, TTL);
    let (_rx, backlog) = hub.listen("a", 2, TTL);
    assert_eq!(backlog, vec!["to a"]);
    assert_eq!(hub.drain("b", 3, TTL), vec!["to b"]);
    assert!(hub.drain("b", 3, TTL).is_empty());
    assert!(hub.drain("c", 3, TTL).is_empty());
}

#[test]
fn hub_sweeps_idle_channels_only() {
    let mut hub = Hub::new();
    let ttl = 1000 * SEC;
    hub.enqueue("idle", "stale".to_string(), 0, ttl);
    hub.enqueue("used", "kept".to_string(), 10, ttl);
    let (mut rx, _) = hub.listen("live", 0, ttl);
    hub.sweep(1000 * SEC, ttl);
    // Had the idle channel stayed, its message would be there for an observer
    // with a longer time to live.
    assert!(hub.drain("idle", 1000 * SEC, 10 * ttl).is_empty());
    assert_eq!(hub.drain("used", 1000 * SEC, 10 * ttl), vec!["kept"]);
    assert_eq!(
        hub.post("live", "still".to_string(), 1000 * SEC, ttl),
        Delivery::Live
    );
    assert_eq!(rx.try_recv().unwrap(), "still");
}

#[test]
fn a_listener_may_lag_sixty_four_messages_behind() {
    let mut channel = Channel::new(0);
    let (mut rx, _) = channel.listen(0, TTL);
    for n in 0..64 {
        assert_eq!(channel.post(format!("{n}"), 1, TTL), Delivery::Live);
    }
    for n in 0..64 {
        assert_eq!(rx.try_recv().unwrap(), format!("{n}"));
    }
    for n in 0..65 {
        channel.post(format!("{n}"), 1, TTL);
    }
    // One message too many: the first is missed.
    assert!(rx.try_recv().is_err());
    assert_eq!(rx.try_recv().unwrap(), "1");
}
