use bytes::Bytes;
use iotd::protocol::packet::{PublishPacket, QoS};
use iotd::router::{RetainedUpdate, Router};
use iotd::storage::{InMemoryStorage, PersistedRetainedMessage, StorageError, StoredQoS};

#[test]
fn test_exact_match() {
    assert!(Router::topic_matches(
        "home/kitchen/temperature",
        "home/kitchen/temperature"
    ));
    assert!(Router::topic_matches("a", "a"));
    assert!(Router::topic_matches("", ""));
}

#[test]
fn test_exact_mismatch() {
    assert!(!Router::topic_matches(
        "home/kitchen/temperature",
        "home/kitchen/humidity"
    ));
    assert!(!Router::topic_matches(
        "home/kitchen",
        "home/kitchen/temperature"
    ));
    assert!(!Router::topic_matches(
        "home/kitchen/temperature",
        "home/kitchen"
    ));
    assert!(!Router::topic_matches("abc", "xyz"));
    assert!(!Router::topic_matches("a", ""));
    assert!(!Router::topic_matches("", "a"));
}

#[test]
fn test_single_level_wildcard_plus() {
    // Basic + wildcard tests
    assert!(Router::topic_matches(
        "home/kitchen/temperature",
        "home/+/temperature"
    ));
    assert!(Router::topic_matches(
        "home/bedroom/temperature",
        "home/+/temperature"
    ));
    assert!(Router::topic_matches(
        "home/livingroom/temperature",
        "home/+/temperature"
    ));

    // + at beginning
    assert!(Router::topic_matches(
        "kitchen/temperature",
        "+/temperature"
    ));
    assert!(Router::topic_matches(
        "bedroom/temperature",
        "+/temperature"
    ));

    // + at end
    assert!(Router::topic_matches("home/kitchen", "home/+"));
    assert!(Router::topic_matches("home/bedroom", "home/+"));

    // Multiple + wildcards
    assert!(Router::topic_matches(
        "home/kitchen/sensor/temperature",
        "home/+/sensor/+"
    ));
    assert!(Router::topic_matches(
        "office/meeting/sensor/humidity",
        "office/+/sensor/+"
    ));

    // + should not match empty level
    assert!(!Router::topic_matches(
        "home//temperature",
        "home/+/temperature"
    ));
    assert!(!Router::topic_matches(
        "home/temperature",
        "home/+/temperature"
    ));

    // + should not match multiple levels
    assert!(!Router::topic_matches(
        "home/kitchen/cabinet/temperature",
        "home/+/temperature"
    ));
}

#[test]
fn test_multi_level_wildcard_hash() {
    // Basic # wildcard tests
    assert!(Router::topic_matches("home/kitchen/temperature", "home/#"));
    assert!(Router::topic_matches(
        "home/kitchen/sensor/temperature/celsius",
        "home/#"
    ));
    assert!(Router::topic_matches("home", "home/#"));

    // # at root
    assert!(Router::topic_matches("home/kitchen/temperature", "#"));
    assert!(Router::topic_matches("office/meeting/room", "#"));
    assert!(Router::topic_matches("sensor", "#"));
    assert!(Router::topic_matches("a/b/c/d/e/f/g", "#"));

    // # should match zero levels
    assert!(Router::topic_matches("home", "home/#"));

    // # should match empty topic if filter is just #
    assert!(Router::topic_matches("", "#"));

    // # must be last in filter
    assert!(Router::topic_matches(
        "home/kitchen/temperature",
        "home/kitchen/#"
    ));
}

#[test]
fn test_combined_wildcards() {
    // Combining + and # wildcards
    assert!(Router::topic_matches(
        "home/kitchen/sensor/temperature",
        "home/+/#"
    ));
    assert!(Router::topic_matches(
        "home/bedroom/light/brightness",
        "home/+/#"
    ));
    assert!(Router::topic_matches("home/kitchen", "home/+/#"));

    // Multiple + before #
    assert!(Router::topic_matches(
        "building/floor2/room5/sensor/temp",
        "building/+/+/#"
    ));
    assert!(Router::topic_matches(
        "building/floor1/room3/light",
        "building/+/+/#"
    ));

    // Edge case: + and # together
    assert!(Router::topic_matches("a/b/c/d", "+/+/#"));
    assert!(Router::topic_matches("x/y", "+/+/#"));
}

#[test]
fn test_edge_cases() {
    // Empty topics and filters
    assert!(Router::topic_matches("", ""));
    assert!(Router::topic_matches("", "#"));
    assert!(!Router::topic_matches("a", ""));
    assert!(!Router::topic_matches("", "a"));

    // Single character topics
    assert!(Router::topic_matches("a", "a"));
    assert!(Router::topic_matches("a", "+"));
    assert!(Router::topic_matches("a", "#"));

    // Very long topics
    let long_topic = "a/".repeat(100) + "b";
    let long_filter = "+/".repeat(100) + "+";
    assert!(Router::topic_matches(&long_topic, &long_filter));
    assert!(Router::topic_matches(&long_topic, "#"));

    // Topics with special characters
    assert!(Router::topic_matches(
        "home/kitchen-sensor/temp_1",
        "home/+/+"
    ));
    assert!(Router::topic_matches("device@123/status", "+/status"));
    assert!(Router::topic_matches(
        "sensor.temperature.celsius",
        "sensor.temperature.celsius"
    ));

    // Unicode characters
    assert!(Router::topic_matches("家/厨房/温度", "家/+/温度"));
    assert!(Router::topic_matches("🏠/🔥/🌡️", "🏠/#"));
}

#[test]
fn test_invalid_wildcard_patterns() {
    // These should not match because # is not at the end
    // Note: Our implementation should handle these gracefully
    assert!(!Router::topic_matches("home/kitchen/temp", "home/#/temp"));
    assert!(!Router::topic_matches("a/b/c", "#/b/c"));
}

#[test]
fn test_mqtt_spec_examples() {
    // Examples from MQTT specification

    // sport/tennis/player1
    assert!(Router::topic_matches(
        "sport/tennis/player1",
        "sport/tennis/player1"
    ));
    assert!(Router::topic_matches(
        "sport/tennis/player1",
        "sport/tennis/+"
    ));
    assert!(!Router::topic_matches("sport/tennis/player1", "sport/+"));
    assert!(Router::topic_matches(
        "sport/tennis/player1",
        "+/tennis/player1"
    ));
    assert!(!Router::topic_matches("sport/tennis/player1", "+/+"));
    assert!(Router::topic_matches("sport/tennis/player1", "+/+/+"));
    assert!(Router::topic_matches("sport/tennis/player1", "#"));
    assert!(Router::topic_matches("sport/tennis/player1", "sport/#"));
    assert!(Router::topic_matches(
        "sport/tennis/player1",
        "sport/tennis/#"
    ));

    // These should NOT match
    assert!(!Router::topic_matches(
        "sport/tennis/player1",
        "sport/tennis"
    ));
    assert!(!Router::topic_matches("sport/tennis/player1", "tennis"));
    assert!(!Router::topic_matches(
        "sport/tennis/player1",
        "sport/tennis/player1/ranking"
    ));
    assert!(!Router::topic_matches("sport/tennis/player1", "+"));
    assert!(!Router::topic_matches("sport/tennis/player1", "+/+"));

    // sport/
    assert!(Router::topic_matches("sport/", "sport/"));
    assert!(!Router::topic_matches("sport/", "sport/+"));
    assert!(!Router::topic_matches("sport/", "+/+"));
    assert!(Router::topic_matches("sport/", "#"));
    assert!(Router::topic_matches("sport/", "sport/#"));

    // /finance
    assert!(Router::topic_matches("/finance", "/finance"));
    assert!(!Router::topic_matches("/finance", "+/finance")); // + should not match empty level
    assert!(!Router::topic_matches("/finance", "+/+"));
    assert!(Router::topic_matches("/finance", "#"));
    assert!(Router::topic_matches("/finance", "/#"));
}

#[test]
fn test_stress_patterns() {
    // Deeply nested topics
    let deep_topic = (0..50)
        .map(|i| format!("level{i}"))
        .collect::<Vec<_>>()
        .join("/");
    let deep_plus_filter = (0..50).map(|_| "+").collect::<Vec<_>>().join("/");
    assert!(Router::topic_matches(&deep_topic, &deep_plus_filter));
    assert!(Router::topic_matches(&deep_topic, "#"));

    // Many consecutive slashes
    assert!(!Router::topic_matches("a///b", "a/+/+/b")); // + should not match empty levels
    assert!(!Router::topic_matches("a//", "a/+/+")); // + should not match empty levels
    assert!(!Router::topic_matches("//a", "+/+/a")); // + should not match empty levels

    // Mixed wildcards stress test
    assert!(Router::topic_matches("a/b/c/d/e/f/g/h", "a/+/c/+/#"));
    assert!(Router::topic_matches("x/y/z", "+/+/#"));
    assert!(!Router::topic_matches("a/b", "a/+/c/+"));
}

#[test]
fn test_boundary_conditions() {
    // Single level topics
    assert!(Router::topic_matches("a", "+"));
    assert!(Router::topic_matches("a", "#"));
    assert!(!Router::topic_matches("a/b", "+"));

    // Two level topics
    assert!(Router::topic_matches("a/b", "+/+"));
    assert!(Router::topic_matches("a/b", "#"));
    assert!(Router::topic_matches("a/b", "a/#"));
    assert!(Router::topic_matches("a/b", "+/#"));

    // Filter longer than topic
    assert!(!Router::topic_matches("a", "a/b"));
    assert!(!Router::topic_matches("a/b", "a/b/c"));
    assert!(!Router::topic_matches("a", "+/+"));

    // Topic longer than filter
    assert!(!Router::topic_matches("a/b/c", "a/b"));
    assert!(!Router::topic_matches("a/b", "a"));
    assert!(Router::topic_matches("a/b/c", "a/#"));
    assert!(Router::topic_matches("a/b/c", "#"));
}

#[test]
fn test_valid_topic_names() {
    // Valid topic names
    assert!(Router::is_valid_topic_name("home/temperature"));
    assert!(Router::is_valid_topic_name("a"));
    assert!(Router::is_valid_topic_name("a/b/c/d/e/f"));
    assert!(Router::is_valid_topic_name("/"));
    assert!(Router::is_valid_topic_name("home/"));
    assert!(Router::is_valid_topic_name("/home"));
    assert!(Router::is_valid_topic_name("测试")); // UTF-8
    assert!(Router::is_valid_topic_name("🚀")); // Emoji
    assert!(Router::is_valid_topic_name("home/kitchen/temperature/°C"));

    // Topics can contain wildcards when publishing (they're just literal characters)
    assert!(Router::is_valid_topic_name("home/+/temp"));
    assert!(Router::is_valid_topic_name("home/#"));
}

#[test]
fn test_invalid_topic_names() {
    // Empty topic
    assert!(!Router::is_valid_topic_name(""));

    // Contains null character
    assert!(!Router::is_valid_topic_name("home\0temperature"));
    assert!(!Router::is_valid_topic_name("\0"));
    assert!(!Router::is_valid_topic_name("home/\0/temp"));
}

#[test]
fn test_valid_topic_filters() {
    // Valid filters without wildcards
    assert!(Router::is_valid_topic_filter("home/temperature"));
    assert!(Router::is_valid_topic_filter("a"));
    assert!(Router::is_valid_topic_filter("/"));
    assert!(Router::is_valid_topic_filter("home/"));
    assert!(Router::is_valid_topic_filter("/home"));

    // Valid single-level wildcards
    assert!(Router::is_valid_topic_filter("+"));
    assert!(Router::is_valid_topic_filter("home/+/temperature"));
    assert!(Router::is_valid_topic_filter("+/+/+"));
    assert!(Router::is_valid_topic_filter("home/+"));
    assert!(Router::is_valid_topic_filter("+/temperature"));

    // Valid multi-level wildcards
    assert!(Router::is_valid_topic_filter("#"));
    assert!(Router::is_valid_topic_filter("home/#"));
    assert!(Router::is_valid_topic_filter("home/kitchen/#"));
    assert!(Router::is_valid_topic_filter("+/#"));
    assert!(Router::is_valid_topic_filter("+/+/#"));

    // UTF-8 is valid
    assert!(Router::is_valid_topic_filter("测试/+/#"));
    assert!(Router::is_valid_topic_filter("🚀/#"));
}

#[test]
fn test_invalid_topic_filters() {
    // Empty filter
    assert!(!Router::is_valid_topic_filter(""));

    // Contains null character
    assert!(!Router::is_valid_topic_filter("home\0temperature"));
    assert!(!Router::is_valid_topic_filter("\0"));
    assert!(!Router::is_valid_topic_filter("home/\0/temp"));

    // Invalid single-level wildcard usage
    assert!(!Router::is_valid_topic_filter("home/+a/temp")); // + not alone
    assert!(!Router::is_valid_topic_filter("home/a+/temp")); // + not alone
    assert!(!Router::is_valid_topic_filter("home/++/temp")); // + not alone
    assert!(!Router::is_valid_topic_filter("home/+abc/temp")); // + not alone

    // Invalid multi-level wildcard usage
    assert!(!Router::is_valid_topic_filter("home/#/temp")); // # must be last
    assert!(!Router::is_valid_topic_filter("home/a#")); // # not alone
    assert!(!Router::is_valid_topic_filter("home/#a")); // # not alone
    assert!(!Router::is_valid_topic_filter("home/##")); // # not alone
    assert!(!Router::is_valid_topic_filter("#/home")); // # must be last
    assert!(!Router::is_valid_topic_filter("home/kitchen/#/room")); // # must be last
}

#[test]
fn test_edge_case_validation() {
    // Just slashes
    assert!(Router::is_valid_topic_name("/"));
    assert!(Router::is_valid_topic_name("//"));
    assert!(Router::is_valid_topic_name("///"));
    assert!(Router::is_valid_topic_filter("/"));
    assert!(Router::is_valid_topic_filter("//"));
    assert!(Router::is_valid_topic_filter("///"));

    // Wildcards at boundaries
    assert!(Router::is_valid_topic_filter("/+"));
    assert!(Router::is_valid_topic_filter("+/"));
    assert!(Router::is_valid_topic_filter("/+/"));
    assert!(Router::is_valid_topic_filter("/#"));
    assert!(Router::is_valid_topic_filter("/+/#"));

    // Multiple # in different levels (still invalid)
    assert!(!Router::is_valid_topic_filter("#/#"));
    assert!(!Router::is_valid_topic_filter("home/#/#"));

    // Mixed valid and invalid patterns
    assert!(Router::is_valid_topic_filter("home/+/kitchen/+/sensor"));
    assert!(!Router::is_valid_topic_filter("home/+/kitchen/#/sensor"));
    assert!(!Router::is_valid_topic_filter("home/+a/kitchen/+/sensor"));
}

// ---------------------------------------------------------------------------
// Subscription table and routing
// ---------------------------------------------------------------------------

fn publish(topic: &str, payload: &str, qos: QoS, retain: bool) -> PublishPacket {
    PublishPacket {
        topic: topic.to_string(),
        packet_id: None,
        payload: Bytes::from(payload.to_string()),
        qos,
        retain,
        dup: false,
    }
}

fn retained(topic: &str, payload: &str, qos: StoredQoS) -> PersistedRetainedMessage {
    PersistedRetainedMessage {
        topic: topic.to_string(),
        payload: Bytes::from(payload.to_string()),
        qos,
        updated_at: 0,
    }
}

#[test]
fn subscribe_grants_requested_qos_and_fails_invalid_filters() {
    let mut router = Router::new(10);
    let filters = vec![
        ("a/+".to_string(), QoS::AtMostOnce),
        ("a/#/b".to_string(), QoS::AtLeastOnce),
        ("x/#".to_string(), QoS::ExactlyOnce),
    ];
    let (codes, msgs) = router.subscribe("s1", &filters, Ok(vec![]));
    assert_eq!(codes, vec![0, 0x80, 2]);
    assert!(msgs.is_empty());
    let subs = router.get_subscriptions("s1");
    assert_eq!(subs.len(), 2);
    assert_eq!(subs[0].0, "a/+");
    assert_eq!(subs[1].0, "x/#");
    assert!(matches!(subs[1].1, QoS::ExactlyOnce));
}

#[test]
fn resubscribing_replaces_the_qos() {
    let mut router = Router::new(10);
    router.subscribe("s1", &[("t".to_string(), QoS::AtMostOnce)], Ok(vec![]));
    router.subscribe("s1", &[("t".to_string(), QoS::AtLeastOnce)], Ok(vec![]));
    let subs = router.get_subscriptions("s1");
    assert_eq!(subs.len(), 1);
    assert!(matches!(subs[0].1, QoS::AtLeastOnce));
}

#[test]
fn subscribe_returns_matching_retained_messages_at_the_lower_qos() {
    let mut router = Router::new(10);
    let stored = vec![
        retained("home/room1/temp", "20C", StoredQoS::ExactlyOnce),
        retained("home/room2/temp", "22C", StoredQoS::AtMostOnce),
        retained("home/room1/humidity", "60%", StoredQoS::AtLeastOnce),
    ];
    let (codes, msgs) =
        router.subscribe("s1", &[("home/+/temp".to_string(), QoS::AtLeastOnce)], Ok(stored));
    assert_eq!(codes, vec![1]);
    assert_eq!(msgs.len(), 2);
    assert_eq!(msgs[0].topic, "home/room1/temp");
    assert!(matches!(msgs[0].qos, QoS::AtLeastOnce));
    assert!(msgs[0].retain);
    assert_eq!(msgs[1].topic, "home/room2/temp");
    assert!(matches!(msgs[1].qos, QoS::AtMostOnce));
}

#[test]
fn failed_retained_load_counts_as_none() {
    let mut router = Router::new(10);
    let (codes, msgs) = router.subscribe(
        "s1",
        &[("#".to_string(), QoS::AtMostOnce)],
        Err(StorageError::Internal("down".to_string())),
    );
    assert_eq!(codes, vec![0]);
    assert!(msgs.is_empty());
}

#[test]
fn route_delivers_to_matching_subscribers_at_the_lower_qos() {
    let mut router = Router::new(10);
    router.subscribe("s1", &[("a/+".to_string(), QoS::AtMostOnce)], Ok(vec![]));
    router.subscribe("s2", &[("a/b".to_string(), QoS::ExactlyOnce)], Ok(vec![]));
    router.subscribe("s3", &[("c".to_string(), QoS::AtLeastOnce)], Ok(vec![]));
    let out = router.route(&publish("a/b", "hi", QoS::AtLeastOnce, true), Ok(false), Ok(0), 5);
    assert_eq!(out.deliveries.len(), 2);
    assert_eq!(out.deliveries[0].session_id, "s1");
    assert!(matches!(out.deliveries[0].packet.qos, QoS::AtMostOnce));
    assert_eq!(out.deliveries[1].session_id, "s2");
    assert!(matches!(out.deliveries[1].packet.qos, QoS::AtLeastOnce));
    assert!(!out.deliveries[1].packet.retain);
    assert!(out.deliveries[1].packet.packet_id.is_none());
    match out.retained {
        RetainedUpdate::Store(m) => {
            assert_eq!(m.topic, "a/b");
            assert_eq!(m.payload, Bytes::from("hi"));
            assert!(matches!(m.qos, StoredQoS::AtLeastOnce));
            assert_eq!(m.updated_at, 5);
        }
        _ => panic!("expected the message to be stored"),
    }
}

#[test]
fn route_ignores_invalid_topic_names() {
    let mut router = Router::new(10);
    router.subscribe("s1", &[("#".to_string(), QoS::AtMostOnce)], Ok(vec![]));
    let out = router.route(&publish("", "x", QoS::AtMostOnce, true), Ok(false), Ok(0), 0);
    assert!(out.deliveries.is_empty());
    assert!(matches!(out.retained, RetainedUpdate::Unchanged));
}

#[test]
fn empty_retained_message_deletes_and_full_store_drops_new_topics() {
    let router = Router::new(2);
    let out = router.route(&publish("t", "", QoS::AtMostOnce, true), Ok(true), Ok(1), 0);
    assert!(matches!(out.retained, RetainedUpdate::Delete(ref t) if t == "t"));
    let out = router.route(&publish("t", "x", QoS::AtMostOnce, true), Ok(false), Ok(2), 0);
    assert!(matches!(out.retained, RetainedUpdate::LimitReached));
    let out = router.route(&publish("t", "x", QoS::AtMostOnce, true), Ok(true), Ok(2), 0);
    assert!(matches!(out.retained, RetainedUpdate::Store(_)));
    let out = router.route(
        &publish("t", "x", QoS::AtMostOnce, true),
        Err(StorageError::Internal("e".to_string())),
        Ok(2),
        0,
    );
    assert!(matches!(out.retained, RetainedUpdate::Store(_)));
    let out = router.route(&publish("t", "x", QoS::AtMostOnce, false), Ok(false), Ok(2), 0);
    assert!(matches!(out.retained, RetainedUpdate::Unchanged));
}

#[test]
fn unsubscribe_and_unsubscribe_all_stop_delivery() {
    let mut router = Router::new(10);
    router.subscribe(
        "s1",
        &[("a".to_string(), QoS::AtMostOnce), ("b".to_string(), QoS::AtMostOnce)],
        Ok(vec![]),
    );
    router.subscribe("s2", &[("a".to_string(), QoS::AtMostOnce)], Ok(vec![]));
    router.unsubscribe("s1", &["a".to_string(), "zzz".to_string()]);
    let out = router.route(&publish("a", "x", QoS::AtMostOnce, false), Ok(false), Ok(0), 0);
    assert_eq!(out.deliveries.len(), 1);
    assert_eq!(out.deliveries[0].session_id, "s2");
    router.unsubscribe_all("s1");
    assert!(router.get_subscriptions("s1").is_empty());
    assert_eq!(router.get_subscriptions("s2").len(), 1);
    let out = router.route(&publish("b", "x", QoS::AtMostOnce, false), Ok(false), Ok(0), 0);
    assert!(out.deliveries.is_empty());
}

#[test]
fn test_plus_alone_matches_one_nonempty_level() {
    assert!(Router::topic_matches("abc", "+"));
    assert!(Router::topic_matches("+", "+"));
    assert!(!Router::topic_matches("", "+"));
    assert!(!Router::topic_matches("a/b", "+"));
    assert!(!Router::topic_matches("/", "+"));
}

#[test]
fn test_hash_matches_subtree_and_parent() {
    assert!(Router::topic_matches("sport/tennis", "sport/#"));
    assert!(Router::topic_matches("sport/tennis/player1/score", "sport/#"));
    assert!(Router::topic_matches("sport", "sport/#"));
    assert!(Router::topic_matches("sport/", "sport/#"));
    assert!(!Router::topic_matches("sports", "sport/#"));
    assert!(Router::topic_matches("a/x/b/c", "a/+/b/#"));
}

#[test]
fn subscribe_last_request_wins_and_other_sessions_stay() {
    let mut router = Router::new(10);
    router.subscribe("other", &[("a/b".to_string(), QoS::AtMostOnce)], Ok(Vec::new()));
    let (codes, _) = router.subscribe(
        "s",
        &[
            ("a/b".to_string(), QoS::AtMostOnce),
            ("bad/#/x".to_string(), QoS::AtLeastOnce),
            ("a/b".to_string(), QoS::ExactlyOnce),
        ],
        Ok(Vec::new()),
    );
    assert_eq!(codes, vec![0x00, 0x80, 0x02]);
    let subs = router.get_subscriptions("s");
    assert_eq!(subs.len(), 1);
    assert_eq!(subs[0].0, "a/b");
    assert_eq!(subs[0].1, QoS::ExactlyOnce);
    let others = router.get_subscriptions("other");
    assert_eq!(others.len(), 1);
    assert_eq!(others[0].1, QoS::AtMostOnce);
}

#[test]
fn unsubscribe_leaves_other_filters_and_sessions() {
    let mut router = Router::new(10);
    router.subscribe("s", &[("a".to_string(), QoS::AtLeastOnce), ("b".to_string(), QoS::AtMostOnce)], Ok(Vec::new()));
    router.subscribe("t", &[("a".to_string(), QoS::AtLeastOnce)], Ok(Vec::new()));
    router.unsubscribe("s", &["a".to_string(), "never".to_string()]);
    let subs = router.get_subscriptions("s");
    assert_eq!(subs.len(), 1);
    assert_eq!(subs[0].0, "b");
    assert_eq!(router.get_subscriptions("t").len(), 1);
}

fn retained_publish(topic: &str, payload: &'static [u8]) -> PublishPacket {
    PublishPacket {
        topic: topic.to_string(),
        packet_id: None,
        payload: Bytes::from_static(payload),
        qos: QoS::AtLeastOnce,
        retain: true,
        dup: false,
    }
}

fn apply(router: &Router, store: &mut InMemoryStorage, p: &PublishPacket, now: i64) {
    let existing = store.load_retained_message(&p.topic).map(|m| m.is_some());
    let count = store.count_retained_messages();
    match router.route(p, existing, count, now).retained {
        RetainedUpdate::Store(m) => store.save_retained_message(&m).unwrap(),
        RetainedUpdate::Delete(t) => store.delete_retained_message(&t).unwrap(),
        _ => {}
    }
}

#[test]
fn retained_store_stays_within_its_limit() {
    let router = Router::new(1);
    let mut store = InMemoryStorage::new();
    apply(&router, &mut store, &retained_publish("a", b"1"), 1);
    assert_eq!(store.count_retained_messages().unwrap(), 1);
    // A new topic at the limit leaves the store as it was.
    apply(&router, &mut store, &retained_publish("b", b"2"), 2);
    assert_eq!(store.count_retained_messages().unwrap(), 1);
    assert!(store.load_retained_message("b").unwrap().is_none());
    // The topic already held is replaced.
    apply(&router, &mut store, &retained_publish("a", b"3"), 3);
    assert_eq!(store.count_retained_messages().unwrap(), 1);
    let m = store.load_retained_message("a").unwrap().unwrap();
    assert_eq!(&m.payload[..], b"3");
    assert_eq!(m.updated_at, 3);
}
