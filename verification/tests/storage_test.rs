use bytes::Bytes;
use iotd::storage::{
    InMemoryStorage, PersistedInboundQos2Message, PersistedInflightMessage, PersistedQos2State,
    PersistedRetainedMessage, PersistedSession, PersistedSubscription, PersistedWillMessage,
    StoredQoS,
};
use iotd::protocol::packet::QoS;

const NOW: i64 = 1_700_000_000_000;

#[test]
fn test_session_save_and_load() {
    let mut storage = InMemoryStorage::new();
    let now = NOW;

    let session = PersistedSession {
        client_id: "test-client".to_string(),
        next_packet_id: 100,
        keep_alive: 60,
        will_message: None,
        created_at: now,
        updated_at: now,
    };

    let subs = vec![PersistedSubscription {
        client_id: "test-client".to_string(),
        topic_filter: "test/#".to_string(),
        qos: StoredQoS::AtLeastOnce,
    }];

    let inflight = vec![PersistedInflightMessage {
        client_id: "test-client".to_string(),
        packet_id: 1,
        topic: "test/topic".to_string(),
        payload: Bytes::from("data"),
        qos: StoredQoS::AtLeastOnce,
        retain: false,
        retry_count: 0,
        qos2_state: None,
        created_at: now,
    }];

    storage.save_session(&session, &subs, &inflight, &[]).unwrap();

    let loaded_session = storage.load_session("test-client").unwrap().unwrap();
    assert_eq!(loaded_session.client_id, "test-client");
    assert_eq!(loaded_session.next_packet_id, 100);

    let loaded_subs = storage.load_subscriptions("test-client").unwrap();
    assert_eq!(loaded_subs.len(), 1);
    assert_eq!(loaded_subs[0].topic_filter, "test/#");

    let loaded_inflight = storage.load_inflight_messages("test-client").unwrap();
    assert_eq!(loaded_inflight.len(), 1);
    assert_eq!(loaded_inflight[0].packet_id, 1);

    assert!(storage.session_exists("test-client").unwrap());
    assert!(!storage.session_exists("nonexistent").unwrap());
}

#[test]
fn test_session_delete_cascades() {
    let mut storage = InMemoryStorage::new();
    let now = NOW;

    let session = PersistedSession {
        client_id: "client1".to_string(),
        next_packet_id: 1,
        keep_alive: 60,
        will_message: None,
        created_at: now,
        updated_at: now,
    };

    let subs = vec![PersistedSubscription {
        client_id: "client1".to_string(),
        topic_filter: "test/#".to_string(),
        qos: StoredQoS::AtLeastOnce,
    }];

    let inflight = vec![PersistedInflightMessage {
        client_id: "client1".to_string(),
        packet_id: 1,
        topic: "test/topic".to_string(),
        payload: Bytes::from("data"),
        qos: StoredQoS::AtLeastOnce,
        retain: false,
        retry_count: 0,
        qos2_state: None,
        created_at: now,
    }];

    storage.save_session(&session, &subs, &inflight, &[]).unwrap();
    storage.delete_session("client1").unwrap();

    assert!(!storage.session_exists("client1").unwrap());
    assert!(storage.load_subscriptions("client1").unwrap().is_empty());
    assert!(storage.load_inflight_messages("client1").unwrap().is_empty());
}

#[test]
fn memory_test_retained_message_crud() {
    let mut storage = InMemoryStorage::new();
    let now = NOW;

    let msg = PersistedRetainedMessage {
        topic: "sensor/temp".to_string(),
        payload: Bytes::from("25.5"),
        qos: StoredQoS::AtMostOnce,
        updated_at: now,
    };

    storage.save_retained_message(&msg).unwrap();

    let loaded = storage.load_retained_message("sensor/temp").unwrap().unwrap();
    assert_eq!(loaded.topic, "sensor/temp");
    assert_eq!(loaded.payload, Bytes::from("25.5"));

    assert_eq!(storage.count_retained_messages().unwrap(), 1);

    storage.delete_retained_message("sensor/temp").unwrap();
    assert!(storage.load_retained_message("sensor/temp").unwrap().is_none());
}

// ---------------------------------------------------------------------------
// Further cases
// ---------------------------------------------------------------------------

fn session(client_id: &str, updated_at: i64) -> PersistedSession {
    PersistedSession {
        client_id: client_id.to_string(),
        next_packet_id: 5,
        keep_alive: 30,
        will_message: Some(PersistedWillMessage {
            topic: "will".to_string(),
            payload: Bytes::from("bye"),
            qos: StoredQoS::AtLeastOnce,
            retain: true,
        }),
        created_at: updated_at,
        updated_at,
    }
}

#[test]
fn saving_again_replaces_what_was_saved() {
    let mut storage = InMemoryStorage::default();
    let sub = |f: &str| PersistedSubscription {
        client_id: "c".to_string(),
        topic_filter: f.to_string(),
        qos: StoredQoS::AtMostOnce,
    };
    let inbound = PersistedInboundQos2Message {
        client_id: "c".to_string(),
        packet_id: 3,
        topic: "t".to_string(),
        payload: Bytes::from("p"),
        retain: false,
        received_at: NOW,
    };
    storage.save_session(&session("c", NOW), &[sub("a"), sub("b")], &[], &[inbound]).unwrap();
    storage.save_session(&session("c", NOW + 1), &[sub("z")], &[], &[]).unwrap();
    let subs = storage.load_subscriptions("c").unwrap();
    assert_eq!(subs.len(), 1);
    assert_eq!(subs[0].topic_filter, "z");
    assert!(storage.load_inbound_qos2_messages("c").unwrap().is_empty());
    let loaded = storage.load_session("c").unwrap().unwrap();
    assert_eq!(loaded.updated_at, NOW + 1);
    assert_eq!(loaded.will_message.unwrap().payload, Bytes::from("bye"));
}

#[test]
fn expired_sessions_are_deleted_with_their_data() {
    let mut storage = InMemoryStorage::new();
    let inflight = PersistedInflightMessage {
        client_id: "old".to_string(),
        packet_id: 9,
        topic: "t".to_string(),
        payload: Bytes::from("p"),
        qos: StoredQoS::ExactlyOnce,
        retain: false,
        retry_count: 2,
        qos2_state: Some(PersistedQos2State::AwaitingPubComp),
        created_at: 0,
    };
    storage.save_session(&session("old", 10), &[], &[inflight], &[]).unwrap();
    storage.save_session(&session("recent", 1000), &[], &[], &[]).unwrap();
    assert_eq!(storage.delete_expired_sessions(500).unwrap(), 1);
    assert!(!storage.session_exists("old").unwrap());
    assert!(storage.session_exists("recent").unwrap());
    assert!(storage.load_inflight_messages("old").unwrap().is_empty());
}

#[test]
fn retained_messages_are_kept_one_per_topic() {
    let mut storage = InMemoryStorage::new();
    let msg = |t: &str, p: &str| PersistedRetainedMessage {
        topic: t.to_string(),
        payload: Bytes::from(p.to_string()),
        qos: StoredQoS::AtMostOnce,
        updated_at: NOW,
    };
    storage.save_retained_message(&msg("a", "1")).unwrap();
    storage.save_retained_message(&msg("b", "2")).unwrap();
    storage.save_retained_message(&msg("a", "3")).unwrap();
    assert_eq!(storage.count_retained_messages().unwrap(), 2);
    let all = storage.load_all_retained_messages().unwrap();
    assert_eq!(all[0].payload, Bytes::from("3"));
    assert_eq!(all[1].topic, "b");
}

#[test]
fn stored_levels_convert_both_ways() {
    assert_eq!(StoredQoS::from_u8(0), Some(StoredQoS::AtMostOnce));
    assert_eq!(StoredQoS::from_u8(2), Some(StoredQoS::ExactlyOnce));
    assert_eq!(StoredQoS::from_u8(3), None);
    assert_eq!(StoredQoS::AtLeastOnce.as_u8(), 1);
    assert_eq!(PersistedQos2State::from_u8(1), Some(PersistedQos2State::AwaitingPubComp));
    assert_eq!(PersistedQos2State::from_u8(2), None);
    assert_eq!(PersistedQos2State::AwaitingPubRec.as_u8(), 0);
    assert_eq!(StoredQoS::from(QoS::ExactlyOnce), StoredQoS::ExactlyOnce);
    assert!(matches!(QoS::from(StoredQoS::AtLeastOnce), QoS::AtLeastOnce));
}
