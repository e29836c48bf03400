use bytes::Bytes;
use iotd::auth::{AclFileAuthorizer, AllowAllAuthenticator, PasswordFileAuthenticator};
use iotd::protocol::packet::{
    ConnectPacket, Packet, PubAckPacket, PubCompPacket, PubRecPacket, PubRelPacket,
    PublishPacket, QoS, SubscribePacket, UnsubscribePacket,
};
use iotd::router::Router;
use iotd::session::{
    accepts_first_packet, pending_next, retransmit_tick_ms, state_after_takeover, takeover_connack,
    validate_client_id, ConnectOutcome, LoopEvent, PendingEvent, Runtime, State,
    StoredSessionAction,
};
use iotd::storage::{InMemoryStorage, PersistedRetainedMessage, StorageError, StoredQoS};

fn connect(client_id: &str, clean_session: bool) -> ConnectPacket {
    ConnectPacket {
        protocol_name: "MQTT".to_string(),
        protocol_level: 4,
        clean_session,
        keep_alive: 60,
        client_id: client_id.to_string(),
        will_flag: false,
        will_qos: QoS::AtMostOnce,
        will_retain: false,
        will_topic: None,
        will_payload: None,
        username: None,
        password: None,
    }
}

fn publish(topic: &str, payload: &[u8], qos: QoS, packet_id: Option<u16>, dup: bool) -> PublishPacket {
    PublishPacket {
        topic: topic.to_string(),
        packet_id,
        payload: Bytes::copy_from_slice(payload),
        qos,
        retain: false,
        dup,
    }
}

fn no_retained() -> Result<Vec<PersistedRetainedMessage>, StorageError> {
    Ok(Vec::new())
}

fn connected(id: &str, client_id: &str) -> Runtime {
    let mut s = Runtime::new(id.to_string());
    let outcome = s.on_connect(connect(client_id, true), &AllowAllAuthenticator);
    assert!(matches!(outcome, ConnectOutcome::Accept(Some(ref c)) if c == client_id));
    s
}

fn sent_publish(p: &Option<Packet>) -> &PublishPacket {
    match p {
        Some(Packet::Publish(p)) => p,
        _ => panic!("expected a PUBLISH"),
    }
}

#[test]
fn test_new_session_defaults() {
    let s = Runtime::new("s1".to_string());
    assert_eq!(s.id(), "s1");
    assert!(s.clean_session());
    assert_eq!(s.keep_alive(), 0);
    assert!(s.client_id().is_none());
}

#[test]
fn test_connect_accepts_and_takes_settings() {
    let mut s = Runtime::new("s1".to_string());
    let mut c = connect("client1", false);
    c.keep_alive = 30;
    let outcome = s.on_connect(c, &AllowAllAuthenticator);
    assert!(matches!(outcome, ConnectOutcome::Accept(Some(ref id)) if id == "client1"));
    assert!(!s.clean_session());
    assert_eq!(s.keep_alive(), 30);
    assert_eq!(s.client_id().map(|c| c.as_str()), Some("client1"));
    assert_eq!(s.keep_alive_timeout_ms(), 45000);
    assert!(matches!(s.stored_session_action(), StoredSessionAction::Restore(ref id) if id == "client1"));
}

#[test]
fn test_connect_empty_client_id() {
    let mut s = Runtime::new("s1".to_string());
    let outcome = s.on_connect(connect("", true), &AllowAllAuthenticator);
    assert!(matches!(outcome, ConnectOutcome::Accept(None)));
    assert!(matches!(s.stored_session_action(), StoredSessionAction::Nothing));

    let mut s = Runtime::new("s2".to_string());
    let outcome = s.on_connect(connect("", false), &AllowAllAuthenticator);
    assert!(matches!(outcome, ConnectOutcome::Refuse(0x02)));
}

#[test]
fn test_connect_refusals() {
    let mut s = Runtime::new("s1".to_string());
    let mut c = connect("client1", true);
    c.protocol_level = 3;
    assert!(matches!(s.on_connect(c, &AllowAllAuthenticator), ConnectOutcome::Refuse(0x01)));

    let mut c = connect("client1", true);
    c.protocol_name = "MQIsdp".to_string();
    assert!(matches!(s.on_connect(c, &AllowAllAuthenticator), ConnectOutcome::Refuse(0x01)));

    let c = connect("bad-id", true);
    assert!(matches!(s.on_connect(c, &AllowAllAuthenticator), ConnectOutcome::Refuse(0x02)));

    let c = connect("abcdefghijklmnopqrstuvwx", true);
    assert!(matches!(s.on_connect(c, &AllowAllAuthenticator), ConnectOutcome::Refuse(0x02)));
    assert!(s.client_id().is_none());
}

#[test]
fn test_connect_with_password_file() {
    let auth = PasswordFileAuthenticator::parse("admin:secret\n");
    let mut s = Runtime::new("s1".to_string());
    let mut c = connect("client1", true);
    c.username = Some("admin".to_string());
    c.password = Some(Bytes::from_static(b"wrong"));
    assert!(matches!(s.on_connect(c, &auth), ConnectOutcome::Refuse(0x04)));

    let mut c = connect("client1", true);
    c.username = Some("admin".to_string());
    c.password = Some(Bytes::from_static(b"secret"));
    assert!(matches!(s.on_connect(c, &auth), ConnectOutcome::Accept(Some(_))));
}

#[test]
fn test_validate_client_id_rules() {
    assert!(validate_client_id("abc123", true).is_ok());
    assert!(validate_client_id("abc123", false).is_ok());
    assert!(validate_client_id("", true).is_ok());
    assert_eq!(validate_client_id("", false), Err(0x02));
    assert_eq!(validate_client_id("a b", true), Err(0x02));
    assert!(validate_client_id("abcdefghijklmnopqrstuvw", true).is_ok());
    assert_eq!(validate_client_id("abcdefghijklmnopqrstuvwx", true), Err(0x02));
}

#[test]
fn test_qos1_publish_acknowledged_and_routed() {
    let mut s = connected("s1", "publisher");
    let mut router = Router::new(1000);
    let r = s.on_packet(
        Packet::Publish(publish("test/", b"hello", QoS::AtLeastOnce, Some(10), false)),
        &AllowAllAuthenticator,
        &mut router,
        no_retained(),
        0,
    );
    assert_eq!(r.send.len(), 1);
    assert!(matches!(r.send[0], Packet::PubAck(PubAckPacket { packet_id: 10 })));
    let routed = r.route.expect("routed");
    assert_eq!(routed.topic, "test/");
    assert_eq!(&routed.payload[..], b"hello");
    assert!(r.keep_going);
}

#[test]
fn test_qos1_duplicate_not_routed() {
    let mut s = connected("s1", "publisher");
    let mut router = Router::new(1000);
    let r = s.on_packet(
        Packet::Publish(publish("test/", b"hello", QoS::AtLeastOnce, Some(10), true)),
        &AllowAllAuthenticator,
        &mut router,
        no_retained(),
        0,
    );
    assert_eq!(r.send.len(), 1);
    assert!(matches!(r.send[0], Packet::PubAck(PubAckPacket { packet_id: 10 })));
    assert!(r.route.is_none());
}

#[test]
fn test_qos1_without_packet_id_closes() {
    let mut s = connected("s1", "publisher");
    let r = s.on_publish(publish("test/", b"x", QoS::AtLeastOnce, None, false), &AllowAllAuthenticator);
    assert!(r.send.is_empty());
    assert!(r.route.is_none());
    assert!(!r.keep_going);
}

#[test]
fn test_qos0_publish_routed_when_allowed() {
    let acl = AclFileAuthorizer::parse("publisher pub sensors/t\n");
    let mut s = connected("s1", "publisher");
    let r = s.on_publish(publish("sensors/t", b"1", QoS::AtMostOnce, None, false), &acl);
    assert!(r.send.is_empty());
    assert!(r.route.is_some());
    let r = s.on_publish(publish("other/t", b"1", QoS::AtMostOnce, None, false), &acl);
    assert!(r.send.is_empty());
    assert!(r.route.is_none());
    assert!(r.keep_going);
}

#[test]
fn test_qos2_inbound_full_handshake() {
    let mut s = connected("s1", "qos2publisher");
    let r = s.on_publish(
        publish("test/qos2", b"original", QoS::ExactlyOnce, Some(1), false),
        &AllowAllAuthenticator,
    );
    assert!(matches!(r.send[..], [Packet::PubRec(PubRecPacket { packet_id: 1 })]));
    assert!(r.route.is_none());

    // A duplicate is answered again, and does not replace the held message.
    let r = s.on_publish(
        publish("test/qos2", b"duplicate", QoS::ExactlyOnce, Some(1), true),
        &AllowAllAuthenticator,
    );
    assert!(matches!(r.send[..], [Packet::PubRec(PubRecPacket { packet_id: 1 })]));
    assert!(r.route.is_none());

    let r = s.on_pubrel(PubRelPacket { packet_id: 1 }, &AllowAllAuthenticator);
    assert!(matches!(r.send[..], [Packet::PubComp(PubCompPacket { packet_id: 1 })]));
    let routed = r.route.expect("released");
    assert_eq!(&routed.payload[..], b"original");

    // Released once only.
    let r = s.on_pubrel(PubRelPacket { packet_id: 1 }, &AllowAllAuthenticator);
    assert!(matches!(r.send[..], [Packet::PubComp(PubCompPacket { packet_id: 1 })]));
    assert!(r.route.is_none());
}

#[test]
fn test_outgoing_qos1_tracked_until_puback() {
    let mut s = connected("s1", "subscriber");
    let out = s.on_message(Packet::Publish(publish("test/", b"hello", QoS::AtLeastOnce, None, false)), 0);
    let p = sent_publish(&out);
    assert_eq!(p.packet_id, Some(1));
    assert!(!p.dup);

    // Retransmitted after the interval, with the DUP flag.
    let r = s.on_retransmit(1000, 3, 1000);
    assert_eq!(r.mailbox.len(), 1);
    assert_eq!(r.mailbox[0].packet_id, Some(1));
    assert!(r.mailbox[0].dup);
    assert!(r.send.is_empty());
    let again = s.on_message(Packet::Publish(r.mailbox[0].duplicate()), 1000);
    assert_eq!(sent_publish(&again).packet_id, Some(1));
    assert!(sent_publish(&again).dup);

    // Acknowledged: nothing more is sent.
    s.on_puback(PubAckPacket { packet_id: 1 });
    let r = s.on_retransmit(1000, 3, 5000);
    assert!(r.mailbox.is_empty());
    assert!(r.send.is_empty());
}

#[test]
fn test_retransmission_not_due_yet() {
    let mut s = connected("s1", "subscriber");
    s.on_message(Packet::Publish(publish("t", b"x", QoS::AtLeastOnce, None, false)), 100);
    let r = s.on_retransmit(1000, 3, 1099);
    assert!(r.mailbox.is_empty());
    let r = s.on_retransmit(1000, 3, 1100);
    assert_eq!(r.mailbox.len(), 1);
}

#[test]
fn test_retransmission_off() {
    let mut s = connected("s1", "subscriber");
    s.on_message(Packet::Publish(publish("t", b"x", QoS::AtLeastOnce, None, false)), 0);
    let r = s.on_retransmit(0, 3, 1_000_000);
    assert!(r.mailbox.is_empty());
    assert!(r.send.is_empty());
}

#[test]
fn test_max_retransmission_limit() {
    let mut s = connected("s1", "subscriber");
    s.on_message(Packet::Publish(publish("test/", b"hello", QoS::AtLeastOnce, None, false)), 0);
    assert_eq!(s.on_retransmit(500, 2, 500).mailbox.len(), 1);
    assert_eq!(s.on_retransmit(500, 2, 1000).mailbox.len(), 1);
    // The limit is reached: the message is dropped.
    assert_eq!(s.on_retransmit(500, 2, 1500).mailbox.len(), 0);
    assert_eq!(s.on_retransmit(500, 2, 5000).mailbox.len(), 0);
}

#[test]
fn test_outgoing_qos2_handshake() {
    let mut s = connected("s1", "subscriber");
    let out = s.on_message(Packet::Publish(publish("t", b"x", QoS::ExactlyOnce, None, false)), 0);
    let id = sent_publish(&out).packet_id.expect("packet id");
    assert_eq!(id, 1);

    let r = s.on_pubrec(PubRecPacket { packet_id: id }, 10);
    assert!(matches!(r.send[..], [Packet::PubRel(PubRelPacket { packet_id: 1 })]));

    // Waiting for PUBCOMP: PUBREL is sent again, not the message.
    let r = s.on_retransmit(1000, 3, 1010);
    assert!(r.mailbox.is_empty());
    assert!(matches!(r.send[..], [Packet::PubRel(PubRelPacket { packet_id: 1 })]));

    s.on_pubcomp(PubCompPacket { packet_id: id });
    let r = s.on_retransmit(1000, 3, 10_000);
    assert!(r.mailbox.is_empty());
    assert!(r.send.is_empty());
}

#[test]
fn test_qos0_message_not_tracked() {
    let mut s = connected("s1", "subscriber");
    let out = s.on_message(Packet::Publish(publish("t", b"x", QoS::AtMostOnce, None, false)), 0);
    assert_eq!(sent_publish(&out).packet_id, None);
    assert!(s.on_retransmit(1, 3, 100).mailbox.is_empty());
    // Only PUBLISH messages are written.
    assert!(s.on_message(Packet::PingResp, 0).is_none());
}

#[test]
fn test_packet_ids_increase() {
    let mut s = Runtime::new("s1".to_string());
    assert_eq!(s.next_packet_id(), 1);
    assert_eq!(s.next_packet_id(), 2);
    assert_eq!(s.next_packet_id(), 3);
}

#[test]
fn test_subscribe_and_unsubscribe() {
    let mut s = connected("s1", "subscriber");
    let mut router = Router::new(1000);
    let r = s.on_packet(
        Packet::Subscribe(SubscribePacket {
            packet_id: 7,
            topic_filters: vec![
                ("test/qos2".to_string(), QoS::ExactlyOnce),
                ("bad/#/x".to_string(), QoS::AtLeastOnce),
                ("a/+".to_string(), QoS::AtMostOnce),
            ],
        }),
        &AllowAllAuthenticator,
        &mut router,
        no_retained(),
        0,
    );
    match &r.send[..] {
        [Packet::SubAck(ack)] => {
            assert_eq!(ack.packet_id, 7);
            assert_eq!(ack.return_codes, vec![0x02, 0x80, 0x00]);
        }
        _ => panic!("expected a SUBACK"),
    }
    let subs = router.get_subscriptions("s1");
    assert_eq!(subs.len(), 2);

    let r = s.on_packet(
        Packet::Unsubscribe(UnsubscribePacket { packet_id: 8, topic_filters: vec!["a/+".to_string()] }),
        &AllowAllAuthenticator,
        &mut router,
        no_retained(),
        0,
    );
    assert!(matches!(r.send[..], [Packet::UnsubAck(ref a)] if a.packet_id == 8));
    let subs = router.get_subscriptions("s1");
    assert_eq!(subs.len(), 1);
    assert_eq!(subs[0].0, "test/qos2");
}

#[test]
fn test_subscribe_denied_by_acl() {
    let acl = AclFileAuthorizer::parse("viewer sub sensors/#\n");
    let mut s = connected("s1", "viewer");
    let mut router = Router::new(1000);
    let r = s.on_subscribe(
        SubscribePacket {
            packet_id: 1,
            topic_filters: vec![("sensors/#".to_string(), QoS::AtLeastOnce), ("admin/#".to_string(), QoS::AtLeastOnce)],
        },
        &acl,
        &mut router,
        no_retained(),
    );
    match &r.send[..] {
        [Packet::SubAck(ack)] => assert_eq!(ack.return_codes, vec![0x01, 0x80]),
        _ => panic!("expected a SUBACK"),
    }
    assert_eq!(router.get_subscriptions("s1").len(), 1);
}

#[test]
fn test_subscribe_delivers_retained() {
    let mut s = connected("s1", "subscriber");
    let mut router = Router::new(1000);
    let retained = vec![PersistedRetainedMessage {
        topic: "home/temp".to_string(),
        payload: Bytes::from_static(b"21"),
        qos: StoredQoS::AtLeastOnce,
        updated_at: 0,
    }];
    let r = s.on_subscribe(
        SubscribePacket { packet_id: 1, topic_filters: vec![("home/#".to_string(), QoS::AtLeastOnce)] },
        &AllowAllAuthenticator,
        &mut router,
        Ok(retained),
    );
    assert_eq!(r.mailbox.len(), 1);
    assert_eq!(r.mailbox[0].topic, "home/temp");
    assert!(r.mailbox[0].retain);
}

#[test]
fn test_pingreq_and_disconnect() {
    let mut s = connected("s1", "c");
    let r = s.on_pingreq();
    assert!(matches!(r.send[..], [Packet::PingResp]));
    assert!(r.keep_going);
    let r = s.on_disconnect();
    assert!(r.send.is_empty());
    assert!(!r.keep_going);
}

#[test]
fn test_unexpected_packet_closes() {
    let mut s = connected("s1", "c");
    let mut router = Router::new(1000);
    let r = s.on_packet(Packet::Connect(connect("c", true)), &AllowAllAuthenticator, &mut router, no_retained(), 0);
    assert!(!r.keep_going);
    assert!(r.send.is_empty());
}

#[test]
fn test_will_published_on_abnormal_end() {
    let mut s = Runtime::new("s1".to_string());
    let mut c = connect("c1", true);
    c.will_flag = true;
    c.will_qos = QoS::AtLeastOnce;
    c.will_retain = true;
    c.will_topic = Some("status/c1".to_string());
    c.will_payload = Some(Bytes::from_static(b"offline"));
    s.on_connect(c, &AllowAllAuthenticator);
    let will = s.publish_will().expect("will");
    assert_eq!(will.topic, "status/c1");
    assert_eq!(&will.payload[..], b"offline");
    assert_eq!(will.qos, QoS::AtMostOnce);
    assert!(will.retain);
    // Taken once.
    assert!(s.publish_will().is_none());
}

#[test]
fn test_will_discarded_on_disconnect() {
    let mut s = Runtime::new("s1".to_string());
    let mut c = connect("c1", true);
    c.will_flag = true;
    c.will_topic = Some("status/c1".to_string());
    c.will_payload = Some(Bytes::from_static(b"offline"));
    s.on_connect(c, &AllowAllAuthenticator);
    s.on_disconnect();
    assert!(s.publish_will().is_none());
}

#[test]
fn test_timers() {
    assert_eq!(retransmit_tick_ms(1000), 500);
    assert_eq!(retransmit_tick_ms(0), 86_400_000);
    let s = Runtime::new("s".to_string());
    assert_eq!(s.keep_alive_timeout_ms(), 31_536_000_000);
}

#[test]
fn test_takeover_states() {
    assert_eq!(state_after_takeover(false, true, true), State::Processing);
    assert_eq!(state_after_takeover(false, false, true), State::Cleanup);
    assert_eq!(state_after_takeover(false, false, false), State::Pending);
    assert_eq!(state_after_takeover(true, false, true), State::Pending);
    let ack = takeover_connack(false);
    assert!(ack.session_present);
    assert_eq!(ack.return_code, 0);
    assert!(!takeover_connack(true).session_present);
}

#[test]
fn test_connection_loss_state() {
    let s = connected("s1", "c1");
    assert_eq!(s.state_after_connection_loss(), State::Cleanup);
    let mut s = Runtime::new("s2".to_string());
    s.on_connect(connect("c2", false), &AllowAllAuthenticator);
    assert_eq!(s.state_after_connection_loss(), State::Pending);
}

#[test]
fn test_clean_takeover_drops_state() {
    let mut s = connected("s1", "c1");
    let mut router = Router::new(10);
    s.on_subscribe(
        SubscribePacket { packet_id: 1, topic_filters: vec![("a".to_string(), QoS::AtLeastOnce)] },
        &AllowAllAuthenticator,
        &mut router,
        no_retained(),
    );
    s.on_message(Packet::Publish(publish("a", b"x", QoS::AtLeastOnce, None, false)), 0);
    let deleted = s.apply_takeover(true, 5, &mut router);
    assert_eq!(deleted.as_deref(), Some("c1"));
    assert_eq!(s.keep_alive(), 5);
    assert!(router.get_subscriptions("s1").is_empty());
    assert!(s.on_retransmit(1, 3, 100).mailbox.is_empty());
}

#[test]
fn test_save_and_restore_session() {
    let mut router = Router::new(1000);
    let mut s = Runtime::new("s1".to_string());
    let mut c = connect("client1", false);
    c.keep_alive = 20;
    s.on_connect(c, &AllowAllAuthenticator);
    s.on_subscribe(
        SubscribePacket { packet_id: 1, topic_filters: vec![("sensors/+".to_string(), QoS::AtLeastOnce)] },
        &AllowAllAuthenticator,
        &mut router,
        no_retained(),
    );
    s.on_message(Packet::Publish(publish("sensors/a", b"1", QoS::AtLeastOnce, None, false)), 0);
    s.on_publish(publish("up", b"q2", QoS::ExactlyOnce, Some(9), false), &AllowAllAuthenticator);

    let snapshot = s.save_to_storage(&router, 1_700_000_000_000).expect("named client");
    assert_eq!(snapshot.session.client_id, "client1");
    assert_eq!(snapshot.session.next_packet_id, 2);
    assert_eq!(snapshot.session.keep_alive, 20);
    assert_eq!(snapshot.subscriptions.len(), 1);
    assert_eq!(snapshot.inflight.len(), 1);
    assert_eq!(snapshot.inbound_qos2.len(), 1);
    assert_eq!(snapshot.inbound_qos2[0].packet_id, 9);

    let mut storage = InMemoryStorage::new();
    storage
        .save_session(&snapshot.session, &snapshot.subscriptions, &snapshot.inflight, &snapshot.inbound_qos2)
        .unwrap();

    // The client comes back on another connection.
    router.unsubscribe_all("s1");
    let mut t = Runtime::new("s2".to_string());
    t.on_connect(connect("client1", false), &AllowAllAuthenticator);
    let restored = t.restore_from_storage(
        storage.load_session("client1"),
        storage.load_subscriptions("client1"),
        storage.load_inflight_messages("client1"),
        storage.load_inbound_qos2_messages("client1"),
        &mut router,
        0,
    );
    assert!(restored);
    assert_eq!(t.keep_alive(), 20);
    let subs = router.get_subscriptions("s2");
    assert_eq!(subs.len(), 1);
    assert_eq!(subs[0].0, "sensors/+");
    // The queued message is retransmitted; the held QoS 2 message is released.
    let r = t.on_retransmit(1, 3, 1_000);
    assert_eq!(r.mailbox.len(), 1);
    assert_eq!(r.mailbox[0].packet_id, Some(1));
    let r = t.on_pubrel(PubRelPacket { packet_id: 9 }, &AllowAllAuthenticator);
    assert_eq!(&r.route.expect("released").payload[..], b"q2");
    // Packet ids continue where they stopped.
    assert_eq!(t.next_packet_id(), 2);
}

#[test]
fn test_restore_nothing_stored() {
    let mut router = Router::new(10);
    let storage = InMemoryStorage::new();
    let mut t = connected("s1", "nobody");
    let restored = t.restore_from_storage(
        storage.load_session("nobody"),
        storage.load_subscriptions("nobody"),
        storage.load_inflight_messages("nobody"),
        storage.load_inbound_qos2_messages("nobody"),
        &mut router,
        0,
    );
    assert!(!restored);
    assert!(router.get_subscriptions("s1").is_empty());
}

#[test]
fn test_packet_id_wraps_after_restore() {
    let mut router = Router::new(10);
    let mut storage = InMemoryStorage::new();
    let mut s = Runtime::new("s1".to_string());
    s.on_connect(connect("wrap", false), &AllowAllAuthenticator);
    let mut snapshot = s.save_to_storage(&router, 0).expect("named client");
    snapshot.session.next_packet_id = 65535;
    storage.save_session(&snapshot.session, &[], &[], &[]).unwrap();
    let mut t = Runtime::new("s2".to_string());
    assert!(t.restore_from_storage(
        storage.load_session("wrap"),
        storage.load_subscriptions("wrap"),
        storage.load_inflight_messages("wrap"),
        storage.load_inbound_qos2_messages("wrap"),
        &mut router,
        0,
    ));
    assert_eq!(t.next_packet_id(), 65535);
    assert_eq!(t.next_packet_id(), 1);
}

#[test]
fn test_save_without_client_id() {
    let router = Router::new(10);
    let s = Runtime::new("s1".to_string());
    assert!(s.save_to_storage(&router, 0).is_none());
}

#[test]
fn processing_events_decide_the_next_state() {
    let mut kept = Runtime::new("s1".to_string());
    let mut c = connect("c1", false);
    c.keep_alive = 0;
    kept.on_connect(c, &AllowAllAuthenticator);
    assert_eq!(kept.processing_next(LoopEvent::KeepAliveTick), None);
    assert_eq!(kept.processing_next(LoopEvent::ConnectionLost), Some(State::Pending));
    assert_eq!(kept.processing_next(LoopEvent::Cancelled), Some(State::Cleanup));
    assert_eq!(
        kept.processing_next(LoopEvent::Takeover { connack_sent: true, clean_session: true }),
        Some(State::Processing)
    );
    assert_eq!(
        kept.processing_next(LoopEvent::Takeover { connack_sent: false, clean_session: false }),
        Some(State::Pending)
    );
    let clean = connected("s2", "c2");
    assert_eq!(clean.processing_next(LoopEvent::KeepAliveTick), Some(State::Cleanup));
    assert_eq!(
        clean.processing_next(LoopEvent::Takeover { connack_sent: false, clean_session: true }),
        Some(State::Cleanup)
    );
}

#[test]
fn pending_events_and_first_packet() {
    assert_eq!(pending_next(PendingEvent::Cancelled), State::Cleanup);
    assert_eq!(pending_next(PendingEvent::Takeover { connack_sent: true, clean_session: true }), State::Processing);
    assert_eq!(pending_next(PendingEvent::Takeover { connack_sent: false, clean_session: true }), State::Pending);
    assert!(accepts_first_packet(&Packet::Connect(connect("c", true))));
    assert!(!accepts_first_packet(&Packet::PingReq));
}
