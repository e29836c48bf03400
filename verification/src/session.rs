//! The protocol state of one client session and its transitions.
//!
//! A session reacts to what happens on its connection (a packet arrives, a
//! message for it arrives, a timer fires, another connection takes it over)
//! by changing its state and saying what to do: packets to write to the
//! client, messages to route to other sessions, messages to queue for itself.
//! The caller performs those actions; every decision is made here.

use crate::auth::traits::{AuthError, Authenticator, Authorizer, Credentials};
use crate::buf::{bytes_clone, bytes_view};
use crate::protocol::packet::{
    ConnAckPacket, ConnectModel, ConnectPacket, Packet, PacketModel, PubAckPacket,
    PubCompPacket, PubRecPacket, PubRelPacket, PublishModel, PublishPacket, QoS, SubAckPacket,
    SubscribePacket, UnsubAckPacket, UnsubscribePacket, qos_num,
};
use crate::protocol::v3;
use crate::protocol::packet::filter_qos_view;
use vstd::utf8::encode_utf8;
use crate::protocol::v3::subscribe_return_codes::FAILURE;
use crate::router::{
    filter_list_view, loaded_retained, publish_models, retained_records, string_list_view, subscribe_spec,
    remove_keys, Router, SubEntry, lemma_resubscribe_same_filters, subscribed_qos, unique_keys,
    valid_filters,
};
use crate::storage::types::{
    qos_from_stored, stored_from_qos, InboundRecord, InflightRecord, PersistedInboundQos2Message,
    PersistedInflightMessage, PersistedQos2State, PersistedRetainedMessage, PersistedSession,
    PersistedSubscription, PersistedWillMessage, SessionRecord, StorageError, SubscriptionRecord,
    WillRecord,
};
use crate::topic::valid_topic_filter;
use crate::storage::memory::{
    has_keyed, keyed, lemma_save_then_load, not_under, put_keyed, records_view, store_wf, under,
    values_under, StoreModel,
};
use crate::text::{chars_equal, chars_of};
use crate::auth::traits::CredentialsModel;
use crate::protocol::v3::connect_return_codes::{
    ACCEPTED, BAD_USERNAME_OR_PASSWORD, IDENTIFIER_REJECTED, NOT_AUTHORIZED,
    UNACCEPTABLE_PROTOCOL_VERSION,
};
use crate::protocol::v3::{PROTOCOL_LEVEL, PROTOCOL_NAME};
use bytes::Bytes;
use vstd::prelude::*;

verus! {

/// Where an outgoing QoS 2 message stands in its handshake.
#[derive(Debug, Clone, Copy, PartialEq, Eq, Structural)]
pub enum Qos2State {
    /// PUBLISH sent, waiting for PUBREC.
    AwaitingPubRec,
    /// PUBREL sent, waiting for PUBCOMP.
    AwaitingPubComp,
}

/// The message published for a client that goes away without DISCONNECT.
pub struct WillMessage {
    pub topic: String,
    pub payload: Bytes,
    pub qos: QoS,
    pub retain: bool,
}

/// An outgoing QoS 1 or 2 message not yet acknowledged. The stored packet
/// carries its packet id and the DUP flag, ready to be sent again.
pub struct InflightMessage {
    pub packet: PublishPacket,
    /// When it was last sent, in milliseconds of a monotonic clock.
    pub timestamp: u64,
    pub retry_count: u32,
    /// `None` for QoS 1.
    pub qos2_state: Option<Qos2State>,
}

/// An incoming QoS 2 message held until the client releases it with PUBREL.
pub struct ReceivedQos2Message {
    pub packet_id: u16,
    pub packet: PublishPacket,
}

/// The life cycle of a session task.
#[derive(Debug, Clone, Copy, PartialEq, Eq, Structural)]
pub enum State {
    /// Waiting for the CONNECT packet.
    Waiting,
    /// Serving a connected client.
    Processing,
    /// Disconnected, kept for a client that asked to keep its session.
    Pending,
    /// Ending: the will message is published and the task stops.
    Cleanup,
}

/// The protocol state of one session.
pub struct Runtime {
    id: String,
    client_id: Option<String>,
    clean_session: bool,
    keep_alive: u16,
    will_message: Option<WillMessage>,
    next_packet_id: u16,
    inflight_queue: Vec<InflightMessage>,
    inbound_qos2: Vec<ReceivedQos2Message>,
}

// ---------------------------------------------------------------------------
// Abstract state
// ---------------------------------------------------------------------------

pub struct WillModel {
    pub topic: Seq<char>,
    pub payload: Seq<u8>,
    pub qos: QoS,
    pub retain: bool,
}

pub struct InflightModel {
    pub packet: PublishModel,
    pub timestamp: u64,
    pub retry_count: u32,
    pub qos2_state: Option<Qos2State>,
}

pub struct RuntimeModel {
    pub id: Seq<char>,
    pub client_id: Option<Seq<char>>,
    pub clean_session: bool,
    pub keep_alive: u16,
    pub will: Option<WillModel>,
    pub next_packet_id: u16,
    pub inflight: Seq<InflightModel>,
    pub inbound: Seq<(u16, PublishModel)>,
}

impl View for WillMessage {
    type V = WillModel;

    open spec fn view(&self) -> WillModel {
        WillModel {
            topic: self.topic@,
            payload: bytes_view(self.payload),
            qos: self.qos,
            retain: self.retain,
        }
    }
}

impl View for InflightMessage {
    type V = InflightModel;

    open spec fn view(&self) -> InflightModel {
        InflightModel {
            packet: self.packet@,
            timestamp: self.timestamp,
            retry_count: self.retry_count,
            qos2_state: self.qos2_state,
        }
    }
}

impl View for ReceivedQos2Message {
    type V = (u16, PublishModel);

    open spec fn view(&self) -> (u16, PublishModel) {
        (self.packet_id, self.packet@)
    }
}

pub open spec fn inflight_view(v: Seq<InflightMessage>) -> Seq<InflightModel> {
    v.map_values(|m: InflightMessage| m@)
}

pub open spec fn inbound_view(v: Seq<ReceivedQos2Message>) -> Seq<(u16, PublishModel)> {
    v.map_values(|m: ReceivedQos2Message| m@)
}

pub open spec fn opt_will_model(w: Option<WillMessage>) -> Option<WillModel> {
    match w {
        Some(m) => Some(m@),
        None => None,
    }
}

impl View for Runtime {
    type V = RuntimeModel;

    closed spec fn view(&self) -> RuntimeModel {
        RuntimeModel {
            id: self.id@,
            client_id: match self.client_id {
                Some(c) => Some(c@),
                None => None,
            },
            clean_session: self.clean_session,
            keep_alive: self.keep_alive,
            will: opt_will_model(self.will_message),
            next_packet_id: self.next_packet_id,
            inflight: inflight_view(self.inflight_queue@),
            inbound: inbound_view(self.inbound_qos2@),
        }
    }
}

/// Packet ids held for incoming QoS 2 messages are distinct.
pub open spec fn unique_ids(v: Seq<(u16, PublishModel)>) -> bool {
    forall|i: int, j: int|
        #![trigger v[i], v[j]]
        0 <= i < v.len() && 0 <= j < v.len() && v[i].0 == v[j].0 ==> i == j
}

/// The packet id that follows `id`: ids run from 1 to 65535 and wrap to 1,
/// never using 0.
pub open spec fn following_id(id: u16) -> u16 {
    if id == 65535 {
        1
    } else {
        (id + 1) as u16
    }
}

/// The state a session keeps well formed: each held incoming QoS 2 message
/// has its own packet id.
pub open spec fn runtime_wf(m: RuntimeModel) -> bool {
    unique_ids(m.inbound)
}

/// `m` with only its next packet id changed.
pub open spec fn with_next_id(m: RuntimeModel, id: u16) -> RuntimeModel {
    RuntimeModel { next_packet_id: id, ..m }
}

/// `m` with only its outgoing queue changed.
pub open spec fn with_inflight(m: RuntimeModel, q: Seq<InflightModel>) -> RuntimeModel {
    RuntimeModel { inflight: q, ..m }
}

/// `m` with only its held incoming messages changed.
pub open spec fn with_inbound(m: RuntimeModel, q: Seq<(u16, PublishModel)>) -> RuntimeModel {
    RuntimeModel { inbound: q, ..m }
}

/// The client id used for access checks: the empty string when the client
/// connected without one.
pub open spec fn acl_client_id(m: RuntimeModel) -> Seq<char> {
    match m.client_id {
        Some(c) => c,
        None => Seq::empty(),
    }
}

/// What sending a message that arrived for this session does, when it is a
/// PUBLISH: QoS 0 and duplicates are sent as they are; a new QoS 1 or 2
/// message gets the next packet id, is sent, and is queued with its DUP flag
/// set until acknowledged.
pub open spec fn outgoing_publish(p: PublishModel, id: u16) -> PublishModel {
    PublishModel { packet_id: Some(id), ..p }
}

pub open spec fn queued_copy(p: PublishModel, id: u16, now: u64) -> InflightModel {
    InflightModel {
        packet: PublishModel { packet_id: Some(id), dup: true, ..p },
        timestamp: now,
        retry_count: 0,
        qos2_state: if p.qos == QoS::ExactlyOnce {
            Some(Qos2State::AwaitingPubRec)
        } else {
            None
        },
    }
}

/// Keeps the queued messages whose packet id is not `id`.
pub open spec fn not_id(id: u16) -> spec_fn(InflightModel) -> Option<InflightModel> {
    |m: InflightModel| if m.packet.packet_id != Some(id) { Some(m) } else { None }
}

impl Runtime {
    /// The state is well formed.
    pub open spec fn wf(&self) -> bool {
        runtime_wf(self@)
    }

    /// A fresh session: no client yet, clean, no will, packet ids from 1.
    pub fn new(id: String) -> (r: Runtime)
        ensures
            r.wf(),
            r@ == (RuntimeModel {
                id: id@,
                client_id: None,
                clean_session: true,
                keep_alive: 0,
                will: None,
                next_packet_id: 1,
                inflight: Seq::empty(),
                inbound: Seq::empty(),
            }),
    {
        let r = Runtime {
            id,
            client_id: None,
            clean_session: true,
            keep_alive: 0,
            will_message: None,
            next_packet_id: 1,
            inflight_queue: Vec::new(),
            inbound_qos2: Vec::new(),
        };
        assert(inflight_view(r.inflight_queue@) =~= Seq::<InflightModel>::empty());
        assert(inbound_view(r.inbound_qos2@) =~= Seq::<(u16, PublishModel)>::empty());
        r
    }

    /// The session id.
    pub fn id(&self) -> (r: &str)
        ensures
            r@ == self@.id,
    {
        self.id.as_str()
    }

    /// Whether the client asked for a clean session.
    pub fn clean_session(&self) -> (r: bool)
        ensures
            r == self@.clean_session,
    {
        self.clean_session
    }

    /// The keep-alive interval the client asked for, in seconds.
    pub fn keep_alive(&self) -> (r: u16)
        ensures
            r == self@.keep_alive,
    {
        self.keep_alive
    }

    /// The client id, once a CONNECT named one.
    pub fn client_id(&self) -> (r: Option<&String>)
        ensures
            match r {
                Some(c) => self@.client_id == Some(c@),
                None => self@.client_id is None,
            },
    {
        self.client_id.as_ref()
    }

    /// Takes the next packet id for an outgoing message.
    pub fn next_packet_id(&mut self) -> (id: u16)
        requires
            old(self).wf(),
        ensures
            final(self).wf(),
            id == old(self)@.next_packet_id,
            final(self)@ == with_next_id(old(self)@, following_id(id)),
    {
        let id = self.next_packet_id;
        self.next_packet_id = if self.next_packet_id == 65535 {
            1
        } else {
            self.next_packet_id + 1
        };
        id
    }

    /// A message arrived for this session (from the router, a retained
    /// message, or a retransmission): the packet to write to the client, if
    /// any. Only PUBLISH messages are sent.
    pub fn on_message(&mut self, message: Packet, now: u64) -> (r: Option<Packet>)
        requires
            old(self).wf(),
        ensures
            final(self).wf(),
            match message@ {
                PacketModel::Publish(p) => {
                    if p.qos != QoS::AtMostOnce && !p.dup {
                        let id = old(self)@.next_packet_id;
                        &&& r matches Some(out) && out@ == PacketModel::Publish(
                            outgoing_publish(p, id),
                        )
                        &&& final(self)@ == with_inflight(
                            with_next_id(old(self)@, following_id(id)),
                            old(self)@.inflight.push(queued_copy(p, id, now)),
                        )
                    } else {
                        &&& r matches Some(out) && out@ == PacketModel::Publish(p)
                        &&& final(self)@ == old(self)@
                    }
                },
                _ => r is None && final(self)@ == old(self)@,
            },
    {
        match message {
            Packet::Publish(mut pub_packet) => {
                let ghost p = pub_packet@;
                let needs_tracking = match pub_packet.qos {
                    QoS::AtMostOnce => false,
                    _ => !pub_packet.dup,
                };
                if !needs_tracking {
                    return Some(Packet::Publish(pub_packet));
                }
                let packet_id = self.next_packet_id();
                pub_packet.packet_id = Some(packet_id);
                let sent = pub_packet.duplicate();
                pub_packet.dup = true;
                let qos2_state = match pub_packet.qos {
                    QoS::ExactlyOnce => Some(Qos2State::AwaitingPubRec),
                    _ => None,
                };
                let ghost q0 = self@.inflight;
                self.inflight_queue.push(
                    InflightMessage { packet: pub_packet, timestamp: now, retry_count: 0, qos2_state },
                );
                assert(self@.inflight =~= q0.push(queued_copy(p, packet_id, now)));
                Some(Packet::Publish(sent))
            },
            _ => None,
        }
    }

    /// Removes from the outgoing queue every message with the given packet id.
    fn drop_acknowledged(&mut self, packet_id: u16)
        requires
            old(self).wf(),
        ensures
            final(self).wf(),
            final(self)@ == with_inflight(
                old(self)@,
                old(self)@.inflight.filter_map(not_id(packet_id)),
            ),
    {
        let ghost q0 = self@.inflight;
        let ghost g = not_id(packet_id);
        let mut kept: Vec<InflightMessage> = Vec::new();
        let n = self.inflight_queue.len();
        let mut i: usize = 0;
        assert(q0.take(0) =~= Seq::<InflightModel>::empty());
        assert(inflight_view(kept@) =~= Seq::<InflightModel>::empty());
        while i < n
            invariant
                n == q0.len(),
                q0 == self@.inflight,
                i <= n,
                g == not_id(packet_id),
                inflight_view(kept@) == q0.take(i as int).filter_map(g),
            decreases n - i,
        {
            proof {
                q0.lemma_filter_map_take_succ(g, i as int);
            }
            let m = &self.inflight_queue[i];
            assert(m@ == q0[i as int]);
            if m.packet.packet_id != Some(packet_id) {
                let ghost before = kept@;
                kept.push(m.duplicate());
                assert(inflight_view(kept@) =~= inflight_view(before).push(q0[i as int]));
            }
            i += 1;
        }
        assert(q0.take(n as int) =~= q0);
        self.inflight_queue = kept;
    }
}

impl InflightMessage {
    /// A copy holding the same values.
    pub fn duplicate(&self) -> (r: InflightMessage)
        ensures
            r@ == self@,
    {
        InflightMessage {
            packet: self.packet.duplicate(),
            timestamp: self.timestamp,
            retry_count: self.retry_count,
            qos2_state: self.qos2_state,
        }
    }
}


// ---------------------------------------------------------------------------
// Reacting to packets from the client
// ---------------------------------------------------------------------------

/// What the caller does after a packet from the client.
pub struct Reaction {
    /// Packets to write to the client, in order.
    pub send: Vec<Packet>,
    /// A message to route to the subscribers of its topic.
    pub route: Option<PublishPacket>,
    /// Messages to queue for this session itself, in order.
    pub mailbox: Vec<PublishPacket>,
    /// Whether the connection stays open.
    pub keep_going: bool,
}

pub struct ReactionModel {
    pub send: Seq<PacketModel>,
    pub route: Option<PublishModel>,
    pub mailbox: Seq<PublishModel>,
    pub keep_going: bool,
}

pub open spec fn packets_view(v: Seq<Packet>) -> Seq<PacketModel> {
    v.map_values(|p: Packet| p@)
}

pub open spec fn publishes_view(v: Seq<PublishPacket>) -> Seq<PublishModel> {
    v.map_values(|p: PublishPacket| p@)
}

impl View for Reaction {
    type V = ReactionModel;

    open spec fn view(&self) -> ReactionModel {
        ReactionModel {
            send: packets_view(self.send@),
            route: match self.route {
                Some(p) => Some(p@),
                None => None,
            },
            mailbox: publishes_view(self.mailbox@),
            keep_going: self.keep_going,
        }
    }
}

/// A reaction that sends `send`, routes `route`, queues nothing.
pub open spec fn reaction(send: Seq<PacketModel>, route: Option<PublishModel>, keep_going: bool) -> ReactionModel {
    ReactionModel { send, route, mailbox: Seq::empty(), keep_going }
}

/// Whether an incoming QoS 2 message with packet id `id` is held.
pub open spec fn holds(v: Seq<(u16, PublishModel)>, id: u16) -> bool {
    exists|j: int| 0 <= j < v.len() && #[trigger] v[j].0 == id
}

/// The index of the held message with packet id `id`.
pub open spec fn held_index(v: Seq<(u16, PublishModel)>, id: u16) -> int {
    choose|j: int| 0 <= j < v.len() && #[trigger] v[j].0 == id
}

/// PUBLISH from the client. QoS 1: PUBACK with its packet id, then route it
/// unless it is a duplicate; without a packet id the connection is closed.
/// QoS 2: hold it and answer PUBREC (again PUBREC, holding nothing new, when
/// the id is already held); it is routed on PUBREL; without a packet id the
/// connection is closed. QoS 0 and new QoS 1 messages are routed when the
/// client may publish to the topic (`allowed`), silently dropped otherwise.
pub open spec fn publish_step(m: RuntimeModel, p: PublishModel, allowed: bool) -> (RuntimeModel, ReactionModel) {
    let route = if allowed { Some(p) } else { None };
    if p.qos == QoS::AtLeastOnce {
        match p.packet_id {
            None => (m, reaction(Seq::empty(), None, false)),
            Some(id) => if p.dup {
                (m, reaction(seq![PacketModel::PubAck(id)], None, true))
            } else {
                (m, reaction(seq![PacketModel::PubAck(id)], route, true))
            },
        }
    } else if p.qos == QoS::ExactlyOnce {
        match p.packet_id {
            None => (m, reaction(Seq::empty(), None, false)),
            Some(id) => if holds(m.inbound, id) {
                (m, reaction(seq![PacketModel::PubRec(id)], None, true))
            } else {
                (
                    with_inbound(m, m.inbound.push((id, p))),
                    reaction(seq![PacketModel::PubRec(id)], None, true),
                )
            },
        }
    } else {
        (m, reaction(Seq::empty(), route, true))
    }
}

/// The queued message PUBREC `id` moves on: the first one with that id still
/// waiting for PUBREC.
pub open spec fn awaiting_rec(q: Seq<InflightModel>, j: int, id: u16) -> bool {
    0 <= j < q.len() && q[j].packet.packet_id == Some(id) && q[j].qos2_state == Some(
        Qos2State::AwaitingPubRec,
    )
}

pub open spec fn first_awaiting_rec(q: Seq<InflightModel>, j: int, id: u16) -> bool {
    awaiting_rec(q, j, id) && forall|k: int| 0 <= k < j ==> !#[trigger] awaiting_rec(q, k, id)
}

/// PUBREC `id` from the client: the first queued message with that id that
/// waits for PUBREC now waits for PUBCOMP, its clock and retry count reset.
pub open spec fn pubrec_queue(q: Seq<InflightModel>, id: u16, now: u64) -> Seq<InflightModel> {
    if exists|j: int| first_awaiting_rec(q, j, id) {
        let j = choose|j: int| first_awaiting_rec(q, j, id);
        q.update(
            j,
            InflightModel {
                qos2_state: Some(Qos2State::AwaitingPubComp),
                timestamp: now,
                retry_count: 0,
                ..q[j]
            },
        )
    } else {
        q
    }
}

pub open spec fn opt_publish_view(p: Option<PublishPacket>) -> Option<PublishModel> {
    match p {
        Some(q) => Some(q@),
        None => None,
    }
}

/// A reaction with no message for this session itself.
fn make_reaction(send: Vec<Packet>, route: Option<PublishPacket>, keep_going: bool) -> (r: Reaction)
    ensures
        r@ == reaction(packets_view(send@), opt_publish_view(route), keep_going),
{
    let r = Reaction { send, route, mailbox: Vec::new(), keep_going };
    assert(publishes_view(r.mailbox@) =~= Seq::<PublishModel>::empty());
    r
}

/// No packets.
fn no_packets() -> (v: Vec<Packet>)
    ensures
        packets_view(v@) == Seq::<PacketModel>::empty(),
{
    let v: Vec<Packet> = Vec::new();
    assert(packets_view(v@) =~= Seq::<PacketModel>::empty());
    v
}

/// PUBREL `id` from the client: PUBCOMP answers in any case; a held QoS 2
/// message with that id is released and routed when the client may publish
/// to its topic.
pub open spec fn pubrel_step<Z: Authorizer>(z: &Z, m: RuntimeModel, id: u16) -> (RuntimeModel, ReactionModel) {
    let send = seq![PacketModel::PubComp(id)];
    if holds(m.inbound, id) {
        let j = held_index(m.inbound, id);
        let p = m.inbound[j].1;
        (
            with_inbound(m, m.inbound.remove(j)),
            reaction(send, if z.publish_allowed(acl_client_id(m), p.topic) { Some(p) } else { None }, true),
        )
    } else {
        (m, reaction(send, None, true))
    }
}

impl Runtime {
    /// PUBLISH from the client; see `publish_step`.
    pub fn on_publish<Z: Authorizer>(&mut self, packet: PublishPacket, authorizer: &Z) -> (r: Reaction)
        requires
            old(self).wf(),
        ensures
            final(self).wf(),
            (final(self)@, r@) == publish_step(
                old(self)@,
                packet@,
                authorizer.publish_allowed(acl_client_id(old(self)@), packet@.topic),
            ),
    {
        let ghost allowed = authorizer.publish_allowed(acl_client_id(self@), packet@.topic);
        match packet.qos {
            QoS::AtLeastOnce => match packet.packet_id {
                None => {
                    return make_reaction(no_packets(), None, false);
                },
                Some(packet_id) => {
                    let send = vec![Packet::PubAck(PubAckPacket { packet_id })];
                    assert(packets_view(send@) =~= seq![PacketModel::PubAck(packet_id)]);
                    if packet.dup {
                        return make_reaction(send, None, true);
                    }
                    let route = self.authorized_route(packet, authorizer);
                    return make_reaction(send, route, true);
                },
            },
            QoS::ExactlyOnce => match packet.packet_id {
                None => {
                    return make_reaction(no_packets(), None, false);
                },
                Some(packet_id) => {
                    let send = vec![Packet::PubRec(PubRecPacket { packet_id })];
                    assert(packets_view(send@) =~= seq![PacketModel::PubRec(packet_id)]);
                    match self.find_inbound(packet_id) {
                        Some(_) => {},
                        None => {
                            let ghost q0 = self@.inbound;
                            let ghost pv = packet@;
                            self.inbound_qos2.push(ReceivedQos2Message { packet_id, packet });
                            assert(self@.inbound =~= q0.push((packet_id, pv)));
                            assert(unique_ids(self@.inbound)) by {
                                assert forall|i: int, j: int|
                                    0 <= i < self@.inbound.len() && 0 <= j < self@.inbound.len()
                                        && #[trigger] self@.inbound[i].0 == #[trigger] self@.inbound[j].0 implies i == j by {
                                    if i < q0.len() && j < q0.len() {
                                        assert(q0[i] == self@.inbound[i] && q0[j] == self@.inbound[j]);
                                    } else if i < q0.len() {
                                        assert(q0[i] == self@.inbound[i]);
                                        assert(q0[i].0 == packet_id);
                                    } else if j < q0.len() {
                                        assert(q0[j] == self@.inbound[j]);
                                        assert(q0[j].0 == packet_id);
                                    }
                                }
                            }
                        },
                    }
                    return make_reaction(send, None, true);
                },
            },
            QoS::AtMostOnce => {
                let route = self.authorized_route(packet, authorizer);
                make_reaction(no_packets(), route, true)
            },
        }
    }

    /// The message to route, when the client may publish to its topic.
    fn authorized_route<Z: Authorizer>(&self, packet: PublishPacket, authorizer: &Z) -> (r: Option<PublishPacket>)
        ensures
            match r {
                Some(p) => p@ == packet@ && authorizer.publish_allowed(acl_client_id(self@), packet@.topic),
                None => !authorizer.publish_allowed(acl_client_id(self@), packet@.topic),
            },
    {
        let allowed = match &self.client_id {
            Some(c) => authorizer.authorize_publish(c.as_str(), packet.topic.as_str()).is_ok(),
            None => authorizer.authorize_publish("", packet.topic.as_str()).is_ok(),
        };
        proof {
            if self.client_id is None {
                reveal_strlit("");
                assert(""@ =~= Seq::<char>::empty());
            }
        }
        if allowed {
            Some(packet)
        } else {
            None
        }
    }

    /// The index of the held incoming message with packet id `id`.
    fn find_inbound(&self, packet_id: u16) -> (r: Option<usize>)
        requires
            self.wf(),
        ensures
            match r {
                Some(j) => holds(self@.inbound, packet_id) && j == held_index(self@.inbound, packet_id),
                None => !holds(self@.inbound, packet_id),
            },
    {
        let mut i: usize = 0;
        while i < self.inbound_qos2.len()
            invariant
                self.wf(),
                i <= self@.inbound.len(),
                forall|k: int| 0 <= k < i ==> #[trigger] self@.inbound[k].0 != packet_id,
            decreases self@.inbound.len() - i,
        {
            assert(self@.inbound[i as int] == self.inbound_qos2@[i as int]@);
            if self.inbound_qos2[i].packet_id == packet_id {
                assert(self@.inbound[i as int].0 == packet_id);
                let ghost c = held_index(self@.inbound, packet_id);
                assert(self@.inbound[c].0 == self@.inbound[i as int].0);
                return Some(i);
            }
            i += 1;
        }
        None
    }

    /// PUBACK from the client: the acknowledged message leaves the queue.
    pub fn on_puback(&mut self, packet: PubAckPacket) -> (r: Reaction)
        requires
            old(self).wf(),
        ensures
            final(self).wf(),
            final(self)@ == with_inflight(old(self)@, old(self)@.inflight.filter_map(not_id(packet.packet_id))),
            r@ == reaction(Seq::empty(), None, true),
    {
        self.drop_acknowledged(packet.packet_id);
        make_reaction(no_packets(), None, true)
    }

    /// PUBCOMP from the client: the completed QoS 2 message leaves the queue.
    pub fn on_pubcomp(&mut self, packet: PubCompPacket) -> (r: Reaction)
        requires
            old(self).wf(),
        ensures
            final(self).wf(),
            final(self)@ == with_inflight(old(self)@, old(self)@.inflight.filter_map(not_id(packet.packet_id))),
            r@ == reaction(Seq::empty(), None, true),
    {
        self.drop_acknowledged(packet.packet_id);
        make_reaction(no_packets(), None, true)
    }

    /// PUBREC from the client; see `pubrec_queue`. PUBREL is answered in any
    /// case, so that a repeated PUBREC gets it again.
    pub fn on_pubrec(&mut self, packet: PubRecPacket, now: u64) -> (r: Reaction)
        requires
            old(self).wf(),
        ensures
            final(self).wf(),
            final(self)@ == with_inflight(old(self)@, pubrec_queue(old(self)@.inflight, packet.packet_id, now)),
            r@ == reaction(seq![PacketModel::PubRel(packet.packet_id)], None, true),
    {
        let id = packet.packet_id;
        let ghost q0 = self@.inflight;
        let mut i: usize = 0;
        let mut found: Option<usize> = None;
        while i < self.inflight_queue.len()
            invariant_except_break
                found is None,
            invariant
                q0 == self@.inflight,
                i <= q0.len(),
                forall|k: int| 0 <= k < i ==> !#[trigger] awaiting_rec(q0, k, id),
            ensures
                match found {
                    Some(j) => first_awaiting_rec(q0, j as int, id),
                    None => forall|k: int| 0 <= k < q0.len() ==> !#[trigger] awaiting_rec(q0, k, id),
                },
            decreases q0.len() - i,
        {
            let m = &self.inflight_queue[i];
            assert(q0[i as int] == m@);
            let waiting = match m.qos2_state {
                Some(Qos2State::AwaitingPubRec) => true,
                _ => false,
            };
            if m.packet.packet_id == Some(id) && waiting {
                found = Some(i);
                assert(first_awaiting_rec(q0, i as int, id));
                break;
            }
            i += 1;
        }
        match found {
            Some(j) => {
                proof {
                    let c = choose|c: int| first_awaiting_rec(q0, c, id);
                    assert(first_awaiting_rec(q0, j as int, id));
                    if c < j {
                        assert(!awaiting_rec(q0, c, id));
                    } else if c > j {
                        assert(!awaiting_rec(q0, j as int, id));
                    }
                }
                let mut m = self.inflight_queue[j].duplicate();
                m.qos2_state = Some(Qos2State::AwaitingPubComp);
                m.timestamp = now;
                m.retry_count = 0;
                self.inflight_queue.set(j, m);
                assert(self@.inflight =~= pubrec_queue(q0, id, now));
            },
            None => {
                assert(!exists|j: int| first_awaiting_rec(q0, j, id)) by {
                    if exists|j: int| first_awaiting_rec(q0, j, id) {
                        let j = choose|j: int| first_awaiting_rec(q0, j, id);
                        assert(awaiting_rec(q0, j, id));
                    }
                }
            },
        }
        let send = vec![Packet::PubRel(PubRelPacket { packet_id: id })];
        assert(packets_view(send@) =~= seq![PacketModel::PubRel(id)]);
        make_reaction(send, None, true)
    }

    /// PUBREL from the client: PUBCOMP is answered in any case; a held QoS 2
    /// message with that id is released and routed, when the client may
    /// publish to its topic.
    pub fn on_pubrel<Z: Authorizer>(&mut self, packet: PubRelPacket, authorizer: &Z) -> (r: Reaction)
        requires
            old(self).wf(),
        ensures
            final(self).wf(),
            (final(self)@, r@) == pubrel_step(authorizer, old(self)@, packet.packet_id),
    {
        let id = packet.packet_id;
        let send = vec![Packet::PubComp(PubCompPacket { packet_id: id })];
        assert(packets_view(send@) =~= seq![PacketModel::PubComp(id)]);
        match self.find_inbound(id) {
            Some(j) => {
                let ghost q0 = self@.inbound;
                let received = self.inbound_qos2.remove(j);
                assert(self@.inbound =~= q0.remove(j as int));
                assert(unique_ids(self@.inbound)) by {
                    assert forall|a: int, b: int|
                        0 <= a < self@.inbound.len() && 0 <= b < self@.inbound.len()
                            && #[trigger] self@.inbound[a].0 == #[trigger] self@.inbound[b].0 implies a == b by {
                        let a0 = if a < j { a } else { a + 1 };
                        let b0 = if b < j { b } else { b + 1 };
                        assert(q0[a0] == self@.inbound[a] && q0[b0] == self@.inbound[b]);
                    }
                }
                let route = self.authorized_route(received.packet, authorizer);
                make_reaction(send, route, true)
            },
            None => make_reaction(send, None, true),
        }
    }
}

/// Prefixes of a sequence map to prefixes of its `filter_map`.
pub proof fn lemma_filter_map_prefix<A, B>(e: Seq<A>, f: spec_fn(A) -> Option<B>, i: int, j: int)
    requires
        0 <= i <= j <= e.len(),
    ensures
        e.take(i).filter_map(f).len() <= e.take(j).filter_map(f).len(),
        e.take(j).filter_map(f).take(e.take(i).filter_map(f).len() as int) == e.take(i).filter_map(f),
    decreases j - i,
{
    if i < j {
        lemma_filter_map_prefix(e, f, i, j - 1);
        e.lemma_filter_map_take_succ(f, j - 1);
        let a = e.take(i).filter_map(f);
        let b = e.take(j - 1).filter_map(f);
        assert(e.take(j).filter_map(f).take(a.len() as int) =~= b.take(a.len() as int));
    } else {
        assert(e.take(j).filter_map(f).take(e.take(i).filter_map(f).len() as int) =~= e.take(i).filter_map(f));
    }
}

/// The return code a subscription request gets from the table: its QoS when
/// the filter is valid, FAILURE otherwise.
pub open spec fn table_code(x: (Seq<char>, QoS)) -> u8 {
    if valid_topic_filter(x.0) {
        qos_num(x.1)
    } else {
        FAILURE
    }
}

/// The table's return codes are one per requested filter.
pub proof fn lemma_subscribe_codes(e: Seq<SubEntry>, s: Seq<char>, fl: Seq<(Seq<char>, QoS)>, rr: Seq<crate::storage::types::RetainedRecord>)
    ensures
        subscribe_spec(e, s, fl, rr).codes == fl.map_values(|x: (Seq<char>, QoS)| table_code(x)),
    decreases fl.len(),
{
    if fl.len() > 0 {
        lemma_subscribe_codes(e, s, fl.drop_last(), rr);
        assert(fl.map_values(|x: (Seq<char>, QoS)| table_code(x)) =~= fl.drop_last().map_values(|x: (Seq<char>, QoS)| table_code(x)).push(table_code(fl.last())));
    } else {
        assert(fl.map_values(|x: (Seq<char>, QoS)| table_code(x)) =~= Seq::<u8>::empty());
    }
}

/// The requested filters the client may subscribe to, in order.
pub open spec fn authorized_filters<Z: Authorizer>(z: &Z, client: Seq<char>) -> spec_fn((Seq<char>, QoS)) -> Option<(Seq<char>, QoS)> {
    |x: (Seq<char>, QoS)| if z.subscribe_allowed(client, x.0) { Some(x) } else { None }
}

/// The return code of a requested filter: FAILURE when the client may not
/// subscribe to it or it is invalid, else the QoS it asked for.
pub open spec fn suback_code<Z: Authorizer>(z: &Z, client: Seq<char>, x: (Seq<char>, QoS)) -> u8 {
    if z.subscribe_allowed(client, x.0) {
        table_code(x)
    } else {
        FAILURE
    }
}

/// SUBSCRIBE from the client, with `e` the subscription table and `rr` the
/// stored retained messages: the new table and the reaction.
pub open spec fn subscribe_step<Z: Authorizer>(
    z: &Z,
    m: RuntimeModel,
    e: Seq<SubEntry>,
    p: crate::protocol::packet::SubscribeModel,
    rr: Seq<crate::storage::types::RetainedRecord>,
) -> (Seq<SubEntry>, ReactionModel) {
    let client = acl_client_id(m);
    let fl = p.topic_filters;
    let t = subscribe_spec(e, m.id, fl.filter_map(authorized_filters(z, client)), rr);
    (
        t.entries,
        ReactionModel {
            send: seq![
                PacketModel::SubAck(
                    p.packet_id,
                    fl.map_values(|x: (Seq<char>, QoS)| suback_code(z, client, x)),
                ),
            ],
            route: None,
            mailbox: t.retained,
            keep_going: true,
        },
    )
}

impl Runtime {
    /// The client id used for access checks; see `acl_client_id`.
    fn acl_id(&self) -> (r: &str)
        ensures
            r@ == acl_client_id(self@),
    {
        match &self.client_id {
            Some(c) => c.as_str(),
            None => {
                proof {
                    reveal_strlit("");
                }
                assert(""@ =~= Seq::<char>::empty());
                ""
            },
        }
    }

    /// SUBSCRIBE from the client. The filters the client may subscribe to go
    /// to the subscription table (which grants the requested QoS to valid
    /// ones); SUBACK answers each requested filter in order, FAILURE for those
    /// refused; the retained messages the table returns are queued for this
    /// session after the SUBACK. `retained` is the stored retained messages.
    pub fn on_subscribe<Z: Authorizer>(
        &mut self,
        packet: SubscribePacket,
        authorizer: &Z,
        router: &mut Router,
        retained: Result<Vec<PersistedRetainedMessage>, StorageError>,
    ) -> (r: Reaction)
        requires
            old(self).wf(),
            old(router).wf(),
        ensures
            final(self)@ == old(self)@,
            final(router).wf(),
            final(router).limit() == old(router).limit(),
            (final(router)@, r@) == subscribe_step(
                authorizer,
                old(self)@,
                old(router)@,
                packet@,
                loaded_retained(retained),
            ),
    {
        let ghost fl = filter_qos_view(packet.topic_filters@);
        let ghost rr = loaded_retained(retained);
        let client = self.acl_id();
        let ghost af = authorized_filters(authorizer, client@);
        let n = packet.topic_filters.len();
        let mut authorized: Vec<(String, QoS)> = Vec::new();
        let mut allowed: Vec<bool> = Vec::new();
        let mut i: usize = 0;
        assert(fl.take(0) =~= Seq::<(Seq<char>, QoS)>::empty());
        assert(filter_list_view(authorized@) =~= Seq::<(Seq<char>, QoS)>::empty());
        while i < n
            invariant
                n == fl.len(),
                fl == filter_qos_view(packet.topic_filters@),
                af == authorized_filters(authorizer, client@),
                i <= n,
                filter_list_view(authorized@) == fl.take(i as int).filter_map(af),
                allowed@.len() == i,
                forall|k: int| 0 <= k < i ==> #[trigger] allowed@[k] == authorizer.subscribe_allowed(client@, fl[k].0),
            decreases n - i,
        {
            proof {
                fl.lemma_filter_map_take_succ(af, i as int);
            }
            let filter = &packet.topic_filters[i].0;
            let qos = packet.topic_filters[i].1;
            assert(fl[i as int] == (filter@, qos));
            if authorizer.authorize_subscribe(client, filter.as_str()).is_ok() {
                let ghost before = authorized@;
                authorized.push((filter.clone(), qos));
                allowed.push(true);
                assert(filter_list_view(authorized@) =~= filter_list_view(before).push((filter@, qos)));
            } else {
                allowed.push(false);
            }
            i += 1;
        }
        assert(fl.take(n as int) =~= fl);
        let ghost auth = filter_list_view(authorized@);
        let ghost e0 = router@;
        let (router_codes, retained_messages) = if authorized.len() > 0 {
            router.subscribe(self.id.as_str(), authorized.as_slice(), retained)
        } else {
            assert(auth =~= Seq::<(Seq<char>, QoS)>::empty());
            let none: Vec<PublishPacket> = Vec::new();
            assert(publish_models(none@) =~= Seq::<PublishModel>::empty());
            (Vec::new(), none)
        };
        proof {
            lemma_subscribe_codes(e0, self@.id, auth, rr);
        }
        let mut return_codes: Vec<u8> = Vec::new();
        let mut router_idx: usize = 0;
        let mut j: usize = 0;
        let ghost code_of = |x: (Seq<char>, QoS)| suback_code(authorizer, client@, x);
        assert(return_codes@ =~= fl.take(0).map_values(code_of));
        while j < n
            invariant
                n == fl.len(),
                af == authorized_filters(authorizer, client@),
                code_of == (|x: (Seq<char>, QoS)| suback_code(authorizer, client@, x)),
                auth == fl.filter_map(af),
                router_codes@ == auth.map_values(|x: (Seq<char>, QoS)| table_code(x)),
                allowed@.len() == n,
                forall|k: int| 0 <= k < n ==> #[trigger] allowed@[k] == authorizer.subscribe_allowed(client@, fl[k].0),
                j <= n,
                router_idx <= j,
                router_idx == fl.take(j as int).filter_map(af).len(),
                return_codes@ == fl.take(j as int).map_values(code_of),
            decreases n - j,
        {
            proof {
                fl.lemma_filter_map_take_succ(af, j as int);
                lemma_filter_map_prefix(fl, af, j + 1, n as int);
                assert(fl.take(n as int) =~= fl);
            }
            if !allowed[j] {
                return_codes.push(FAILURE);
            } else {
                proof {
                    let a1 = fl.take(j + 1).filter_map(af);
                    assert(a1.last() == fl[j as int]);
                    assert(auth.take(a1.len() as int) == a1);
                    assert(auth[router_idx as int] == a1[router_idx as int]);
                    assert(router_idx + 1 == a1.len());
                    assert(router_idx < router_codes@.len());
                }
                return_codes.push(router_codes[router_idx]);
                router_idx += 1;
            }
            assert(return_codes@ =~= fl.take(j + 1).map_values(code_of));
            j += 1;
        }
        assert(fl.take(n as int) =~= fl);
        let send = vec![Packet::SubAck(SubAckPacket { packet_id: packet.packet_id, return_codes })];
        assert(packets_view(send@) =~= seq![PacketModel::SubAck(packet.packet_id, fl.map_values(code_of))]);
        let r = Reaction { send, route: None, mailbox: retained_messages, keep_going: true };
        assert(publishes_view(r.mailbox@) =~= publish_models(retained_messages@));
        r
    }

    /// UNSUBSCRIBE from the client: the session leaves each listed filter in
    /// the subscription table, and UNSUBACK answers.
    pub fn on_unsubscribe(&self, packet: UnsubscribePacket, router: &mut Router) -> (r: Reaction)
        requires
            old(router).wf(),
        ensures
            final(router).wf(),
            final(router).limit() == old(router).limit(),
            final(router)@ == remove_keys(old(router)@, string_list_view(packet.topic_filters@), self@.id),
            r@ == reaction(seq![PacketModel::UnsubAck(packet.packet_id)], None, true),
    {
        router.unsubscribe(self.id.as_str(), packet.topic_filters.as_slice());
        let send = vec![Packet::UnsubAck(UnsubAckPacket { packet_id: packet.packet_id })];
        assert(packets_view(send@) =~= seq![PacketModel::UnsubAck(packet.packet_id)]);
        make_reaction(send, None, true)
    }

    /// PINGREQ from the client: PINGRESP answers.
    pub fn on_pingreq(&self) -> (r: Reaction)
        ensures
            r@ == reaction(seq![PacketModel::PingResp], None, true),
    {
        let send = vec![Packet::PingResp];
        assert(packets_view(send@) =~= seq![PacketModel::PingResp]);
        make_reaction(send, None, true)
    }

    /// DISCONNECT from the client: a clean goodbye, so the will message is
    /// discarded; the connection closes.
    pub fn on_disconnect(&mut self) -> (r: Reaction)
        requires
            old(self).wf(),
        ensures
            final(self).wf(),
            final(self)@ == (RuntimeModel { will: None, ..old(self)@ }),
            r@ == reaction(Seq::empty(), None, false),
    {
        self.will_message = None;
        make_reaction(no_packets(), None, false)
    }
}

impl Runtime {
    /// A packet from the client: dispatches to the handler of its type. A
    /// packet a client never sends (CONNECT again, or a broker's packet)
    /// closes the connection. `retained` is the stored retained messages,
    /// used by SUBSCRIBE; `now` is the monotonic clock in milliseconds.
    pub fn on_packet<Z: Authorizer>(
        &mut self,
        packet: Packet,
        authorizer: &Z,
        router: &mut Router,
        retained: Result<Vec<PersistedRetainedMessage>, StorageError>,
        now: u64,
    ) -> (r: Reaction)
        requires
            old(self).wf(),
            old(router).wf(),
        ensures
            final(self).wf(),
            final(router).wf(),
            final(router).limit() == old(router).limit(),
            match packet@ {
                PacketModel::Publish(p) => final(router)@ == old(router)@ && (final(self)@, r@)
                    == publish_step(
                    old(self)@,
                    p,
                    authorizer.publish_allowed(acl_client_id(old(self)@), p.topic),
                ),
                PacketModel::PubAck(id) => final(router)@ == old(router)@ && final(self)@
                    == with_inflight(old(self)@, old(self)@.inflight.filter_map(not_id(id))) && r@
                    == reaction(Seq::empty(), None, true),
                PacketModel::PubRec(id) => final(router)@ == old(router)@ && final(self)@
                    == with_inflight(old(self)@, pubrec_queue(old(self)@.inflight, id, now)) && r@
                    == reaction(seq![PacketModel::PubRel(id)], None, true),
                PacketModel::PubRel(id) => final(router)@ == old(router)@ && (final(self)@, r@)
                    == pubrel_step(authorizer, old(self)@, id),
                PacketModel::PubComp(id) => final(router)@ == old(router)@ && final(self)@
                    == with_inflight(old(self)@, old(self)@.inflight.filter_map(not_id(id))) && r@
                    == reaction(Seq::empty(), None, true),
                PacketModel::Subscribe(sp) => final(self)@ == old(self)@ && (final(router)@, r@)
                    == subscribe_step(
                    authorizer,
                    old(self)@,
                    old(router)@,
                    sp,
                    loaded_retained(retained),
                ),
                PacketModel::Unsubscribe(up) => final(self)@ == old(self)@ && final(router)@
                    == remove_keys(old(router)@, up.topic_filters, old(self)@.id) && r@ == reaction(
                    seq![PacketModel::UnsubAck(up.packet_id)],
                    None,
                    true,
                ),
                PacketModel::PingReq => final(self)@ == old(self)@ && final(router)@ == old(router)@
                    && r@ == reaction(seq![PacketModel::PingResp], None, true),
                PacketModel::Disconnect => final(router)@ == old(router)@ && final(self)@ == (
                RuntimeModel { will: None, ..old(self)@ }) && r@ == reaction(
                    Seq::empty(),
                    None,
                    false,
                ),
                _ => final(self)@ == old(self)@ && final(router)@ == old(router)@ && r@ == reaction(
                    Seq::empty(),
                    None,
                    false,
                ),
            },
    {
        match packet {
            Packet::Publish(p) => self.on_publish(p, authorizer),
            Packet::PubAck(p) => self.on_puback(p),
            Packet::PubRec(p) => self.on_pubrec(p, now),
            Packet::PubRel(p) => self.on_pubrel(p, authorizer),
            Packet::PubComp(p) => self.on_pubcomp(p),
            Packet::Subscribe(p) => self.on_subscribe(p, authorizer, router, retained),
            Packet::Unsubscribe(p) => {
                assert(string_list_view(p.topic_filters@) =~= p@.topic_filters);
                self.on_unsubscribe(p, router)
            },
            Packet::PingReq => self.on_pingreq(),
            Packet::Disconnect => self.on_disconnect(),
            _ => make_reaction(no_packets(), None, false),
        }
    }
}

// ---------------------------------------------------------------------------
// Timers and the will message
// ---------------------------------------------------------------------------

/// `a - b`, or 0 when `b` is later.
pub open spec fn elapsed(a: u64, b: u64) -> u64 {
    if a >= b {
        (a - b) as u64
    } else {
        0
    }
}

/// One more retry, staying at the largest count once reached.
pub open spec fn one_more(n: u32) -> u32 {
    if n == u32::MAX {
        n
    } else {
        (n + 1) as u32
    }
}

/// A queued message is due again once `interval` has passed since it was last
/// sent.
pub open spec fn due(m: InflightModel, interval: u64, now: u64) -> bool {
    elapsed(now, m.timestamp) >= interval
}

/// A due message whose retry count would pass the limit is dropped.
pub open spec fn exhausted(m: InflightModel, max: u32) -> bool {
    one_more(m.retry_count) > max
}

/// What stays queued of a message at a retransmission tick: a due message is
/// dropped when exhausted, else it counts one more retry sent now; a message
/// not due stays as it is.
pub open spec fn kept_after_tick(interval: u64, max: u32, now: u64) -> spec_fn(InflightModel) -> Option<InflightModel> {
    |m: InflightModel|
        if due(m, interval, now) {
            if exhausted(m, max) {
                None
            } else {
                Some(InflightModel { retry_count: one_more(m.retry_count), timestamp: now, ..m })
            }
        } else {
            Some(m)
        }
}

/// The PUBLISH sent again at a tick: the stored packet of each due, not
/// exhausted message of QoS 1 or still waiting for PUBREC.
pub open spec fn republished(interval: u64, max: u32, now: u64) -> spec_fn(InflightModel) -> Option<PublishModel> {
    |m: InflightModel|
        if due(m, interval, now) && !exhausted(m, max) && m.qos2_state != Some(Qos2State::AwaitingPubComp) {
            Some(m.packet)
        } else {
            None
        }
}

/// The PUBREL sent again at a tick: for each due, not exhausted message
/// waiting for PUBCOMP.
pub open spec fn rereleased(interval: u64, max: u32, now: u64) -> spec_fn(InflightModel) -> Option<PacketModel> {
    |m: InflightModel|
        if due(m, interval, now) && !exhausted(m, max) && m.qos2_state == Some(Qos2State::AwaitingPubComp)
            && m.packet.packet_id is Some {
            Some(PacketModel::PubRel(m.packet.packet_id->0))
        } else {
            None
        }
}

/// The will message as published: at QoS 0, with its retain flag.
pub open spec fn will_publish(w: WillModel) -> PublishModel {
    PublishModel {
        topic: w.topic,
        packet_id: None,
        payload: w.payload,
        qos: QoS::AtMostOnce,
        retain: w.retain,
        dup: false,
    }
}

/// How long a connection may stay silent: one and a half keep-alive
/// intervals, or a year when keep-alive is off.
pub open spec fn keep_alive_timeout_spec(keep_alive: u16) -> u64 {
    if keep_alive > 0 {
        (keep_alive as int * 1500) as u64
    } else {
        31536000000
    }
}

/// How often queued messages are checked: half the retransmission interval,
/// or once a day when retransmission is off.
pub open spec fn retransmit_tick_spec(interval_ms: u64) -> u64 {
    if interval_ms > 0 {
        (interval_ms / 2) as u64
    } else {
        86400000
    }
}

/// How often queued messages are checked; see `retransmit_tick_spec`.
pub fn retransmit_tick_ms(retransmission_interval_ms: u64) -> (r: u64)
    ensures
        r == retransmit_tick_spec(retransmission_interval_ms),
{
    if retransmission_interval_ms > 0 {
        retransmission_interval_ms / 2
    } else {
        86400000
    }
}

/// The state after a takeover request. While serving a client, a takeover
/// whose CONNACK was written continues with the new connection, and a failed
/// one leaves the session pending when the new client keeps sessions; while
/// pending, a failed takeover stays pending.
pub open spec fn after_takeover_spec(pending: bool, connack_sent: bool, clean_session: bool) -> State {
    if connack_sent {
        State::Processing
    } else if pending || !clean_session {
        State::Pending
    } else {
        State::Cleanup
    }
}

/// The state after a takeover request; see `after_takeover_spec`.
pub fn state_after_takeover(pending: bool, connack_sent: bool, clean_session: bool) -> (r: State)
    ensures
        r == after_takeover_spec(pending, connack_sent, clean_session),
{
    if connack_sent {
        State::Processing
    } else if pending || !clean_session {
        State::Pending
    } else {
        State::Cleanup
    }
}

/// An event that may end the serving of a connected client.
#[derive(Debug, Clone, Copy, PartialEq, Eq, Structural)]
pub enum LoopEvent {
    /// The connection failed or closed: an unreadable packet, a packet that
    /// closes it (DISCONNECT among them), or a failed write.
    ConnectionLost,
    /// The keep-alive timer fired with nothing received since it was reset.
    KeepAliveTick,
    /// The session was told to stop, or its command channel closed.
    Cancelled,
    /// Another connection took the session over; whether its CONNACK was
    /// written, and whether the new client asked for a clean session.
    Takeover { connack_sent: bool, clean_session: bool },
}

/// What an event does to a session serving its client: `None` to go on
/// serving, else the state to continue in. A lost connection, and a fired
/// keep-alive timer when keep-alive is on, end the connection (the session is
/// kept pending when the client asked to keep it); with keep-alive 0 silence
/// never ends it. A stop ends the session. A takeover continues per
/// `after_takeover_spec`.
pub open spec fn processing_next_spec(m: RuntimeModel, e: LoopEvent) -> Option<State> {
    let lost = if m.clean_session {
        State::Cleanup
    } else {
        State::Pending
    };
    match e {
        LoopEvent::ConnectionLost => Some(lost),
        LoopEvent::KeepAliveTick => if m.keep_alive > 0 {
            Some(lost)
        } else {
            None
        },
        LoopEvent::Cancelled => Some(State::Cleanup),
        LoopEvent::Takeover { connack_sent, clean_session } => Some(
            after_takeover_spec(false, connack_sent, clean_session),
        ),
    }
}

/// An event for a pending session.
#[derive(Debug, Clone, Copy, PartialEq, Eq, Structural)]
pub enum PendingEvent {
    /// A connection took the session over; whether its CONNACK was written.
    Takeover { connack_sent: bool, clean_session: bool },
    /// The session was told to stop, or its command channel closed.
    Cancelled,
}

/// What an event does to a pending session: a takeover continues per
/// `after_takeover_spec` (serving again, or still pending); a stop ends it.
pub open spec fn pending_next_spec(e: PendingEvent) -> State {
    match e {
        PendingEvent::Takeover { connack_sent, clean_session } => after_takeover_spec(
            true,
            connack_sent,
            clean_session,
        ),
        PendingEvent::Cancelled => State::Cleanup,
    }
}

/// What a pending session does on an event; see `pending_next_spec`.
pub fn pending_next(event: PendingEvent) -> (r: State)
    ensures
        r == pending_next_spec(event),
{
    match event {
        PendingEvent::Takeover { connack_sent, clean_session } => state_after_takeover(
            true,
            connack_sent,
            clean_session,
        ),
        PendingEvent::Cancelled => State::Cleanup,
    }
}

/// Whether a waiting session goes on with the first packet of a connection:
/// only a CONNECT does; anything else ends the session.
pub fn accepts_first_packet(p: &Packet) -> (r: bool)
    ensures
        r == (p@ is Connect),
{
    match p {
        Packet::Connect(_) => true,
        _ => false,
    }
}

impl Runtime {
    /// What an event does to this session while it serves its client; see
    /// `processing_next_spec`.
    pub fn processing_next(&self, event: LoopEvent) -> (r: Option<State>)
        ensures
            r == processing_next_spec(self@, event),
    {
        match event {
            LoopEvent::ConnectionLost => Some(self.state_after_connection_loss()),
            LoopEvent::KeepAliveTick => if self.keep_alive > 0 {
                Some(self.state_after_connection_loss())
            } else {
                None
            },
            LoopEvent::Cancelled => Some(State::Cleanup),
            LoopEvent::Takeover { connack_sent, clean_session } => Some(
                state_after_takeover(false, connack_sent, clean_session),
            ),
        }
    }
}

impl Runtime {
    /// How long the connection may stay silent before it is dropped; see
    /// `keep_alive_timeout_spec`.
    pub fn keep_alive_timeout_ms(&self) -> (r: u64)
        ensures
            r == keep_alive_timeout_spec(self@.keep_alive),
    {
        if self.keep_alive > 0 {
            self.keep_alive as u64 * 1500
        } else {
            31536000000
        }
    }

    /// The state after the connection is lost or closed abnormally: the
    /// session is kept pending when the client asked to keep it.
    pub fn state_after_connection_loss(&self) -> (r: State)
        ensures
            r == if self@.clean_session {
                State::Cleanup
            } else {
                State::Pending
            },
    {
        if self.clean_session {
            State::Cleanup
        } else {
            State::Pending
        }
    }

    /// A retransmission tick: nothing when retransmission is off (interval 0);
    /// otherwise the queue is updated per `kept_after_tick`, the PUBLISH
    /// messages to send again are queued for this session and the PUBREL
    /// packets are written to the client.
    pub fn on_retransmit(&mut self, retransmission_interval_ms: u64, max_retransmission_limit: u32, now: u64) -> (r: Reaction)
        requires
            old(self).wf(),
        ensures
            final(self).wf(),
            r@.route is None,
            r@.keep_going,
            retransmission_interval_ms == 0 ==> final(self)@ == old(self)@ && r@.send.len() == 0
                && r@.mailbox.len() == 0,
            retransmission_interval_ms > 0 ==> {
                let q = old(self)@.inflight;
                let i = retransmission_interval_ms;
                let x = max_retransmission_limit;
                &&& final(self)@ == with_inflight(old(self)@, q.filter_map(kept_after_tick(i, x, now)))
                &&& r@.mailbox == q.filter_map(republished(i, x, now))
                &&& r@.send == q.filter_map(rereleased(i, x, now))
            },
    {
        if retransmission_interval_ms == 0 {
            return make_reaction(no_packets(), None, true);
        }
        let ghost q0 = self@.inflight;
        let ghost gk = kept_after_tick(retransmission_interval_ms, max_retransmission_limit, now);
        let ghost gp = republished(retransmission_interval_ms, max_retransmission_limit, now);
        let ghost gr = rereleased(retransmission_interval_ms, max_retransmission_limit, now);
        let n = self.inflight_queue.len();
        let mut kept: Vec<InflightMessage> = Vec::new();
        let mut publish_to_retransmit: Vec<PublishPacket> = Vec::new();
        let mut pubrel_to_retransmit: Vec<Packet> = Vec::new();
        let mut i: usize = 0;
        assert(q0.take(0) =~= Seq::<InflightModel>::empty());
        assert(inflight_view(kept@) =~= Seq::<InflightModel>::empty());
        assert(publishes_view(publish_to_retransmit@) =~= Seq::<PublishModel>::empty());
        assert(packets_view(pubrel_to_retransmit@) =~= Seq::<PacketModel>::empty());
        while i < n
            invariant
                n == q0.len(),
                q0 == self@.inflight,
                i <= n,
                gk == kept_after_tick(retransmission_interval_ms, max_retransmission_limit, now),
                gp == republished(retransmission_interval_ms, max_retransmission_limit, now),
                gr == rereleased(retransmission_interval_ms, max_retransmission_limit, now),
                inflight_view(kept@) == q0.take(i as int).filter_map(gk),
                publishes_view(publish_to_retransmit@) == q0.take(i as int).filter_map(gp),
                packets_view(pubrel_to_retransmit@) == q0.take(i as int).filter_map(gr),
            decreases n - i,
        {
            proof {
                q0.lemma_filter_map_take_succ(gk, i as int);
                q0.lemma_filter_map_take_succ(gp, i as int);
                q0.lemma_filter_map_take_succ(gr, i as int);
            }
            let m = &self.inflight_queue[i];
            let ghost mv = m@;
            assert(mv == q0[i as int]);
            let elapsed_ms = now.saturating_sub(m.timestamp);
            let ghost k0 = kept@;
            let ghost p0 = publish_to_retransmit@;
            let ghost r0 = pubrel_to_retransmit@;
            if elapsed_ms >= retransmission_interval_ms {
                let retry_count = m.retry_count.saturating_add(1);
                if retry_count <= max_retransmission_limit {
                    let waiting_comp = match m.qos2_state {
                        Some(Qos2State::AwaitingPubComp) => true,
                        _ => false,
                    };
                    if !waiting_comp {
                        publish_to_retransmit.push(m.packet.duplicate());
                        assert(publishes_view(publish_to_retransmit@) =~= publishes_view(p0).push(mv.packet));
                    } else {
                        if let Some(packet_id) = m.packet.packet_id {
                            pubrel_to_retransmit.push(Packet::PubRel(PubRelPacket { packet_id }));
                            assert(packets_view(pubrel_to_retransmit@) =~= packets_view(r0).push(PacketModel::PubRel(packet_id)));
                        }
                    }
                    let mut updated = m.duplicate();
                    updated.retry_count = retry_count;
                    updated.timestamp = now;
                    kept.push(updated);
                    assert(inflight_view(kept@) =~= inflight_view(k0).push(
                        InflightModel { retry_count: one_more(mv.retry_count), timestamp: now, ..mv },
                    ));
                }
            } else {
                kept.push(m.duplicate());
                assert(inflight_view(kept@) =~= inflight_view(k0).push(mv));
            }
            i += 1;
        }
        assert(q0.take(n as int) =~= q0);
        self.inflight_queue = kept;
        Reaction { send: pubrel_to_retransmit, route: None, mailbox: publish_to_retransmit, keep_going: true }
    }

    /// The session ends: its will message, if any, is taken and returned for
    /// routing.
    pub fn publish_will(&mut self) -> (r: Option<PublishPacket>)
        requires
            old(self).wf(),
        ensures
            final(self).wf(),
            final(self)@ == (RuntimeModel { will: None, ..old(self)@ }),
            match old(self)@.will {
                Some(w) => r matches Some(p) && p@ == will_publish(w),
                None => r is None,
            },
    {
        match self.will_message.take() {
            Some(will) => Some(
                PublishPacket {
                    topic: will.topic,
                    packet_id: None,
                    payload: will.payload,
                    qos: QoS::AtMostOnce,
                    retain: will.retain,
                    dup: false,
                },
            ),
            None => None,
        }
    }
}

// ---------------------------------------------------------------------------
// Connecting
// ---------------------------------------------------------------------------

/// An ASCII letter or digit.
pub open spec fn ascii_alphanumeric(c: char) -> bool {
    ('0' <= c <= '9') || ('a' <= c <= 'z') || ('A' <= c <= 'Z')
}

/// The UTF-8 length of a string, as `str::len` reports it.
pub open spec fn byte_len(s: Seq<char>) -> usize {
    encode_utf8(s).len() as usize
}

/// The client id rule: a non-empty id has at most 23 bytes, all ASCII
/// letters and digits; an empty id is only allowed with a clean session.
/// Refusals carry IDENTIFIER_REJECTED.
pub open spec fn client_id_check(client_id: Seq<char>, clean_session: bool) -> Result<(), u8> {
    if client_id.len() > 0 {
        if byte_len(client_id) > 23 {
            Err(IDENTIFIER_REJECTED)
        } else if !(forall|i: int| 0 <= i < client_id.len() ==> ascii_alphanumeric(#[trigger] client_id[i])) {
            Err(IDENTIFIER_REJECTED)
        } else {
            Ok(())
        }
    } else if !clean_session {
        Err(IDENTIFIER_REJECTED)
    } else {
        Ok(())
    }
}

/// Checks a client id; see `client_id_check`.
pub fn validate_client_id(client_id: &str, clean_session: bool) -> (r: Result<(), u8>)
    ensures
        r == client_id_check(client_id@, clean_session),
{
    let chars = chars_of(client_id);
    if chars.len() > 0 {
        if client_id.len() > 23 {
            return Err(IDENTIFIER_REJECTED);
        }
        let mut i: usize = 0;
        while i < chars.len()
            invariant
                chars@ == client_id@,
                i <= chars@.len(),
                forall|k: int| 0 <= k < i ==> ascii_alphanumeric(#[trigger] chars@[k]),
            decreases chars@.len() - i,
        {
            let c = chars[i];
            if !(('0' <= c && c <= '9') || ('a' <= c && c <= 'z') || ('A' <= c && c <= 'Z')) {
                assert(!ascii_alphanumeric(client_id@[i as int]));
                return Err(IDENTIFIER_REJECTED);
            }
            i += 1;
        }
    } else if !clean_session {
        return Err(IDENTIFIER_REJECTED);
    }
    Ok(())
}

/// The answer to a CONNECT.
pub enum ConnectOutcome {
    /// Refuse with this CONNACK return code, then end the session.
    Refuse(u8),
    /// Accepted. With a client id, the broker must check whether another
    /// session holds it before the session is resumed or started fresh.
    Accept(Option<String>),
}

pub enum ConnectOutcomeModel {
    Refuse(u8),
    Accept(Option<Seq<char>>),
}

impl View for ConnectOutcome {
    type V = ConnectOutcomeModel;

    open spec fn view(&self) -> ConnectOutcomeModel {
        match self {
            ConnectOutcome::Refuse(c) => ConnectOutcomeModel::Refuse(*c),
            ConnectOutcome::Accept(Some(id)) => ConnectOutcomeModel::Accept(Some(id@)),
            ConnectOutcome::Accept(None) => ConnectOutcomeModel::Accept(None),
        }
    }
}

/// The CONNACK code of a failed authentication: BAD_USERNAME_OR_PASSWORD for
/// wrong credentials, NOT_AUTHORIZED when the check itself failed.
pub open spec fn auth_refusal(e: AuthError) -> u8 {
    match e {
        AuthError::InvalidCredentials => BAD_USERNAME_OR_PASSWORD,
        _ => NOT_AUTHORIZED,
    }
}

/// The credentials a CONNECT presents.
pub open spec fn connect_credentials(c: ConnectModel) -> CredentialsModel {
    CredentialsModel { username: c.username, password: c.password, client_id: c.client_id }
}

/// CONNECT from the client: the protocol must be MQTT level 4
/// (else UNACCEPTABLE_PROTOCOL_VERSION), the client id must pass
/// `client_id_check`, and the authenticator must accept the credentials.
/// Once accepted the session takes the client's clean-session flag and
/// keep-alive, its will message when the will flag, topic and message are all
/// present, and its client id when it has one.
pub open spec fn connect_step<A: Authenticator>(a: &A, m: RuntimeModel, c: ConnectModel) -> (RuntimeModel, ConnectOutcomeModel) {
    if c.protocol_name != PROTOCOL_NAME@ || c.protocol_level != PROTOCOL_LEVEL {
        (m, ConnectOutcomeModel::Refuse(UNACCEPTABLE_PROTOCOL_VERSION))
    } else {
        match client_id_check(c.client_id, c.clean_session) {
            Err(code) => (m, ConnectOutcomeModel::Refuse(code)),
            Ok(_) => match a.authentication(connect_credentials(c)) {
                Err(e) => (m, ConnectOutcomeModel::Refuse(auth_refusal(e))),
                Ok(_) => {
                    let will = if c.will_flag && c.will_topic is Some && c.will_payload is Some {
                        Some(
                            WillModel {
                                topic: c.will_topic->0,
                                payload: c.will_payload->0,
                                qos: c.will_qos,
                                retain: c.will_retain,
                            },
                        )
                    } else {
                        m.will
                    };
                    let named = c.client_id.len() > 0;
                    (
                        RuntimeModel {
                            clean_session: c.clean_session,
                            keep_alive: c.keep_alive,
                            will,
                            client_id: if named { Some(c.client_id) } else { m.client_id },
                            ..m
                        },
                        ConnectOutcomeModel::Accept(if named { Some(c.client_id) } else { None }),
                    )
                },
            },
        }
    }
}

/// What becomes of a stored session once the client id is claimed.
pub enum StoredSessionAction {
    /// The client has no id: nothing is stored for it.
    Nothing,
    /// A clean session: the stored session of the client is deleted.
    Delete(String),
    /// A kept session: the stored session of the client is restored.
    Restore(String),
}

impl Runtime {
    /// CONNECT from the client; see `connect_step`.
    pub fn on_connect<A: Authenticator>(&mut self, connect: ConnectPacket, authenticator: &A) -> (r: ConnectOutcome)
        requires
            old(self).wf(),
        ensures
            final(self).wf(),
            (final(self)@, r@) == connect_step(authenticator, old(self)@, connect@),
    {
        let ghost c = connect@;
        let name = chars_of(connect.protocol_name.as_str());
        let expected = chars_of(PROTOCOL_NAME);
        if !chars_equal(name.as_slice(), expected.as_slice()) || connect.protocol_level != PROTOCOL_LEVEL {
            return ConnectOutcome::Refuse(UNACCEPTABLE_PROTOCOL_VERSION);
        }
        if let Err(return_code) = validate_client_id(connect.client_id.as_str(), connect.clean_session) {
            return ConnectOutcome::Refuse(return_code);
        }
        let credentials = Credentials {
            username: connect.username,
            password: connect.password,
            client_id: connect.client_id.clone(),
        };
        assert(credentials@ == connect_credentials(c));
        match authenticator.authenticate(&credentials) {
            Ok(()) => {},
            Err(AuthError::InvalidCredentials) => {
                return ConnectOutcome::Refuse(BAD_USERNAME_OR_PASSWORD);
            },
            Err(_) => {
                return ConnectOutcome::Refuse(NOT_AUTHORIZED);
            },
        }
        self.clean_session = connect.clean_session;
        self.keep_alive = connect.keep_alive;
        if connect.will_flag {
            if let (Some(topic), Some(payload)) = (connect.will_topic, connect.will_payload) {
                self.will_message = Some(
                    WillMessage { topic, payload, qos: connect.will_qos, retain: connect.will_retain },
                );
            }
        }
        if !connect.client_id.as_str().is_empty() {
            let id = connect.client_id;
            let claim = id.clone();
            self.client_id = Some(id);
            ConnectOutcome::Accept(Some(claim))
        } else {
            ConnectOutcome::Accept(None)
        }
    }

    /// What to do with the stored session once the client id is claimed.
    pub fn stored_session_action(&self) -> (r: StoredSessionAction)
        ensures
            match self@.client_id {
                None => r is Nothing,
                Some(c) => if self@.clean_session {
                    r matches StoredSessionAction::Delete(id) && id@ == c
                } else {
                    r matches StoredSessionAction::Restore(id) && id@ == c
                },
            },
    {
        match &self.client_id {
            None => StoredSessionAction::Nothing,
            Some(c) => if self.clean_session {
                StoredSessionAction::Delete(c.clone())
            } else {
                StoredSessionAction::Restore(c.clone())
            },
        }
    }

    /// Another connection takes this session over: the state it continues
    /// with. A clean session drops the session's subscriptions and queued
    /// messages and returns the client id whose stored session is deleted.
    pub fn apply_takeover(&mut self, clean_session: bool, keep_alive: u16, router: &mut Router) -> (r: Option<String>)
        requires
            old(self).wf(),
            old(router).wf(),
        ensures
            final(self).wf(),
            final(router).wf(),
            final(router).limit() == old(router).limit(),
            clean_session ==> {
                &&& final(self)@ == (RuntimeModel { clean_session, keep_alive, inflight: Seq::empty(), ..old(self)@ })
                &&& final(router)@ == old(router)@.filter_map(crate::router::other_sessions(old(self)@.id))
                &&& match old(self)@.client_id {
                    Some(c) => r matches Some(id) && id@ == c,
                    None => r is None,
                }
            },
            !clean_session ==> final(self)@ == (RuntimeModel { clean_session, keep_alive, ..old(self)@ })
                && final(router)@ == old(router)@ && r is None,
    {
        self.clean_session = clean_session;
        self.keep_alive = keep_alive;
        if clean_session {
            router.unsubscribe_all(self.id.as_str());
            self.inflight_queue = Vec::new();
            assert(self@.inflight =~= Seq::<InflightModel>::empty());
            match &self.client_id {
                Some(c) => Some(c.clone()),
                None => None,
            }
        } else {
            None
        }
    }
}

/// The CONNACK written to the connection that takes a session over: the
/// session is present when the new client keeps sessions.
pub fn takeover_connack(clean_session: bool) -> (r: ConnAckPacket)
    ensures
        r.session_present == !clean_session,
        r.return_code == ACCEPTED,
{
    ConnAckPacket { session_present: !clean_session, return_code: ACCEPTED }
}

// ---------------------------------------------------------------------------
// Persistence
// ---------------------------------------------------------------------------

/// What a session saves when it is kept for a client that went away.
pub struct SessionSnapshot {
    pub session: PersistedSession,
    pub subscriptions: Vec<PersistedSubscription>,
    pub inflight: Vec<PersistedInflightMessage>,
    pub inbound_qos2: Vec<PersistedInboundQos2Message>,
}

pub open spec fn stored_qos2_state(s: Option<Qos2State>) -> Option<PersistedQos2State> {
    match s {
        Some(Qos2State::AwaitingPubRec) => Some(PersistedQos2State::AwaitingPubRec),
        Some(Qos2State::AwaitingPubComp) => Some(PersistedQos2State::AwaitingPubComp),
        None => None,
    }
}

pub open spec fn runtime_qos2_state(s: Option<PersistedQos2State>) -> Option<Qos2State> {
    match s {
        Some(PersistedQos2State::AwaitingPubRec) => Some(Qos2State::AwaitingPubRec),
        Some(PersistedQos2State::AwaitingPubComp) => Some(Qos2State::AwaitingPubComp),
        None => None,
    }
}

pub open spec fn stored_will(w: Option<WillModel>) -> Option<WillRecord> {
    match w {
        Some(m) => Some(
            WillRecord { topic: m.topic, payload: m.payload, qos: stored_from_qos(m.qos), retain: m.retain },
        ),
        None => None,
    }
}

pub open spec fn runtime_will(w: Option<WillRecord>) -> Option<WillModel> {
    match w {
        Some(m) => Some(
            WillModel { topic: m.topic, payload: m.payload, qos: qos_from_stored(m.qos), retain: m.retain },
        ),
        None => None,
    }
}

pub open spec fn stored_subscription(c: Seq<char>) -> spec_fn((Seq<char>, QoS)) -> SubscriptionRecord {
    |x: (Seq<char>, QoS)| SubscriptionRecord { client_id: c, topic_filter: x.0, qos: stored_from_qos(x.1) }
}

pub open spec fn stored_inflight(c: Seq<char>, now: i64) -> spec_fn(InflightModel) -> InflightRecord {
    |m: InflightModel|
        InflightRecord {
            client_id: c,
            packet_id: match m.packet.packet_id {
                Some(id) => id,
                None => 0,
            },
            topic: m.packet.topic,
            payload: m.packet.payload,
            qos: stored_from_qos(m.packet.qos),
            retain: m.packet.retain,
            retry_count: m.retry_count,
            qos2_state: stored_qos2_state(m.qos2_state),
            created_at: now,
        }
}

pub open spec fn stored_inbound(c: Seq<char>, now: i64) -> spec_fn((u16, PublishModel)) -> InboundRecord {
    |x: (u16, PublishModel)|
        InboundRecord {
            client_id: c,
            packet_id: x.0,
            topic: x.1.topic,
            payload: x.1.payload,
            retain: x.1.retain,
            received_at: now,
        }
}

pub open spec fn subscription_records(v: Seq<PersistedSubscription>) -> Seq<SubscriptionRecord> {
    v.map_values(|x: PersistedSubscription| x@)
}

pub open spec fn inflight_records(v: Seq<PersistedInflightMessage>) -> Seq<InflightRecord> {
    v.map_values(|x: PersistedInflightMessage| x@)
}

pub open spec fn inbound_records(v: Seq<PersistedInboundQos2Message>) -> Seq<InboundRecord> {
    v.map_values(|x: PersistedInboundQos2Message| x@)
}

/// The snapshot of session state `m` with subscriptions `subs`, taken at
/// `now`: the client id, next packet id, keep-alive and will; each
/// subscription; each queued message (a message without packet id is stored
/// under 0); each held incoming QoS 2 message.
pub open spec fn snapshot_spec(m: RuntimeModel, subs: Seq<(Seq<char>, QoS)>, now: i64, s: SessionSnapshot) -> bool {
    let c = m.client_id->0;
    &&& s.session@ == SessionRecord {
        client_id: c,
        next_packet_id: m.next_packet_id,
        keep_alive: m.keep_alive,
        will_message: stored_will(m.will),
        created_at: now,
        updated_at: now,
    }
    &&& subscription_records(s.subscriptions@) == subs.map_values(stored_subscription(c))
    &&& inflight_records(s.inflight@) == m.inflight.map_values(stored_inflight(c, now))
    &&& inbound_records(s.inbound_qos2@) == m.inbound.map_values(stored_inbound(c, now))
}

/// The queued message restored from a stored one: sent again with its packet
/// id and the DUP flag, its clock starting now.
pub open spec fn restored_inflight(now: u64) -> spec_fn(InflightRecord) -> InflightModel {
    |r: InflightRecord|
        InflightModel {
            packet: PublishModel {
                topic: r.topic,
                packet_id: Some(r.packet_id),
                payload: r.payload,
                qos: qos_from_stored(r.qos),
                retain: r.retain,
                dup: true,
            },
            timestamp: now,
            retry_count: r.retry_count,
            qos2_state: runtime_qos2_state(r.qos2_state),
        }
}

/// The held incoming QoS 2 message restored from a stored one.
pub open spec fn restored_inbound(r: InboundRecord) -> PublishModel {
    PublishModel {
        topic: r.topic,
        packet_id: Some(r.packet_id),
        payload: r.payload,
        qos: QoS::ExactlyOnce,
        retain: r.retain,
        dup: false,
    }
}

/// Holds `p` under `id`, replacing what was held under it.
pub open spec fn hold(v: Seq<(u16, PublishModel)>, id: u16, p: PublishModel) -> Seq<(u16, PublishModel)> {
    if holds(v, id) {
        v.update(held_index(v, id), (id, p))
    } else {
        v.push((id, p))
    }
}

/// Holds each stored incoming message in turn.
pub open spec fn hold_all(v: Seq<(u16, PublishModel)>, recs: Seq<InboundRecord>) -> Seq<(u16, PublishModel)>
    decreases recs.len(),
{
    if recs.len() == 0 {
        v
    } else {
        let r = recs.last();
        hold(hold_all(v, recs.drop_last()), r.packet_id, restored_inbound(r))
    }
}

/// The filters of stored subscriptions, each at its QoS.
pub open spec fn restored_filter(r: SubscriptionRecord) -> (Seq<char>, QoS) {
    (r.topic_filter, qos_from_stored(r.qos))
}

/// The stored subscriptions a load gave: none when it failed.
pub open spec fn loaded_subscriptions(r: Result<Vec<PersistedSubscription>, StorageError>) -> Seq<SubscriptionRecord> {
    match r {
        Ok(v) => subscription_records(v@),
        Err(_) => Seq::empty(),
    }
}

/// The stored outgoing messages a load gave: none when it failed.
pub open spec fn loaded_inflight(r: Result<Vec<PersistedInflightMessage>, StorageError>) -> Seq<InflightRecord> {
    match r {
        Ok(v) => inflight_records(v@),
        Err(_) => Seq::empty(),
    }
}

/// The stored incoming QoS 2 messages a load gave: none when it failed.
pub open spec fn loaded_inbound(r: Result<Vec<PersistedInboundQos2Message>, StorageError>) -> Seq<InboundRecord> {
    match r {
        Ok(v) => inbound_records(v@),
        Err(_) => Seq::empty(),
    }
}

/// The filters to re-subscribe to, from stored subscriptions.
pub open spec fn restored_filters(subs: Seq<SubscriptionRecord>) -> Seq<(Seq<char>, QoS)> {
    subs.map_values(|r: SubscriptionRecord| restored_filter(r))
}

impl Runtime {
    /// The snapshot saved when the session becomes pending: `None` when the
    /// client has no id; otherwise per `snapshot_spec`, with the session's
    /// subscriptions as the table reports them.
    pub fn save_to_storage(&self, router: &Router, now: i64) -> (r: Option<SessionSnapshot>)
        requires
            self.wf(),
            router.wf(),
        ensures
            self@.client_id is None ==> r is None,
            self@.client_id is Some ==> (r matches Some(s) && snapshot_spec(
                self@,
                router@.filter_map(crate::router::session_filters(self@.id)),
                now,
                s,
            )),
    {
        let client_id = match &self.client_id {
            Some(id) => id,
            None => return None,
        };
        let ghost c = client_id@;
        let will_message = match &self.will_message {
            Some(w) => Some(
                PersistedWillMessage {
                    topic: w.topic.clone(),
                    payload: bytes_clone(&w.payload),
                    qos: crate::storage::types::StoredQoS::from(w.qos),
                    retain: w.retain,
                },
            ),
            None => None,
        };
        let session = PersistedSession {
            client_id: client_id.clone(),
            next_packet_id: self.next_packet_id,
            keep_alive: self.keep_alive,
            will_message,
            created_at: now,
            updated_at: now,
        };

        let router_subs = router.get_subscriptions(self.id.as_str());
        let ghost sv = filter_list_view(router_subs@);
        let mut subscriptions: Vec<PersistedSubscription> = Vec::new();
        let mut i: usize = 0;
        while i < router_subs.len()
            invariant
                sv == filter_list_view(router_subs@),
                i <= sv.len(),
                c == client_id@,
                subscription_records(subscriptions@) == sv.take(i as int).map_values(stored_subscription(c)),
            decreases sv.len() - i,
        {
            let ghost before = subscriptions@;
            subscriptions.push(
                PersistedSubscription {
                    client_id: client_id.clone(),
                    topic_filter: router_subs[i].0.clone(),
                    qos: crate::storage::types::StoredQoS::from(router_subs[i].1),
                },
            );
            assert(sv[i as int] == (router_subs@[i as int].0@, router_subs@[i as int].1));
            assert(subscription_records(subscriptions@) =~= subscription_records(before).push(
                stored_subscription(c)(sv[i as int]),
            ));
            assert(sv.take(i + 1).map_values(stored_subscription(c)) =~= sv.take(i as int).map_values(
                stored_subscription(c),
            ).push(stored_subscription(c)(sv[i as int])));
            i += 1;
        }
        assert(sv.take(sv.len() as int) =~= sv);

        let ghost q = self@.inflight;
        let mut inflight: Vec<PersistedInflightMessage> = Vec::new();
        let mut j: usize = 0;
        while j < self.inflight_queue.len()
            invariant
                q == self@.inflight,
                j <= q.len(),
                c == client_id@,
                inflight_records(inflight@) == q.take(j as int).map_values(stored_inflight(c, now)),
            decreases q.len() - j,
        {
            let m = &self.inflight_queue[j];
            assert(m@ == q[j as int]);
            let qos2_state = match m.qos2_state {
                Some(Qos2State::AwaitingPubRec) => Some(PersistedQos2State::AwaitingPubRec),
                Some(Qos2State::AwaitingPubComp) => Some(PersistedQos2State::AwaitingPubComp),
                None => None,
            };
            let packet_id = match m.packet.packet_id {
                Some(id) => id,
                None => 0,
            };
            let ghost before = inflight@;
            inflight.push(
                PersistedInflightMessage {
                    client_id: client_id.clone(),
                    packet_id,
                    topic: m.packet.topic.clone(),
                    payload: bytes_clone(&m.packet.payload),
                    qos: crate::storage::types::StoredQoS::from(m.packet.qos),
                    retain: m.packet.retain,
                    retry_count: m.retry_count,
                    qos2_state,
                    created_at: now,
                },
            );
            assert(inflight_records(inflight@) =~= inflight_records(before).push(
                stored_inflight(c, now)(q[j as int]),
            ));
            assert(q.take(j + 1).map_values(stored_inflight(c, now)) =~= q.take(j as int).map_values(
                stored_inflight(c, now),
            ).push(stored_inflight(c, now)(q[j as int])));
            j += 1;
        }
        assert(q.take(q.len() as int) =~= q);

        let ghost h = self@.inbound;
        let mut inbound_qos2: Vec<PersistedInboundQos2Message> = Vec::new();
        let mut k: usize = 0;
        while k < self.inbound_qos2.len()
            invariant
                h == self@.inbound,
                k <= h.len(),
                c == client_id@,
                inbound_records(inbound_qos2@) == h.take(k as int).map_values(stored_inbound(c, now)),
            decreases h.len() - k,
        {
            let received = &self.inbound_qos2[k];
            assert(received@ == h[k as int]);
            let ghost before = inbound_qos2@;
            inbound_qos2.push(
                PersistedInboundQos2Message {
                    client_id: client_id.clone(),
                    packet_id: received.packet_id,
                    topic: received.packet.topic.clone(),
                    payload: bytes_clone(&received.packet.payload),
                    retain: received.packet.retain,
                    received_at: now,
                },
            );
            assert(inbound_records(inbound_qos2@) =~= inbound_records(before).push(
                stored_inbound(c, now)(h[k as int]),
            ));
            assert(h.take(k + 1).map_values(stored_inbound(c, now)) =~= h.take(k as int).map_values(
                stored_inbound(c, now),
            ).push(stored_inbound(c, now)(h[k as int])));
            k += 1;
        }
        assert(h.take(h.len() as int) =~= h);
        Some(SessionSnapshot { session, subscriptions, inflight, inbound_qos2 })
    }

    /// Holds an incoming QoS 2 message under its packet id, replacing what
    /// was held under it.
    fn hold_inbound(&mut self, packet_id: u16, packet: PublishPacket)
        requires
            old(self).wf(),
        ensures
            final(self).wf(),
            final(self)@ == with_inbound(old(self)@, hold(old(self)@.inbound, packet_id, packet@)),
    {
        let ghost q0 = self@.inbound;
        let ghost pv = packet@;
        match self.find_inbound(packet_id) {
            Some(j) => {
                self.inbound_qos2.set(j, ReceivedQos2Message { packet_id, packet });
                assert(self@.inbound =~= q0.update(j as int, (packet_id, pv)));
                assert(unique_ids(self@.inbound)) by {
                    assert forall|a: int, b: int|
                        0 <= a < self@.inbound.len() && 0 <= b < self@.inbound.len()
                            && #[trigger] self@.inbound[a].0 == #[trigger] self@.inbound[b].0 implies a == b by {
                        assert(q0[a].0 == self@.inbound[a].0 && q0[b].0 == self@.inbound[b].0);
                    }
                }
            },
            None => {
                self.inbound_qos2.push(ReceivedQos2Message { packet_id, packet });
                assert(self@.inbound =~= q0.push((packet_id, pv)));
                assert(unique_ids(self@.inbound)) by {
                    assert forall|a: int, b: int|
                        0 <= a < self@.inbound.len() && 0 <= b < self@.inbound.len()
                            && #[trigger] self@.inbound[a].0 == #[trigger] self@.inbound[b].0 implies a == b by {
                        if a < q0.len() && b < q0.len() {
                            assert(q0[a] == self@.inbound[a] && q0[b] == self@.inbound[b]);
                        } else if a < q0.len() {
                            assert(q0[a] == self@.inbound[a]);
                        } else if b < q0.len() {
                            assert(q0[b] == self@.inbound[b]);
                        }
                    }
                }
            },
        }
    }
}

impl Runtime {
    /// Resumes a kept session from what the store returned for the client:
    /// nothing happens when no session was stored or the load failed
    /// (`false`). Otherwise (`true`) the session takes the stored next packet
    /// id, keep-alive and will, re-subscribes to the stored filters, queues
    /// the stored outgoing messages after its own and holds the stored
    /// incoming QoS 2 messages; a failed load of one of those counts as none.
    /// The caller then deletes the stored session.
    pub fn restore_from_storage(
        &mut self,
        session: Result<Option<PersistedSession>, StorageError>,
        subscriptions: Result<Vec<PersistedSubscription>, StorageError>,
        inflight: Result<Vec<PersistedInflightMessage>, StorageError>,
        inbound_qos2: Result<Vec<PersistedInboundQos2Message>, StorageError>,
        router: &mut Router,
        now: u64,
    ) -> (restored: bool)
        requires
            old(self).wf(),
            old(router).wf(),
        ensures
            final(self).wf(),
            final(router).wf(),
            final(router).limit() == old(router).limit(),
            restored <==> session matches Ok(Some(_)),
            !restored ==> final(self)@ == old(self)@ && final(router)@ == old(router)@,
            session matches Ok(Some(ps)) ==> {
                let subs = loaded_subscriptions(subscriptions);
                let infl = loaded_inflight(inflight);
                let inb = loaded_inbound(inbound_qos2);
                &&& final(self)@ == (RuntimeModel {
                    next_packet_id: ps.next_packet_id,
                    keep_alive: ps.keep_alive,
                    will: runtime_will(ps@.will_message),
                    inflight: old(self)@.inflight + infl.map_values(restored_inflight(now)),
                    inbound: hold_all(old(self)@.inbound, inb),
                    ..old(self)@
                })
                &&& final(router)@ == subscribe_spec(
                    old(router)@,
                    old(self)@.id,
                    restored_filters(subs),
                    Seq::empty(),
                ).entries
            },
    {
        let ghost subs = loaded_subscriptions(subscriptions);
        let ghost infl = loaded_inflight(inflight);
        let ghost inb = loaded_inbound(inbound_qos2);
        let persisted_session = match session {
            Ok(Some(s)) => s,
            _ => return false,
        };
        let persisted_subs = match subscriptions {
            Ok(v) => v,
            Err(_) => Vec::new(),
        };
        assert(subscription_records(persisted_subs@) =~= subs);
        let persisted_inflight = match inflight {
            Ok(v) => v,
            Err(_) => Vec::new(),
        };
        assert(inflight_records(persisted_inflight@) =~= infl);
        let persisted_inbound = match inbound_qos2 {
            Ok(v) => v,
            Err(_) => Vec::new(),
        };
        assert(inbound_records(persisted_inbound@) =~= inb);

        self.next_packet_id = persisted_session.next_packet_id;
        self.keep_alive = persisted_session.keep_alive;
        self.will_message = match persisted_session.will_message {
            Some(w) => Some(WillMessage { topic: w.topic, payload: w.payload, qos: QoS::from(w.qos), retain: w.retain }),
            None => None,
        };

        let ghost fl = restored_filters(subs);
        let mut topic_filters: Vec<(String, QoS)> = Vec::new();
        let mut i: usize = 0;
        while i < persisted_subs.len()
            invariant
                subs == subscription_records(persisted_subs@),
                fl == restored_filters(subs),
                i <= subs.len(),
                filter_list_view(topic_filters@) == fl.take(i as int),
            decreases subs.len() - i,
        {
            let ghost before = topic_filters@;
            let sub = &persisted_subs[i];
            assert(subs[i as int] == sub@);
            topic_filters.push((sub.topic_filter.clone(), QoS::from(sub.qos)));
            assert(fl[i as int] == restored_filter(sub@));
            assert(filter_list_view(topic_filters@) =~= filter_list_view(before).push(fl[i as int]));
            assert(fl.take(i + 1) =~= fl.take(i as int).push(fl[i as int]));
            i += 1;
        }
        assert(fl.take(fl.len() as int) =~= fl);
        if topic_filters.len() > 0 {
            let none: Vec<PersistedRetainedMessage> = Vec::new();
            assert(retained_records(none@) =~= Seq::<crate::storage::types::RetainedRecord>::empty());
            let _ = router.subscribe(self.id.as_str(), topic_filters.as_slice(), Ok(none));
        } else {
            assert(fl =~= Seq::<(Seq<char>, QoS)>::empty());
        }

        let ghost q0 = self@.inflight;
        let ghost s1 = self@;
        let mut j: usize = 0;
        while j < persisted_inflight.len()
            invariant
                self.wf(),
                infl == inflight_records(persisted_inflight@),
                j <= infl.len(),
                s1.inflight == q0,
                self@ == with_inflight(s1, q0 + infl.take(j as int).map_values(restored_inflight(now))),
            decreases infl.len() - j,
        {
            let msg = &persisted_inflight[j];
            assert(infl[j as int] == msg@);
            let qos2_state = match msg.qos2_state {
                Some(PersistedQos2State::AwaitingPubRec) => Some(Qos2State::AwaitingPubRec),
                Some(PersistedQos2State::AwaitingPubComp) => Some(Qos2State::AwaitingPubComp),
                None => None,
            };
            let ghost before = self@.inflight;
            self.inflight_queue.push(
                InflightMessage {
                    packet: PublishPacket {
                        topic: msg.topic.clone(),
                        packet_id: Some(msg.packet_id),
                        payload: bytes_clone(&msg.payload),
                        qos: QoS::from(msg.qos),
                        retain: msg.retain,
                        dup: true,
                    },
                    timestamp: now,
                    retry_count: msg.retry_count,
                    qos2_state,
                },
            );
            assert(self@.inflight =~= before.push(restored_inflight(now)(infl[j as int])));
            assert(infl.take(j + 1).map_values(restored_inflight(now)) =~= infl.take(j as int).map_values(
                restored_inflight(now),
            ).push(restored_inflight(now)(infl[j as int])));
            j += 1;
        }
        assert(infl.take(infl.len() as int) =~= infl);

        let ghost h0 = self@.inbound;
        let ghost s2 = self@;
        let mut k: usize = 0;
        assert(inb.take(0) =~= Seq::<InboundRecord>::empty());
        while k < persisted_inbound.len()
            invariant
                self.wf(),
                inb == inbound_records(persisted_inbound@),
                k <= inb.len(),
                s2.inbound == h0,
                self@ == with_inbound(s2, hold_all(h0, inb.take(k as int))),
            decreases inb.len() - k,
        {
            let msg = &persisted_inbound[k];
            assert(inb[k as int] == msg@);
            assert(inb.take(k + 1).drop_last() =~= inb.take(k as int));
            assert(inb.take(k + 1).last() == msg@);
            self.hold_inbound(
                msg.packet_id,
                PublishPacket {
                    topic: msg.topic.clone(),
                    packet_id: Some(msg.packet_id),
                    payload: bytes_clone(&msg.payload),
                    qos: QoS::ExactlyOnce,
                    retain: msg.retain,
                    dup: false,
                },
            );
            k += 1;
        }
        assert(inb.take(inb.len() as int) =~= inb);
        true
    }
}

// ---------------------------------------------------------------------------
// Laws
// ---------------------------------------------------------------------------

/// Packet ids run through 1..=65535 and wrap around to 1: the id after any id
/// is never 0.
pub proof fn lemma_packet_ids_wrap(id: u16)
    ensures
        following_id(id) != 0,
        id < 65535 ==> following_id(id) == id + 1,
        id == 65535 ==> following_id(id) == 1,
{
}

/// Holding a new incoming message keeps the packet ids distinct.
proof fn lemma_push_new_id(v: Seq<(u16, PublishModel)>, id: u16, p: PublishModel)
    requires
        unique_ids(v),
        !holds(v, id),
    ensures
        unique_ids(v.push((id, p))),
        holds(v.push((id, p)), id),
{
    let w = v.push((id, p));
    assert(w[v.len() as int].0 == id);
    assert forall|i: int, j: int| 0 <= i < w.len() && 0 <= j < w.len() && #[trigger] w[i].0 == #[trigger] w[j].0 implies i == j by {
        if i < v.len() && j < v.len() {
            assert(v[i] == w[i] && v[j] == w[j]);
        } else if i < v.len() {
            assert(v[i] == w[i]);
        } else if j < v.len() {
            assert(v[j] == w[j]);
        }
    }
}

/// Releasing a held message leaves no message held under its id.
proof fn lemma_release_clears(v: Seq<(u16, PublishModel)>, id: u16)
    requires
        unique_ids(v),
        holds(v, id),
    ensures
        !holds(v.remove(held_index(v, id)), id),
        unique_ids(v.remove(held_index(v, id))),
{
    let j = held_index(v, id);
    let w = v.remove(j);
    assert forall|k: int| 0 <= k < w.len() implies #[trigger] w[k].0 != id by {
        let k0 = if k < j { k } else { k + 1 };
        assert(w[k] == v[k0]);
        assert(v[k0].0 == v[j].0 ==> k0 == j);
    }
    assert forall|a: int, b: int| 0 <= a < w.len() && 0 <= b < w.len() && #[trigger] w[a].0 == #[trigger] w[b].0 implies a == b by {
        let a0 = if a < j { a } else { a + 1 };
        let b0 = if b < j { b } else { b + 1 };
        assert(v[a0] == w[a] && v[b0] == w[b]);
    }
}

/// Exactly-once delivery of an incoming QoS 2 message: PUBLISH holds it and
/// answers PUBREC without routing it; a repeated PUBLISH with the same id
/// changes nothing and answers PUBREC again; PUBREL answers PUBCOMP and routes
/// it (when the client may publish to its topic); a repeated PUBREL answers
/// PUBCOMP and routes nothing.
pub proof fn lemma_qos2_inbound_exactly_once<Z: Authorizer>(
    z: &Z,
    m: RuntimeModel,
    p: PublishModel,
    again: PublishModel,
    allowed: bool,
    id: u16,
)
    requires
        runtime_wf(m),
        !holds(m.inbound, id),
        p.qos == QoS::ExactlyOnce,
        p.packet_id == Some(id),
        again.qos == QoS::ExactlyOnce,
        again.packet_id == Some(id),
    ensures
        ({
            let (m1, r1) = publish_step(m, p, allowed);
            let (m1b, r1b) = publish_step(m1, again, allowed);
            let (m2, r2) = pubrel_step(z, m1, id);
            let (m3, r3) = pubrel_step(z, m2, id);
            &&& runtime_wf(m1) && runtime_wf(m2)
            &&& r1.route is None && r1.send == seq![PacketModel::PubRec(id)] && r1.keep_going
            &&& m1b == m1 && r1b.route is None && r1b.send == seq![PacketModel::PubRec(id)]
            &&& r2.send == seq![PacketModel::PubComp(id)]
            &&& r2.route == (if z.publish_allowed(acl_client_id(m), p.topic) { Some(p) } else { None })
            &&& m3 == m2 && r3.route is None && r3.send == seq![PacketModel::PubComp(id)]
        }),
{
    let m1 = publish_step(m, p, allowed).0;
    lemma_push_new_id(m.inbound, id, p);
    assert(m1.inbound == m.inbound.push((id, p)));
    let j = held_index(m1.inbound, id);
    assert(m1.inbound[m.inbound.len() as int].0 == id);
    assert(j == m.inbound.len()) by {
        if j != m.inbound.len() {
            assert(m1.inbound[j].0 == m1.inbound[m.inbound.len() as int].0);
        }
    }
    assert(m1.inbound[j].1 == p);
    lemma_release_clears(m1.inbound, id);
}

/// An acknowledgement clears every queued message with its packet id and
/// keeps every other one.
pub proof fn lemma_puback_clears(q: Seq<InflightModel>, id: u16, x: InflightModel)
    ensures
        q.filter_map(not_id(id)).contains(x) <==> (q.contains(x) && x.packet.packet_id != Some(id)),
{
    crate::router::lemma_filter_map_contains_iff(q, not_id(id), x);
}

/// A message taken from the session's mailbox at QoS 1 or 2 is sent with the
/// next packet id and stays queued, as a duplicate, until acknowledged with
/// that id.
pub proof fn lemma_outgoing_tracked_until_acked(m: RuntimeModel, p: PublishModel, now: u64)
    requires
        p.qos != QoS::AtMostOnce,
    ensures
        ({
            let id = m.next_packet_id;
            let q1 = m.inflight.push(queued_copy(p, id, now));
            &&& q1.last().packet.packet_id == Some(id)
            &&& q1.last().packet.dup
            &&& q1.contains(queued_copy(p, id, now))
            &&& !q1.filter_map(not_id(id)).contains(queued_copy(p, id, now))
        }),
{
    let id = m.next_packet_id;
    let q1 = m.inflight.push(queued_copy(p, id, now));
    assert(q1[q1.len() - 1] == queued_copy(p, id, now));
    lemma_puback_clears(q1, id, queued_copy(p, id, now));
}

/// A queued message as a restored session queues it again: with the packet id
/// it was stored under and the DUP flag, its clock starting at `now`.
pub open spec fn requeued(now: u64) -> spec_fn(InflightModel) -> InflightModel {
    |x: InflightModel|
        InflightModel {
            packet: PublishModel {
                packet_id: Some(
                    match x.packet.packet_id {
                        Some(i) => i,
                        None => 0,
                    },
                ),
                dup: true,
                ..x.packet
            },
            timestamp: now,
            ..x
        }
}

/// A held message as a restored session holds it again.
pub open spec fn reheld(x: (u16, PublishModel)) -> (u16, PublishModel) {
    (
        x.0,
        PublishModel { packet_id: Some(x.0), qos: QoS::ExactlyOnce, dup: false, ..x.1 },
    )
}

proof fn lemma_hold_all_fresh(recs: Seq<InboundRecord>, h: Seq<(u16, PublishModel)>)
    requires
        unique_ids(h),
        recs.len() == h.len(),
        forall|k: int| 0 <= k < h.len() ==> (#[trigger] recs[k]).packet_id == h[k].0 && restored_inbound(recs[k]) == reheld(h[k]).1,
    ensures
        hold_all(Seq::empty(), recs) == h.map_values(|x: (u16, PublishModel)| reheld(x)),
    decreases recs.len(),
{
    if recs.len() > 0 {
        let hd = h.drop_last();
        assert(unique_ids(hd)) by {
            assert forall|a: int, b: int| 0 <= a < hd.len() && 0 <= b < hd.len() && #[trigger] hd[a].0 == #[trigger] hd[b].0 implies a == b by {
                assert(hd[a] == h[a] && hd[b] == h[b]);
            }
        }
        assert forall|k: int| 0 <= k < hd.len() implies (#[trigger] recs.drop_last()[k]).packet_id == hd[k].0 && restored_inbound(recs.drop_last()[k]) == reheld(hd[k]).1 by {
            assert(recs.drop_last()[k] == recs[k] && hd[k] == h[k]);
        }
        lemma_hold_all_fresh(recs.drop_last(), hd);
        let prev = hd.map_values(|x: (u16, PublishModel)| reheld(x));
        let last = h[h.len() - 1];
        assert(!holds(prev, last.0)) by {
            if holds(prev, last.0) {
                let j = choose|j: int| 0 <= j < prev.len() && #[trigger] prev[j].0 == last.0;
                assert(h[j].0 == h[h.len() - 1].0);
            }
        }
        assert(recs.last().packet_id == last.0);
        assert(h.map_values(|x: (u16, PublishModel)| reheld(x)) =~= prev.push(reheld(last)));
    } else {
        assert(h.map_values(|x: (u16, PublishModel)| reheld(x)) =~= Seq::<(u16, PublishModel)>::empty());
    }
}

/// Saving a kept session and restoring it into a fresh session gives the
/// saved state back: the next packet id, keep-alive and will; the queued
/// messages, in order, to be sent again as duplicates; the held incoming QoS 2
/// messages; and re-subscription to the saved filters at their QoS.
pub proof fn lemma_save_restore_roundtrip(
    m: RuntimeModel,
    fresh: RuntimeModel,
    subs: Seq<(Seq<char>, QoS)>,
    saved_at: i64,
    now: u64,
    snapshot: SessionSnapshot,
)
    requires
        runtime_wf(m),
        m.client_id is Some,
        fresh.inflight.len() == 0,
        fresh.inbound.len() == 0,
        snapshot_spec(m, subs, saved_at, snapshot),
    ensures
        ({
            let ps = snapshot.session;
            let infl = inflight_records(snapshot.inflight@);
            let inb = inbound_records(snapshot.inbound_qos2@);
            &&& ps.next_packet_id == m.next_packet_id
            &&& ps.keep_alive == m.keep_alive
            &&& runtime_will(ps@.will_message) == m.will
            &&& fresh.inflight + infl.map_values(restored_inflight(now)) == m.inflight.map_values(requeued(now))
            &&& hold_all(fresh.inbound, inb) == m.inbound.map_values(|x: (u16, PublishModel)| reheld(x))
            &&& restored_filters(subscription_records(snapshot.subscriptions@)) == subs
        }),
{
    let c = m.client_id->0;
    let ps = snapshot.session;
    assert(ps@.next_packet_id == ps.next_packet_id);
    match m.will {
        Some(w) => {
            crate::storage::types::lemma_stored_qos_roundtrip(w.qos, crate::storage::types::StoredQoS::AtMostOnce);
        },
        None => {},
    }
    let infl = inflight_records(snapshot.inflight@);
    assert forall|k: int| 0 <= k < m.inflight.len() implies #[trigger] (fresh.inflight + infl.map_values(restored_inflight(now)))[k] == m.inflight.map_values(requeued(now))[k] by {
        let x = m.inflight[k];
        crate::storage::types::lemma_stored_qos_roundtrip(x.packet.qos, crate::storage::types::StoredQoS::AtMostOnce);
        assert(infl[k] == stored_inflight(c, saved_at)(x));
    }
    assert(fresh.inflight + infl.map_values(restored_inflight(now)) =~= m.inflight.map_values(requeued(now)));
    let inb = inbound_records(snapshot.inbound_qos2@);
    assert(fresh.inbound =~= Seq::<(u16, PublishModel)>::empty());
    assert forall|k: int| 0 <= k < m.inbound.len() implies (#[trigger] inb[k]).packet_id == m.inbound[k].0 && restored_inbound(inb[k]) == reheld(m.inbound[k]).1 by {
        assert(inb[k] == stored_inbound(c, saved_at)(m.inbound[k]));
    }
    lemma_hold_all_fresh(inb, m.inbound);
    let sr = subscription_records(snapshot.subscriptions@);
    assert forall|k: int| 0 <= k < subs.len() implies #[trigger] restored_filters(sr)[k] == subs[k] by {
        crate::storage::types::lemma_stored_qos_roundtrip(subs[k].1, crate::storage::types::StoredQoS::AtMostOnce);
        assert(sr[k] == stored_subscription(c)(subs[k]));
    }
    assert(restored_filters(sr) =~= subs);
}

/// A queued message after retransmission ticks at the times `nows`, one after
/// another; `None` once it was dropped.
pub open spec fn after_ticks(m: Option<InflightModel>, interval: u64, max: u32, nows: Seq<u64>) -> Option<
    InflightModel,
>
    decreases nows.len(),
{
    if nows.len() == 0 {
        m
    } else {
        match after_ticks(m, interval, max, nows.drop_last()) {
            Some(m1) => kept_after_tick(interval, max, nows.last())(m1),
            None => None,
        }
    }
}

/// Whether the tick at `nows[k]` sends the message again: it is still queued,
/// due and not exhausted (a PUBLISH, or a PUBREL once PUBREC arrived).
pub open spec fn resent_at(m: Option<InflightModel>, interval: u64, max: u32, nows: Seq<u64>, k: int) -> bool {
    match after_ticks(m, interval, max, nows.take(k)) {
        Some(m1) => due(m1, interval, nows[k]) && !exhausted(m1, max),
        None => false,
    }
}

/// How many of the ticks at `nows` send the message again.
pub open spec fn resends(m: Option<InflightModel>, interval: u64, max: u32, nows: Seq<u64>) -> nat
    decreases nows.len(),
{
    if nows.len() == 0 {
        0
    } else {
        let before = resends(m, interval, max, nows.drop_last());
        match after_ticks(m, interval, max, nows.drop_last()) {
            Some(m1) => if due(m1, interval, nows.last()) && !exhausted(m1, max) {
                before + 1
            } else {
                before
            },
            None => before,
        }
    }
}

/// Across retransmission ticks a never-acknowledged message is sent again at
/// most `max` times in all (counting the retries it already had), and while
/// it is queued its retry count is its earlier count plus the resends. Holds
/// for `max` below `u32::MAX`.
pub proof fn lemma_retransmissions_capped(m: InflightModel, interval: u64, max: u32, nows: Seq<u64>)
    requires
        max < u32::MAX,
        m.retry_count <= max,
    ensures
        m.retry_count + resends(Some(m), interval, max, nows) <= max,
        after_ticks(Some(m), interval, max, nows) matches Some(m2) ==> m2.retry_count == m.retry_count
            + resends(Some(m), interval, max, nows) && m2.packet == m.packet && m2.qos2_state
            == m.qos2_state,
    decreases nows.len(),
{
    if nows.len() > 0 {
        lemma_retransmissions_capped(m, interval, max, nows.drop_last());
    }
}

/// A due message that has been sent again `max` times is dropped at the tick
/// instead of being sent again (for `max` below `u32::MAX`).
pub proof fn lemma_exhausted_message_dropped(m: InflightModel, interval: u64, max: u32, now: u64)
    requires
        max < u32::MAX,
        m.retry_count == max,
        due(m, interval, now),
    ensures
        kept_after_tick(interval, max, now)(m) is None,
        republished(interval, max, now)(m) is None,
        rereleased(interval, max, now)(m) is None,
{
}

/// After a tick that sends the message again, the message's clock is never
/// earlier than that tick (times not decreasing).
proof fn lemma_clock_after_resend(m: Option<InflightModel>, interval: u64, max: u32, nows: Seq<u64>, k1: int, k: int)
    requires
        forall|a: int, b: int| 0 <= a <= b < nows.len() ==> nows[a] <= nows[b],
        0 <= k1 < k <= nows.len(),
        resent_at(m, interval, max, nows, k1),
    ensures
        after_ticks(m, interval, max, nows.take(k)) matches Some(m2) ==> m2.timestamp >= nows[k1],
    decreases k - k1,
{
    assert(nows.take(k).drop_last() =~= nows.take(k - 1));
    assert(nows.take(k).last() == nows[k - 1]);
    if k - 1 > k1 {
        lemma_clock_after_resend(m, interval, max, nows, k1, k - 1);
    }
}

/// Two ticks that both send the message again lie at least `interval` apart
/// (ticks at times not decreasing, `interval` positive).
pub proof fn lemma_retransmissions_spaced(
    m: Option<InflightModel>,
    interval: u64,
    max: u32,
    nows: Seq<u64>,
    k1: int,
    k2: int,
)
    requires
        interval > 0,
        forall|a: int, b: int| 0 <= a <= b < nows.len() ==> nows[a] <= nows[b],
        0 <= k1 < k2 < nows.len(),
        resent_at(m, interval, max, nows, k1),
        resent_at(m, interval, max, nows, k2),
    ensures
        nows[k2] >= nows[k1] + interval,
{
    lemma_clock_after_resend(m, interval, max, nows, k1, k2);
}

/// Saving a session's snapshot into the in-memory store, loading it back for
/// the session's client id and restoring it into a fresh session gives the
/// saved state back: the stored session holds the next packet id, keep-alive
/// and will; the loaded subscriptions re-subscribe to the saved filters at
/// their QoS; the loaded outgoing messages are queued again, in order, as
/// duplicates; the loaded incoming QoS 2 messages are held again.
pub proof fn lemma_store_roundtrip(
    o: StoreModel,
    m: RuntimeModel,
    fresh: RuntimeModel,
    subs: Seq<(Seq<char>, QoS)>,
    saved_at: i64,
    now: u64,
    snapshot: SessionSnapshot,
)
    requires
        store_wf(o),
        runtime_wf(m),
        m.client_id is Some,
        fresh.inflight.len() == 0,
        fresh.inbound.len() == 0,
        snapshot_spec(m, subs, saved_at, snapshot),
    ensures
        ({
            let c = m.client_id->0;
            let sessions = put_keyed::<PersistedSession>(o.sessions, snapshot.session@);
            let loaded_subs = (o.subscriptions.filter_map(not_under(c)) + under(
                c,
                records_view(snapshot.subscriptions@),
            )).filter_map(values_under(c));
            let loaded_infl = (o.inflight.filter_map(not_under(c)) + under(
                c,
                records_view(snapshot.inflight@),
            )).filter_map(values_under(c));
            let loaded_inb = (o.inbound.filter_map(not_under(c)) + under(
                c,
                records_view(snapshot.inbound_qos2@),
            )).filter_map(values_under(c));
            let ps = keyed::<PersistedSession>(sessions, c);
            &&& has_keyed::<PersistedSession>(sessions, c)
            &&& ps == snapshot.session@
            &&& ps.next_packet_id == m.next_packet_id
            &&& ps.keep_alive == m.keep_alive
            &&& runtime_will(ps.will_message) == m.will
            &&& restored_filters(loaded_subs) == subs
            &&& fresh.inflight + loaded_infl.map_values(restored_inflight(now)) == m.inflight.map_values(
                requeued(now),
            )
            &&& hold_all(fresh.inbound, loaded_inb) == m.inbound.map_values(
                |x: (u16, PublishModel)| reheld(x),
            )
        }),
{
    let c = m.client_id->0;
    assert(snapshot.session@.client_id == c);
    lemma_save_then_load(
        o,
        snapshot.session@,
        records_view(snapshot.subscriptions@),
        records_view(snapshot.inflight@),
        records_view(snapshot.inbound_qos2@),
    );
    assert(records_view(snapshot.subscriptions@) =~= subscription_records(snapshot.subscriptions@));
    assert(records_view(snapshot.inflight@) =~= inflight_records(snapshot.inflight@));
    assert(records_view(snapshot.inbound_qos2@) =~= inbound_records(snapshot.inbound_qos2@));
    lemma_save_restore_roundtrip(m, fresh, subs, saved_at, now, snapshot);
}

/// The subscriptions survive a save into the in-memory store, a load and a
/// restore: when the table listed the saved session's subscriptions, the
/// restoring session, holding none before, then holds each of those filters at
/// the same QoS, and no other.
pub proof fn lemma_store_restores_subscriptions(
    o: StoreModel,
    m: RuntimeModel,
    listed: Seq<SubEntry>,
    e: Seq<SubEntry>,
    new_id: Seq<char>,
    saved_at: i64,
    snapshot: SessionSnapshot,
)
    requires
        store_wf(o),
        m.client_id is Some,
        unique_keys(listed),
        valid_filters(listed),
        unique_keys(e),
        forall|f: Seq<char>| #[trigger] subscribed_qos(e, f, new_id) is None,
        snapshot_spec(m, listed.filter_map(crate::router::session_filters(m.id)), saved_at, snapshot),
    ensures
        ({
            let c = m.client_id->0;
            let loaded_subs = (o.subscriptions.filter_map(not_under(c)) + under(
                c,
                records_view(snapshot.subscriptions@),
            )).filter_map(values_under(c));
            forall|f: Seq<char>|
                #[trigger] subscribed_qos(
                    subscribe_spec(e, new_id, restored_filters(loaded_subs), Seq::empty()).entries,
                    f,
                    new_id,
                ) == subscribed_qos(listed, f, m.id)
        }),
{
    let c = m.client_id->0;
    let fresh = RuntimeModel { inflight: Seq::empty(), inbound: Seq::empty(), ..m };
    let subs = listed.filter_map(crate::router::session_filters(m.id));
    assert(snapshot.session@.client_id == c);
    lemma_save_then_load(
        o,
        snapshot.session@,
        records_view(snapshot.subscriptions@),
        records_view(snapshot.inflight@),
        records_view(snapshot.inbound_qos2@),
    );
    assert(records_view(snapshot.subscriptions@) =~= subscription_records(snapshot.subscriptions@));
    let sr = subscription_records(snapshot.subscriptions@);
    assert forall|k: int| 0 <= k < subs.len() implies #[trigger] restored_filters(sr)[k] == subs[k] by {
        crate::storage::types::lemma_stored_qos_roundtrip(subs[k].1, crate::storage::types::StoredQoS::AtMostOnce);
        assert(sr[k] == stored_subscription(c)(subs[k]));
    }
    assert(restored_filters(sr) =~= subs);
    lemma_resubscribe_same_filters(listed, m.id, e, new_id, Seq::empty());
}

/// The outgoing queue after retransmission ticks at the times `nows`, each
/// tick updating it as `on_retransmit` does (for a positive interval).
pub open spec fn queue_after_ticks(q: Seq<InflightModel>, interval: u64, max: u32, nows: Seq<u64>) -> Seq<
    InflightModel,
>
    decreases nows.len(),
{
    if nows.len() == 0 {
        q
    } else {
        queue_after_ticks(q, interval, max, nows.drop_last()).filter_map(
            kept_after_tick(interval, max, nows.last()),
        )
    }
}

/// One step after another: `g` on what `f` keeps.
pub open spec fn then_step<A, B, C>(f: spec_fn(A) -> Option<B>, g: spec_fn(B) -> Option<C>) -> spec_fn(A) -> Option<C> {
    |a: A|
        match f(a) {
            Some(b) => g(b),
            None => None,
        }
}

/// Two `filter_map`s in a row are one `filter_map` of the composed step.
proof fn lemma_filter_map_compose<A, B, C>(q: Seq<A>, f: spec_fn(A) -> Option<B>, g: spec_fn(B) -> Option<C>)
    ensures
        q.filter_map(f).filter_map(g) == q.filter_map(then_step(f, g)),
    decreases q.len(),
{
    let h = then_step(f, g);
    if q.len() == 0 {
        assert(q.filter_map(f) =~= Seq::<B>::empty());
        assert(q.filter_map(f).filter_map(g) =~= Seq::<C>::empty());
        assert(q.filter_map(h) =~= Seq::<C>::empty());
    } else {
        let r = q.drop_last();
        lemma_filter_map_compose(r, f, g);
        match f(q.last()) {
            Some(b) => {
                assert(q.filter_map(f) == r.filter_map(f).push(b));
                assert(r.filter_map(f).push(b).drop_last() =~= r.filter_map(f));
                match g(b) {
                    Some(c) => {
                        assert(q.filter_map(h) == r.filter_map(h).push(c));
                    },
                    None => {
                        assert(q.filter_map(h) == r.filter_map(h));
                    },
                }
            },
            None => {
                assert(q.filter_map(f) == r.filter_map(f));
                assert(q.filter_map(h) == r.filter_map(h));
            },
        }
    }
}

/// What ticks at the times `nows` leave of a single queued message.
pub open spec fn tick_fate(interval: u64, max: u32, nows: Seq<u64>) -> spec_fn(InflightModel) -> Option<
    InflightModel,
> {
    |m: InflightModel| after_ticks(Some(m), interval, max, nows)
}

/// Over repeated ticks each queued message fares on its own: the queue after
/// the ticks holds, in order, what `after_ticks` leaves of each message, so the
/// per-message laws (`lemma_retransmissions_capped`,
/// `lemma_retransmissions_spaced`) hold of every message across repeated
/// `on_retransmit` calls.
pub proof fn lemma_queue_after_ticks(q: Seq<InflightModel>, interval: u64, max: u32, nows: Seq<u64>)
    ensures
        queue_after_ticks(q, interval, max, nows) == q.filter_map(tick_fate(interval, max, nows)),
    decreases nows.len(),
{
    if nows.len() == 0 {
        lemma_no_tick(q, interval, max, nows);
    } else {
        let rest = nows.drop_last();
        lemma_queue_after_ticks(q, interval, max, rest);
        let f = tick_fate(interval, max, rest);
        let g = kept_after_tick(interval, max, nows.last());
        lemma_filter_map_compose(q, f, g);
        let h = then_step(f, g);
        let k = tick_fate(interval, max, nows);
        assert forall|m: InflightModel| #[trigger] h(m) == k(m) by {}
        assert(h =~= k);
    }
}

/// With no tick the queue is unchanged.
proof fn lemma_no_tick(q: Seq<InflightModel>, interval: u64, max: u32, nows: Seq<u64>)
    requires
        nows.len() == 0,
    ensures
        q.filter_map(tick_fate(interval, max, nows)) == q,
    decreases q.len(),
{
    let f = tick_fate(interval, max, nows);
    if q.len() == 0 {
        assert(q.filter_map(f) =~= q);
    } else {
        lemma_no_tick(q.drop_last(), interval, max, nows);
        assert(f(q.last()) == Some(q.last()));
        assert(q.filter_map(f) == q.drop_last().filter_map(f).push(q.last()));
        assert(q.drop_last().push(q.last()) =~= q);
    }
}


/// At a retransmission tick (interval above 0), a queued message that is due (at least
/// `interval` since it was last sent) and below the retry limit is sent
/// again: its stored PUBLISH goes to the mailbox unless it waits for PUBCOMP
/// (a QoS 1 message, or a QoS 2 message still waiting for PUBREC), in which
/// case PUBREL with its packet id is written; it stays queued with one more
/// retry, sent now. Everything sent again is a due message's: a PUBLISH of
/// one not waiting for PUBCOMP, a PUBREL of one that is.
pub proof fn lemma_retransmit_sends_due_messages(q: Seq<InflightModel>, interval: u64, max: u32, now: u64, j: int)
    requires
        interval > 0,
        0 <= j < q.len(),
        now >= q[j].timestamp,
        now - q[j].timestamp >= interval,
        q[j].retry_count < max,
    ensures
        q[j].qos2_state != Some(Qos2State::AwaitingPubComp) ==> q.filter_map(
            republished(interval, max, now),
        ).contains(q[j].packet),
        (q[j].qos2_state == Some(Qos2State::AwaitingPubComp) && q[j].packet.packet_id is Some) ==> q.filter_map(
            rereleased(interval, max, now),
        ).contains(PacketModel::PubRel(q[j].packet.packet_id->0)),
        q.filter_map(kept_after_tick(interval, max, now)).contains(
            InflightModel { retry_count: (q[j].retry_count + 1) as u32, timestamp: now, ..q[j] },
        ),
        forall|p: PublishModel|
            #[trigger] q.filter_map(republished(interval, max, now)).contains(p) ==> exists|k: int|
                0 <= k < q.len() && q[k].packet == p && q[k].qos2_state != Some(
                    Qos2State::AwaitingPubComp,
                ) && now >= q[k].timestamp && now - q[k].timestamp >= interval,
        forall|x: PacketModel|
            #[trigger] q.filter_map(rereleased(interval, max, now)).contains(x) ==> exists|k: int|
                0 <= k < q.len() && q[k].qos2_state == Some(Qos2State::AwaitingPubComp) && q[k].packet.packet_id
                    is Some && x == PacketModel::PubRel(q[k].packet.packet_id->0) && now >= q[k].timestamp
                    && now - q[k].timestamp >= interval,
{
    let m = q[j];
    let gp = republished(interval, max, now);
    let gr = rereleased(interval, max, now);
    let gk = kept_after_tick(interval, max, now);
    assert(due(m, interval, now));
    assert(!exhausted(m, max));
    crate::router::lemma_filter_map_contains_iff(q, gp, m.packet);
    if m.qos2_state == Some(Qos2State::AwaitingPubComp) && m.packet.packet_id is Some {
        crate::router::lemma_filter_map_contains_iff(q, gr, PacketModel::PubRel(m.packet.packet_id->0));
    }
    let kept = InflightModel { retry_count: (m.retry_count + 1) as u32, timestamp: now, ..m };
    assert(gk(m) == Some(kept));
    crate::router::lemma_filter_map_contains_iff(q, gk, kept);
    assert forall|p: PublishModel| #[trigger] q.filter_map(gp).contains(p) implies exists|k: int|
        0 <= k < q.len() && q[k].packet == p && q[k].qos2_state != Some(Qos2State::AwaitingPubComp)
            && now >= q[k].timestamp && now - q[k].timestamp >= interval by {
        crate::router::lemma_filter_map_contains_iff(q, gp, p);
        let k = choose|k: int| 0 <= k < q.len() && gp(q[k]) == Some(p);
        assert(due(q[k], interval, now));
        assert(q[k].packet == p);
    }
    assert forall|x: PacketModel| #[trigger] q.filter_map(gr).contains(x) implies exists|k: int|
        0 <= k < q.len() && q[k].qos2_state == Some(Qos2State::AwaitingPubComp) && q[k].packet.packet_id is Some
            && x == PacketModel::PubRel(q[k].packet.packet_id->0) && now >= q[k].timestamp && now
            - q[k].timestamp >= interval by {
        crate::router::lemma_filter_map_contains_iff(q, gr, x);
        let k = choose|k: int| 0 <= k < q.len() && gr(q[k]) == Some(x);
        assert(due(q[k], interval, now));
        assert(x == PacketModel::PubRel(q[k].packet.packet_id->0));
    }
}

/// A PUBLISH at QoS 1 with packet id `id` is always answered with exactly
/// PUBACK(id), and one at QoS 2 with exactly PUBREC(id), and the connection
/// stays open, whether or not the client may publish to the topic; that only
/// decides whether a new QoS 1 message is routed (a QoS 2 one is routed on
/// PUBREL). A duplicate QoS 1 message is never routed again.
pub proof fn lemma_publish_acknowledged(m: RuntimeModel, p: PublishModel, allowed: bool, id: u16)
    requires
        p.packet_id == Some(id),
    ensures
        p.qos == QoS::AtLeastOnce ==> {
            let (m2, r) = publish_step(m, p, allowed);
            &&& r.send == seq![PacketModel::PubAck(id)]
            &&& r.keep_going
            &&& m2 == m
            &&& r.mailbox.len() == 0
            &&& r.route == if allowed && !p.dup {
                Some(p)
            } else {
                None
            }
        },
        p.qos == QoS::ExactlyOnce ==> {
            let (m2, r) = publish_step(m, p, allowed);
            &&& r.send == seq![PacketModel::PubRec(id)]
            &&& r.keep_going
            &&& r.route is None
            &&& m2.next_packet_id == m.next_packet_id
            &&& m2.inflight == m.inflight
        },
{
}

/// Sending a new QoS 1 or 2 message to the client: it goes out with the
/// session's next packet id and without the DUP flag, otherwise as it came;
/// the queued copy keeps that packet id with the DUP flag set (for sending
/// again), no retries yet, sent now, and at QoS 2 waits for PUBREC.
pub proof fn lemma_message_sending(p: PublishModel, id: u16, now: u64)
    requires
        p.qos != QoS::AtMostOnce,
        !p.dup,
    ensures
        outgoing_publish(p, id).packet_id == Some(id),
        !outgoing_publish(p, id).dup,
        outgoing_publish(p, id).topic == p.topic,
        outgoing_publish(p, id).payload == p.payload,
        outgoing_publish(p, id).qos == p.qos,
        outgoing_publish(p, id).retain == p.retain,
        queued_copy(p, id, now).packet == (PublishModel { dup: true, ..outgoing_publish(p, id) }),
        queued_copy(p, id, now).retry_count == 0,
        queued_copy(p, id, now).timestamp == now,
        (p.qos == QoS::ExactlyOnce ==> queued_copy(p, id, now).qos2_state == Some(Qos2State::AwaitingPubRec)),
        (p.qos != QoS::ExactlyOnce ==> (queued_copy(p, id, now).qos2_state is None)),
{
}

/// PUBREL from the client is always answered with exactly PUBCOMP with its
/// packet id, and the connection stays open. A held QoS 2 message with that
/// id is released: it is no longer held, and it is routed when the client
/// may publish to its topic; with no such message nothing is routed and the
/// session is unchanged.
pub proof fn lemma_pubrel_releases<Z: Authorizer>(z: &Z, m: RuntimeModel, id: u16)
    requires
        runtime_wf(m),
    ensures
        ({
            let (m2, r) = pubrel_step(z, m, id);
            &&& r.send == seq![PacketModel::PubComp(id)]
            &&& r.keep_going
            &&& r.mailbox.len() == 0
            &&& !holds(m2.inbound, id)
            &&& m2.inflight == m.inflight
            &&& m2.next_packet_id == m.next_packet_id
            &&& holds(m.inbound, id) ==> exists|j: int|
                0 <= j < m.inbound.len() && m.inbound[j].0 == id && r.route == if z.publish_allowed(
                    acl_client_id(m),
                    m.inbound[j].1.topic,
                ) {
                    Some(m.inbound[j].1)
                } else {
                    None
                }
            &&& !holds(m.inbound, id) ==> r.route is None && m2 == m
        }),
{
    if holds(m.inbound, id) {
        lemma_release_clears(m.inbound, id);
        let j = held_index(m.inbound, id);
        assert(m.inbound[j].0 == id);
    }
}

/// PUBREC from the client moves the first queued message with that packet id
/// still waiting for PUBREC on to wait for PUBCOMP, its clock restarted now
/// and its retries reset; every other queued message is left as it was, and
/// without such a message the queue is unchanged.
pub proof fn lemma_pubrec_advances(q: Seq<InflightModel>, id: u16, now: u64)
    ensures
        pubrec_queue(q, id, now).len() == q.len(),
        (forall|k: int|
            0 <= k < q.len() ==> !(q[k].packet.packet_id == Some(id) && q[k].qos2_state == Some(
                Qos2State::AwaitingPubRec,
            ))) ==> pubrec_queue(q, id, now) == q,
        forall|j: int|
            0 <= j < q.len() && q[j].packet.packet_id == Some(id) && q[j].qos2_state == Some(
                Qos2State::AwaitingPubRec,
            ) && (forall|k: int|
                0 <= k < j ==> !(q[k].packet.packet_id == Some(id) && #[trigger] q[k].qos2_state == Some(
                    Qos2State::AwaitingPubRec,
                ))) ==> {
                &&& pubrec_queue(q, id, now)[j] == InflightModel {
                    qos2_state: Some(Qos2State::AwaitingPubComp),
                    timestamp: now,
                    retry_count: 0,
                    ..q[j]
                }
                &&& forall|k: int| 0 <= k < q.len() && k != j ==> #[trigger] pubrec_queue(q, id, now)[k] == q[k]
            },
{
    if exists|j: int| first_awaiting_rec(q, j, id) {
        let c = choose|j: int| first_awaiting_rec(q, j, id);
        assert forall|j: int|
            0 <= j < q.len() && q[j].packet.packet_id == Some(id) && q[j].qos2_state == Some(
                Qos2State::AwaitingPubRec,
            ) && (forall|k: int|
                0 <= k < j ==> !(q[k].packet.packet_id == Some(id) && #[trigger] q[k].qos2_state == Some(
                    Qos2State::AwaitingPubRec,
                ))) implies j == c by {
            if j < c {
                assert(!awaiting_rec(q, j, id));
            } else if c < j {
                assert(awaiting_rec(q, c, id));
            }
        }
    } else {
        assert forall|j: int|
            0 <= j < q.len() && q[j].packet.packet_id == Some(id) && q[j].qos2_state == Some(
                Qos2State::AwaitingPubRec,
            ) && (forall|k: int|
                0 <= k < j ==> !(q[k].packet.packet_id == Some(id) && #[trigger] q[k].qos2_state == Some(
                    Qos2State::AwaitingPubRec,
                ))) implies false by {
            assert forall|k: int| 0 <= k < j implies !#[trigger] awaiting_rec(q, k, id) by {}
            assert(first_awaiting_rec(q, j, id));
        }
    }
}

/// The will message is published at QoS 0, not retained unless the will says
/// so, without packet id and not as a duplicate, with the will's topic and
/// payload.
pub proof fn lemma_will_publish(w: WillModel)
    ensures
        will_publish(w).topic == w.topic,
        will_publish(w).payload == w.payload,
        will_publish(w).qos == QoS::AtMostOnce,
        will_publish(w).retain == w.retain,
        will_publish(w).packet_id is None,
        !will_publish(w).dup,
{
}

/// The return codes of SUBSCRIBE: one per requested filter, in order; FAILURE
/// (0x80) for a filter the client may not subscribe to or an invalid one, else
/// the number of the QoS it asked for.
pub proof fn lemma_suback_codes<Z: Authorizer>(z: &Z, client: Seq<char>, fl: Seq<(Seq<char>, QoS)>)
    ensures
        forall|i: int|
            0 <= i < fl.len() ==> #[trigger] suback_code(z, client, fl[i]) == if z.subscribe_allowed(
                client,
                fl[i].0,
            ) && valid_topic_filter(fl[i].0) {
                qos_num(fl[i].1)
            } else {
                0x80u8
            },
{
}

/// The table's return codes: one per requested filter, in order; 0x80 for an
/// invalid filter, else the number of the requested QoS.
pub proof fn lemma_table_codes(e: Seq<SubEntry>, s: Seq<char>, fl: Seq<(Seq<char>, QoS)>, rr: Seq<crate::storage::types::RetainedRecord>)
    ensures
        subscribe_spec(e, s, fl, rr).codes.len() == fl.len(),
        forall|i: int|
            0 <= i < fl.len() ==> #[trigger] subscribe_spec(e, s, fl, rr).codes[i] == if valid_topic_filter(fl[i].0) {
                qos_num(fl[i].1)
            } else {
                0x80u8
            },
{
    lemma_subscribe_codes(e, s, fl, rr);
}

/// What a CONNECT gets: protocol name other than `MQTT` or a level other than
/// 4 is refused with 0x01; else an identifier that breaks the client-id rule
/// with 0x02; else wrong credentials with 0x04 and a failed check with 0x05.
/// An accepted CONNECT takes the client's clean-session flag and keep-alive,
/// and claims a non-empty client id.
pub proof fn lemma_connect_outcomes<A: Authenticator>(a: &A, m: RuntimeModel, c: ConnectModel)
    ensures
        ({
            let (m2, out) = connect_step(a, m, c);
            &&& (c.protocol_name != "MQTT"@ || c.protocol_level != 4) ==> out == ConnectOutcomeModel::Refuse(0x01)
                && m2 == m
            &&& (c.protocol_name == "MQTT"@ && c.protocol_level == 4 && client_id_check(
                c.client_id,
                c.clean_session,
            ) is Err) ==> out == ConnectOutcomeModel::Refuse(0x02) && m2 == m
            &&& (c.protocol_name == "MQTT"@ && c.protocol_level == 4 && client_id_check(
                c.client_id,
                c.clean_session,
            ) is Ok) ==> match a.authentication(connect_credentials(c)) {
                Err(AuthError::InvalidCredentials) => out == ConnectOutcomeModel::Refuse(0x04) && m2 == m,
                Err(_) => out == ConnectOutcomeModel::Refuse(0x05) && m2 == m,
                Ok(_) => {
                    &&& m2.clean_session == c.clean_session
                    &&& m2.keep_alive == c.keep_alive
                    &&& m2.inflight == m.inflight
                    &&& m2.next_packet_id == m.next_packet_id
                    &&& out == ConnectOutcomeModel::Accept(
                        if c.client_id.len() > 0 {
                            Some(c.client_id)
                        } else {
                            None
                        },
                    )
                },
            }
        }),
{
    assert(PROTOCOL_LEVEL == 4);
    assert(PROTOCOL_NAME@ == "MQTT"@);
}

/// The client-id rule: an empty id is refused (with 0x02) only when the
/// client asks to keep its session; a non-empty id is accepted exactly when
/// it has at most 23 bytes (its UTF-8 length as `str::len` gives it), all
/// ASCII letters and digits.
pub proof fn lemma_client_id_rule(client_id: Seq<char>, clean_session: bool)
    ensures
        client_id.len() == 0 ==> (client_id_check(client_id, clean_session) is Ok <==> clean_session),
        client_id.len() > 0 ==> (client_id_check(client_id, clean_session) is Ok <==> (byte_len(client_id) <= 23 && forall|i: int|
            0 <= i < client_id.len() ==> (('0' <= #[trigger] client_id[i] <= '9') || ('a' <= client_id[i] <= 'z')
                || ('A' <= client_id[i] <= 'Z')))),
        client_id_check(client_id, clean_session) matches Err(code) ==> code == 0x02,
{
}

/// A connection may stay silent for one and a half keep-alive intervals
/// (keep-alive in seconds, the timeout in milliseconds); keep-alive 0 gives a
/// year. Queued messages are checked every half retransmission interval, or
/// daily when retransmission is off.
pub proof fn lemma_timers(keep_alive: u16, interval_ms: u64)
    ensures
        keep_alive > 0 ==> keep_alive_timeout_spec(keep_alive) as int == keep_alive as int * 1000 + keep_alive as int * 500,
        keep_alive == 0 ==> keep_alive_timeout_spec(keep_alive) == 365u64 * 24 * 3600 * 1000,
        interval_ms > 0 ==> retransmit_tick_spec(interval_ms) as int * 2 <= interval_ms
            && interval_ms < retransmit_tick_spec(interval_ms) as int * 2 + 2,
        interval_ms == 0 ==> retransmit_tick_spec(interval_ms) == 24u64 * 3600 * 1000,
{
}
} // verus!
