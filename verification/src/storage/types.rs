//! Records that a session and the retained-message store persist. Times are
//! milliseconds since the Unix epoch.

use crate::buf::{bytes_clone, bytes_view};
use crate::protocol::packet::{qos_num, QoS};
use bytes::Bytes;
use vstd::prelude::*;
use vstd::std_specs::convert::FromSpecImpl;

verus! {

/// A QoS level as stored.
#[derive(Debug, Clone, Copy, PartialEq, Eq, Structural)]
pub enum StoredQoS {
    AtMostOnce,
    AtLeastOnce,
    ExactlyOnce,
}

/// Stored number of a QoS level.
pub open spec fn stored_qos_num(q: StoredQoS) -> u8 {
    match q {
        StoredQoS::AtMostOnce => 0,
        StoredQoS::AtLeastOnce => 1,
        StoredQoS::ExactlyOnce => 2,
    }
}

/// The stored level with the same number as a packet's level.
pub open spec fn stored_from_qos(q: QoS) -> StoredQoS {
    match q {
        QoS::AtMostOnce => StoredQoS::AtMostOnce,
        QoS::AtLeastOnce => StoredQoS::AtLeastOnce,
        QoS::ExactlyOnce => StoredQoS::ExactlyOnce,
    }
}

/// The packet level with the same number as a stored level.
pub open spec fn qos_from_stored(q: StoredQoS) -> QoS {
    match q {
        StoredQoS::AtMostOnce => QoS::AtMostOnce,
        StoredQoS::AtLeastOnce => QoS::AtLeastOnce,
        StoredQoS::ExactlyOnce => QoS::ExactlyOnce,
    }
}

impl StoredQoS {
    /// The stored level with the given number.
    pub fn from_u8(value: u8) -> (r: Option<StoredQoS>)
        ensures
            value <= 2 ==> r == Some(
                if value == 0 {
                    StoredQoS::AtMostOnce
                } else if value == 1 {
                    StoredQoS::AtLeastOnce
                } else {
                    StoredQoS::ExactlyOnce
                },
            ),
            value > 2 ==> r is None,
            r matches Some(q) ==> stored_qos_num(q) == value,
    {
        match value {
            0 => Some(StoredQoS::AtMostOnce),
            1 => Some(StoredQoS::AtLeastOnce),
            2 => Some(StoredQoS::ExactlyOnce),
            _ => None,
        }
    }

    /// The stored number of the level.
    pub fn as_u8(self) -> (v: u8)
        ensures
            v == stored_qos_num(self),
    {
        match self {
            StoredQoS::AtMostOnce => 0,
            StoredQoS::AtLeastOnce => 1,
            StoredQoS::ExactlyOnce => 2,
        }
    }
}

impl From<QoS> for StoredQoS {
    fn from(qos: QoS) -> (r: StoredQoS) {
        match qos {
            QoS::AtMostOnce => StoredQoS::AtMostOnce,
            QoS::AtLeastOnce => StoredQoS::AtLeastOnce,
            QoS::ExactlyOnce => StoredQoS::ExactlyOnce,
        }
    }
}

impl FromSpecImpl<QoS> for StoredQoS {
    open spec fn obeys_from_spec() -> bool {
        true
    }

    open spec fn from_spec(v: QoS) -> StoredQoS {
        stored_from_qos(v)
    }
}

impl From<StoredQoS> for QoS {
    fn from(qos: StoredQoS) -> (r: QoS) {
        match qos {
            StoredQoS::AtMostOnce => QoS::AtMostOnce,
            StoredQoS::AtLeastOnce => QoS::AtLeastOnce,
            StoredQoS::ExactlyOnce => QoS::ExactlyOnce,
        }
    }
}

impl FromSpecImpl<StoredQoS> for QoS {
    open spec fn obeys_from_spec() -> bool {
        true
    }

    open spec fn from_spec(v: StoredQoS) -> QoS {
        qos_from_stored(v)
    }
}

/// Converting a packet level to a stored level and back gives the same level,
/// and both have the same number.
pub proof fn lemma_stored_qos_roundtrip(q: QoS, s: StoredQoS)
    ensures
        qos_from_stored(stored_from_qos(q)) == q,
        stored_from_qos(qos_from_stored(s)) == s,
        stored_qos_num(stored_from_qos(q)) == qos_num(q),
{
}

/// The QoS=2 handshake step an outgoing message waits for, as stored.
#[derive(Debug, Clone, Copy, PartialEq, Eq, Structural)]
pub enum PersistedQos2State {
    AwaitingPubRec,
    AwaitingPubComp,
}

/// Stored number of a handshake step.
pub open spec fn qos2_state_num(s: PersistedQos2State) -> u8 {
    match s {
        PersistedQos2State::AwaitingPubRec => 0,
        PersistedQos2State::AwaitingPubComp => 1,
    }
}

impl PersistedQos2State {
    /// The handshake step with the given number.
    pub fn from_u8(value: u8) -> (r: Option<PersistedQos2State>)
        ensures
            value == 0 ==> r == Some(PersistedQos2State::AwaitingPubRec),
            value == 1 ==> r == Some(PersistedQos2State::AwaitingPubComp),
            value > 1 ==> r is None,
    {
        match value {
            0 => Some(PersistedQos2State::AwaitingPubRec),
            1 => Some(PersistedQos2State::AwaitingPubComp),
            _ => None,
        }
    }

    /// The stored number of the step.
    pub fn as_u8(self) -> (v: u8)
        ensures
            v == qos2_state_num(self),
    {
        match self {
            PersistedQos2State::AwaitingPubRec => 0,
            PersistedQos2State::AwaitingPubComp => 1,
        }
    }
}

/// A will message as stored with its session.
#[derive(Debug)]
pub struct PersistedWillMessage {
    pub topic: String,
    pub payload: Bytes,
    pub qos: StoredQoS,
    pub retain: bool,
}

/// The state of a session whose client asked to keep it (clean_session=false).
#[derive(Debug)]
pub struct PersistedSession {
    pub client_id: String,
    pub next_packet_id: u16,
    pub keep_alive: u16,
    pub will_message: Option<PersistedWillMessage>,
    pub created_at: i64,
    pub updated_at: i64,
}

/// A subscription of a stored session.
#[derive(Debug)]
pub struct PersistedSubscription {
    pub client_id: String,
    pub topic_filter: String,
    pub qos: StoredQoS,
}

/// An outgoing QoS 1 or 2 message of a stored session still awaiting its
/// acknowledgement.
#[derive(Debug)]
pub struct PersistedInflightMessage {
    pub client_id: String,
    pub packet_id: u16,
    pub topic: String,
    pub payload: Bytes,
    pub qos: StoredQoS,
    pub retain: bool,
    pub retry_count: u32,
    pub qos2_state: Option<PersistedQos2State>,
    pub created_at: i64,
}

/// An incoming QoS 2 message of a stored session still awaiting its PUBREL.
#[derive(Debug)]
pub struct PersistedInboundQos2Message {
    pub client_id: String,
    pub packet_id: u16,
    pub topic: String,
    pub payload: Bytes,
    pub retain: bool,
    pub received_at: i64,
}

/// The retained message of a topic.
#[derive(Debug)]
pub struct PersistedRetainedMessage {
    pub topic: String,
    pub payload: Bytes,
    pub qos: StoredQoS,
    pub updated_at: i64,
}

/// Why a storage operation failed.
#[derive(Debug)]
pub enum StorageError {
    Internal(String),
    InvalidDateTime { table: String, field: String, record_id: String, value: String },
}

// ---------------------------------------------------------------------------
// Abstract values
// ---------------------------------------------------------------------------

pub struct WillRecord {
    pub topic: Seq<char>,
    pub payload: Seq<u8>,
    pub qos: StoredQoS,
    pub retain: bool,
}

pub struct SessionRecord {
    pub client_id: Seq<char>,
    pub next_packet_id: u16,
    pub keep_alive: u16,
    pub will_message: Option<WillRecord>,
    pub created_at: i64,
    pub updated_at: i64,
}

pub struct SubscriptionRecord {
    pub client_id: Seq<char>,
    pub topic_filter: Seq<char>,
    pub qos: StoredQoS,
}

pub struct InflightRecord {
    pub client_id: Seq<char>,
    pub packet_id: u16,
    pub topic: Seq<char>,
    pub payload: Seq<u8>,
    pub qos: StoredQoS,
    pub retain: bool,
    pub retry_count: u32,
    pub qos2_state: Option<PersistedQos2State>,
    pub created_at: i64,
}

pub struct InboundRecord {
    pub client_id: Seq<char>,
    pub packet_id: u16,
    pub topic: Seq<char>,
    pub payload: Seq<u8>,
    pub retain: bool,
    pub received_at: i64,
}

pub struct RetainedRecord {
    pub topic: Seq<char>,
    pub payload: Seq<u8>,
    pub qos: StoredQoS,
    pub updated_at: i64,
}

impl View for PersistedWillMessage {
    type V = WillRecord;

    open spec fn view(&self) -> WillRecord {
        WillRecord {
            topic: self.topic@,
            payload: bytes_view(self.payload),
            qos: self.qos,
            retain: self.retain,
        }
    }
}

pub open spec fn opt_will_view(w: Option<PersistedWillMessage>) -> Option<WillRecord> {
    match w {
        Some(m) => Some(m@),
        None => None,
    }
}

impl View for PersistedSession {
    type V = SessionRecord;

    open spec fn view(&self) -> SessionRecord {
        SessionRecord {
            client_id: self.client_id@,
            next_packet_id: self.next_packet_id,
            keep_alive: self.keep_alive,
            will_message: opt_will_view(self.will_message),
            created_at: self.created_at,
            updated_at: self.updated_at,
        }
    }
}

impl View for PersistedSubscription {
    type V = SubscriptionRecord;

    open spec fn view(&self) -> SubscriptionRecord {
        SubscriptionRecord {
            client_id: self.client_id@,
            topic_filter: self.topic_filter@,
            qos: self.qos,
        }
    }
}

impl View for PersistedInflightMessage {
    type V = InflightRecord;

    open spec fn view(&self) -> InflightRecord {
        InflightRecord {
            client_id: self.client_id@,
            packet_id: self.packet_id,
            topic: self.topic@,
            payload: bytes_view(self.payload),
            qos: self.qos,
            retain: self.retain,
            retry_count: self.retry_count,
            qos2_state: self.qos2_state,
            created_at: self.created_at,
        }
    }
}

impl View for PersistedInboundQos2Message {
    type V = InboundRecord;

    open spec fn view(&self) -> InboundRecord {
        InboundRecord {
            client_id: self.client_id@,
            packet_id: self.packet_id,
            topic: self.topic@,
            payload: bytes_view(self.payload),
            retain: self.retain,
            received_at: self.received_at,
        }
    }
}

impl View for PersistedRetainedMessage {
    type V = RetainedRecord;

    open spec fn view(&self) -> RetainedRecord {
        RetainedRecord {
            topic: self.topic@,
            payload: bytes_view(self.payload),
            qos: self.qos,
            updated_at: self.updated_at,
        }
    }
}

// ---------------------------------------------------------------------------
// Copies with known contents
// ---------------------------------------------------------------------------

impl PersistedWillMessage {
    /// A copy holding the same values.
    pub fn duplicate(&self) -> (r: Self)
        ensures
            r@ == self@,
    {
        PersistedWillMessage {
            topic: self.topic.clone(),
            payload: bytes_clone(&self.payload),
            qos: self.qos,
            retain: self.retain,
        }
    }
}

impl PersistedSession {
    /// A copy holding the same values.
    pub fn duplicate(&self) -> (r: Self)
        ensures
            r@ == self@,
    {
        PersistedSession {
            client_id: self.client_id.clone(),
            next_packet_id: self.next_packet_id,
            keep_alive: self.keep_alive,
            will_message: match &self.will_message {
                Some(w) => Some(w.duplicate()),
                None => None,
            },
            created_at: self.created_at,
            updated_at: self.updated_at,
        }
    }
}

impl PersistedSubscription {
    /// A copy holding the same values.
    pub fn duplicate(&self) -> (r: Self)
        ensures
            r@ == self@,
    {
        PersistedSubscription {
            client_id: self.client_id.clone(),
            topic_filter: self.topic_filter.clone(),
            qos: self.qos,
        }
    }
}

impl PersistedInflightMessage {
    /// A copy holding the same values.
    pub fn duplicate(&self) -> (r: Self)
        ensures
            r@ == self@,
    {
        PersistedInflightMessage {
            client_id: self.client_id.clone(),
            packet_id: self.packet_id,
            topic: self.topic.clone(),
            payload: bytes_clone(&self.payload),
            qos: self.qos,
            retain: self.retain,
            retry_count: self.retry_count,
            qos2_state: self.qos2_state,
            created_at: self.created_at,
        }
    }
}

impl PersistedInboundQos2Message {
    /// A copy holding the same values.
    pub fn duplicate(&self) -> (r: Self)
        ensures
            r@ == self@,
    {
        PersistedInboundQos2Message {
            client_id: self.client_id.clone(),
            packet_id: self.packet_id,
            topic: self.topic.clone(),
            payload: bytes_clone(&self.payload),
            retain: self.retain,
            received_at: self.received_at,
        }
    }
}

impl PersistedRetainedMessage {
    /// A copy holding the same values.
    pub fn duplicate(&self) -> (r: Self)
        ensures
            r@ == self@,
    {
        PersistedRetainedMessage {
            topic: self.topic.clone(),
            payload: bytes_clone(&self.payload),
            qos: self.qos,
            updated_at: self.updated_at,
        }
    }
}


/// A stored record that can be copied with its contents known.
pub trait Record: View + Sized {
    fn copy_record(&self) -> (r: Self)
        ensures
            r@ == self@,
    ;
}

impl Record for PersistedSession {
    fn copy_record(&self) -> (r: Self) {
        self.duplicate()
    }
}

impl Record for PersistedSubscription {
    fn copy_record(&self) -> (r: Self) {
        self.duplicate()
    }
}

impl Record for PersistedInflightMessage {
    fn copy_record(&self) -> (r: Self) {
        self.duplicate()
    }
}

impl Record for PersistedInboundQos2Message {
    fn copy_record(&self) -> (r: Self) {
        self.duplicate()
    }
}

impl Record for PersistedRetainedMessage {
    fn copy_record(&self) -> (r: Self) {
        self.duplicate()
    }
}
} // verus!
