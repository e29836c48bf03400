//! Records as a database stores them: timestamps as RFC 3339 text, levels as
//! numbers, a will as four optional columns. Turning the column values of a
//! row back into a record, and a timestamp into its text.

use crate::buf::{bytes_from_vec, bytes_view};
use crate::storage::types::{
    InboundRecord, InflightRecord, PersistedInboundQos2Message, PersistedInflightMessage,
    PersistedQos2State, PersistedRetainedMessage, PersistedSession, PersistedSubscription,
    PersistedWillMessage, RetainedRecord, SessionRecord, StorageError, StoredQoS,
    SubscriptionRecord, WillRecord,
};
use crate::text::{chars_of, string_from_chars};
use chrono::{DateTime, Utc};
use vstd::prelude::*;

verus! {

// ---------------------------------------------------------------------------
// Timestamps
// ---------------------------------------------------------------------------

/// The instant an RFC 3339 text names, in milliseconds since the Unix epoch,
/// as chrono's `DateTime::parse_from_rfc3339` reads it; `None` for a text it
/// refuses.
pub uninterp spec fn rfc3339_millis(s: Seq<char>) -> Option<i64>;

/// The RFC 3339 text chrono's `DateTime::<Utc>::to_rfc3339` writes for an
/// instant given in milliseconds since the Unix epoch; `None` for an instant
/// chrono cannot represent.
pub uninterp spec fn rfc3339_text(ms: i64) -> Option<Seq<char>>;

/// `DateTime::parse_from_rfc3339`, then `timestamp_millis`: the instant the
/// text names, or `None` when chrono refuses the text.
#[verifier::external_body]
pub(crate) fn parse_rfc3339_millis(s: &str) -> (r: Option<i64>)
    ensures
        r == rfc3339_millis(s@),
{
    match DateTime::parse_from_rfc3339(s) {
        Ok(dt) => Some(dt.timestamp_millis()),
        Err(_) => None,
    }
}

/// `DateTime::<Utc>::from_timestamp_millis`, then `to_rfc3339`: the text of
/// the instant, or `None` when chrono cannot represent it.
#[verifier::external_body]
pub(crate) fn format_rfc3339_millis(ms: i64) -> (r: Option<String>)
    ensures
        match r {
            Some(s) => rfc3339_text(ms) == Some(s@),
            None => rfc3339_text(ms) is None,
        },
{
    match DateTime::<Utc>::from_timestamp_millis(ms) {
        Some(dt) => Some(dt.to_rfc3339()),
        None => None,
    }
}

/// The error of a stored timestamp that does not read: the table, the field,
/// the record it belongs to and the text found.
pub open spec fn invalid_time<T>(
    r: Result<T, StorageError>,
    table: Seq<char>,
    field: Seq<char>,
    record_id: Seq<char>,
    value: Seq<char>,
) -> bool {
    r matches Err(StorageError::InvalidDateTime { table: t, field: f, record_id: i, value: v })
        && t@ == table && f@ == field && i@ == record_id && v@ == value
}

/// A stored timestamp once its text was read: the instant, or
/// `InvalidDateTime` naming where the text was found when it did not read.
pub fn datetime_from_parsed(
    parsed: Option<i64>,
    s: &str,
    table: &str,
    field: &str,
    record_id: &str,
) -> (r: Result<i64, StorageError>)
    ensures
        match parsed {
            Some(v) => r == Ok::<i64, StorageError>(v),
            None => invalid_time(r, table@, field@, record_id@, s@),
        },
{
    match parsed {
        Some(v) => Ok(v),
        None => Err(
            StorageError::InvalidDateTime {
                table: table.to_owned(),
                field: field.to_owned(),
                record_id: record_id.to_owned(),
                value: s.to_owned(),
            },
        ),
    }
}

/// Reads a stored timestamp: its instant, or `InvalidDateTime` naming where
/// the text was found.
pub fn parse_datetime(s: &str, table: &str, field: &str, record_id: &str) -> (r: Result<i64, StorageError>)
    ensures
        match rfc3339_millis(s@) {
            Some(v) => r == Ok::<i64, StorageError>(v),
            None => invalid_time(r, table@, field@, record_id@, s@),
        },
{
    datetime_from_parsed(parse_rfc3339_millis(s), s, table, field, record_id)
}

/// The text a timestamp is stored as; `Internal` for an instant that has no
/// text.
pub fn timestamp_column(ms: i64) -> (r: Result<String, StorageError>)
    ensures
        match rfc3339_text(ms) {
            Some(t) => r matches Ok(s) && s@ == t,
            None => r matches Err(StorageError::Internal(_)),
        },
{
    match format_rfc3339_millis(ms) {
        Some(s) => Ok(s),
        None => Err(StorageError::Internal("timestamp out of range".to_owned())),
    }
}

// ---------------------------------------------------------------------------
// Record identifiers
// ---------------------------------------------------------------------------

/// The decimal digit `d`.
pub open spec fn digit_char(d: int) -> char {
    if d == 0 {
        '0'
    } else if d == 1 {
        '1'
    } else if d == 2 {
        '2'
    } else if d == 3 {
        '3'
    } else if d == 4 {
        '4'
    } else if d == 5 {
        '5'
    } else if d == 6 {
        '6'
    } else if d == 7 {
        '7'
    } else if d == 8 {
        '8'
    } else {
        '9'
    }
}

/// The decimal digits of `n`, most significant first.
pub open spec fn digits_of(n: nat) -> Seq<char>
    decreases n,
{
    if n < 10 {
        seq![digit_char(n as int)]
    } else {
        digits_of(n / 10).push(digit_char((n % 10) as int))
    }
}

/// The decimal text of `n`, with a `-` when it is negative.
pub open spec fn decimal_text(n: int) -> Seq<char> {
    if n < 0 {
        seq!['-'] + digits_of((-n) as nat)
    } else {
        digits_of(n as nat)
    }
}

/// The identifier of a message record in errors: the client id, `:` and the
/// packet id.
pub open spec fn message_record_id(client_id: Seq<char>, packet_id: i32) -> Seq<char> {
    client_id + seq![':'] + decimal_text(packet_id as int)
}

fn digit(d: u64) -> (c: char)
    requires
        d < 10,
    ensures
        c == digit_char(d as int),
{
    if d == 0 {
        '0'
    } else if d == 1 {
        '1'
    } else if d == 2 {
        '2'
    } else if d == 3 {
        '3'
    } else if d == 4 {
        '4'
    } else if d == 5 {
        '5'
    } else if d == 6 {
        '6'
    } else if d == 7 {
        '7'
    } else if d == 8 {
        '8'
    } else {
        '9'
    }
}

fn push_digits(m: u64, out: &mut Vec<char>)
    ensures
        final(out)@ == old(out)@ + digits_of(m as nat),
    decreases m,
{
    if m >= 10 {
        push_digits(m / 10, out);
    }
    let ghost before = out@;
    out.push(digit(m % 10));
    if m >= 10 {
        assert(out@ =~= old(out)@ + digits_of(m as nat));
    } else {
        assert(out@ =~= old(out)@ + digits_of(m as nat));
    }
}

/// The identifier of a message record; see `message_record_id`.
fn record_id(client_id: &str, packet_id: i32) -> (r: String)
    ensures
        r@ == message_record_id(client_id@, packet_id),
{
    let mut v = chars_of(client_id);
    v.push(':');
    if packet_id < 0 {
        v.push('-');
        let magnitude: i64 = -(packet_id as i64);
        push_digits(magnitude as u64, &mut v);
        assert(v@ =~= client_id@ + seq![':'] + (seq!['-'] + digits_of((-(packet_id as int)) as nat)));
    } else {
        push_digits(packet_id as u64, &mut v);
        assert(v@ =~= client_id@ + seq![':'] + digits_of(packet_id as nat));
    }
    string_from_chars(v)
}

// ---------------------------------------------------------------------------
// Rows to records
// ---------------------------------------------------------------------------

/// The level a stored number names, or `fallback` for a number that names none.
pub open spec fn stored_qos_or(v: u8, fallback: StoredQoS) -> StoredQoS {
    if v == 0 {
        StoredQoS::AtMostOnce
    } else if v == 1 {
        StoredQoS::AtLeastOnce
    } else if v == 2 {
        StoredQoS::ExactlyOnce
    } else {
        fallback
    }
}

fn qos_or(v: u8, fallback: StoredQoS) -> (q: StoredQoS)
    ensures
        q == stored_qos_or(v, fallback),
{
    match StoredQoS::from_u8(v) {
        Some(q) => q,
        None => fallback,
    }
}

/// The handshake step a stored number names, if any.
pub open spec fn qos2_state_of(v: Option<u8>) -> Option<PersistedQos2State> {
    match v {
        Some(0) => Some(PersistedQos2State::AwaitingPubRec),
        Some(1) => Some(PersistedQos2State::AwaitingPubComp),
        _ => None,
    }
}

/// The will of a session row: present only when all four will columns are;
/// a level number that names none reads as QoS 0, a non-zero retain column as
/// retained.
pub open spec fn will_of_row(
    topic: Option<Seq<char>>,
    payload: Option<Seq<u8>>,
    qos: Option<u8>,
    retain: Option<i32>,
) -> Option<WillRecord> {
    match (topic, payload, qos, retain) {
        (Some(t), Some(p), Some(q), Some(r)) => Some(
            WillRecord { topic: t, payload: p, qos: stored_qos_or(q, StoredQoS::AtMostOnce), retain: r != 0 },
        ),
        _ => None,
    }
}

pub open spec fn opt_string_view(v: Option<String>) -> Option<Seq<char>> {
    match v {
        Some(s) => Some(s@),
        None => None,
    }
}

pub open spec fn opt_bytes_view(v: Option<Vec<u8>>) -> Option<Seq<u8>> {
    match v {
        Some(b) => Some(b@),
        None => None,
    }
}

/// The session of a `sessions` row. `created_at` is read before `updated_at`;
/// the first that does not read gives `InvalidDateTime` under the client id.
/// Packet id and keep-alive keep the low 16 bits of their columns.
pub fn session_from_row(
    client_id: String,
    next_packet_id: i32,
    keep_alive: i32,
    will_topic: Option<String>,
    will_payload: Option<Vec<u8>>,
    will_qos: Option<u8>,
    will_retain: Option<i32>,
    created_at: &str,
    updated_at: &str,
) -> (r: Result<PersistedSession, StorageError>)
    ensures
        match (rfc3339_millis(created_at@), rfc3339_millis(updated_at@)) {
            (Some(c), Some(u)) => r matches Ok(s) && s@ == (SessionRecord {
                client_id: client_id@,
                next_packet_id: next_packet_id as u16,
                keep_alive: keep_alive as u16,
                will_message: will_of_row(
                    opt_string_view(will_topic),
                    opt_bytes_view(will_payload),
                    will_qos,
                    will_retain,
                ),
                created_at: c,
                updated_at: u,
            }),
            (None, _) => invalid_time(r, "sessions"@, "created_at"@, client_id@, created_at@),
            (Some(_), None) => invalid_time(r, "sessions"@, "updated_at"@, client_id@, updated_at@),
        },
{
    let created = match parse_datetime(created_at, "sessions", "created_at", client_id.as_str()) {
        Ok(v) => v,
        Err(e) => return Err(e),
    };
    let updated = match parse_datetime(updated_at, "sessions", "updated_at", client_id.as_str()) {
        Ok(v) => v,
        Err(e) => return Err(e),
    };
    let will_message = match (will_topic, will_payload, will_qos, will_retain) {
        (Some(topic), Some(payload), Some(qos), Some(retain)) => Some(
            PersistedWillMessage {
                topic,
                payload: bytes_from_vec(payload),
                qos: qos_or(qos, StoredQoS::AtMostOnce),
                retain: retain != 0,
            },
        ),
        _ => None,
    };
    Ok(
        PersistedSession {
            client_id,
            next_packet_id: next_packet_id as u16,
            keep_alive: keep_alive as u16,
            will_message,
            created_at: created,
            updated_at: updated,
        },
    )
}

/// The subscription of a `subscriptions` row; a level number that names none
/// reads as QoS 0.
pub fn subscription_from_row(client_id: String, topic_filter: String, qos: u8) -> (r: PersistedSubscription)
    ensures
        r@ == (SubscriptionRecord {
            client_id: client_id@,
            topic_filter: topic_filter@,
            qos: stored_qos_or(qos, StoredQoS::AtMostOnce),
        }),
{
    PersistedSubscription { client_id, topic_filter, qos: qos_or(qos, StoredQoS::AtMostOnce) }
}

/// The outgoing message of an `inflight_messages` row. A `created_at` that
/// does not read gives `InvalidDateTime` under `client_id:packet_id`. A level
/// number that names none reads as QoS 1; packet id and retry count keep the
/// low bits of their columns.
pub fn inflight_from_row(
    client_id: String,
    packet_id: i32,
    topic: String,
    payload: Vec<u8>,
    qos: u8,
    retain: i32,
    retry_count: i64,
    qos2_state: Option<u8>,
    created_at: &str,
) -> (r: Result<PersistedInflightMessage, StorageError>)
    ensures
        match rfc3339_millis(created_at@) {
            Some(c) => r matches Ok(m) && m@ == (InflightRecord {
                client_id: client_id@,
                packet_id: packet_id as u16,
                topic: topic@,
                payload: payload@,
                qos: stored_qos_or(qos, StoredQoS::AtLeastOnce),
                retain: retain != 0,
                retry_count: retry_count as u32,
                qos2_state: qos2_state_of(qos2_state),
                created_at: c,
            }),
            None => invalid_time(
                r,
                "inflight_messages"@,
                "created_at"@,
                message_record_id(client_id@, packet_id),
                created_at@,
            ),
        },
{
    let id = record_id(client_id.as_str(), packet_id);
    let created = match parse_datetime(created_at, "inflight_messages", "created_at", id.as_str()) {
        Ok(v) => v,
        Err(e) => return Err(e),
    };
    let state = match qos2_state {
        Some(v) => PersistedQos2State::from_u8(v),
        None => None,
    };
    Ok(
        PersistedInflightMessage {
            client_id,
            packet_id: packet_id as u16,
            topic,
            payload: bytes_from_vec(payload),
            qos: qos_or(qos, StoredQoS::AtLeastOnce),
            retain: retain != 0,
            retry_count: retry_count as u32,
            qos2_state: state,
            created_at: created,
        },
    )
}

/// The incoming QoS 2 message of an `inbound_qos2_messages` row. A
/// `received_at` that does not read gives `InvalidDateTime` under
/// `client_id:packet_id`.
pub fn inbound_from_row(
    client_id: String,
    packet_id: i32,
    topic: String,
    payload: Vec<u8>,
    retain: i32,
    received_at: &str,
) -> (r: Result<PersistedInboundQos2Message, StorageError>)
    ensures
        match rfc3339_millis(received_at@) {
            Some(t) => r matches Ok(m) && m@ == (InboundRecord {
                client_id: client_id@,
                packet_id: packet_id as u16,
                topic: topic@,
                payload: payload@,
                retain: retain != 0,
                received_at: t,
            }),
            None => invalid_time(
                r,
                "inbound_qos2_messages"@,
                "received_at"@,
                message_record_id(client_id@, packet_id),
                received_at@,
            ),
        },
{
    let id = record_id(client_id.as_str(), packet_id);
    let received = match parse_datetime(received_at, "inbound_qos2_messages", "received_at", id.as_str()) {
        Ok(v) => v,
        Err(e) => return Err(e),
    };
    Ok(
        PersistedInboundQos2Message {
            client_id,
            packet_id: packet_id as u16,
            topic,
            payload: bytes_from_vec(payload),
            retain: retain != 0,
            received_at: received,
        },
    )
}

/// The retained message of a `retained_messages` row. An `updated_at` that
/// does not read gives `InvalidDateTime` under the topic; a level number that
/// names none reads as QoS 0.
pub fn retained_from_row(topic: String, payload: Vec<u8>, qos: u8, updated_at: &str) -> (r: Result<
    PersistedRetainedMessage,
    StorageError,
>)
    ensures
        match rfc3339_millis(updated_at@) {
            Some(u) => r matches Ok(m) && m@ == (RetainedRecord {
                topic: topic@,
                payload: payload@,
                qos: stored_qos_or(qos, StoredQoS::AtMostOnce),
                updated_at: u,
            }),
            None => invalid_time(r, "retained_messages"@, "updated_at"@, topic@, updated_at@),
        },
{
    let updated = match parse_datetime(updated_at, "retained_messages", "updated_at", topic.as_str()) {
        Ok(v) => v,
        Err(e) => return Err(e),
    };
    Ok(
        PersistedRetainedMessage {
            topic,
            payload: bytes_from_vec(payload),
            qos: qos_or(qos, StoredQoS::AtMostOnce),
            updated_at: updated,
        },
    )
}

} // verus!
