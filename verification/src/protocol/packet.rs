//! MQTT v3.1.1 control packets and their byte encoding.
//!
//! Decoding reads the variable header and payload of a packet whose fixed
//! header has already been read; every decoder is specified by a function on
//! the unread bytes (`spec_decode_*`). Those functions return `Parse::Short`
//! exactly where reading would run past the end of the buffer, which the
//! byte reader of `bytes` answers with a panic.

use crate::text::string_from_utf8;
use crate::buf::{
    bytes_as_slice, bytes_clone, bytes_from_vec, bytes_len, bytes_mut_view, bytes_view,
    cursor_get_u16, cursor_get_u8, cursor_new, cursor_remaining, cursor_take, cursor_unread,
    put_slice, put_u16, put_u8,
};
use bytes::{Bytes, BytesMut};
use std::io::Cursor;
use vstd::prelude::*;
use vstd::utf8::*;

verus! {



/// Ways in which a packet can fail to decode.
#[derive(Debug, Clone, Copy, PartialEq, Eq, Structural)]
pub enum PacketError {
    InvalidPacketType(u8),
    InvalidRemainingLength,
    IncompletePacket,
    InvalidUtf8,
    InvalidPacketFlags,
}

/// The control packet types. The position of each variant is its type number
/// on the wire: `Reserved` stands for the reserved number 0.
#[derive(Debug, Clone, Copy, PartialEq, Eq, Structural)]
pub enum PacketType {
    Reserved,
    Connect,
    ConnAck,
    Publish,
    PubAck,
    PubRec,
    PubRel,
    PubComp,
    Subscribe,
    SubAck,
    Unsubscribe,
    UnsubAck,
    PingReq,
    PingResp,
    Disconnect,
}

/// Quality of service levels.
#[derive(Debug, Clone, Copy, PartialEq, Eq, Structural)]
pub enum QoS {
    AtMostOnce,
    AtLeastOnce,
    ExactlyOnce,
}

/// Wire number of a packet type.
pub open spec fn packet_type_num(t: PacketType) -> u8 {
    match t {
        PacketType::Reserved => 0,
        PacketType::Connect => 1,
        PacketType::ConnAck => 2,
        PacketType::Publish => 3,
        PacketType::PubAck => 4,
        PacketType::PubRec => 5,
        PacketType::PubRel => 6,
        PacketType::PubComp => 7,
        PacketType::Subscribe => 8,
        PacketType::SubAck => 9,
        PacketType::Unsubscribe => 10,
        PacketType::UnsubAck => 11,
        PacketType::PingReq => 12,
        PacketType::PingResp => 13,
        PacketType::Disconnect => 14,
    }
}

/// Wire number of a QoS level.
pub open spec fn qos_num(q: QoS) -> u8 {
    match q {
        QoS::AtMostOnce => 0,
        QoS::AtLeastOnce => 1,
        QoS::ExactlyOnce => 2,
    }
}

/// QoS level of a wire number, if it names one.
pub open spec fn qos_from_num(v: u8) -> Option<QoS> {
    if v == 0 {
        Some(QoS::AtMostOnce)
    } else if v == 1 {
        Some(QoS::AtLeastOnce)
    } else if v == 2 {
        Some(QoS::ExactlyOnce)
    } else {
        None
    }
}

/// The lower of two QoS levels.
pub open spec fn qos_min(a: QoS, b: QoS) -> QoS {
    if qos_num(a) <= qos_num(b) {
        a
    } else {
        b
    }
}

impl QoS {
    /// Wire number of the level.
    pub fn as_u8(self) -> (v: u8)
        ensures
            v == qos_num(self),
    {
        match self {
            QoS::AtMostOnce => 0,
            QoS::AtLeastOnce => 1,
            QoS::ExactlyOnce => 2,
        }
    }

    /// The level with the given wire number.
    pub fn from_u8(v: u8) -> (q: Option<QoS>)
        ensures
            q == qos_from_num(v),
    {
        if v == 0 {
            Some(QoS::AtMostOnce)
        } else if v == 1 {
            Some(QoS::AtLeastOnce)
        } else if v == 2 {
            Some(QoS::ExactlyOnce)
        } else {
            None
        }
    }

    /// The lower of two levels: what a subscriber receives of a message
    /// published at one level when it subscribed at the other.
    pub fn min(self, other: QoS) -> (q: QoS)
        ensures
            q == qos_min(self, other),
    {
        if self.as_u8() <= other.as_u8() {
            self
        } else {
            other
        }
    }
}

/// Packet type of a wire number, if it names a non-reserved one.
pub open spec fn packet_type_from_num(v: u8) -> Option<PacketType> {
    if v == 1 {
        Some(PacketType::Connect)
    } else if v == 2 {
        Some(PacketType::ConnAck)
    } else if v == 3 {
        Some(PacketType::Publish)
    } else if v == 4 {
        Some(PacketType::PubAck)
    } else if v == 5 {
        Some(PacketType::PubRec)
    } else if v == 6 {
        Some(PacketType::PubRel)
    } else if v == 7 {
        Some(PacketType::PubComp)
    } else if v == 8 {
        Some(PacketType::Subscribe)
    } else if v == 9 {
        Some(PacketType::SubAck)
    } else if v == 10 {
        Some(PacketType::Unsubscribe)
    } else if v == 11 {
        Some(PacketType::UnsubAck)
    } else if v == 12 {
        Some(PacketType::PingReq)
    } else if v == 13 {
        Some(PacketType::PingResp)
    } else if v == 14 {
        Some(PacketType::Disconnect)
    } else {
        None
    }
}

impl PacketType {
    /// The packet type with the given wire number; the reserved numbers 0 and
    /// 15 and all larger values are rejected.
    pub fn try_from(value: u8) -> (res: Result<PacketType, PacketError>)
        ensures
            match packet_type_from_num(value) {
                Some(t) => res == Ok::<PacketType, PacketError>(t),
                None => res == Err::<PacketType, PacketError>(PacketError::InvalidPacketType(value)),
            },
    {
        match value {
            1 => Ok(PacketType::Connect),
            2 => Ok(PacketType::ConnAck),
            3 => Ok(PacketType::Publish),
            4 => Ok(PacketType::PubAck),
            5 => Ok(PacketType::PubRec),
            6 => Ok(PacketType::PubRel),
            7 => Ok(PacketType::PubComp),
            8 => Ok(PacketType::Subscribe),
            9 => Ok(PacketType::SubAck),
            10 => Ok(PacketType::Unsubscribe),
            11 => Ok(PacketType::UnsubAck),
            12 => Ok(PacketType::PingReq),
            13 => Ok(PacketType::PingResp),
            14 => Ok(PacketType::Disconnect),
            _ => Err(PacketError::InvalidPacketType(value)),
        }
    }

    /// Wire number of the type.
    pub fn as_u8(self) -> (v: u8)
        ensures
            v == packet_type_num(self),
    {
        match self {
            PacketType::Reserved => 0,
            PacketType::Connect => 1,
            PacketType::ConnAck => 2,
            PacketType::Publish => 3,
            PacketType::PubAck => 4,
            PacketType::PubRec => 5,
            PacketType::PubRel => 6,
            PacketType::PubComp => 7,
            PacketType::Subscribe => 8,
            PacketType::SubAck => 9,
            PacketType::Unsubscribe => 10,
            PacketType::UnsubAck => 11,
            PacketType::PingReq => 12,
            PacketType::PingResp => 13,
            PacketType::Disconnect => 14,
        }
    }
}

/// The fixed header of a packet.
pub struct FixedHeader {
    pub packet_type: PacketType,
    pub flags: u8,
    pub remaining_length: u32,
}

/// A CONNECT packet.
pub struct ConnectPacket {
    pub protocol_name: String,
    pub protocol_level: u8,
    pub clean_session: bool,
    pub keep_alive: u16,
    pub client_id: String,
    pub will_flag: bool,
    pub will_qos: QoS,
    pub will_retain: bool,
    pub will_topic: Option<String>,
    pub will_payload: Option<Bytes>,
    pub username: Option<String>,
    pub password: Option<Bytes>,
}

/// A CONNACK packet.
pub struct ConnAckPacket {
    pub session_present: bool,
    pub return_code: u8,
}

/// A PUBLISH packet.
pub struct PublishPacket {
    pub topic: String,
    pub packet_id: Option<u16>,
    pub payload: Bytes,
    pub qos: QoS,
    pub retain: bool,
    pub dup: bool,
}

/// A PUBACK packet.
pub struct PubAckPacket {
    pub packet_id: u16,
}

/// A PUBREC packet.
pub struct PubRecPacket {
    pub packet_id: u16,
}

/// A PUBREL packet.
pub struct PubRelPacket {
    pub packet_id: u16,
}

/// A PUBCOMP packet.
pub struct PubCompPacket {
    pub packet_id: u16,
}

/// A SUBSCRIBE packet.
pub struct SubscribePacket {
    pub packet_id: u16,
    pub topic_filters: Vec<(String, QoS)>,
}

/// A SUBACK packet.
pub struct SubAckPacket {
    pub packet_id: u16,
    pub return_codes: Vec<u8>,
}

/// An UNSUBSCRIBE packet.
pub struct UnsubscribePacket {
    pub packet_id: u16,
    pub topic_filters: Vec<String>,
}

/// An UNSUBACK packet.
pub struct UnsubAckPacket {
    pub packet_id: u16,
}

/// Any control packet.
pub enum Packet {
    Connect(ConnectPacket),
    ConnAck(ConnAckPacket),
    Publish(PublishPacket),
    PubAck(PubAckPacket),
    PubRec(PubRecPacket),
    PubRel(PubRelPacket),
    PubComp(PubCompPacket),
    Subscribe(SubscribePacket),
    SubAck(SubAckPacket),
    Unsubscribe(UnsubscribePacket),
    UnsubAck(UnsubAckPacket),
    PingReq,
    PingResp,
    Disconnect,
}

/// Abstract value of a CONNECT packet.
pub struct ConnectModel {
    pub protocol_name: Seq<char>,
    pub protocol_level: u8,
    pub clean_session: bool,
    pub keep_alive: u16,
    pub client_id: Seq<char>,
    pub will_flag: bool,
    pub will_qos: QoS,
    pub will_retain: bool,
    pub will_topic: Option<Seq<char>>,
    pub will_payload: Option<Seq<u8>>,
    pub username: Option<Seq<char>>,
    pub password: Option<Seq<u8>>,
}

/// Abstract value of a PUBLISH packet.
pub struct PublishModel {
    pub topic: Seq<char>,
    pub packet_id: Option<u16>,
    pub payload: Seq<u8>,
    pub qos: QoS,
    pub retain: bool,
    pub dup: bool,
}

/// Abstract value of a SUBSCRIBE packet.
pub struct SubscribeModel {
    pub packet_id: u16,
    pub topic_filters: Seq<(Seq<char>, QoS)>,
}

/// Abstract value of an UNSUBSCRIBE packet.
pub struct UnsubscribeModel {
    pub packet_id: u16,
    pub topic_filters: Seq<Seq<char>>,
}

/// Abstract value of any control packet.
pub enum PacketModel {
    Connect(ConnectModel),
    ConnAck(bool, u8),
    Publish(PublishModel),
    PubAck(u16),
    PubRec(u16),
    PubRel(u16),
    PubComp(u16),
    Subscribe(SubscribeModel),
    SubAck(u16, Seq<u8>),
    Unsubscribe(UnsubscribeModel),
    UnsubAck(u16),
    PingReq,
    PingResp,
    Disconnect,
}

pub open spec fn opt_str_view(o: Option<String>) -> Option<Seq<char>> {
    match o {
        Some(s) => Some(s@),
        None => None,
    }
}

pub open spec fn opt_bytes_view(o: Option<Bytes>) -> Option<Seq<u8>> {
    match o {
        Some(b) => Some(bytes_view(b)),
        None => None,
    }
}

impl View for ConnectPacket {
    type V = ConnectModel;

    open spec fn view(&self) -> ConnectModel {
        ConnectModel {
            protocol_name: self.protocol_name@,
            protocol_level: self.protocol_level,
            clean_session: self.clean_session,
            keep_alive: self.keep_alive,
            client_id: self.client_id@,
            will_flag: self.will_flag,
            will_qos: self.will_qos,
            will_retain: self.will_retain,
            will_topic: opt_str_view(self.will_topic),
            will_payload: opt_bytes_view(self.will_payload),
            username: opt_str_view(self.username),
            password: opt_bytes_view(self.password),
        }
    }
}

impl View for PublishPacket {
    type V = PublishModel;

    open spec fn view(&self) -> PublishModel {
        PublishModel {
            topic: self.topic@,
            packet_id: self.packet_id,
            payload: bytes_view(self.payload),
            qos: self.qos,
            retain: self.retain,
            dup: self.dup,
        }
    }
}

pub open spec fn filter_qos_view(v: Seq<(String, QoS)>) -> Seq<(Seq<char>, QoS)> {
    v.map_values(|p: (String, QoS)| (p.0@, p.1))
}

pub open spec fn strings_view(v: Seq<String>) -> Seq<Seq<char>> {
    v.map_values(|s: String| s@)
}

impl View for SubscribePacket {
    type V = SubscribeModel;

    open spec fn view(&self) -> SubscribeModel {
        SubscribeModel { packet_id: self.packet_id, topic_filters: filter_qos_view(self.topic_filters@) }
    }
}

impl View for UnsubscribePacket {
    type V = UnsubscribeModel;

    open spec fn view(&self) -> UnsubscribeModel {
        UnsubscribeModel { packet_id: self.packet_id, topic_filters: strings_view(self.topic_filters@) }
    }
}

impl View for Packet {
    type V = PacketModel;

    open spec fn view(&self) -> PacketModel {
        match self {
            Packet::Connect(p) => PacketModel::Connect(p@),
            Packet::ConnAck(p) => PacketModel::ConnAck(p.session_present, p.return_code),
            Packet::Publish(p) => PacketModel::Publish(p@),
            Packet::PubAck(p) => PacketModel::PubAck(p.packet_id),
            Packet::PubRec(p) => PacketModel::PubRec(p.packet_id),
            Packet::PubRel(p) => PacketModel::PubRel(p.packet_id),
            Packet::PubComp(p) => PacketModel::PubComp(p.packet_id),
            Packet::Subscribe(p) => PacketModel::Subscribe(p@),
            Packet::SubAck(p) => PacketModel::SubAck(p.packet_id, p.return_codes@),
            Packet::Unsubscribe(p) => PacketModel::Unsubscribe(p@),
            Packet::UnsubAck(p) => PacketModel::UnsubAck(p.packet_id),
            Packet::PingReq => PacketModel::PingReq,
            Packet::PingResp => PacketModel::PingResp,
            Packet::Disconnect => PacketModel::Disconnect,
        }
    }
}

impl PublishPacket {
    /// A copy of the packet sharing the same payload bytes.
    pub fn duplicate(&self) -> (p: PublishPacket)
        ensures
            p@ == self@,
    {
        PublishPacket {
            topic: self.topic.clone(),
            packet_id: self.packet_id,
            payload: bytes_clone(&self.payload),
            qos: self.qos,
            retain: self.retain,
            dup: self.dup,
        }
    }
}

// ---------------------------------------------------------------------------
// Decoding
// ---------------------------------------------------------------------------

/// Outcome of reading a value from the front of a byte sequence: the value and
/// the number of bytes it took, a decoding error, or `Short` where the reader
/// would run past the end of the bytes.
pub enum Parse<T> {
    Done(T, nat),
    Fail(PacketError),
    Short,
}

/// Outcome of a decoder that never panics: the value, a decoding error, or
/// `Truncated` where the bytes end before a field that is read without a
/// length check.
pub enum Decoded<T> {
    Value(T),
    Error(PacketError),
    Truncated,
}

/// Big-endian value of two bytes.
pub open spec fn be_u16(hi: u8, lo: u8) -> u16 {
    (hi as int * 256 + lo as int) as u16
}

/// A length-prefixed UTF-8 string at the front of `s`.
pub open spec fn spec_decode_string(s: Seq<u8>) -> Parse<Seq<char>> {
    if s.len() < 2 {
        Parse::Fail(PacketError::IncompletePacket)
    } else {
        let n = be_u16(s[0], s[1]) as int;
        if s.len() - 2 < n {
            Parse::Fail(PacketError::IncompletePacket)
        } else if valid_utf8(s.subrange(2, 2 + n)) {
            Parse::Done(decode_utf8(s.subrange(2, 2 + n)), (2 + n) as nat)
        } else {
            Parse::Fail(PacketError::InvalidUtf8)
        }
    }
}


/// Reads a length-prefixed UTF-8 string.
pub fn decode_string(cursor: &mut Cursor<&[u8]>) -> (res: Result<String, PacketError>)
    ensures
        match spec_decode_string(cursor_unread(*old(cursor))) {
            Parse::Done(v, k) => res matches Ok(s) && s@ == v && cursor_unread(*final(cursor))
                == cursor_unread(*old(cursor)).skip(k as int),
            Parse::Fail(e) => res == Err::<String, PacketError>(e),
            Parse::Short => false,
        },
{
    let ghost s0 = cursor_unread(*cursor);
    if cursor_remaining(cursor) < 2 {
        return Err(PacketError::IncompletePacket);
    }
    let len = cursor_get_u16(cursor) as usize;
    if cursor_remaining(cursor) < len {
        return Err(PacketError::IncompletePacket);
    }
    let bytes = cursor_take(cursor, len);
    proof {
        assert(bytes@ =~= s0.subrange(2, 2 + len as int));
        assert(cursor_unread(*cursor) =~= s0.skip(2 + len as int));
    }
    match string_from_utf8(bytes) {
        Some(s) => Ok(s),
        None => Err(PacketError::InvalidUtf8),
    }
}


/// Two bytes holding a value in big-endian order.
pub open spec fn u16_bytes(v: u16) -> Seq<u8> {
    seq![(v / 256) as u8, (v % 256) as u8]
}

/// A string as written on the wire: its UTF-8 length (truncated to 16 bits,
/// as the writer does) followed by its UTF-8 bytes.
pub open spec fn spec_encode_string(s: Seq<char>) -> Seq<u8> {
    u16_bytes(encode_utf8(s).len() as u16) + encode_utf8(s)
}

/// Writes a length-prefixed UTF-8 string.
pub fn encode_string(s: &str, buf: &mut BytesMut)
    requires
        bytes_mut_view(*old(buf)).len() + spec_encode_string(s@).len() <= isize::MAX,
    ensures
        bytes_mut_view(*final(buf)) == bytes_mut_view(*old(buf)) + spec_encode_string(s@),
{
    put_u16(buf, s.len() as u16);
    put_slice(buf, s.as_bytes());
    assert(bytes_mut_view(*buf) =~= bytes_mut_view(*old(buf)) + spec_encode_string(s@));
}

/// A string of at most 65535 UTF-8 bytes reads back as itself, whatever
/// follows it.
pub proof fn lemma_string_roundtrip(s: Seq<char>, rest: Seq<u8>)
    requires
        encode_utf8(s).len() <= 65535,
    ensures
        spec_decode_string(spec_encode_string(s) + rest) == Parse::Done(
            s,
            (2 + encode_utf8(s).len()) as nat,
        ),
{
    broadcast use encode_utf8_valid_utf8, encode_utf8_decode_utf8;

    let b = encode_utf8(s);
    let all = spec_encode_string(s) + rest;
    let n = b.len() as u16;
    assert(all[0] == (n / 256) as u8);
    assert(all[1] == (n % 256) as u8);
    assert(be_u16(all[0], all[1]) == n);
    assert(all.subrange(2, 2 + b.len() as int) =~= b);
}

/// Length-prefixed binary data at the front of `s`.
pub open spec fn spec_decode_binary(s: Seq<u8>) -> Parse<Seq<u8>> {
    if s.len() < 2 {
        Parse::Fail(PacketError::IncompletePacket)
    } else {
        let n = be_u16(s[0], s[1]) as int;
        if s.len() - 2 < n {
            Parse::Fail(PacketError::IncompletePacket)
        } else {
            Parse::Done(s.subrange(2, 2 + n), (2 + n) as nat)
        }
    }
}

/// Reads length-prefixed binary data.
fn decode_binary(cursor: &mut Cursor<&[u8]>) -> (res: Result<Bytes, PacketError>)
    ensures
        match spec_decode_binary(cursor_unread(*old(cursor))) {
            Parse::Done(v, k) => res matches Ok(b) && bytes_view(b) == v && cursor_unread(
                *final(cursor),
            ) == cursor_unread(*old(cursor)).skip(k as int),
            Parse::Fail(e) => res == Err::<Bytes, PacketError>(e),
            Parse::Short => false,
        },
{
    let ghost s0 = cursor_unread(*cursor);
    if cursor_remaining(cursor) < 2 {
        return Err(PacketError::IncompletePacket);
    }
    let len = cursor_get_u16(cursor) as usize;
    if cursor_remaining(cursor) < len {
        return Err(PacketError::IncompletePacket);
    }
    let bytes = cursor_take(cursor, len);
    proof {
        assert(bytes@ =~= s0.subrange(2, 2 + len as int));
        assert(cursor_unread(*cursor) =~= s0.skip(2 + len as int));
    }
    Ok(bytes_from_vec(bytes))
}

/// The will topic and will message of a CONNECT packet, present when the
/// will flag is set. The message length is read without a bounds check.
pub open spec fn spec_decode_will(s: Seq<u8>, will_flag: bool) -> Parse<
    (Option<Seq<char>>, Option<Seq<u8>>),
> {
    if !will_flag {
        Parse::Done((None, None), 0)
    } else {
        match spec_decode_string(s) {
            Parse::Done(topic, k) => {
                let r = s.skip(k as int);
                if r.len() < 2 {
                    Parse::Short
                } else {
                    let n = be_u16(r[0], r[1]) as int;
                    if r.len() - 2 < n {
                        Parse::Short
                    } else {
                        Parse::Done((Some(topic), Some(r.subrange(2, 2 + n))), (k + 2 + n) as nat)
                    }
                }
            },
            Parse::Fail(e) => Parse::Fail(e),
            Parse::Short => Parse::Short,
        }
    }
}

/// A string that is present when `present` holds.
pub open spec fn spec_decode_opt_string(s: Seq<u8>, present: bool) -> Parse<Option<Seq<char>>> {
    if !present {
        Parse::Done(None, 0)
    } else {
        match spec_decode_string(s) {
            Parse::Done(v, k) => Parse::Done(Some(v), k),
            Parse::Fail(e) => Parse::Fail(e),
            Parse::Short => Parse::Short,
        }
    }
}

/// Binary data that is present when `present` holds.
pub open spec fn spec_decode_opt_binary(s: Seq<u8>, present: bool) -> Parse<Option<Seq<u8>>> {
    if !present {
        Parse::Done(None, 0)
    } else {
        match spec_decode_binary(s) {
            Parse::Done(v, k) => Parse::Done(Some(v), k),
            Parse::Fail(e) => Parse::Fail(e),
            Parse::Short => Parse::Short,
        }
    }
}

/// The will QoS a CONNECT packet's flags give: bits 3 and 4 when the will flag
/// (bit 2) is set, else at-most-once; `None` for the invalid value 3.
pub open spec fn connect_will_qos(flags: u8) -> Option<QoS> {
    if flags & 0x04 != 0 {
        qos_from_num((flags >> 3) & 0x03)
    } else {
        Some(QoS::AtMostOnce)
    }
}

/// The optional trailing fields of a CONNECT payload, in wire order: will
/// topic and message, user name, password.
pub struct ConnectTail {
    pub will_topic: Option<Seq<char>>,
    pub will_payload: Option<Seq<u8>>,
    pub username: Option<Seq<char>>,
    pub password: Option<Seq<u8>>,
}

/// The payload fields that follow the client id, selected by the connect flags.
pub open spec fn spec_decode_connect_tail(s: Seq<u8>, flags: u8) -> Parse<ConnectTail> {
    match spec_decode_will(s, flags & 0x04 != 0) {
        Parse::Done(will, k1) => {
            let s1 = s.skip(k1 as int);
            match spec_decode_opt_string(s1, flags & 0x80 != 0) {
                Parse::Done(username, k2) => {
                    let s2 = s1.skip(k2 as int);
                    match spec_decode_opt_binary(s2, flags & 0x40 != 0) {
                        Parse::Done(password, k3) => Parse::Done(
                            ConnectTail {
                                will_topic: will.0,
                                will_payload: will.1,
                                username,
                                password,
                            },
                            k1 + k2 + k3,
                        ),
                        Parse::Fail(e) => Parse::Fail(e),
                        Parse::Short => Parse::Short,
                    }
                },
                Parse::Fail(e) => Parse::Fail(e),
                Parse::Short => Parse::Short,
            }
        },
        Parse::Fail(e) => Parse::Fail(e),
        Parse::Short => Parse::Short,
    }
}

/// The fields of a CONNECT packet up to the client id.
pub struct ConnectHeader {
    pub protocol_name: Seq<char>,
    pub protocol_level: u8,
    pub flags: u8,
    pub keep_alive: u16,
    pub client_id: Seq<char>,
}

/// Protocol name, level, connect flags, keep-alive and client id; the level,
/// flags and keep-alive are read without a bounds check.
pub open spec fn spec_decode_connect_header(s: Seq<u8>) -> Parse<ConnectHeader> {
    match spec_decode_string(s) {
        Parse::Done(protocol_name, k1) => {
            let h = s.skip(k1 as int);
            if h.len() < 4 {
                Parse::Short
            } else {
                match spec_decode_string(h.skip(4)) {
                    Parse::Done(client_id, k2) => Parse::Done(
                        ConnectHeader {
                            protocol_name,
                            protocol_level: h[0],
                            flags: h[1],
                            keep_alive: be_u16(h[2], h[3]),
                            client_id,
                        },
                        k1 + 4 + k2,
                    ),
                    Parse::Fail(e) => Parse::Fail(e),
                    Parse::Short => Parse::Short,
                }
            }
        },
        Parse::Fail(e) => Parse::Fail(e),
        Parse::Short => Parse::Short,
    }
}

/// The CONNECT packet made of its header, will QoS and trailing fields.
pub open spec fn connect_model(h: ConnectHeader, will_qos: QoS, t: ConnectTail) -> ConnectModel {
    ConnectModel {
        protocol_name: h.protocol_name,
        protocol_level: h.protocol_level,
        clean_session: h.flags & 0x02 != 0,
        keep_alive: h.keep_alive,
        client_id: h.client_id,
        will_flag: h.flags & 0x04 != 0,
        will_qos,
        will_retain: h.flags & 0x20 != 0,
        will_topic: t.will_topic,
        will_payload: t.will_payload,
        username: t.username,
        password: t.password,
    }
}

/// The variable header and payload of a CONNECT packet: the header fields,
/// a check of the will QoS bits, then the fields the connect flags select.
pub open spec fn spec_decode_connect(s: Seq<u8>) -> Parse<ConnectModel> {
    match spec_decode_connect_header(s) {
        Parse::Done(h, k1) => match connect_will_qos(h.flags) {
            None => Parse::Fail(PacketError::InvalidPacketFlags),
            Some(will_qos) => match spec_decode_connect_tail(s.skip(k1 as int), h.flags) {
                Parse::Done(t, k2) => Parse::Done(connect_model(h, will_qos, t), k1 + k2),
                Parse::Fail(e) => Parse::Fail(e),
                Parse::Short => Parse::Short,
            },
        },
        Parse::Fail(e) => Parse::Fail(e),
        Parse::Short => Parse::Short,
    }
}

/// The connect flags of a CONNECT decide its flag fields: for the flags byte
/// that follows the protocol name and level, a decoded CONNECT has the will
/// flag of bit 2, the clean-session flag of bit 1 and the will-retain flag of
/// bit 5; with the will flag its will QoS is the level numbered by bits 3-4
/// (a CONNECT whose will QoS bits are 3 does not decode), without it QoS 0.
pub proof fn lemma_connect_flags(s: Seq<u8>, name: Seq<char>, k: nat)
    requires
        spec_decode_string(s) == Parse::Done(name, k),
        s.len() >= k + 4,
    ensures
        ({
            let flags = s[k + 1int];
            let will = flags & 0x04 != 0;
            let bits = (flags >> 3) & 0x03;
            &&& spec_decode_connect(s) matches Parse::Done(c, _) ==> {
                &&& c.will_flag == will
                &&& c.clean_session == (flags & 0x02 != 0)
                &&& c.will_retain == (flags & 0x20 != 0)
                &&& will ==> qos_num(c.will_qos) == bits
                &&& !will ==> c.will_qos == QoS::AtMostOnce
            }
            &&& (will && bits == 3) ==> !(spec_decode_connect(s) is Done)
        }),
{
    let h = s.skip(k as int);
    assert(h[1] == s[k + 1int]);
    let flags = s[k + 1int];
    let bits = (flags >> 3) & 0x03;
    assert(bits <= 3) by (bit_vector)
        requires
            bits == (flags >> 3) & 0x03,
    ;
    if bits <= 2 {
        assert(qos_num(qos_from_num(bits)->0) == bits);
    }
}

/// How a never-panicking decoder's result relates to the specification of the
/// bytes it read: the value and the bytes left after it, the error, or
/// `Truncated` exactly where the specification says the bytes end too early.
pub open spec fn decoded_as<T, V>(
    res: Decoded<T>,
    spec: Parse<V>,
    view: spec_fn(T) -> V,
    before: Seq<u8>,
    after: Seq<u8>,
) -> bool {
    match spec {
        Parse::Done(v, k) => res matches Decoded::Value(x) && view(x) == v && after == before.skip(
            k as int,
        ),
        Parse::Fail(e) => res matches Decoded::Error(f) && f == e,
        Parse::Short => res is Truncated,
    }
}

fn read_will(cursor: &mut Cursor<&[u8]>, will_flag: bool) -> (res: Decoded<
    (Option<String>, Option<Bytes>),
>)
    ensures
        decoded_as(
            res,
            spec_decode_will(cursor_unread(*old(cursor)), will_flag),
            |x: (Option<String>, Option<Bytes>)| (opt_str_view(x.0), opt_bytes_view(x.1)),
            cursor_unread(*old(cursor)),
            cursor_unread(*final(cursor)),
        ),
{
    let ghost s0 = cursor_unread(*cursor);
    if !will_flag {
        assert(s0.skip(0) =~= s0);
        return Decoded::Value((None, None));
    }
    let topic = match decode_string(cursor) {
        Ok(t) => t,
        Err(e) => return Decoded::Error(e),
    };
    let ghost s1 = cursor_unread(*cursor);
    if cursor_remaining(cursor) < 2 {
        return Decoded::Truncated;
    }
    let len = cursor_get_u16(cursor) as usize;
    if cursor_remaining(cursor) < len {
        return Decoded::Truncated;
    }
    let payload = cursor_take(cursor, len);
    proof {
        assert(payload@ =~= s1.subrange(2, 2 + len as int));
        if let Parse::Done(_, k) = spec_decode_string(s0) {
            assert(s1 == s0.skip(k as int));
            assert(cursor_unread(*cursor) =~= s0.skip((k + 2 + len) as int));
        }
    }
    Decoded::Value((Some(topic), Some(bytes_from_vec(payload))))
}

fn read_opt_string(cursor: &mut Cursor<&[u8]>, present: bool) -> (res: Decoded<Option<String>>)
    ensures
        decoded_as(
            res,
            spec_decode_opt_string(cursor_unread(*old(cursor)), present),
            |x: Option<String>| opt_str_view(x),
            cursor_unread(*old(cursor)),
            cursor_unread(*final(cursor)),
        ),
{
    if !present {
        assert(cursor_unread(*cursor).skip(0) =~= cursor_unread(*cursor));
        return Decoded::Value(None);
    }
    match decode_string(cursor) {
        Ok(s) => Decoded::Value(Some(s)),
        Err(e) => Decoded::Error(e),
    }
}

fn read_opt_binary(cursor: &mut Cursor<&[u8]>, present: bool) -> (res: Decoded<Option<Bytes>>)
    ensures
        decoded_as(
            res,
            spec_decode_opt_binary(cursor_unread(*old(cursor)), present),
            |x: Option<Bytes>| opt_bytes_view(x),
            cursor_unread(*old(cursor)),
            cursor_unread(*final(cursor)),
        ),
{
    if !present {
        assert(cursor_unread(*cursor).skip(0) =~= cursor_unread(*cursor));
        return Decoded::Value(None);
    }
    match decode_binary(cursor) {
        Ok(b) => Decoded::Value(Some(b)),
        Err(e) => Decoded::Error(e),
    }
}

/// The optional trailing fields of a CONNECT payload as the reader returns them.
pub struct ConnectTailFields {
    pub will_topic: Option<String>,
    pub will_payload: Option<Bytes>,
    pub username: Option<String>,
    pub password: Option<Bytes>,
}

pub open spec fn connect_tail_view(t: ConnectTailFields) -> ConnectTail {
    ConnectTail {
        will_topic: opt_str_view(t.will_topic),
        will_payload: opt_bytes_view(t.will_payload),
        username: opt_str_view(t.username),
        password: opt_bytes_view(t.password),
    }
}

fn read_connect_tail(cursor: &mut Cursor<&[u8]>, connect_flags: u8) -> (res: Decoded<
    ConnectTailFields,
>)
    ensures
        decoded_as(
            res,
            spec_decode_connect_tail(cursor_unread(*old(cursor)), connect_flags),
            |t: ConnectTailFields| connect_tail_view(t),
            cursor_unread(*old(cursor)),
            cursor_unread(*final(cursor)),
        ),
{
    let ghost t0 = cursor_unread(*cursor);
    let (will_topic, will_payload) = match read_will(cursor, (connect_flags & 0x04) != 0) {
        Decoded::Value(w) => w,
        Decoded::Error(e) => return Decoded::Error(e),
        Decoded::Truncated => return Decoded::Truncated,
    };
    let ghost t1 = cursor_unread(*cursor);
    let username = match read_opt_string(cursor, (connect_flags & 0x80) != 0) {
        Decoded::Value(u) => u,
        Decoded::Error(e) => return Decoded::Error(e),
        Decoded::Truncated => return Decoded::Truncated,
    };
    let ghost t2 = cursor_unread(*cursor);
    let password = match read_opt_binary(cursor, (connect_flags & 0x40) != 0) {
        Decoded::Value(p) => p,
        Decoded::Error(e) => return Decoded::Error(e),
        Decoded::Truncated => return Decoded::Truncated,
    };
    proof {
        if let Parse::Done(_, w) = spec_decode_will(t0, (connect_flags & 0x04) != 0) {
            if let Parse::Done(_, u) = spec_decode_opt_string(t1, (connect_flags & 0x80) != 0) {
                if let Parse::Done(_, p) = spec_decode_opt_binary(t2, (connect_flags & 0x40) != 0) {
                    assert(cursor_unread(*cursor) =~= t0.skip((w + u + p) as int));
                }
            }
        }
    }
    Decoded::Value(ConnectTailFields { will_topic, will_payload, username, password })
}

/// The fields of a CONNECT packet up to the client id, as read.
pub struct ConnectHeaderFields {
    pub protocol_name: String,
    pub protocol_level: u8,
    pub flags: u8,
    pub keep_alive: u16,
    pub client_id: String,
}

pub open spec fn connect_header_view(h: ConnectHeaderFields) -> ConnectHeader {
    ConnectHeader {
        protocol_name: h.protocol_name@,
        protocol_level: h.protocol_level,
        flags: h.flags,
        keep_alive: h.keep_alive,
        client_id: h.client_id@,
    }
}

fn read_connect_header(cursor: &mut Cursor<&[u8]>) -> (res: Decoded<ConnectHeaderFields>)
    ensures
        decoded_as(
            res,
            spec_decode_connect_header(cursor_unread(*old(cursor))),
            |h: ConnectHeaderFields| connect_header_view(h),
            cursor_unread(*old(cursor)),
            cursor_unread(*final(cursor)),
        ),
{
    let ghost s0 = cursor_unread(*cursor);
    let protocol_name = match decode_string(cursor) {
        Ok(s) => s,
        Err(e) => return Decoded::Error(e),
    };
    let ghost h = cursor_unread(*cursor);
    if cursor_remaining(cursor) < 4 {
        return Decoded::Truncated;
    }
    let protocol_level = cursor_get_u8(cursor);
    let flags = cursor_get_u8(cursor);
    let keep_alive = cursor_get_u16(cursor);
    let ghost c = cursor_unread(*cursor);
    assert(c =~= h.skip(4));
    let client_id = match decode_string(cursor) {
        Ok(s) => s,
        Err(e) => return Decoded::Error(e),
    };
    proof {
        if let Parse::Done(_, k1) = spec_decode_string(s0) {
            if let Parse::Done(_, k2) = spec_decode_string(c) {
                assert(cursor_unread(*cursor) =~= s0.skip((k1 + 4 + k2) as int));
            }
        }
    }
    Decoded::Value(ConnectHeaderFields { protocol_name, protocol_level, flags, keep_alive, client_id })
}

/// Reads the variable header and payload of a CONNECT packet without ever
/// panicking: `Truncated` where the bytes end before a field that the reader
/// takes unchecked.
pub fn try_decode_connect(cursor: &mut Cursor<&[u8]>) -> (res: Decoded<ConnectPacket>)
    ensures
        decoded_as(
            res,
            spec_decode_connect(cursor_unread(*old(cursor))),
            |p: ConnectPacket| p@,
            cursor_unread(*old(cursor)),
            cursor_unread(*final(cursor)),
        ),
{
    let ghost s0 = cursor_unread(*cursor);
    let header = match read_connect_header(cursor) {
        Decoded::Value(h) => h,
        Decoded::Error(e) => return Decoded::Error(e),
        Decoded::Truncated => return Decoded::Truncated,
    };
    let connect_flags = header.flags;
    let will_flag = (connect_flags & 0x04) != 0;
    let will_qos = if will_flag {
        match QoS::from_u8((connect_flags >> 3) & 0x03) {
            Some(q) => q,
            None => return Decoded::Error(PacketError::InvalidPacketFlags),
        }
    } else {
        QoS::AtMostOnce
    };
    let ghost t0 = cursor_unread(*cursor);
    let tail = match read_connect_tail(cursor, connect_flags) {
        Decoded::Value(t) => t,
        Decoded::Error(e) => return Decoded::Error(e),
        Decoded::Truncated => return Decoded::Truncated,
    };
    let ghost hv = connect_header_view(header);
    let ghost tv = connect_tail_view(tail);
    let ghost t1 = cursor_unread(*cursor);
    let packet = ConnectPacket {
        protocol_name: header.protocol_name,
        protocol_level: header.protocol_level,
        clean_session: (connect_flags & 0x02) != 0,
        keep_alive: header.keep_alive,
        client_id: header.client_id,
        will_flag,
        will_qos,
        will_retain: (connect_flags & 0x20) != 0,
        will_topic: tail.will_topic,
        will_payload: tail.will_payload,
        username: tail.username,
        password: tail.password,
    };
    proof {
        assert(packet@ == connect_model(hv, will_qos, tv));
        if let Parse::Done(_, k1) = spec_decode_connect_header(s0) {
            assert(t0 == s0.skip(k1 as int));
            if let Parse::Done(_, k2) = spec_decode_connect_tail(t0, connect_flags) {
                assert(t1 == t0.skip(k2 as int));
                assert(t1 =~= s0.skip((k1 + k2) as int));
            }
        }
    }
    Decoded::Value(packet)
}

/// Reads the variable header and payload of a CONNECT packet. The reader takes
/// some fields without a bounds check; `requires` excludes the inputs on which
/// it would run past the end of the bytes.
pub fn decode_connect(cursor: &mut Cursor<&[u8]>) -> (res: Result<ConnectPacket, PacketError>)
    requires
        !(spec_decode_connect(cursor_unread(*old(cursor))) is Short),
    ensures
        match spec_decode_connect(cursor_unread(*old(cursor))) {
            Parse::Done(v, k) => res matches Ok(p) && p@ == v && cursor_unread(*final(cursor))
                == cursor_unread(*old(cursor)).skip(k as int),
            Parse::Fail(e) => res matches Err(f) && f == e,
            Parse::Short => false,
        },
{
    match try_decode_connect(cursor) {
        Decoded::Value(p) => Ok(p),
        Decoded::Error(e) => Err(e),
        Decoded::Truncated => Err(PacketError::IncompletePacket),
    }
}

/// The variable header and payload of a PUBLISH packet with the given fixed
/// header flags: topic, packet id when the QoS is above zero (read without a
/// bounds check), and the rest of the bytes as payload.
pub open spec fn spec_decode_publish(s: Seq<u8>, flags: u8) -> Parse<PublishModel> {
    match spec_decode_string(s) {
        Parse::Done(topic, k) => match qos_from_num((flags >> 1) & 0x03) {
            None => Parse::Fail(PacketError::InvalidPacketType(flags)),
            Some(qos) => {
                let r = s.skip(k as int);
                let retain = flags & 0x01 != 0;
                let dup = flags & 0x08 != 0;
                if qos == QoS::AtMostOnce {
                    Parse::Done(
                        PublishModel { topic, packet_id: None, payload: r, qos, retain, dup },
                        s.len(),
                    )
                } else if r.len() < 2 {
                    Parse::Short
                } else {
                    Parse::Done(
                        PublishModel {
                            topic,
                            packet_id: Some(be_u16(r[0], r[1])),
                            payload: r.skip(2),
                            qos,
                            retain,
                            dup,
                        },
                        s.len(),
                    )
                }
            },
        },
        Parse::Fail(e) => Parse::Fail(e),
        Parse::Short => Parse::Short,
    }
}

/// Reads the variable header and payload of a PUBLISH packet without ever
/// panicking.
pub fn try_decode_publish(cursor: &mut Cursor<&[u8]>, flags: u8) -> (res: Decoded<PublishPacket>)
    ensures
        decoded_as(
            res,
            spec_decode_publish(cursor_unread(*old(cursor)), flags),
            |p: PublishPacket| p@,
            cursor_unread(*old(cursor)),
            cursor_unread(*final(cursor)),
        ),
{
    let ghost s0 = cursor_unread(*cursor);
    let topic = match decode_string(cursor) {
        Ok(t) => t,
        Err(e) => return Decoded::Error(e),
    };
    let ghost r = cursor_unread(*cursor);
    let qos = match QoS::from_u8((flags >> 1) & 0x03) {
        Some(q) => q,
        None => return Decoded::Error(PacketError::InvalidPacketType(flags)),
    };
    let packet_id = match qos {
        QoS::AtMostOnce => None,
        _ => {
            if cursor_remaining(cursor) < 2 {
                return Decoded::Truncated;
            }
            Some(cursor_get_u16(cursor))
        },
    };
    let ghost p0 = cursor_unread(*cursor);
    let payload_len = cursor_remaining(cursor);
    let payload = cursor_take(cursor, payload_len);
    proof {
        assert(payload@ =~= p0);
        if let Parse::Done(_, k) = spec_decode_string(s0) {
            assert(r == s0.skip(k as int));
            match qos {
                QoS::AtMostOnce => {
                    assert(p0 =~= r);
                },
                _ => {
                    assert(p0 =~= r.skip(2));
                },
            }
            assert(cursor_unread(*cursor) =~= s0.skip(s0.len() as int));
        }
    }
    Decoded::Value(
        PublishPacket {
            topic,
            packet_id,
            payload: bytes_from_vec(payload),
            qos,
            retain: (flags & 0x01) != 0,
            dup: (flags & 0x08) != 0,
        },
    )
}

/// Reads the variable header and payload of a PUBLISH packet. `requires`
/// excludes the inputs on which the packet id would be read past the end of
/// the bytes.
pub fn decode_publish(cursor: &mut Cursor<&[u8]>, flags: u8) -> (res: Result<
    PublishPacket,
    PacketError,
>)
    requires
        !(spec_decode_publish(cursor_unread(*old(cursor)), flags) is Short),
    ensures
        match spec_decode_publish(cursor_unread(*old(cursor)), flags) {
            Parse::Done(v, k) => res matches Ok(p) && p@ == v && cursor_unread(*final(cursor))
                == cursor_unread(*old(cursor)).skip(k as int),
            Parse::Fail(e) => res matches Err(f) && f == e,
            Parse::Short => false,
        },
{
    match try_decode_publish(cursor, flags) {
        Decoded::Value(p) => Ok(p),
        Decoded::Error(e) => Err(e),
        Decoded::Truncated => Err(PacketError::IncompletePacket),
    }
}

/// The topic filters of a SUBSCRIBE payload, each a string and a QoS byte,
/// read until the bytes run out; the QoS byte is read without a bounds check.
/// On success all of `s` is consumed.
pub open spec fn spec_decode_sub_filters(s: Seq<u8>) -> Parse<Seq<(Seq<char>, QoS)>>
    decreases s.len(),
{
    if s.len() == 0 {
        Parse::Done(Seq::empty(), 0)
    } else {
        match spec_decode_string(s) {
            Parse::Done(topic, k) => {
                let r = s.skip(k as int);
                if r.len() < 1 {
                    Parse::Short
                } else {
                    match qos_from_num(r[0]) {
                        None => Parse::Fail(PacketError::InvalidPacketType(r[0])),
                        Some(qos) => match spec_decode_sub_filters(r.skip(1)) {
                            Parse::Done(rest, _) => Parse::Done(seq![(topic, qos)] + rest, s.len()),
                            Parse::Fail(e) => Parse::Fail(e),
                            Parse::Short => Parse::Short,
                        },
                    }
                }
            },
            Parse::Fail(e) => Parse::Fail(e),
            Parse::Short => Parse::Short,
        }
    }
}

/// A SUBSCRIBE packet's variable header and payload: the packet id (read
/// without a bounds check), then its topic filters.
pub open spec fn spec_decode_subscribe(s: Seq<u8>) -> Parse<SubscribeModel> {
    if s.len() < 2 {
        Parse::Short
    } else {
        match spec_decode_sub_filters(s.skip(2)) {
            Parse::Done(filters, _) => Parse::Done(
                SubscribeModel { packet_id: be_u16(s[0], s[1]), topic_filters: filters },
                s.len(),
            ),
            Parse::Fail(e) => Parse::Fail(e),
            Parse::Short => Parse::Short,
        }
    }
}

/// What a list parse gives once `done` has already been read in front of it.
pub open spec fn after_prefix<V>(done: Seq<V>, p: Parse<Seq<V>>, n: nat) -> Parse<Seq<V>> {
    match p {
        Parse::Done(rest, _) => Parse::Done(done + rest, n),
        Parse::Fail(e) => Parse::Fail(e),
        Parse::Short => Parse::Short,
    }
}

/// Reads a SUBSCRIBE packet's variable header and payload without ever
/// panicking.
pub fn try_decode_subscribe(cursor: &mut Cursor<&[u8]>) -> (res: Decoded<SubscribePacket>)
    ensures
        decoded_as(
            res,
            spec_decode_subscribe(cursor_unread(*old(cursor))),
            |p: SubscribePacket| p@,
            cursor_unread(*old(cursor)),
            cursor_unread(*final(cursor)),
        ),
{
    let ghost s0 = cursor_unread(*cursor);
    if cursor_remaining(cursor) < 2 {
        return Decoded::Truncated;
    }
    let packet_id = cursor_get_u16(cursor);
    let ghost f0 = cursor_unread(*cursor);
    let mut topic_filters: Vec<(String, QoS)> = Vec::new();
    while cursor_remaining(cursor) > 0
        invariant
            s0 == cursor_unread(*old(cursor)),
            s0.len() >= 2,
            f0 == s0.skip(2),
            spec_decode_sub_filters(f0) == after_prefix(
                filter_qos_view(topic_filters@),
                spec_decode_sub_filters(cursor_unread(*cursor)),
                f0.len(),
            ),
        decreases cursor_unread(*cursor).len(),
    {
        let ghost c = cursor_unread(*cursor);
        let topic = match decode_string(cursor) {
            Ok(t) => t,
            Err(e) => return Decoded::Error(e),
        };
        if cursor_remaining(cursor) < 1 {
            return Decoded::Truncated;
        }
        let qos_byte = cursor_get_u8(cursor);
        let qos = match QoS::from_u8(qos_byte) {
            Some(q) => q,
            None => return Decoded::Error(PacketError::InvalidPacketType(qos_byte)),
        };
        let ghost before = topic_filters@;
        topic_filters.push((topic, qos));
        proof {
            let t = topic_filters@[topic_filters@.len() - 1];
            assert(filter_qos_view(topic_filters@) =~= filter_qos_view(before) + seq![(t.0@, t.1)]);
            if let Parse::Done(_, k) = spec_decode_string(c) {
                assert(cursor_unread(*cursor) =~= c.skip(k as int).skip(1));
                match spec_decode_sub_filters(cursor_unread(*cursor)) {
                    Parse::Done(rest, _) => {
                        assert(filter_qos_view(before) + (seq![(t.0@, t.1)] + rest)
                            =~= filter_qos_view(topic_filters@) + rest);
                    },
                    _ => {},
                }
            }
        }
    }
    proof {
        assert(filter_qos_view(topic_filters@) + Seq::<(Seq<char>, QoS)>::empty()
            =~= filter_qos_view(topic_filters@));
        assert(cursor_unread(*cursor) =~= s0.skip(s0.len() as int));
    }
    Decoded::Value(SubscribePacket { packet_id, topic_filters })
}

/// Reads a SUBSCRIBE packet's variable header and payload. `requires` excludes
/// the inputs on which the packet id or a QoS byte would be read past the end
/// of the bytes.
pub fn decode_subscribe(cursor: &mut Cursor<&[u8]>) -> (res: Result<SubscribePacket, PacketError>)
    requires
        !(spec_decode_subscribe(cursor_unread(*old(cursor))) is Short),
    ensures
        match spec_decode_subscribe(cursor_unread(*old(cursor))) {
            Parse::Done(v, k) => res matches Ok(p) && p@ == v && cursor_unread(*final(cursor))
                == cursor_unread(*old(cursor)).skip(k as int),
            Parse::Fail(e) => res matches Err(f) && f == e,
            Parse::Short => false,
        },
{
    match try_decode_subscribe(cursor) {
        Decoded::Value(p) => Ok(p),
        Decoded::Error(e) => Err(e),
        Decoded::Truncated => Err(PacketError::IncompletePacket),
    }
}

/// The topic filters of an UNSUBSCRIBE payload, read until the bytes run out.
pub open spec fn spec_decode_unsub_filters(s: Seq<u8>) -> Parse<Seq<Seq<char>>>
    decreases s.len(),
{
    if s.len() == 0 {
        Parse::Done(Seq::empty(), 0)
    } else {
        match spec_decode_string(s) {
            Parse::Done(topic, k) => match spec_decode_unsub_filters(s.skip(k as int)) {
                Parse::Done(rest, _) => Parse::Done(seq![topic] + rest, s.len()),
                Parse::Fail(e) => Parse::Fail(e),
                Parse::Short => Parse::Short,
            },
            Parse::Fail(e) => Parse::Fail(e),
            Parse::Short => Parse::Short,
        }
    }
}

/// An UNSUBSCRIBE packet's variable header and payload: the packet id (read
/// without a bounds check), then its topic filters.
pub open spec fn spec_decode_unsubscribe(s: Seq<u8>) -> Parse<UnsubscribeModel> {
    if s.len() < 2 {
        Parse::Short
    } else {
        match spec_decode_unsub_filters(s.skip(2)) {
            Parse::Done(filters, _) => Parse::Done(
                UnsubscribeModel { packet_id: be_u16(s[0], s[1]), topic_filters: filters },
                s.len(),
            ),
            Parse::Fail(e) => Parse::Fail(e),
            Parse::Short => Parse::Short,
        }
    }
}

/// Reads an UNSUBSCRIBE packet's variable header and payload without ever
/// panicking.
pub fn try_decode_unsubscribe(cursor: &mut Cursor<&[u8]>) -> (res: Decoded<UnsubscribePacket>)
    ensures
        decoded_as(
            res,
            spec_decode_unsubscribe(cursor_unread(*old(cursor))),
            |p: UnsubscribePacket| p@,
            cursor_unread(*old(cursor)),
            cursor_unread(*final(cursor)),
        ),
{
    let ghost s0 = cursor_unread(*cursor);
    if cursor_remaining(cursor) < 2 {
        return Decoded::Truncated;
    }
    let packet_id = cursor_get_u16(cursor);
    let ghost f0 = cursor_unread(*cursor);
    let mut topic_filters: Vec<String> = Vec::new();
    while cursor_remaining(cursor) > 0
        invariant
            s0 == cursor_unread(*old(cursor)),
            s0.len() >= 2,
            f0 == s0.skip(2),
            spec_decode_unsub_filters(f0) == after_prefix(
                strings_view(topic_filters@),
                spec_decode_unsub_filters(cursor_unread(*cursor)),
                f0.len(),
            ),
        decreases cursor_unread(*cursor).len(),
    {
        let ghost c = cursor_unread(*cursor);
        let topic = match decode_string(cursor) {
            Ok(t) => t,
            Err(e) => return Decoded::Error(e),
        };
        let ghost before = topic_filters@;
        topic_filters.push(topic);
        proof {
            let t = topic_filters@[topic_filters@.len() - 1];
            assert(strings_view(topic_filters@) =~= strings_view(before) + seq![t@]);
            match spec_decode_unsub_filters(cursor_unread(*cursor)) {
                Parse::Done(rest, _) => {
                    assert(strings_view(before) + (seq![t@] + rest) =~= strings_view(
                        topic_filters@,
                    ) + rest);
                },
                _ => {},
            }
        }
    }
    proof {
        assert(strings_view(topic_filters@) + Seq::<Seq<char>>::empty() =~= strings_view(
            topic_filters@,
        ));
        assert(cursor_unread(*cursor) =~= s0.skip(s0.len() as int));
    }
    Decoded::Value(UnsubscribePacket { packet_id, topic_filters })
}

/// Reads an UNSUBSCRIBE packet's variable header and payload. `requires`
/// excludes the inputs shorter than a packet id.
pub fn decode_unsubscribe(cursor: &mut Cursor<&[u8]>) -> (res: Result<
    UnsubscribePacket,
    PacketError,
>)
    requires
        !(spec_decode_unsubscribe(cursor_unread(*old(cursor))) is Short),
    ensures
        match spec_decode_unsubscribe(cursor_unread(*old(cursor))) {
            Parse::Done(v, k) => res matches Ok(p) && p@ == v && cursor_unread(*final(cursor))
                == cursor_unread(*old(cursor)).skip(k as int),
            Parse::Fail(e) => res matches Err(f) && f == e,
            Parse::Short => false,
        },
{
    match try_decode_unsubscribe(cursor) {
        Decoded::Value(p) => Ok(p),
        Decoded::Error(e) => Err(e),
        Decoded::Truncated => Err(PacketError::IncompletePacket),
    }
}

/// A parse whose value is passed through `f`.
pub open spec fn map_parse<A, B>(p: Parse<A>, f: spec_fn(A) -> B) -> Parse<B> {
    match p {
        Parse::Done(v, k) => Parse::Done(f(v), k),
        Parse::Fail(e) => Parse::Fail(e),
        Parse::Short => Parse::Short,
    }
}

/// A packet made of a packet id alone: its body is exactly the two id bytes,
/// any other length is rejected with the packet's type number.
pub open spec fn spec_decode_id_body(t: PacketType, body: Seq<u8>) -> Parse<u16> {
    if body.len() != 2 {
        Parse::Fail(PacketError::InvalidPacketType(packet_type_num(t)))
    } else {
        Parse::Done(be_u16(body[0], body[1]), 2)
    }
}

/// The packet that a fixed header's type and flags and the following
/// `remaining length` bytes make. Packets a broker never receives are rejected
/// with their type number.
pub open spec fn spec_decode_body(t: PacketType, flags: u8, body: Seq<u8>) -> Parse<PacketModel> {
    match t {
        PacketType::Connect => map_parse(spec_decode_connect(body), |m| PacketModel::Connect(m)),
        PacketType::Publish => map_parse(
            spec_decode_publish(body, flags),
            |m| PacketModel::Publish(m),
        ),
        PacketType::PubAck => map_parse(spec_decode_id_body(t, body), |id| PacketModel::PubAck(id)),
        PacketType::PubRec => map_parse(spec_decode_id_body(t, body), |id| PacketModel::PubRec(id)),
        PacketType::PubRel => map_parse(spec_decode_id_body(t, body), |id| PacketModel::PubRel(id)),
        PacketType::PubComp => map_parse(
            spec_decode_id_body(t, body),
            |id| PacketModel::PubComp(id),
        ),
        PacketType::Subscribe => map_parse(
            spec_decode_subscribe(body),
            |m| PacketModel::Subscribe(m),
        ),
        PacketType::Unsubscribe => map_parse(
            spec_decode_unsubscribe(body),
            |m| PacketModel::Unsubscribe(m),
        ),
        PacketType::PingReq => Parse::Done(PacketModel::PingReq, 0),
        PacketType::Disconnect => Parse::Done(PacketModel::Disconnect, 0),
        _ => Parse::Fail(PacketError::InvalidPacketType(packet_type_num(t))),
    }
}

/// The type and the flags of a fixed header's first byte: the high four bits
/// name the type, the low four are the flags.
pub open spec fn spec_decode_first_byte(b: u8) -> Result<(PacketType, u8), PacketError> {
    match packet_type_from_num((b >> 4) & 0x0F) {
        Some(t) => Ok((t, b & 0x0F)),
        None => Err(PacketError::InvalidPacketType((b >> 4) & 0x0F)),
    }
}

/// Splits the first byte of a fixed header into packet type and flags.
pub fn decode_first_byte(first_byte: u8) -> (res: Result<(PacketType, u8), PacketError>)
    ensures
        res == spec_decode_first_byte(first_byte),
{
    let packet_type = match PacketType::try_from((first_byte >> 4) & 0x0F) {
        Ok(t) => t,
        Err(e) => return Err(e),
    };
    Ok((packet_type, first_byte & 0x0F))
}

/// Whether a never-panicking decoder's packet agrees with the specification.
pub open spec fn body_decoded_as(res: Decoded<Packet>, spec: Parse<PacketModel>) -> bool {
    match spec {
        Parse::Done(v, _) => res matches Decoded::Value(p) && p@ == v,
        Parse::Fail(e) => res matches Decoded::Error(f) && f == e,
        Parse::Short => res is Truncated,
    }
}

fn decode_id_body(packet_type: PacketType, body: &[u8]) -> (res: Result<u16, PacketError>)
    ensures
        match spec_decode_id_body(packet_type, body@) {
            Parse::Done(v, _) => res == Ok::<u16, PacketError>(v),
            Parse::Fail(e) => res == Err::<u16, PacketError>(e),
            Parse::Short => false,
        },
{
    if body.len() != 2 {
        return Err(PacketError::InvalidPacketType(packet_type.as_u8()));
    }
    let mut cursor = cursor_new(body);
    Ok(cursor_get_u16(&mut cursor))
}

impl Packet {
    /// Decodes a packet from its fixed header's type and flags and the
    /// `remaining length` bytes that follow the fixed header. `Truncated` marks
    /// the bodies on which the reader would take a field past their end.
    pub fn decode_body(packet_type: PacketType, flags: u8, body: &[u8]) -> (res: Decoded<Packet>)
        ensures
            body_decoded_as(res, spec_decode_body(packet_type, flags, body@)),
    {
        let mut cursor = cursor_new(body);
        match packet_type {
            PacketType::Connect => match try_decode_connect(&mut cursor) {
                Decoded::Value(p) => Decoded::Value(Packet::Connect(p)),
                Decoded::Error(e) => Decoded::Error(e),
                Decoded::Truncated => Decoded::Truncated,
            },
            PacketType::Publish => match try_decode_publish(&mut cursor, flags) {
                Decoded::Value(p) => Decoded::Value(Packet::Publish(p)),
                Decoded::Error(e) => Decoded::Error(e),
                Decoded::Truncated => Decoded::Truncated,
            },
            PacketType::PubAck => match decode_id_body(packet_type, body) {
                Ok(packet_id) => Decoded::Value(Packet::PubAck(PubAckPacket { packet_id })),
                Err(e) => Decoded::Error(e),
            },
            PacketType::PubRec => match decode_id_body(packet_type, body) {
                Ok(packet_id) => Decoded::Value(Packet::PubRec(PubRecPacket { packet_id })),
                Err(e) => Decoded::Error(e),
            },
            PacketType::PubRel => match decode_id_body(packet_type, body) {
                Ok(packet_id) => Decoded::Value(Packet::PubRel(PubRelPacket { packet_id })),
                Err(e) => Decoded::Error(e),
            },
            PacketType::PubComp => match decode_id_body(packet_type, body) {
                Ok(packet_id) => Decoded::Value(Packet::PubComp(PubCompPacket { packet_id })),
                Err(e) => Decoded::Error(e),
            },
            PacketType::Subscribe => match try_decode_subscribe(&mut cursor) {
                Decoded::Value(p) => Decoded::Value(Packet::Subscribe(p)),
                Decoded::Error(e) => Decoded::Error(e),
                Decoded::Truncated => Decoded::Truncated,
            },
            PacketType::Unsubscribe => match try_decode_unsubscribe(&mut cursor) {
                Decoded::Value(p) => Decoded::Value(Packet::Unsubscribe(p)),
                Decoded::Error(e) => Decoded::Error(e),
                Decoded::Truncated => Decoded::Truncated,
            },
            PacketType::PingReq => Decoded::Value(Packet::PingReq),
            PacketType::Disconnect => Decoded::Value(Packet::Disconnect),
            _ => Decoded::Error(PacketError::InvalidPacketType(packet_type.as_u8())),
        }
    }
}

/// A remaining length fails to read only for running past its four bytes.
proof fn lemma_remaining_length_failure(s: Seq<u8>, budget: nat)
    ensures
        spec_remaining_length_within(s, budget) matches Parse::Fail(e) ==> e
            == PacketError::InvalidRemainingLength,
    decreases budget,
{
    if budget > 0 && s.len() > 0 && s[0] >= 128 {
        lemma_remaining_length_failure(s.drop_first(), (budget - 1) as nat);
    }
}

impl Packet {
    /// Decodes the packet at the front of `bytes`: its fixed header (type and
    /// flags, then the remaining length) and the body of that length. Gives
    /// the packet and the number of bytes it took; `Truncated` where the bytes
    /// end before the frame or inside a field of the body.
    pub fn decode(bytes: &[u8]) -> (res: Decoded<(Packet, usize)>)
        ensures
            match spec_decode_frame(bytes@) {
                Parse::Done(p, n) => res matches Decoded::Value((q, k)) && q@ == p && k == n,
                Parse::Fail(e) => res matches Decoded::Error(f) && f == e,
                Parse::Short => res is Truncated,
            },
    {
        if bytes.len() == 0 {
            return Decoded::Truncated;
        }
        let (packet_type, flags) = match decode_first_byte(bytes[0]) {
            Ok(x) => x,
            Err(e) => return Decoded::Error(e),
        };
        let after_first = &bytes[1..bytes.len()];
        assert(after_first@ =~= bytes@.skip(1));
        proof {
            lemma_remaining_length_failure(bytes@.skip(1), 4);
            lemma_remaining_length_bound(bytes@.skip(1), 4);
        }
        match decode_remaining_length(after_first) {
            RemainingLength::Value(length, used) => {
                let available = bytes.len() - 1 - used;
                if available < length as usize {
                    return Decoded::Truncated;
                }
                let end = 1 + used + length as usize;
                let body = &bytes[1 + used..end];
                assert(body@ =~= bytes@.subrange(1 + used as int, end as int));
                match Packet::decode_body(packet_type, flags, body) {
                    Decoded::Value(p) => Decoded::Value((p, end)),
                    Decoded::Error(e) => Decoded::Error(e),
                    Decoded::Truncated => Decoded::Truncated,
                }
            },
            RemainingLength::Invalid => Decoded::Error(PacketError::InvalidRemainingLength),
            RemainingLength::Incomplete => Decoded::Truncated,
        }
    }
}

// ---------------------------------------------------------------------------
// Remaining length
// ---------------------------------------------------------------------------

/// The variable-length encoding of a remaining length: seven bits per byte,
/// least significant group first, the top bit set on every byte but the last.
pub open spec fn spec_encode_remaining_length(n: nat) -> Seq<u8>
    decreases n,
{
    if n < 128 {
        seq![n as u8]
    } else {
        seq![(n % 128 + 128) as u8] + spec_encode_remaining_length(n / 128)
    }
}

/// Result of reading a remaining length from the front of some bytes.
pub enum RemainingLength {
    /// The length and the number of bytes that encode it.
    Value(u32, usize),
    /// More bytes are needed.
    Incomplete,
    /// The encoding runs past its four-byte limit.
    Invalid,
}

/// Reading a remaining length that may use at most `budget` more bytes.
pub open spec fn spec_remaining_length_within(s: Seq<u8>, budget: nat) -> Parse<nat>
    decreases budget,
{
    if budget == 0 {
        Parse::Fail(PacketError::InvalidRemainingLength)
    } else if s.len() == 0 {
        Parse::Short
    } else if s[0] < 128 {
        Parse::Done(s[0] as nat, 1)
    } else {
        match spec_remaining_length_within(s.drop_first(), (budget - 1) as nat) {
            Parse::Done(v, k) => Parse::Done((s[0] % 128 + 128 * v) as nat, k + 1),
            other => other,
        }
    }
}

/// Reading a remaining length of at most four bytes from the front of `s`:
/// `Short` when `s` ends first, a failure when four bytes all carry the
/// continuation bit.
pub open spec fn spec_decode_remaining_length(s: Seq<u8>) -> Parse<nat> {
    spec_remaining_length_within(s, 4)
}

proof fn lemma_remaining_length_bound(s: Seq<u8>, budget: nat)
    requires
        budget <= 4,
    ensures
        spec_remaining_length_within(s, budget) matches Parse::Done(v, k) ==> {
            &&& 1 <= k <= budget
            &&& k <= s.len()
            &&& v < pow128(k)
        },
    decreases budget,
{
    assert(pow128(1) == 128) by {
        reveal_with_fuel(pow128, 2);
    }
    if budget > 0 && s.len() > 0 && s[0] >= 128 {
        lemma_remaining_length_bound(s.drop_first(), (budget - 1) as nat);
        if let Parse::Done(w, k) = spec_remaining_length_within(s.drop_first(), (budget - 1) as nat) {
            let d = (s[0] % 128) as nat;
            assert(pow128(k + 1) == 128 * pow128(k));
            assert(d + 128 * w < 128 * pow128(k)) by (nonlinear_arith)
                requires
                    d <= 127,
                    w < pow128(k),
            ;
        }
    }
}

/// 128 to the power `k`, for the few powers a remaining length needs.
pub open spec fn pow128(k: nat) -> nat
    decreases k,
{
    if k == 0 {
        1
    } else {
        128 * pow128((k - 1) as nat)
    }
}

proof fn lemma_encode_remaining_length_len(n: nat, k: nat)
    requires
        k >= 1,
        n < pow128(k),
    ensures
        spec_encode_remaining_length(n).len() <= k,
        spec_encode_remaining_length(n).len() >= 1,
    decreases n,
{
    if n >= 128 {
        if k == 1 {
            reveal_with_fuel(pow128, 2);
        } else {
            assert(pow128(k) == 128 * pow128((k - 1) as nat));
            assert(n / 128 < pow128((k - 1) as nat)) by (nonlinear_arith)
                requires
                    n < 128 * pow128((k - 1) as nat),
            ;
            lemma_encode_remaining_length_len(n / 128, (k - 1) as nat);
        }
    }
}

/// A remaining length below 2^28 reads back as itself, whatever follows its
/// encoding.
pub proof fn lemma_remaining_length_roundtrip(n: nat, rest: Seq<u8>)
    requires
        n < 268435456,
    ensures
        spec_decode_remaining_length(spec_encode_remaining_length(n) + rest) == Parse::Done(
            n,
            spec_encode_remaining_length(n).len(),
        ),
{
    assert(pow128(4) == 268435456) by {
        reveal_with_fuel(pow128, 5);
    }
    lemma_remaining_length_roundtrip_within(n, rest, 4);
}

proof fn lemma_remaining_length_roundtrip_within(n: nat, rest: Seq<u8>, budget: nat)
    requires
        n < pow128(budget),
        budget >= 1,
    ensures
        spec_remaining_length_within(spec_encode_remaining_length(n) + rest, budget)
            == Parse::Done(n, spec_encode_remaining_length(n).len()),
    decreases n,
{
    let all = spec_encode_remaining_length(n) + rest;
    if n < 128 {
        assert(all[0] == n as u8);
    } else {
        assert(budget >= 2) by {
            if budget == 1 {
                reveal_with_fuel(pow128, 2);
            }
        }
        assert(pow128(budget) == 128 * pow128((budget - 1) as nat));
        assert(n / 128 < pow128((budget - 1) as nat)) by (nonlinear_arith)
            requires
                n < 128 * pow128((budget - 1) as nat),
        ;
        lemma_remaining_length_roundtrip_within(n / 128, rest, (budget - 1) as nat);
        assert(all[0] == (n % 128 + 128) as u8);
        assert(all.drop_first() =~= spec_encode_remaining_length(n / 128) + rest);
    }
}

/// Writes the variable-length encoding of a remaining length.
pub fn encode_remaining_length(length: u32, buf: &mut BytesMut)
    requires
        bytes_mut_view(*old(buf)).len() + spec_encode_remaining_length(length as nat).len()
            <= isize::MAX,
    ensures
        bytes_mut_view(*final(buf)) == bytes_mut_view(*old(buf)) + spec_encode_remaining_length(
            length as nat,
        ),
{
    let ghost start = bytes_mut_view(*buf);
    let mut remaining = length;
    loop
        invariant_except_break
            bytes_mut_view(*buf) + spec_encode_remaining_length(remaining as nat) == start
                + spec_encode_remaining_length(length as nat),
            bytes_mut_view(*buf).len() + spec_encode_remaining_length(remaining as nat).len()
                <= start.len() + spec_encode_remaining_length(length as nat).len(),
            start.len() + spec_encode_remaining_length(length as nat).len() <= isize::MAX,
        ensures
            bytes_mut_view(*buf) == start + spec_encode_remaining_length(length as nat),
        decreases remaining,
    {
        let ghost r = remaining;
        let mut byte = (remaining % 128) as u8;
        remaining = remaining / 128;
        if remaining > 0 {
            assert(byte < 128 ==> byte | 0x80 == byte + 128) by (bit_vector);
            byte = byte | 0x80;
        }
        let ghost before = bytes_mut_view(*buf);
        proof {
            lemma_pow128_grows(r as nat + 1);
            lemma_encode_remaining_length_len(r as nat, r as nat + 1);
            if r >= 128 {
                assert(spec_encode_remaining_length(r as nat) == seq![byte] + spec_encode_remaining_length(
                    remaining as nat,
                ));
            }
        }
        put_u8(buf, byte);
        proof {
            if r >= 128 {
                assert(spec_encode_remaining_length(r as nat) == seq![byte] + spec_encode_remaining_length(
                    remaining as nat,
                ));
                assert(bytes_mut_view(*buf) + spec_encode_remaining_length(remaining as nat)
                    =~= before + spec_encode_remaining_length(r as nat));
            } else {
                assert(spec_encode_remaining_length(r as nat) == seq![byte]);
            }
        }
        if remaining == 0 {
            break;
        }
    }
}

proof fn lemma_pow128_grows(k: nat)
    ensures
        k < pow128(k),
    decreases k,
{
    if k > 0 {
        lemma_pow128_grows((k - 1) as nat);
    }
}

/// The encoding of a remaining length below 2^32 takes at most five bytes.
pub proof fn lemma_remaining_length_encoding_len(n: u32)
    ensures
        1 <= spec_encode_remaining_length(n as nat).len() <= 5,
{
    assert(pow128(5) == 34359738368) by {
        reveal_with_fuel(pow128, 6);
    }
    lemma_encode_remaining_length_len(n as nat, 5);
}

/// Reads a remaining length from the front of `bytes`.
pub fn decode_remaining_length(bytes: &[u8]) -> (res: RemainingLength)
    ensures
        match spec_decode_remaining_length(bytes@) {
            Parse::Done(v, k) => res == RemainingLength::Value(v as u32, k as usize) && v
                < 268435456,
            Parse::Fail(_) => res == RemainingLength::Invalid,
            Parse::Short => res == RemainingLength::Incomplete,
        },
{
    let mut multiplier: u32 = 1;
    let mut value: u32 = 0;
    let mut byte_count: usize = 0;
    proof {
        lemma_remaining_length_bound(bytes@, 4);
        assert(bytes@.skip(0) =~= bytes@);
    }
    loop
        invariant
            byte_count <= 4,
            byte_count <= bytes@.len(),
            multiplier == pow128(byte_count as nat),
            value < pow128(byte_count as nat),
            match spec_remaining_length_within(bytes@.skip(byte_count as int), (4 - byte_count) as nat) {
                Parse::Done(w, k) => spec_decode_remaining_length(bytes@) == Parse::Done(
                    (value + multiplier * w) as nat,
                    byte_count as nat + k,
                ),
                other => spec_decode_remaining_length(bytes@) == other,
            },
        decreases 4 - byte_count,
    {
        let ghost rest = bytes@.skip(byte_count as int);
        if byte_count >= 4 {
            return RemainingLength::Invalid;
        }
        if byte_count >= bytes.len() {
            return RemainingLength::Incomplete;
        }
        let byte = bytes[byte_count];
        assert(byte & 0x7F == byte % 128) by (bit_vector);
        assert((byte & 0x80 == 0) == (byte < 128)) by (bit_vector);
        assert(rest[0] == byte);
        assert(rest.drop_first() =~= bytes@.skip(byte_count + 1));
        proof {
            assert(byte_count < 4);
            assert(pow128(byte_count as nat) <= 2097152) by {
                reveal_with_fuel(pow128, 4);
            }
            assert((byte % 128) as int * multiplier <= 127 * pow128(byte_count as nat))
                by (nonlinear_arith)
                requires
                    byte % 128 <= 127,
                    multiplier == pow128(byte_count as nat),
            ;
        }
        let ghost old_value = value;
        value = value + ((byte & 0x7F) as u32) * multiplier;
        proof {
            assert(pow128(byte_count as nat + 1) == 128 * pow128(byte_count as nat));
            assert(value < pow128(byte_count as nat + 1)) by (nonlinear_arith)
                requires
                    value == old_value + (byte % 128) * multiplier,
                    old_value < multiplier,
                    byte % 128 <= 127,
                    pow128(byte_count as nat + 1) == 128 * multiplier,
            ;
            assert(pow128(4) == 268435456) by {
                reveal_with_fuel(pow128, 5);
            }
            assert(pow128(byte_count as nat + 1) <= 268435456) by {
                reveal_with_fuel(pow128, 5);
            }
        }
        if (byte & 0x80) == 0 {
            proof {
                match spec_remaining_length_within(rest, (4 - byte_count) as nat) {
                    Parse::Done(w, k) => {
                        assert(w == byte && k == 1);
                        assert(multiplier * w == (byte % 128) * multiplier) by (nonlinear_arith)
                            requires
                                w == byte % 128,
                        ;
                    },
                    _ => {},
                }
            }
            return RemainingLength::Value(value, byte_count + 1);
        }
        proof {
            match spec_remaining_length_within(rest.drop_first(), (4 - byte_count - 1) as nat) {
                Parse::Done(w, k) => {
                    assert(multiplier * ((byte % 128) as nat + 128 * w) == (byte % 128)
                        * multiplier + (multiplier * 128) * w) by (nonlinear_arith);
                },
                _ => {},
            }
        }
        multiplier = multiplier * 128;
        byte_count = byte_count + 1;
    }
}


// ---------------------------------------------------------------------------
// Encoding
// ---------------------------------------------------------------------------

/// A CONNACK packet on the wire.
pub open spec fn spec_encode_connack(session_present: bool, return_code: u8) -> Seq<u8> {
    seq![0x20u8, 2u8, if session_present { 1u8 } else { 0u8 }, return_code]
}

/// A packet made of a fixed first byte, remaining length 2 and a packet id.
pub open spec fn spec_encode_id_packet(first: u8, packet_id: u16) -> Seq<u8> {
    seq![first, 2u8] + u16_bytes(packet_id)
}

/// First byte of a PUBLISH packet: type 3 and the DUP, QoS and RETAIN flags.
pub open spec fn publish_first_byte(p: PublishModel) -> u8 {
    (0x30 + (if p.dup { 8int } else { 0int }) + 2 * qos_num(p.qos) + (if p.retain {
        1int
    } else {
        0int
    })) as u8
}

/// The packet id field of a PUBLISH packet: present exactly when an id is set.
pub open spec fn packet_id_bytes(id: Option<u16>) -> Seq<u8> {
    match id {
        Some(v) => u16_bytes(v),
        None => Seq::empty(),
    }
}

/// The remaining length a PUBLISH packet declares: topic length field, topic,
/// packet id (if any) and payload.
pub open spec fn publish_remaining_length(p: PublishModel) -> int {
    2 + encode_utf8(p.topic).len() as int + packet_id_bytes(p.packet_id).len() as int + p.payload.len() as int
}

/// A PUBLISH packet on the wire. The declared remaining length is truncated to
/// 32 bits and the topic length to 16 bits, as the writer does.
pub open spec fn spec_encode_publish(p: PublishModel) -> Seq<u8> {
    seq![publish_first_byte(p)] + spec_encode_remaining_length(
        publish_remaining_length(p) as u32 as nat,
    ) + publish_body(p)
}

/// The variable header and payload of a PUBLISH packet on the wire: topic,
/// packet id (if any), payload.
pub open spec fn publish_body(p: PublishModel) -> Seq<u8> {
    spec_encode_string(p.topic) + packet_id_bytes(p.packet_id) + p.payload
}

/// A SUBACK packet on the wire.
pub open spec fn spec_encode_suback(packet_id: u16, codes: Seq<u8>) -> Seq<u8> {
    seq![0x90u8] + spec_encode_remaining_length((2 + codes.len()) as nat) + u16_bytes(packet_id)
        + codes
}

/// A packet without variable header or payload.
pub open spec fn spec_encode_empty(first: u8) -> Seq<u8> {
    seq![first, 0u8]
}

/// The bytes `Packet::encode` writes for a packet; the kinds a broker never
/// sends (CONNECT, SUBSCRIBE, UNSUBSCRIBE, PINGREQ) write nothing.
pub open spec fn spec_encode_packet(p: PacketModel) -> Seq<u8> {
    match p {
        PacketModel::ConnAck(sp, rc) => spec_encode_connack(sp, rc),
        PacketModel::Publish(m) => spec_encode_publish(m),
        PacketModel::PubAck(id) => spec_encode_id_packet(0x40, id),
        PacketModel::PubRec(id) => spec_encode_id_packet(0x50, id),
        PacketModel::PubRel(id) => spec_encode_id_packet(0x62, id),
        PacketModel::PubComp(id) => spec_encode_id_packet(0x70, id),
        PacketModel::SubAck(id, codes) => spec_encode_suback(id, codes),
        PacketModel::UnsubAck(id) => spec_encode_id_packet(0xB0, id),
        PacketModel::PingResp => spec_encode_empty(0xD0),
        PacketModel::Disconnect => spec_encode_empty(0xE0),
        _ => Seq::empty(),
    }
}

/// What `Packet::encode` needs of its packet: the lengths it adds up fit in a
/// `usize` (a PUBLISH) or a `u32` (a SUBACK).
pub open spec fn encodable(p: PacketModel) -> bool {
    match p {
        PacketModel::Publish(m) => publish_remaining_length(m) <= usize::MAX,
        PacketModel::SubAck(_, codes) => codes.len() + 2 <= u32::MAX,
        _ => true,
    }
}

fn encode_id_packet(first: u8, packet_id: u16, buf: &mut BytesMut)
    requires
        bytes_mut_view(*old(buf)).len() + 4 <= isize::MAX,
    ensures
        bytes_mut_view(*final(buf)) == bytes_mut_view(*old(buf)) + spec_encode_id_packet(
            first,
            packet_id,
        ),
{
    put_u8(buf, first);
    put_u8(buf, 2);
    put_u16(buf, packet_id);
    assert(bytes_mut_view(*buf) =~= bytes_mut_view(*old(buf)) + spec_encode_id_packet(
        first,
        packet_id,
    ));
}

/// Writes a CONNACK packet.
pub fn encode_connack(packet: &ConnAckPacket, buf: &mut BytesMut)
    requires
        bytes_mut_view(*old(buf)).len() + 4 <= isize::MAX,
    ensures
        bytes_mut_view(*final(buf)) == bytes_mut_view(*old(buf)) + spec_encode_connack(
            packet.session_present,
            packet.return_code,
        ),
{
    put_u8(buf, 0x20);
    put_u8(buf, 2);
    put_u8(
        buf,
        if packet.session_present {
            0x01
        } else {
            0x00
        },
    );
    put_u8(buf, packet.return_code);
    assert(bytes_mut_view(*buf) =~= bytes_mut_view(*old(buf)) + spec_encode_connack(
        packet.session_present,
        packet.return_code,
    ));
}

/// Writes a PUBLISH packet.
pub fn encode_publish(packet: &PublishPacket, buf: &mut BytesMut)
    requires
        publish_remaining_length(packet@) <= usize::MAX,
        bytes_mut_view(*old(buf)).len() + spec_encode_publish(packet@).len() <= isize::MAX,
    ensures
        bytes_mut_view(*final(buf)) == bytes_mut_view(*old(buf)) + spec_encode_publish(packet@),
{
    let ghost start = bytes_mut_view(*buf);
    let mut flags: u8 = 0x30;
    if packet.dup {
        flags |= 0x08;
    }
    let q = packet.qos.as_u8();
    flags |= q << 1;
    if packet.retain {
        flags |= 0x01;
    }
    proof {
        let d = packet.dup;
        let r = packet.retain;
        assert(q <= 2 ==> (((0x30u8 | 0x08u8) | (q << 1)) | 0x01u8) == 0x30 + 8 + 2 * q + 1)
            by (bit_vector);
        assert(q <= 2 ==> ((0x30u8 | 0x08u8) | (q << 1)) == 0x30 + 8 + 2 * q) by (bit_vector);
        assert(q <= 2 ==> ((0x30u8 | (q << 1)) | 0x01u8) == 0x30 + 2 * q + 1) by (bit_vector);
        assert(q <= 2 ==> (0x30u8 | (q << 1)) == 0x30 + 2 * q) by (bit_vector);
        assert(flags == publish_first_byte(packet@));
    }
    put_u8(buf, flags);

    let mut remaining_length = 2 + packet.topic.as_str().len();
    if packet.packet_id.is_some() {
        remaining_length += 2;
    }
    remaining_length += bytes_len(&packet.payload);
    assert(remaining_length == publish_remaining_length(packet@));

    encode_remaining_length(remaining_length as u32, buf);
    encode_string(packet.topic.as_str(), buf);
    if let Some(packet_id) = packet.packet_id {
        put_u16(buf, packet_id);
    }
    put_slice(buf, bytes_as_slice(&packet.payload));
    assert(bytes_mut_view(*buf) =~= start + spec_encode_publish(packet@));
}

/// Writes a PUBACK packet.
pub fn encode_puback(packet: &PubAckPacket, buf: &mut BytesMut)
    requires
        bytes_mut_view(*old(buf)).len() + 4 <= isize::MAX,
    ensures
        bytes_mut_view(*final(buf)) == bytes_mut_view(*old(buf)) + spec_encode_id_packet(
            0x40,
            packet.packet_id,
        ),
{
    encode_id_packet(0x40, packet.packet_id, buf);
}

/// Writes a PUBREC packet.
pub fn encode_pubrec(packet: &PubRecPacket, buf: &mut BytesMut)
    requires
        bytes_mut_view(*old(buf)).len() + 4 <= isize::MAX,
    ensures
        bytes_mut_view(*final(buf)) == bytes_mut_view(*old(buf)) + spec_encode_id_packet(
            0x50,
            packet.packet_id,
        ),
{
    encode_id_packet(0x50, packet.packet_id, buf);
}

/// Writes a PUBREL packet (its fixed flags are 0b0010).
pub fn encode_pubrel(packet: &PubRelPacket, buf: &mut BytesMut)
    requires
        bytes_mut_view(*old(buf)).len() + 4 <= isize::MAX,
    ensures
        bytes_mut_view(*final(buf)) == bytes_mut_view(*old(buf)) + spec_encode_id_packet(
            0x62,
            packet.packet_id,
        ),
{
    encode_id_packet(0x62, packet.packet_id, buf);
}

/// Writes a PUBCOMP packet.
pub fn encode_pubcomp(packet: &PubCompPacket, buf: &mut BytesMut)
    requires
        bytes_mut_view(*old(buf)).len() + 4 <= isize::MAX,
    ensures
        bytes_mut_view(*final(buf)) == bytes_mut_view(*old(buf)) + spec_encode_id_packet(
            0x70,
            packet.packet_id,
        ),
{
    encode_id_packet(0x70, packet.packet_id, buf);
}

/// Writes a SUBACK packet.
pub fn encode_suback(packet: &SubAckPacket, buf: &mut BytesMut)
    requires
        packet.return_codes@.len() + 2 <= u32::MAX,
        bytes_mut_view(*old(buf)).len() + spec_encode_suback(
            packet.packet_id,
            packet.return_codes@,
        ).len() <= isize::MAX,
    ensures
        bytes_mut_view(*final(buf)) == bytes_mut_view(*old(buf)) + spec_encode_suback(
            packet.packet_id,
            packet.return_codes@,
        ),
{
    let ghost start = bytes_mut_view(*buf);
    put_u8(buf, 0x90);
    encode_remaining_length(2 + packet.return_codes.len() as u32, buf);
    put_u16(buf, packet.packet_id);
    let n = packet.return_codes.len();
    let mut i: usize = 0;
    while i < n
        invariant
            n == packet.return_codes@.len(),
            i <= n,
            bytes_mut_view(*buf) == start + seq![0x90u8] + spec_encode_remaining_length(
                (2 + n) as nat,
            ) + u16_bytes(packet.packet_id) + packet.return_codes@.take(i as int),
            start.len() + spec_encode_suback(packet.packet_id, packet.return_codes@).len()
                <= isize::MAX,
        decreases n - i,
    {
        put_u8(buf, packet.return_codes[i]);
        i += 1;
        assert(packet.return_codes@.take(i as int) =~= packet.return_codes@.take(i - 1).push(
            packet.return_codes@[i - 1],
        ));
    }
    assert(packet.return_codes@.take(n as int) =~= packet.return_codes@);
}

/// Writes an UNSUBACK packet.
pub fn encode_unsuback(packet: &UnsubAckPacket, buf: &mut BytesMut)
    requires
        bytes_mut_view(*old(buf)).len() + 4 <= isize::MAX,
    ensures
        bytes_mut_view(*final(buf)) == bytes_mut_view(*old(buf)) + spec_encode_id_packet(
            0xB0,
            packet.packet_id,
        ),
{
    encode_id_packet(0xB0, packet.packet_id, buf);
}

/// Writes a DISCONNECT packet.
pub fn encode_disconnect(buf: &mut BytesMut)
    requires
        bytes_mut_view(*old(buf)).len() + 2 <= isize::MAX,
    ensures
        bytes_mut_view(*final(buf)) == bytes_mut_view(*old(buf)) + spec_encode_empty(0xE0),
{
    put_u8(buf, 0xE0);
    put_u8(buf, 0);
    assert(bytes_mut_view(*buf) =~= bytes_mut_view(*old(buf)) + spec_encode_empty(0xE0));
}

/// Writes a PINGRESP packet.
pub fn encode_pingresp(buf: &mut BytesMut)
    requires
        bytes_mut_view(*old(buf)).len() + 2 <= isize::MAX,
    ensures
        bytes_mut_view(*final(buf)) == bytes_mut_view(*old(buf)) + spec_encode_empty(0xD0),
{
    put_u8(buf, 0xD0);
    put_u8(buf, 0);
    assert(bytes_mut_view(*buf) =~= bytes_mut_view(*old(buf)) + spec_encode_empty(0xD0));
}

impl Packet {
    /// Writes the packet; packets a broker never sends write nothing.
    pub fn encode(&self, buf: &mut BytesMut)
        requires
            encodable(self@),
            bytes_mut_view(*old(buf)).len() + spec_encode_packet(self@).len() <= isize::MAX,
        ensures
            bytes_mut_view(*final(buf)) == bytes_mut_view(*old(buf)) + spec_encode_packet(self@),
    {
        match self {
            Packet::ConnAck(packet) => encode_connack(packet, buf),
            Packet::Publish(packet) => encode_publish(packet, buf),
            Packet::PubAck(packet) => encode_puback(packet, buf),
            Packet::PubRec(packet) => encode_pubrec(packet, buf),
            Packet::PubRel(packet) => encode_pubrel(packet, buf),
            Packet::PubComp(packet) => encode_pubcomp(packet, buf),
            Packet::SubAck(packet) => encode_suback(packet, buf),
            Packet::UnsubAck(packet) => encode_unsuback(packet, buf),
            Packet::PingResp => encode_pingresp(buf),
            Packet::Disconnect => encode_disconnect(buf),
            _ => {
                assert(bytes_mut_view(*buf) =~= bytes_mut_view(*old(buf)) + spec_encode_packet(
                    self@,
                ));
            },
        }
    }
}

// ---------------------------------------------------------------------------
// Whole frames
// ---------------------------------------------------------------------------

/// Reading one whole packet from the front of `s`: the first byte, the
/// remaining length, then a body of that many bytes. `Short` when `s` ends
/// before the frame does, or inside the body where its reader would run past
/// the end.
pub open spec fn spec_decode_frame(s: Seq<u8>) -> Parse<PacketModel> {
    if s.len() == 0 {
        Parse::Short
    } else {
        match spec_decode_first_byte(s[0]) {
            Err(e) => Parse::Fail(e),
            Ok((t, flags)) => match spec_decode_remaining_length(s.skip(1)) {
                Parse::Done(n, k) => if s.len() < 1 + k + n {
                    Parse::Short
                } else {
                    match spec_decode_body(t, flags, s.subrange(1 + k as int, (1 + k + n) as int)) {
                        Parse::Done(p, _) => Parse::Done(p, 1 + k + n),
                        Parse::Fail(e) => Parse::Fail(e),
                        Parse::Short => Parse::Short,
                    }
                },
                Parse::Fail(e) => Parse::Fail(e),
                Parse::Short => Parse::Short,
            },
        }
    }
}

/// The packets a broker both writes and reads, with what the writer needs to
/// frame them faithfully: a PUBLISH topic of at most 65535 UTF-8 bytes, a
/// packet id present exactly when the QoS is above zero, and a remaining
/// length below 2^28.
pub open spec fn round_trips(p: PacketModel) -> bool {
    match p {
        PacketModel::Publish(m) => {
            &&& encode_utf8(m.topic).len() <= 65535
            &&& (m.packet_id is Some <==> m.qos != QoS::AtMostOnce)
            &&& publish_remaining_length(m) < 268435456
        },
        PacketModel::PubAck(_) => true,
        PacketModel::PubRec(_) => true,
        PacketModel::PubRel(_) => true,
        PacketModel::PubComp(_) => true,
        PacketModel::Disconnect => true,
        _ => false,
    }
}

proof fn lemma_u16_bytes(v: u16)
    ensures
        be_u16(u16_bytes(v)[0], u16_bytes(v)[1]) == v,
{
}

proof fn lemma_first_byte_bits(d: bool, q: u8, r: bool)
    requires
        q <= 2,
    ensures
        ({
            let b = (0x30 + (if d { 8int } else { 0int }) + 2 * q + (if r { 1int } else { 0int })) as u8;
            &&& (b >> 4) & 0x0F == 3
            &&& ((b & 0x0F) >> 1) & 0x03 == q
            &&& ((b & 0x0F) & 0x01 != 0) == r
            &&& ((b & 0x0F) & 0x08 != 0) == d
        }),
{
    let dd: u8 = if d { 8 } else { 0 };
    let rr: u8 = if r { 1 } else { 0 };
    assert(((0x30 + dd + 2 * q + rr) as u8) == 0x30u8 + dd + 2 * q + rr);
    assert(q <= 2 && (dd == 0 || dd == 8) && (rr == 0 || rr == 1) ==> {
        let b: u8 = (0x30u8 + dd + 2 * q + rr) as u8;
        &&& (b >> 4) & 0x0F == 3
        &&& ((b & 0x0F) >> 1) & 0x03 == q
        &&& ((b & 0x0F) & 0x01 != 0) == (rr == 1)
        &&& ((b & 0x0F) & 0x08 != 0) == (dd == 8)
    }) by (bit_vector);
}

proof fn lemma_id_frame(first: u8, t: PacketType, id: u16, rest: Seq<u8>)
    requires
        (first >> 4) & 0x0F == packet_type_num(t),
        t == PacketType::PubAck || t == PacketType::PubRec || t == PacketType::PubRel || t
            == PacketType::PubComp,
    ensures
        spec_decode_frame(spec_encode_id_packet(first, id) + rest) == Parse::Done(
            match t {
                PacketType::PubAck => PacketModel::PubAck(id),
                PacketType::PubRec => PacketModel::PubRec(id),
                PacketType::PubRel => PacketModel::PubRel(id),
                _ => PacketModel::PubComp(id),
            },
            4,
        ),
{
    let s = spec_encode_id_packet(first, id) + rest;
    assert(s[0] == first);
    assert(s.skip(1) =~= spec_encode_remaining_length(2) + (u16_bytes(id) + rest));
    lemma_remaining_length_roundtrip(2, u16_bytes(id) + rest);
    assert(s.subrange(2, 4) =~= u16_bytes(id));
    lemma_u16_bytes(id);
}

/// What the writer writes of a packet that a broker both sends and receives
/// reads back as that packet, whatever bytes follow it.
pub proof fn lemma_frame_roundtrip(p: PacketModel, rest: Seq<u8>)
    requires
        round_trips(p),
    ensures
        spec_decode_frame(spec_encode_packet(p) + rest) == Parse::Done(
            p,
            spec_encode_packet(p).len(),
        ),
{
    match p {
        PacketModel::Publish(m) => lemma_publish_frame(m, rest),
        PacketModel::PubAck(id) => {
            assert((0x40u8 >> 4) & 0x0F == 4) by (bit_vector);
            lemma_id_frame(0x40, PacketType::PubAck, id, rest);
        },
        PacketModel::PubRec(id) => {
            assert((0x50u8 >> 4) & 0x0F == 5) by (bit_vector);
            lemma_id_frame(0x50, PacketType::PubRec, id, rest);
        },
        PacketModel::PubRel(id) => {
            assert((0x62u8 >> 4) & 0x0F == 6) by (bit_vector);
            lemma_id_frame(0x62, PacketType::PubRel, id, rest);
        },
        PacketModel::PubComp(id) => {
            assert((0x70u8 >> 4) & 0x0F == 7) by (bit_vector);
            lemma_id_frame(0x70, PacketType::PubComp, id, rest);
        },
        PacketModel::Disconnect => {
            assert((0xE0u8 >> 4) & 0x0F == 14) by (bit_vector);
            let s = spec_encode_empty(0xE0) + rest;
            assert(s[0] == 0xE0);
            assert(s.skip(1) =~= spec_encode_remaining_length(0) + rest);
            lemma_remaining_length_roundtrip(0, rest);
        },
        _ => {},
    }
}

proof fn lemma_publish_body(m: PublishModel, flags: u8)
    requires
        round_trips(PacketModel::Publish(m)),
        qos_from_num((flags >> 1) & 0x03) == Some(m.qos),
        (flags & 0x01 != 0) == m.retain,
        (flags & 0x08 != 0) == m.dup,
    ensures
        spec_decode_publish(publish_body(m), flags) == Parse::Done(m, publish_body(m).len()),
{
    let idb = packet_id_bytes(m.packet_id);
    let body = publish_body(m);
    assert(body =~= spec_encode_string(m.topic) + (idb + m.payload));
    lemma_string_roundtrip(m.topic, idb + m.payload);
    let k = 2 + encode_utf8(m.topic).len();
    assert(body.skip(k as int) =~= idb + m.payload);
    match m.packet_id {
        Some(id) => {
            lemma_u16_bytes(id);
            assert((idb + m.payload).skip(2) =~= m.payload);
        },
        None => {},
    }
}

proof fn lemma_publish_frame(m: PublishModel, rest: Seq<u8>)
    requires
        round_trips(PacketModel::Publish(m)),
    ensures
        spec_decode_frame(spec_encode_publish(m) + rest) == Parse::Done(
            PacketModel::Publish(m),
            spec_encode_publish(m).len(),
        ),
{
    let fb = publish_first_byte(m);
    let n = publish_remaining_length(m);
    let rl = spec_encode_remaining_length(n as nat);
    let body = publish_body(m);
    let s = spec_encode_publish(m) + rest;
    assert(n as u32 as nat == n);
    assert(body.len() == n);
    lemma_first_byte_bits(m.dup, qos_num(m.qos), m.retain);
    assert(s[0] == fb);
    assert(s.skip(1) =~= rl + (body + rest));
    lemma_remaining_length_roundtrip(n as nat, body + rest);
    assert(s.subrange(1 + rl.len() as int, 1 + rl.len() + n) =~= body);
    lemma_publish_body(m, fb & 0x0F);
}


/// The first byte of a PUBLISH on the wire carries its fields: type 3 in the
/// high four bits, the QoS number in bits 1-2, DUP in bit 3, RETAIN in bit 0.
pub proof fn lemma_publish_first_byte(p: PublishModel)
    ensures
        ({
            let b = publish_first_byte(p);
            &&& (b >> 4) & 0x0F == 3
            &&& ((b & 0x0F) >> 1) & 0x03 == qos_num(p.qos)
            &&& ((b & 0x0F) & 0x08 != 0) == p.dup
            &&& ((b & 0x0F) & 0x01 != 0) == p.retain
        }),
{
    lemma_first_byte_bits(p.dup, qos_num(p.qos), p.retain);
}

/// A PUBLISH body decodes to the topic at its front; its QoS is the level
/// numbered by bits 1-2 of the flags (number 3 is refused), DUP is bit 3 and
/// RETAIN bit 0; at QoS 0 there is no packet id and the payload is the rest;
/// above it the packet id is the next two bytes, big-endian, and the payload
/// what follows them.
pub proof fn lemma_publish_fields(s: Seq<u8>, flags: u8, topic: Seq<char>, k: nat)
    requires
        spec_decode_string(s) == Parse::Done(topic, k),
    ensures
        ({
            let bits = (flags >> 1) & 0x03;
            &&& bits == 3 ==> spec_decode_publish(s, flags) == Parse::<PublishModel>::Fail(
                PacketError::InvalidPacketType(flags),
            )
            &&& spec_decode_publish(s, flags) matches Parse::Done(p, n) ==> {
                &&& n == s.len()
                &&& p.topic == topic
                &&& qos_num(p.qos) == bits
                &&& p.dup == (flags & 0x08 != 0)
                &&& p.retain == (flags & 0x01 != 0)
                &&& bits == 0 ==> p.packet_id is None && p.payload == s.skip(k as int)
                &&& bits != 0 ==> p.packet_id == Some((s[k as int] as int * 256 + s[k + 1int] as int) as u16)
                    && p.payload == s.skip(k + 2int)
            }
        }),
{
    let bits = (flags >> 1) & 0x03;
    assert(bits <= 3) by (bit_vector)
        requires
            bits == (flags >> 1) & 0x03,
    ;
    if bits <= 2 {
        assert(qos_num(qos_from_num(bits)->0) == bits);
    }
    let r = s.skip(k as int);
    if r.len() >= 2 {
        assert(r[0] == s[k as int] && r[1] == s[k + 1int]);
        assert(r.skip(2) =~= s.skip(k + 2int));
    }
}
} // verus!
