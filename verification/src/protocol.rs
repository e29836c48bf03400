//! MQTT v3.1.1 wire protocol: packet types, encoding and decoding.

pub mod packet;
pub mod v3;

pub use packet::{
    ConnAckPacket, ConnectPacket, Packet, PacketError, PacketType, PubAckPacket, PubCompPacket,
    PubRecPacket, PubRelPacket, PublishPacket, QoS, SubAckPacket, SubscribePacket,
    UnsubAckPacket, UnsubscribePacket,
};
