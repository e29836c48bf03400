//! Verified core of an MQTT v3.1.1 broker: packet codec, topic matching,
//! subscription routing, per-session protocol state, storage and access rules.

pub mod buf;
pub mod protocol;
pub mod text;
pub mod topic;
pub mod storage;
pub mod router;
pub mod auth;
pub mod session;
pub mod config;
pub mod tls;
pub mod transport;
pub mod server;
