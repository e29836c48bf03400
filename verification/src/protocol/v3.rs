//! Constants of MQTT v3.1.1.

use vstd::prelude::*;

pub mod connect_return_codes;
pub mod subscribe_return_codes;

verus! {

/// Protocol name carried by every v3.1.1 CONNECT packet.
pub const PROTOCOL_NAME: &'static str = "MQTT";

/// Protocol level of MQTT v3.1.1.
pub const PROTOCOL_LEVEL: u8 = 4;

} // verus!
