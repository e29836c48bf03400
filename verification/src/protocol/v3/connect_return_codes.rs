//! CONNACK return codes of MQTT v3.1.1.

use vstd::prelude::*;

verus! {

pub const ACCEPTED: u8 = 0x00;

pub const UNACCEPTABLE_PROTOCOL_VERSION: u8 = 0x01;

pub const IDENTIFIER_REJECTED: u8 = 0x02;

pub const SERVER_UNAVAILABLE: u8 = 0x03;

pub const BAD_USERNAME_OR_PASSWORD: u8 = 0x04;

pub const NOT_AUTHORIZED: u8 = 0x05;

} // verus!
