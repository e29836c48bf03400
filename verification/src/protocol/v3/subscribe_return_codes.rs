//! SUBACK return codes of MQTT v3.1.1.

use vstd::prelude::*;

verus! {

pub const MAXIMUM_QOS_0: u8 = 0x00;

pub const MAXIMUM_QOS_1: u8 = 0x01;

pub const MAXIMUM_QOS_2: u8 = 0x02;

pub const FAILURE: u8 = 0x80;

} // verus!
