//! Message numbers.

use vstd::prelude::*;

verus! {

pub const HEARTBEAT: u32 = 0;

pub const SYS_STATUS: u32 = 1;

pub const PARAM_REQUEST_LIST: u32 = 21;

pub const PARAM_VALUE: u32 = 22;

pub const ATTITUDE: u32 = 30;

pub const LOCAL_POSITION_NED: u32 = 32;

pub const GLOBAL_POSITION_INT: u32 = 33;

pub const VFR_HUD: u32 = 74;

pub const COMMAND_LONG: u32 = 76;

pub const COMMAND_ACK: u32 = 77;

} // verus!
