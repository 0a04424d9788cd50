//! Numbers with a meaning inside messages.

use vstd::prelude::*;

verus! {

pub const MAV_TYPE_QUADROTOR: u8 = 2;

pub const MAV_AUTOPILOT_ARDUPILOTMEGA: u8 = 3;

pub const MAV_MODE_FLAG_SAFETY_ARMED: u8 = 0x80;

pub const MAV_MODE_FLAG_CUSTOM_MODE_ENABLED: u8 = 0x01;

pub const MAV_STATE_ACTIVE: u8 = 4;

pub const MAVLINK_VERSION: u8 = 3;

pub const MAV_CMD_NAV_RETURN_TO_LAUNCH: u16 = 20;

pub const MAV_CMD_NAV_LAND: u16 = 21;

pub const MAV_CMD_NAV_TAKEOFF: u16 = 22;

pub const MAV_CMD_DO_SET_MODE: u16 = 176;

pub const MAV_CMD_MISSION_START: u16 = 300;

pub const MAV_CMD_COMPONENT_ARM_DISARM: u16 = 400;

pub const MAV_RESULT_ACCEPTED: u8 = 0;

pub const MAV_RESULT_UNSUPPORTED: u8 = 3;

pub const MAV_PARAM_TYPE_REAL32: u8 = 9;

pub const COPTER_MODE_STABILIZE: u16 = 0;

pub const COPTER_MODE_ALT_HOLD: u16 = 2;

pub const COPTER_MODE_AUTO: u16 = 3;

pub const COPTER_MODE_GUIDED: u16 = 4;

pub const COPTER_MODE_LOITER: u16 = 5;

pub const COPTER_MODE_RTL: u16 = 6;

pub const COPTER_MODE_LAND: u16 = 9;

/// The sensors that the status report speaks of: gyroscope, accelerometer,
/// magnetometer, barometer and satellite receiver.
pub const SENSOR_MASK: u32 = 0x2F;

} // verus!
