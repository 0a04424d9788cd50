//! The message layer: frames with a checksum, the messages in them, and the
//! messages made from a vehicle state.

pub mod codec;
pub mod enums;
pub mod frame;
pub mod msg_id;
pub mod state;

pub use codec::{
    decode_command_ack, decode_command_long, decode_param_value, encode_attitude_raw,
    encode_command_ack, encode_command_long, encode_global_position_int_raw, encode_heartbeat,
    encode_local_pos_from_raw, encode_param_request_list, encode_param_value, encode_sys_status,
    encode_vfr_hud_raw, put_f32, put_i16, put_i32, put_u16, CommandLong, ParamValue,
};
pub use frame::{
    crc16_x25, crc_extra, decode, encode, encode_from, Frame, COMP_ID, MAVLINK_MAGIC,
    MAX_FRAME_LEN, SYS_ID,
};
pub use state::{
    encode_attitude, encode_global_position_int, encode_local_pos, encode_local_pos_from,
    encode_vfr_hud,
};
