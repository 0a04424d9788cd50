use flyctrl::comm::mavlink::{
    crc16_x25, decode, decode_command_ack, decode_command_long, decode_param_value, encode,
    encode_attitude, encode_command_ack, encode_command_long, encode_global_position_int,
    encode_heartbeat, encode_local_pos, encode_local_pos_from, encode_param_value,
    encode_sys_status, encode_vfr_hud, enums, msg_id, Frame, MAVLINK_MAGIC, MAX_FRAME_LEN,
};
use flyctrl::single::Single;
use flyctrl::units::{Meter, MeterPerSecond, Radian, RadianPerSecond};
use flyctrl::vehicle::{Euler, VehicleState};

fn s(x: f32) -> Single {
    Single::from_bits(x.to_bits())
}

fn f(x: Single) -> f32 {
    f32::from_bits(x.to_bits())
}

fn frame_from_slice(b: &[u8]) -> Frame {
    Frame::from_bytes(b)
}

fn euler(roll: f32, pitch: f32, yaw: f32) -> Euler {
    Euler { roll: Radian(s(roll)), pitch: Radian(s(pitch)), yaw: Radian(s(yaw)) }
}

#[test]
fn crc_extra_appended_for_heartbeat() {
    let mut out = [0u8; MAX_FRAME_LEN];
    let n = encode_heartbeat(0, false, 7, &mut out);
    assert_eq!(out[0], MAVLINK_MAGIC);
    assert_eq!(u32::from(out[7]), msg_id::HEARTBEAT);
    assert_eq!(n, 21);
    let frame = frame_from_slice(&out[..n]);
    let (id, _pl) = decode(&frame).expect("heartbeat should decode with CRC_EXTRA");
    assert_eq!(id, msg_id::HEARTBEAT);
}

#[test]
fn decode_rejects_wrong_crc_extra() {
    let mut out = [0u8; MAX_FRAME_LEN];
    let n = encode(msg_id::SYS_STATUS, 0, &[0u8; 31], &mut out);
    out[n - 1] ^= 0xFF;
    let frame = frame_from_slice(&out[..n]);
    assert!(decode(&frame).is_none());
}

#[test]
fn heartbeat_uses_standard_fields() {
    let mut out = [0u8; MAX_FRAME_LEN];
    encode_heartbeat(5, true, 0, &mut out);
    let frame = frame_from_slice(&out[..21]);
    let (_id, pl) = decode(&frame).unwrap();
    assert_eq!(pl[0], enums::MAV_TYPE_QUADROTOR);
    assert_eq!(pl[1], enums::MAV_AUTOPILOT_ARDUPILOTMEGA);
    assert!(pl[2] & enums::MAV_MODE_FLAG_SAFETY_ARMED != 0);
    assert!(pl[2] & enums::MAV_MODE_FLAG_CUSTOM_MODE_ENABLED != 0);
    assert_eq!(u16::from_le_bytes([pl[3], pl[4]]), 5);
    assert_eq!(pl[7], enums::MAV_STATE_ACTIVE);
}

#[test]
fn command_long_roundtrip() {
    let mut out = [0u8; MAX_FRAME_LEN];
    let z = s(0.0);
    let n = encode_command_long(
        enums::MAV_CMD_COMPONENT_ARM_DISARM, s(1.0), z, z, z, z, z, z, 0, 3, &mut out,
    );
    let frame = frame_from_slice(&out[..n]);
    let (id, pl) = decode(&frame).unwrap();
    assert_eq!(id, msg_id::COMMAND_LONG);
    let cmd = decode_command_long(pl).unwrap();
    assert_eq!(cmd.command, enums::MAV_CMD_COMPONENT_ARM_DISARM);
    assert_eq!(cmd.params[0], s(1.0));
    assert_eq!(cmd.confirmation, 0);
}

#[test]
fn param_value_roundtrip() {
    let mut out = [0u8; MAX_FRAME_LEN];
    let id = *b"Thrust\0\0\0\0\0\0\0\0\0\0";
    let n = encode_param_value(&id, s(0.75), enums::MAV_PARAM_TYPE_REAL32, 10, 2, 0, &mut out);
    let frame = frame_from_slice(&out[..n]);
    let (_id, pl) = decode(&frame).unwrap();
    let pv = decode_param_value(pl).unwrap();
    assert_eq!(pv.id, id);
    assert!((f(pv.value) - 0.75).abs() < 1e-6);
    assert_eq!(pv.param_type, enums::MAV_PARAM_TYPE_REAL32);
    assert_eq!(pv.param_count, 10);
    assert_eq!(pv.param_index, 2);
}

#[test]
fn local_pos_sys_id_override() {
    let mut st = VehicleState::zero();
    st.pos = [Meter(s(1.0)), Meter(s(2.0)), Meter(s(3.0))];
    let mut out = [0u8; MAX_FRAME_LEN];
    let n = encode_local_pos_from(7, &st, 0, &mut out);
    assert_eq!(out[5], 7);
    let frame = frame_from_slice(&out[..n]);
    assert!(decode(&frame).is_some());
}

#[test]
fn attitude_uses_euler_layout() {
    let mut st = VehicleState::zero();
    st.time_boot_ms = 1234;
    st.omega = [RadianPerSecond(s(1.0)), RadianPerSecond(s(2.0)), RadianPerSecond(s(3.0))];
    let mut out = [0u8; MAX_FRAME_LEN];
    let n = encode_attitude(&st, &euler(0.1, 0.2, 0.3), 0, &mut out);
    assert_eq!(n, 10 + 28 + 2);
    let frame = frame_from_slice(&out[..n]);
    let (_id, pl) = decode(&frame).expect("ATTITUDE should decode (CRC_EXTRA ok)");
    assert_eq!(pl.len(), 28);
    assert_eq!(i32::from_le_bytes([pl[0], pl[1], pl[2], pl[3]]), 1234);
    assert!((f32::from_le_bytes([pl[4], pl[5], pl[6], pl[7]]) - 0.1).abs() < 1e-3);
    assert!((f32::from_le_bytes([pl[12], pl[13], pl[14], pl[15]]) - 0.3).abs() < 1e-3);
    assert!((f32::from_le_bytes([pl[24], pl[25], pl[26], pl[27]]) - 3.0).abs() < 1e-3);
}

#[test]
fn vfr_hud_standard_layout() {
    let mut st = VehicleState::zero();
    st.vel = [MeterPerSecond(s(3.0)), MeterPerSecond(s(4.0)), MeterPerSecond(s(-1.0))];
    st.pos = [Meter(s(0.0)), Meter(s(0.0)), Meter(s(-50.0))];
    let mut out = [0u8; MAX_FRAME_LEN];
    let n = encode_vfr_hud(&st, &euler(0.0, 0.0, 0.5), 42, 0, &mut out);
    assert_eq!(n, 10 + 20 + 2);
    let frame = frame_from_slice(&out[..n]);
    let (_id, pl) = decode(&frame).expect("VFR_HUD should decode (CRC_EXTRA ok)");
    assert_eq!(pl.len(), 20);
    assert_eq!(f32::from_le_bytes([pl[0], pl[1], pl[2], pl[3]]), 0.0);
    assert!((f32::from_le_bytes([pl[4], pl[5], pl[6], pl[7]]) - 5.0).abs() < 1e-3);
    let heading = i16::from_le_bytes([pl[8], pl[9]]);
    assert!((heading as f32 - 0.5f32 * 180.0 / core::f32::consts::PI * 100.0).abs() < 2.0);
    assert_eq!(u16::from_le_bytes([pl[10], pl[11]]), 42);
    assert!((f32::from_le_bytes([pl[12], pl[13], pl[14], pl[15]]) - 50.0).abs() < 1e-3);
    assert!((f32::from_le_bytes([pl[16], pl[17], pl[18], pl[19]]) - (-1.0)).abs() < 1e-3);
}

#[test]
fn checksum_of_the_standard_check_string() {
    assert_eq!(crc16_x25(b"123456789"), 0x6F91);
    assert_eq!(crc16_x25(b""), 0xFFFF);
}

#[test]
fn global_position_layout() {
    let mut st = VehicleState::zero();
    st.time_boot_ms = 7;
    st.pos[2] = Meter(s(-12.5));
    st.vel = [MeterPerSecond(s(1.25)), MeterPerSecond(s(-2.0)), MeterPerSecond(s(0.5))];
    let mut out = [0u8; MAX_FRAME_LEN];
    let n = encode_global_position_int(&st, &euler(0.0, 0.0, 1.0), 9, &mut out);
    let frame = frame_from_slice(&out[..n]);
    let (id, pl) = decode(&frame).unwrap();
    assert_eq!(id, msg_id::GLOBAL_POSITION_INT);
    assert_eq!(i32::from_le_bytes([pl[16], pl[17], pl[18], pl[19]]), 12500);
    assert_eq!(i16::from_le_bytes([pl[20], pl[21]]), 125);
    assert_eq!(i16::from_le_bytes([pl[22], pl[23]]), -200);
    assert_eq!(i16::from_le_bytes([pl[24], pl[25]]), 50);
    assert_eq!(u16::from_le_bytes([pl[26], pl[27]]), 5700);
}

#[test]
fn status_answer_and_position_decode() {
    let mut out = [0u8; MAX_FRAME_LEN];
    for ok in [true, false] {
        let n = encode_sys_status(ok, 1, &mut out);
        let frame = frame_from_slice(&out[..n]);
        let (id, pl) = decode(&frame).unwrap();
        assert_eq!((id, pl.len()), (msg_id::SYS_STATUS, 31));
        let health = u32::from_le_bytes([pl[8], pl[9], pl[10], pl[11]]);
        assert_eq!(health != 0, ok);
    }
    let n = encode_command_ack(400, 3, 1, 2, 8, &mut out);
    let frame = frame_from_slice(&out[..n]);
    let (id, pl) = decode(&frame).unwrap();
    assert_eq!(id, msg_id::COMMAND_ACK);
    assert_eq!(decode_command_ack(pl), Some((400, 3)));
    let n = encode_local_pos(&VehicleState::zero(), 2, &mut out);
    assert_eq!(out[4], 2);
    let frame = frame_from_slice(&out[..n]);
    assert_eq!(decode(&frame).unwrap().0, msg_id::LOCAL_POSITION_NED);
}

#[test]
fn damaged_short_and_unknown_frames_are_refused() {
    let mut out = [0u8; MAX_FRAME_LEN];
    let n = encode_heartbeat(5, true, 0, &mut out);
    for i in 0..n {
        let mut bad = out;
        bad[i] ^= 0x10;
        let frame = frame_from_slice(&bad[..n]);
        assert!(i == 2 || i == 3 || decode(&frame).is_none() || i == 1, "byte {i}");
    }
    assert!(decode(&frame_from_slice(&out[..n - 1])).is_none());
    assert!(decode(&Frame::default()).is_none());
    assert!(Frame::default().is_empty());
    assert_eq!(encode(9999, 0, &[0u8; 4], &mut out), 0);
    assert_eq!(encode(msg_id::HEARTBEAT, 0, &[0u8; 256], &mut out), 0);
    assert!(decode_command_long(&[0u8; 32]).is_none());
    assert!(decode_param_value(&[0u8; 24]).is_none());
    assert!(decode_command_ack(&[0u8; 2]).is_none());
}

#[test]
fn long_slices_are_cut_to_a_frame() {
    let long = vec![7u8; 400];
    let frame = Frame::from_bytes(&long);
    assert_eq!(frame.len, MAX_FRAME_LEN);
}
