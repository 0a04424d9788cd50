use flyctrl::comm::bridge::{MavCommand, MavlinkBridge, ParamProvider};
use flyctrl::comm::link::{Link, LoopbackLink};
use flyctrl::comm::mavlink::{
    self, decode, decode_command_ack, decode_param_value, enums, msg_id, Frame, MAX_FRAME_LEN,
};
use flyctrl::comm::telemetry::Telemetry;
use flyctrl::single::Single;
use flyctrl::units::Radian;
use flyctrl::vehicle::{Euler, VehicleState};

fn s(x: f32) -> Single {
    Single::from_bits(x.to_bits())
}

fn level() -> Euler {
    Euler { roll: Radian(s(0.0)), pitch: Radian(s(0.0)), yaw: Radian(s(0.0)) }
}

struct EmptyParams;

impl ParamProvider for EmptyParams {
    fn param_count(&self) -> u16 {
        0
    }
    fn param_id(&self, _: u16) -> [u8; 16] {
        [0u8; 16]
    }
    fn param_value(&self, _: u16) -> Single {
        s(0.0)
    }
}

struct P;

impl ParamProvider for P {
    fn param_count(&self) -> u16 {
        2
    }
    fn param_id(&self, idx: u16) -> [u8; 16] {
        let mut id = [0u8; 16];
        let b: &[u8] = if idx == 0 { b"THR_MUL\0\0\0\0\0" } else { b"ATT_P\0\0\0\0\0\0\0\0" };
        id[..b.len()].copy_from_slice(b);
        id
    }
    fn param_value(&self, idx: u16) -> Single {
        if idx == 0 {
            s(1.5)
        } else {
            s(0.25)
        }
    }
}

fn build_command_long(cmd: u16, params: [f32; 7]) -> Frame {
    let mut buf = [0u8; MAX_FRAME_LEN];
    let p = params.map(s);
    let n = mavlink::encode_command_long(
        cmd, p[0], p[1], p[2], p[3], p[4], p[5], p[6], 0, 0, &mut buf,
    );
    Frame::from_bytes(&buf[..n])
}

#[test]
fn arm_disarm_decode_and_ack() {
    let link = LoopbackLink::new();
    let mut bridge = MavlinkBridge::new(link);

    let f = build_command_long(
        enums::MAV_CMD_COMPONENT_ARM_DISARM,
        [1.0, 0.0, 0.0, 0.0, 0.0, 0.0, 0.0],
    );
    let cmd = bridge.handle_frame(&f, &EmptyParams);
    assert_eq!(cmd, Some(MavCommand::Arm));

    let f2 = build_command_long(
        enums::MAV_CMD_COMPONENT_ARM_DISARM,
        [0.0, 0.0, 0.0, 0.0, 0.0, 0.0, 0.0],
    );
    let cmd2 = bridge.handle_frame(&f2, &EmptyParams);
    assert_eq!(cmd2, Some(MavCommand::Disarm));

    let ack1 = bridge.recv_raw();
    assert!(!ack1.is_empty());
    let (id1, payload1) = decode(&ack1).unwrap();
    assert_eq!(id1, msg_id::COMMAND_ACK);
    let (ack_cmd, ack_res) = decode_command_ack(payload1).unwrap();
    assert_eq!(ack_cmd, enums::MAV_CMD_COMPONENT_ARM_DISARM);
    assert_eq!(ack_res, enums::MAV_RESULT_ACCEPTED);
}

#[test]
fn takeoff_land_rtl_modes() {
    let link = LoopbackLink::new();
    let mut bridge = MavlinkBridge::new(link);

    let t = build_command_long(enums::MAV_CMD_NAV_TAKEOFF, [0.0, 0.0, 0.0, 0.0, 0.0, 0.0, 12.5]);
    assert_eq!(bridge.handle_frame(&t, &EmptyParams), Some(MavCommand::Takeoff(s(12.5))));

    let l = build_command_long(enums::MAV_CMD_NAV_LAND, [0.0; 7]);
    assert_eq!(bridge.handle_frame(&l, &EmptyParams), Some(MavCommand::Land));

    let r = build_command_long(enums::MAV_CMD_NAV_RETURN_TO_LAUNCH, [0.0; 7]);
    assert_eq!(bridge.handle_frame(&r, &EmptyParams), Some(MavCommand::Rtl));

    let m = build_command_long(enums::MAV_CMD_DO_SET_MODE, [4.0, 0.0, 0.0, 0.0, 0.0, 0.0, 0.0]);
    assert_eq!(bridge.handle_frame(&m, &EmptyParams), Some(MavCommand::SetMode(4)));

    let o = build_command_long(4242, [0.0; 7]);
    assert_eq!(bridge.handle_frame(&o, &EmptyParams), Some(MavCommand::Other(4242)));
    let mut found = false;
    loop {
        let ack = bridge.recv_raw();
        if ack.is_empty() {
            break;
        }
        let (_, payload) = decode(&ack).unwrap();
        let (ack_cmd, res) = decode_command_ack(payload).unwrap();
        if ack_cmd == 4242 {
            assert_eq!(res, enums::MAV_RESULT_UNSUPPORTED);
            found = true;
        }
    }
    assert!(found);
}

#[test]
fn param_request_list_streams_values() {
    let link = LoopbackLink::new();
    let mut bridge = MavlinkBridge::new(link);

    let mut buf = [0u8; MAX_FRAME_LEN];
    let n = mavlink::encode_param_request_list(1, 1, 0, 0, &mut buf);
    let req = Frame::from_bytes(&buf[..n]);
    assert_eq!(bridge.handle_frame(&req, &P), Some(MavCommand::RequestParamList));

    let pv1 = bridge.recv_raw();
    assert!(!pv1.is_empty());
    let (id1, payload1) = decode(&pv1).unwrap();
    assert_eq!(id1, msg_id::PARAM_VALUE);
    let _pv = decode_param_value(payload1).unwrap();
    let pv2 = bridge.recv_raw();
    assert!(!pv2.is_empty());
    let (id2, payload2) = decode(&pv2).unwrap();
    assert_eq!(id2, msg_id::PARAM_VALUE);
    let second = decode_param_value(payload2).unwrap();
    assert_eq!((second.param_index, second.param_count), (1, 2));
    assert_eq!(second.value, s(0.25));
    assert_eq!(second.param_type, enums::MAV_PARAM_TYPE_REAL32);
}

#[test]
fn telemetry_drain_sends_frames() {
    let link = LoopbackLink::new();
    let mut bridge = MavlinkBridge::new(link);
    let mut tel = Telemetry::new(50);
    let st = VehicleState::zero();
    for _ in 0..15 {
        tel.update(5, &st, &level(), true);
    }

    let n = bridge.drain_telemetry(&mut tel);
    assert!(n >= 8);
    assert_eq!(tel.pending(), 0);
    let mut seen = 0;
    loop {
        let f = bridge.recv_raw();
        if f.is_empty() {
            break;
        }
        assert!(decode(&f).is_some());
        seen += 1;
    }
    assert_eq!(seen, n);
}

#[test]
fn poll_answers_over_the_link() {
    let mut bridge = MavlinkBridge::new(LoopbackLink::new());
    assert_eq!(bridge.poll(&EmptyParams), None);
    let f = build_command_long(enums::MAV_CMD_MISSION_START, [0.0; 7]);
    assert_eq!(bridge.link_mut().send_frame(&f), 45);
    assert_eq!(bridge.poll(&EmptyParams), Some(MavCommand::StartMission));
    assert!(bridge.link().healthy());
    let ack = bridge.recv_raw();
    assert_eq!(decode(&ack).unwrap().0, msg_id::COMMAND_ACK);
}

#[test]
fn frames_without_a_request_are_not_answered() {
    let mut bridge = MavlinkBridge::new(LoopbackLink::new());
    let mut buf = [0u8; MAX_FRAME_LEN];
    let n = mavlink::encode_heartbeat(0, true, 0, &mut buf);
    assert_eq!(bridge.handle_frame(&Frame::from_bytes(&buf[..n]), &P), None);
    let short = mavlink::encode(msg_id::COMMAND_LONG, 0, &[0u8; 12], &mut buf);
    assert_eq!(bridge.handle_frame(&Frame::from_bytes(&buf[..short]), &P), None);
    assert_eq!(bridge.handle_frame(&Frame::default(), &P), None);
    assert!(bridge.recv_raw().is_empty());
    assert!(!MavCommand::Other(7).is_supported());
    assert!(MavCommand::RequestParamList.is_supported());
}

#[test]
fn arming_needs_more_than_a_half() {
    let mut bridge = MavlinkBridge::new(LoopbackLink::new());
    for (p, want) in [
        (0.5, MavCommand::Disarm),
        (0.50001, MavCommand::Arm),
        (f32::NAN, MavCommand::Disarm),
    ] {
        let f = build_command_long(
            enums::MAV_CMD_COMPONENT_ARM_DISARM,
            [p, 0.0, 0.0, 0.0, 0.0, 0.0, 0.0],
        );
        assert_eq!(bridge.handle_frame(&f, &EmptyParams), Some(want));
    }
    for (p, want) in [(255.0, 255), (300.0, 44), (-1.0, 0)] {
        let f = build_command_long(enums::MAV_CMD_DO_SET_MODE, [p, 0.0, 0.0, 0.0, 0.0, 0.0, 0.0]);
        assert_eq!(bridge.handle_frame(&f, &EmptyParams), Some(MavCommand::SetMode(want)));
    }
}
