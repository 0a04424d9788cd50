use flyctrl::comm::link::{Link, LoopbackLink, UartLink};
use flyctrl::comm::mavlink::{self, msg_id, Frame, MAX_FRAME_LEN};
use flyctrl::comm::telemetry::{Telemetry, TELEM_RING_FRAMES};
use flyctrl::single::Single;
use flyctrl::units::Radian;
use flyctrl::vehicle::{Euler, VehicleState};

fn level() -> Euler {
    let z = Single::from_bits(0);
    Euler { roll: Radian(z), pitch: Radian(z), yaw: Radian(z) }
}

#[test]
fn telemetry_produces_parseable_frames() {
    let mut t = Telemetry::new(50);
    let st = VehicleState::zero();
    for _ in 0..120 {
        t.update(5, &st, &level(), true);
    }
    let mut seen = 0;
    while t.pending() > 0 {
        let f = t.pop();
        assert!(!f.is_empty());
        let (_id, _p) = mavlink::decode(&f).expect("frame should decode");
        seen += 1;
    }
    assert!(seen >= 8, "expected several telemetry frames, got {}", seen);
}

#[test]
fn reports_come_at_the_rate() {
    let mut t = Telemetry::new(50);
    let st = VehicleState::zero();
    for _ in 0..3 {
        t.update(5, &st, &level(), true);
    }
    assert_eq!(t.pending(), 0);
    t.update(5, &st, &level(), true);
    assert_eq!(t.pending(), 4);
    let ids: Vec<u32> = (0..4).map(|_| mavlink::decode(&t.pop()).unwrap().0).collect();
    assert_eq!(
        ids,
        vec![msg_id::ATTITUDE, msg_id::LOCAL_POSITION_NED, msg_id::HEARTBEAT, msg_id::SYS_STATUS]
    );
    t.update(20, &st, &level(), true);
    assert_eq!(t.pending(), 2);
    assert!(t.pop().data[4] == 1);
    let mut zero = Telemetry::new(0);
    zero.update(999, &st, &level(), true);
    assert_eq!(zero.pending(), 0);
    zero.update(1, &st, &level(), true);
    assert_eq!(zero.pending(), 4);
    let mut fast = Telemetry::new(5000);
    fast.update(0, &st, &level(), true);
    assert_eq!(fast.pending(), 4);
}

#[test]
fn a_full_queue_drops_the_oldest() {
    let mut t = Telemetry::new(1000);
    let st = VehicleState::zero();
    for _ in 0..20 {
        t.update(1, &st, &level(), false);
    }
    assert_eq!(t.pending(), TELEM_RING_FRAMES);
    assert_eq!(t.dropped(), 2 * 20 + 4 - 32);
    let first = t.pop();
    assert_eq!(first.data[4], 5);
    let mut last = first;
    while t.pending() > 0 {
        last = t.pop();
    }
    assert_eq!(last.data[4], 19);
    assert!(t.pop().is_empty());
}

#[test]
fn a_loopback_hands_frames_back_in_order() {
    let mut link = LoopbackLink::new();
    let mut buf = [0u8; MAX_FRAME_LEN];
    for k in 0..5u8 {
        let n = mavlink::encode_heartbeat(k as u32, true, k, &mut buf);
        assert_eq!(link.send_frame(&Frame::from_bytes(&buf[..n])), 21);
    }
    for k in 0..5u8 {
        let f = link.recv_frame();
        assert_eq!(f.data[4], k);
        assert_eq!(mavlink::decode(&f).unwrap().0, msg_id::HEARTBEAT);
    }
    assert!(link.recv_frame().is_empty());
}

#[test]
fn a_loopback_skips_noise_and_loses_half_frames() {
    let mut link = LoopbackLink::default();
    let mut buf = [0u8; MAX_FRAME_LEN];
    let n = mavlink::encode_heartbeat(0, true, 1, &mut buf);
    link.send_frame(&Frame::from_bytes(&[1, 2, 3]));
    link.send_frame(&Frame::from_bytes(&buf[..n]));
    link.send_frame(&Frame::from_bytes(&buf[..n - 1]));
    assert_eq!(link.recv_frame().len, 21);
    assert!(link.recv_frame().is_empty());
    assert!(link.recv_frame().is_empty());
    link.send_frame(&Frame::from_bytes(&buf[..5]));
    assert!(link.recv_frame().is_empty());
}

#[test]
fn an_overrun_loopback_keeps_the_latest() {
    let mut link = LoopbackLink::new();
    let mut buf = [0u8; MAX_FRAME_LEN];
    let n = mavlink::encode_sys_status(true, 0, &mut buf);
    for k in 0..30u8 {
        let n = mavlink::encode_sys_status(true, k, &mut buf);
        link.send_frame(&Frame::from_bytes(&buf[..n]));
    }
    let mut last = None;
    loop {
        let f = link.recv_frame();
        if f.is_empty() {
            break;
        }
        if mavlink::decode(&f).is_some() {
            last = Some(f.data[4]);
        }
    }
    assert_eq!(n, 43);
    assert_eq!(last, Some(29));
}

#[test]
fn a_port_without_transfers_sends_and_brings_nothing() {
    let mut link = UartLink::new(0x4000_4400);
    let mut buf = [0u8; MAX_FRAME_LEN];
    let n = mavlink::encode_heartbeat(0, true, 1, &mut buf);
    assert_eq!(link.send_frame(&Frame::from_bytes(&buf[..n])), n);
    assert!(link.recv_frame().is_empty());
    assert!(link.healthy());
}
