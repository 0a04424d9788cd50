use flyctrl::comm::mavlink::enums::{
    COPTER_MODE_ALT_HOLD, COPTER_MODE_LAND, COPTER_MODE_LOITER, COPTER_MODE_RTL,
};
use flyctrl::fdir::Health;
use flyctrl::flyctrl::control::{
    duty_ticks, override_rc, select_mode, set_cmd_armed, set_cmd_mode, throttle_percent, Commands,
    Control,
};
use flyctrl::flyctrl::hil_shmem::{
    shmem_available, shmem_poll_once, shmem_write_back, HilSetpoint, ShmemState, MAGIC,
    REGION_WORDS, W_ARMED, W_BARO, W_DIAG, W_GPS_POS, W_GPS_VALID, W_GPS_VEL, W_IMU_ACC,
    W_IMU_GYR, W_MCU_SEQ, W_MOTOR, W_PC_SEQ, W_SP_POS, W_SP_VALID, W_SP_YAW,
};
use flyctrl::flyctrl::pace::{Pace, PaceStep};
use flyctrl::flyctrl::sensors_task::{Readings, SensorFrame, Sensors, GPS_VALID_STEPS};
use flyctrl::single::Single;
use flyctrl::units::{Meter, MeterPerSecond};
use flyctrl::vehicle::{ActuatorCmd, ImuSample, PosSample, RcInput, VehicleState};

fn s(x: f32) -> Single {
    Single::from_bits(x.to_bits())
}

fn f(x: Single) -> f32 {
    f32::from_bits(x.to_bits())
}

fn empty_frame() -> SensorFrame {
    SensorFrame {
        imu: None,
        baro_alt: None,
        gps: None,
        mag: None,
        rc: RcInput::neutral(),
        armed: false,
        imu_ok: false,
        baro_ok: false,
        gps_ok: false,
        mag_ok: false,
    }
}

fn readings(gps: Option<PosSample>) -> Readings {
    Readings {
        imu: ImuSample::zero(),
        baro_alt: s(3.0),
        gps,
        rc: RcInput::neutral(),
        mag: [s(0.2), s(0.0), s(0.4)],
        mag_ok: true,
    }
}

fn at(n: f32, e: f32, d: f32) -> VehicleState {
    let mut st = VehicleState::zero();
    st.pos = [Meter(s(n)), Meter(s(e)), Meter(s(d))];
    st
}

const IDLE: Commands = Commands { armed: false, mode: 0 };

#[test]
fn a_fix_is_held_for_half_a_second() {
    let mut task = Sensors::new(b"sensors").unwrap();
    let mut frame = empty_frame();
    let mut seq = 4u32;
    let fix = PosSample::pos_only([Meter(s(1.0)), Meter(s(2.0)), Meter(s(-3.0))]);
    assert!(task.step(&readings(Some(fix)), &mut frame, &mut seq));
    assert!(frame.gps_ok && frame.mag_ok && frame.imu_ok && seq == 6);
    for k in 1..=GPS_VALID_STEPS {
        assert!(!task.step(&readings(None), &mut frame, &mut seq), "{k}");
        assert_eq!(frame.gps, Some(fix));
    }
    task.step(&readings(None), &mut frame, &mut seq);
    assert!(frame.gps.is_none() && !frame.gps_ok);
    assert_eq!(seq % 2, 0);
    assert_eq!(frame.baro_alt.map(f), Some(3.0));
}

#[test]
fn a_timer_comes_up_step_by_step() {
    let mut p = Pace::init();
    for _ in 0..4 {
        assert!(!p.is_ready());
        p.advance(true);
    }
    assert!(p.is_ready());
    p.advance(false);
    assert!(p.is_ready());
    p.on_tick();
    assert_eq!(p.ticks(), 1);
    let mut q = Pace::init();
    q.advance(true);
    q.advance(false);
    q.advance(true);
    assert_eq!(q.step, PaceStep::Failed);
    let mut wraps = Pace { step: PaceStep::Ready, ticks: u32::MAX };
    wraps.on_tick();
    assert_eq!(wraps.ticks(), 0);
}

fn region() -> [u32; REGION_WORDS] {
    let mut r = [0u32; REGION_WORDS];
    r[0] = MAGIC;
    r[W_PC_SEQ] = 7;
    for i in 0..3 {
        r[W_IMU_ACC + i] = (i as f32 - 9.0).to_bits();
        r[W_IMU_GYR + i] = (i as f32 * 0.5).to_bits();
        r[W_GPS_POS + i] = (i as f32 + 1.0).to_bits();
        r[W_GPS_VEL + i] = (i as f32 + 4.0).to_bits();
        r[W_SP_POS + i] = (i as f32 * 10.0).to_bits();
    }
    r[W_SP_YAW] = 0.25f32.to_bits();
    r[W_BARO] = 12.5f32.to_bits();
    r[W_GPS_VALID] = 1;
    r[W_SP_VALID] = 1;
    r[W_ARMED] = 1;
    r
}

fn no_setpoint() -> HilSetpoint {
    let z = [s(0.0); 3];
    HilSetpoint { time_boot_ms: 0, pos: z, vel: z, acc: z, yaw: s(0.0), valid: false }
}

#[test]
fn a_simulator_step_is_taken_over_once() {
    let r = region();
    assert!(shmem_available(&r));
    let mut st = ShmemState { last_pc_seq: 0, last_accel_z: s(0.0) };
    let mut sp = no_setpoint();
    let mut frame = empty_frame();
    let mut seq = 0u32;
    assert!(shmem_poll_once(&r, &mut st, &mut sp, &mut frame, &mut seq));
    assert_eq!((st.last_pc_seq, f(st.last_accel_z), seq), (7, -7.0, 2));
    assert_eq!((sp.time_boot_ms, f(sp.pos[2]), f(sp.yaw), sp.valid), (7, 20.0, 0.25, true));
    assert!(frame.armed && frame.rc.armed && frame.rc.fresh && !frame.mag_ok);
    assert_eq!(frame.gps.unwrap().vel.unwrap()[2], MeterPerSecond(s(6.0)));
    assert_eq!(frame.baro_alt.map(f), Some(12.5));
    assert!(!shmem_poll_once(&r, &mut st, &mut sp, &mut frame, &mut seq));
    assert_eq!(seq, 2);
    let mut without = region();
    without[0] = 1;
    without[W_PC_SEQ] = 99;
    assert!(!shmem_poll_once(&without, &mut st, &mut sp, &mut frame, &mut seq));
}

#[test]
fn a_write_back_leaves_the_input_alone() {
    let mut r = region();
    let before = r;
    let st = ShmemState { last_pc_seq: 7, last_accel_z: s(-9.5) };
    let motors = [s(0.1), s(0.2), s(0.3), s(0.4)];
    let est = at(1.0, 2.0, -3.0);
    shmem_write_back(&mut r, &motors, &est, Health::Critical, true, 5, &st);
    assert_eq!(r[..W_MCU_SEQ], before[..W_MCU_SEQ]);
    assert_eq!(r[W_MCU_SEQ], 1);
    assert_eq!(r[W_MOTOR + 3], 0.4f32.to_bits());
    let d: Vec<f32> = r[W_DIAG..].iter().map(|b| f32::from_bits(*b)).collect();
    let mean = (0.1f32 + 0.2 + 0.3 + 0.4) / 4.0;
    assert_eq!(
        d,
        vec![
            0.1, 0.2, 0.3, 0.4, mean, 2.0, 1.0, 2.0, -3.0, 0.0, 0.0, 0.0, 5.0, -3.0, -9.5, 1.0
        ]
    );
    let mut none = [0u32; REGION_WORDS];
    shmem_write_back(&mut none, &motors, &est, Health::Nominal, true, 5, &st);
    assert_eq!(none, [0u32; REGION_WORDS]);
}

#[test]
fn time_between_steps_is_bounded() {
    let mut c = Control::new(u32::MAX - 1);
    assert_eq!(f(c.period(2).0), 0.004);
    assert_eq!(f(c.period(2).0), 0.001);
    assert_eq!(f(c.period(5000).0), 0.05);
    assert_eq!(f(c.period(4999).0), 0.05);
}

#[test]
fn channels_replace_the_sticks() {
    let mut rc = RcInput::neutral();
    rc.mode = 3;
    let got = override_rc(rc, Some([1750, 1500, 2500, 900, 0, 0, 0, 0]));
    assert_eq!((f(got.roll), f(got.pitch), f(got.throttle), f(got.yaw)), (0.75, 0.5, 1.0, 0.0));
    assert!(got.armed && got.fresh && got.mode == 3);
    assert_eq!(override_rc(rc, None), rc);
}

#[test]
fn the_pilot_rules_while_heard() {
    let mut c = IDLE;
    set_cmd_mode(&mut c, COPTER_MODE_RTL);
    set_cmd_armed(&mut c, true);
    assert!(c.armed);
    let mut rc = RcInput::neutral();
    rc.mode = 4;
    rc.fresh = true;
    assert_eq!(select_mode(&rc, &c), COPTER_MODE_LAND);
    rc.fresh = false;
    assert_eq!(select_mode(&rc, &c), COPTER_MODE_RTL);
}

#[test]
fn setpoints_of_the_modes() {
    let mut c = Control::new(0);
    let cmd = ActuatorCmd { motor: [s(0.5); 4] };
    let mut rc = RcInput::neutral();
    rc.pitch = s(1.0);
    rc.roll = s(0.5);
    rc.throttle = s(0.75);
    let mut est = at(3.0, 4.0, -10.0);
    est.vel[0] = MeterPerSecond(s(2.0));
    c.finish(true, &est, &cmd, &[1000; 4]);
    assert_eq!((f(c.hold_alt.0), c.alt_locked), (-10.0, true));

    let land = c.mode_setpoint(COPTER_MODE_LAND, &rc);
    assert_eq!(land.pos.map(|m| f(m.0)), [3.0, 4.0, -10.0 + 0.02]);
    let rtl = c.mode_setpoint(COPTER_MODE_RTL, &rc);
    assert_eq!(rtl.pos.map(|m| f(m.0)), [0.0, 0.0, -10.0]);
    let hold = c.mode_setpoint(COPTER_MODE_LOITER, &rc);
    assert_eq!(hold.vel.map(|v| f(v.0)), [0.3, -0.5 * 0.3, 0.0]);
    let alt = c.mode_setpoint(COPTER_MODE_ALT_HOLD, &rc);
    assert_eq!(alt.pos.map(|m| f(m.0)), [3.5, 4.0, -11.0]);
    assert_eq!(alt.vel.map(|v| f(v.0)), [1.7, -0.5 * 1.7, 0.0]);

    c.finish(true, &at(0.3, 0.4, -0.01), &cmd, &[1000; 4]);
    assert_eq!(f(c.hold_alt.0), -10.0);
    let near = c.mode_setpoint(COPTER_MODE_RTL, &rc);
    assert_eq!(f(near.pos[2].0), 0.0);
    let down = c.mode_setpoint(COPTER_MODE_LAND, &rc);
    assert_eq!(f(down.pos[2].0), 0.0);
}

#[test]
fn plans_of_a_step() {
    let mut c = Control::new(0);
    let mut frame = empty_frame();
    frame.imu = Some(ImuSample::zero());
    let armed = Commands { armed: true, mode: COPTER_MODE_ALT_HOLD };
    let p = c.plan(4, &frame, &armed, None);
    assert!(p.armed && p.setpoint_valid && p.rate_mode == Some(true));
    assert_eq!(f(p.dt.0), 0.004);
    let loiter = Commands { armed: false, mode: COPTER_MODE_LOITER };
    let q = c.plan(8, &frame, &loiter, None);
    assert!(!q.armed && q.rate_mode == Some(false));

    let mut sp = no_setpoint();
    let h = c.plan_hil(12, &mut frame, &IDLE, None, &sp);
    assert!(h.frame.imu.is_some() && frame.imu.is_none());
    assert!(!h.setpoint_valid && h.rate_mode.is_none());
    sp.valid = true;
    sp.pos = [s(1.0), s(2.0), s(-3.0)];
    sp.yaw = s(0.5);
    let v = c.plan_hil(16, &mut frame, &IDLE, None, &sp);
    assert_eq!(v.setpoint.pos.map(|m| f(m.0)), [1.0, 2.0, -3.0]);
    assert_eq!(f(v.setpoint.yaw.0), 0.5);
}

#[test]
fn outputs_of_a_step() {
    assert_eq!(duty_ticks(s(0.0), 2500), 1000);
    assert_eq!(duty_ticks(s(1.0), 2500), 2000);
    assert_eq!(duty_ticks(s(0.5), 10000), 6000);
    assert_eq!(duty_ticks(s(-3.0), 2500), 1000);
    assert_eq!(duty_ticks(s(f32::NAN), 2500), 0);
    assert_eq!(throttle_percent(&ActuatorCmd { motor: [s(0.5); 4] }), 50);
    assert_eq!(throttle_percent(&ActuatorCmd { motor: [s(9.0); 4] }), 100);
    let mut c = Control::new(0);
    let cmd = ActuatorCmd { motor: [s(0.0), s(0.25), s(0.5), s(1.0)] };
    for k in 1..=250u32 {
        let out = c.finish(k > 1, &at(0.0, 0.0, k as f32), &cmd, &[2500, 2500, 5000, 0]);
        assert_eq!(out.ticks, [1000, 1250, 3000, 0]);
        assert_eq!((out.log_estimate, out.log_alive), (k % 25 == 0, k == 250));
    }
    assert_eq!(f(c.hold_alt.0), 2.0);
    c.finish(false, &at(0.0, 0.0, 7.0), &cmd, &[1; 4]);
    assert!(!c.alt_locked);
}
