use flyctrl::config::VehicleConfig;
use flyctrl::controller::manual::{manual_rates, stabilize as stabilize_to, stick_tilt, ManualParams};
use flyctrl::single::Single;
use flyctrl::units::{Meter, RadianPerSecond};
use flyctrl::vehicle::{ActuatorCmd, Quaternion, RcInput, VehicleState};

fn s(x: f32) -> Single {
    Single::from_bits(x.to_bits())
}

fn f(x: Single) -> f32 {
    f32::from_bits(x.to_bits())
}

fn yaw_of(q: &Quaternion) -> f32 {
    let (w, x, y, z) = (f(q.w), f(q.x), f(q.y), f(q.z));
    (2.0 * (w * z + x * y)).atan2(1.0 - 2.0 * (y * y + z * z))
}

fn from_euler(roll: f32, pitch: f32, yaw: f32) -> Quaternion {
    let (sr, cr) = (roll * 0.5).sin_cos();
    let (sp, cp) = (pitch * 0.5).sin_cos();
    let (sy, cy) = (yaw * 0.5).sin_cos();
    Quaternion::from_half_angles(s(sr), s(cr), s(sp), s(cp), s(sy), s(cy))
}

fn stabilize(rc: &RcInput, est: &VehicleState, p: &ManualParams) -> ActuatorCmd {
    let tilt = stick_tilt(rc, p);
    let q_des = from_euler(f(tilt.roll), f(tilt.pitch), yaw_of(&est.att));
    stabilize_to(rc, est, p, q_des, s(f(tilt.size).cos()))
}

fn hover_state() -> VehicleState {
    let mut st = VehicleState::zero();
    st.pos[2] = Meter(s(-5.0));
    st
}

fn params() -> ManualParams {
    ManualParams {
        hover_thrust: s(0.5),
        gravity: s(9.81),
        att_kp: s(3.0),
        att_kd: s(0.3),
        rate_scale: s(3.0),
        max_tilt: s(0.35),
        vz_scale: s(2.0),
        kv_z: s(1.5),
    }
}

fn sticks(roll: f32, throttle: f32, mode: u8) -> RcInput {
    RcInput {
        roll: s(roll),
        pitch: s(0.0),
        yaw: s(0.0),
        throttle: s(throttle),
        armed: true,
        mode,
        fresh: true,
    }
}

#[test]
fn manual_neutral_throttle_zero_motors_off() {
    let cmd = manual_rates(&sticks(0.0, 0.0, 0), &hover_state(), &params());
    assert_eq!(cmd.motor, [s(0.0); 4]);
}

#[test]
fn manual_roll_stick_produces_asymmetric_mix() {
    let cmd = manual_rates(&sticks(1.0, 0.5, 0), &hover_state(), &params());
    assert!(cmd.motor[0] > cmd.motor[1] && cmd.motor[2] < cmd.motor[3]);
    let t: f32 = cmd.motor.iter().map(|m| f(*m)).sum();
    assert!((t - 2.0).abs() < 0.5);
}

#[test]
fn stabilize_neutral_sticks_level_and_balanced() {
    let cmd = stabilize(&sticks(0.0, 0.5, 1), &hover_state(), &params());
    for &m in &cmd.motor {
        assert!((f(m) - 0.5).abs() < 0.2, "motor={}", f(m));
    }
    let spread = cmd.motor.iter().fold(0.0f32, |a, &m| a.max((f(m) - 0.5).abs()));
    assert!(spread < 0.1, "spread={}", spread);
}

#[test]
fn stabilize_roll_stick_tilts_away_from_level() {
    let cmd = stabilize(&sticks(0.5, 0.5, 1), &hover_state(), &params());
    assert!(cmd.motor[0] > cmd.motor[1] && cmd.motor[2] < cmd.motor[3]);
}

#[test]
fn stabilize_throttle_high_boosts_thrust_for_climb() {
    let cmd = stabilize(&sticks(0.0, 1.0, 1), &hover_state(), &params());
    let t: f32 = cmd.motor.iter().map(|m| f(*m)).sum();
    assert!(t > 4.0 * 0.5 + 0.1, "thrust sum={}", t);
}

#[test]
fn stabilize_disarms_on_link_loss_input() {
    let cmd = stabilize(&RcInput::neutral(), &hover_state(), &params());
    for &m in &cmd.motor {
        assert!(f(m) >= 0.0 && f(m) <= 1.0);
    }
}

#[test]
fn manual_rates_on_exact_values() {
    let mut est = hover_state();
    est.omega[0] = RadianPerSecond(s(0.5));
    let cmd = manual_rates(&sticks(0.25, 0.5, 0), &est, &params());
    let p = (3.0f32 * (3.0 * 0.25 - 0.5)).clamp(-8.0, 8.0);
    let k = f(cmd.motor[0]) - 0.5;
    assert!(k > 0.0);
    assert!((f(cmd.motor[1]) - (0.5 - k)).abs() < 1e-6);
    assert!((k / p - k / 0.75).abs() < 1e-6);
}

#[test]
fn stick_parameters_of_an_aircraft() {
    let c = VehicleConfig::default_quad().ctrl_params();
    let p = ManualParams::from_ctrl(&c);
    assert_eq!((f(p.rate_scale), f(p.vz_scale), f(p.kv_z)), (3.0, 2.0, 1.5));
    assert_eq!(p.max_tilt, c.tilt_max);
    let t = stick_tilt(&sticks(1.0, 0.5, 1), &p);
    assert_eq!((t.roll, t.size), (c.tilt_max, c.tilt_max));
}
