use flyctrl::controller::trait_def::Setpoint;
use flyctrl::single::Single;
use flyctrl::comm::mavlink::{encode_heartbeat, encode_sys_status, Frame, MAX_FRAME_LEN};
use flyctrl::config::VehicleConfig;
use flyctrl::sitl::{
    ctrl_name, est_name, gps_available, may_settle, perturb_params, perturbation_phases,
    sort_numbers, step_count, step_time, summarize, trial_wind, wind_phases, CtrlKind, EstKind,
    FrameTally, RunTracker,
};
use flyctrl::units::{Meter, Radian};
use flyctrl::vehicle::{ActuatorCmd, VehicleState};

fn s(x: f32) -> Single {
    Single::from_bits(x.to_bits())
}

fn f(x: Single) -> f32 {
    f32::from_bits(x.to_bits())
}

fn at(n: f32) -> VehicleState {
    let mut st = VehicleState::zero();
    st.pos[0] = Meter(s(n));
    st
}

#[test]
fn positions_drop_out_in_the_window() {
    let w = Some((s(2.0), s(4.0)));
    assert!(gps_available(&w, s(1.99)) && !gps_available(&w, s(2.0)));
    assert!(!gps_available(&w, s(3.99)) && gps_available(&w, s(4.0)));
    assert!(gps_available(&None, s(3.0)));
}

#[test]
fn a_run_settles_diverges_and_ends() {
    let sp = Setpoint::hover([Meter(s(0.0)); 3], Radian(s(0.0)));
    let cmd = ActuatorCmd { motor: [s(0.25), s(0.75), s(0.5), s(0.5)] };
    let mut r = RunTracker::new(s(10.0));
    r.observe(s(1.0), &sp, &at(0.3), &at(0.2), &cmd, false);
    assert!(!r.settled);
    r.observe(s(2.0), &sp, &at(0.3), &at(0.2), &cmd, true);
    assert!(r.settled && f(r.settle) == 2.0);
    r.observe(s(3.0), &sp, &at(2.0), &at(0.2), &cmd, true);
    assert!(!r.settled);
    let m = r.finish(3);
    assert_eq!(f(m.ctrl_effort), 0.5);
    assert_eq!((f(m.max_err), f(m.settle_time), m.diverge), (2.0, 2.0, false));
    assert!((f(m.pos_rms) - ((0.09f32 + 0.09 + 4.0) / 3.0).sqrt()).abs() < 1e-6);
    r.observe(s(4.0), &sp, &at(25.0), &at(0.2), &cmd, true);
    r.observe(s(5.0), &sp, &at(0.0), &at(0.2), &cmd, true);
    let d = r.finish(5);
    assert!(d.diverge && f(d.settle_time) == 10.0);
}

#[test]
fn results_are_sorted_and_summed_up() {
    let mut v: Vec<Single> = [3.0f32, 1.0, 2.0, -0.5].iter().map(|x| s(*x)).collect();
    sort_numbers(&mut v);
    assert_eq!(v.iter().map(|x| f(*x)).collect::<Vec<f32>>(), vec![-0.5, 1.0, 2.0, 3.0]);
    let mut w: Vec<Single> = (1..=100).rev().map(|x| s(x as f32)).collect();
    let r = summarize(&mut w);
    assert_eq!((f(r.mean), f(r.min), f(r.max)), (50.5, 1.0, 100.0));
    assert!((f(r.std) - 28.866).abs() < 0.01);
    assert!(f(r.p95) >= 95.0 && f(r.p95) <= 96.0);
}

#[test]
fn names_of_the_choices() {
    assert!(est_name(EstKind::Ekf) != est_name(EstKind::Complementary));
    assert!(ctrl_name(CtrlKind::Pid) != ctrl_name(CtrlKind::Lqr));
    assert!(ctrl_name(CtrlKind::Mpc) != ctrl_name(CtrlKind::Lqr));
}

#[test]
fn steps_of_a_run() {
    assert_eq!(step_count(s(12.0)), (12.0f32 / 0.005) as usize);
    assert_eq!(step_count(s(1e30)), usize::MAX);
    assert_eq!(step_count(s(1e9)), (1e9f32 / 0.005) as usize);
    assert_eq!(step_count(s(-1.0)), 0);
    assert_eq!(f(step_time(7)), 7.0 * 0.005);
    assert!(may_settle(None, s(0.0), true) && !may_settle(None, s(0.0), false));
    assert!(!may_settle(Some(s(3.0)), s(2.9), true) && may_settle(Some(s(3.0)), s(3.0), true));
}

#[test]
fn trials_vary_the_vehicle() {
    let base = VehicleConfig::default_quad().dyn_params();
    let ph = perturbation_phases(4);
    assert_eq!(f(ph[0]), 4.0 * 0.31);
    assert_eq!(f(ph[6]), 4.0 * 0.13);
    let p = perturb_params(&base, &[s(0.5); 7]);
    assert_eq!(f(p.mass), f(base.mass) * (1.0 + 0.1 * 0.5));
    assert_eq!(f(p.inertia[1]), f(base.inertia[1]) * (1.0 + 0.15 * 0.5));
    assert_eq!(f(p.drag_coeff[2]), f(base.drag_coeff[2]) * (1.0 + 0.2 * 0.5));
    assert_eq!(p.arm_length, base.arm_length);
    let (n, e) = wind_phases(3);
    assert_eq!((f(n), f(e)), (3.0 * 0.7, 3.0 * 1.3));
    assert_eq!(trial_wind(s(0.5), s(-0.25)).map(f), [1.0, -0.5, 0.0]);
}

#[test]
fn a_ground_station_counts_frames() {
    let mut out = [0u8; MAX_FRAME_LEN];
    let mut tally = FrameTally::new();
    let n = encode_heartbeat(0, true, 0, &mut out);
    tally.count(&Frame::from_bytes(&out[..n]));
    out[5] ^= 1;
    tally.count(&Frame::from_bytes(&out[..n]));
    let n = encode_sys_status(true, 0, &mut out);
    tally.count(&Frame::from_bytes(&out[..n]));
    assert_eq!(tally, FrameTally { heartbeat: 1, attitude: 0, position: 0 });
}
