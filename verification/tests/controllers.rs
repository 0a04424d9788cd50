use flyctrl::config::{CtrlParams, VehicleConfig};
use flyctrl::controller::attitude::{
    attitude_rates, limit, smoothing_share, thrust_when_tilted, wind, x4_mix, AxisFilter,
};
use flyctrl::controller::lqr::{rpy_arguments, LqrController};
use flyctrl::controller::mpc::{AxisMpc2, MpcController};
use flyctrl::controller::pid::{PidController, Tuning};
use flyctrl::controller::tecs::TecsController;
use flyctrl::controller::trait_def::Setpoint;
use flyctrl::single::Single;
use flyctrl::units::{Meter, MeterPerSecond, Radian, RadianPerSecond, Second};
use flyctrl::vehicle::{Euler, Quaternion, VehicleState};

fn s(x: f32) -> Single {
    Single::from_bits(x.to_bits())
}

fn f(x: Single) -> f32 {
    f32::from_bits(x.to_bits())
}

fn level() -> Euler {
    Euler { roll: Radian(s(0.0)), pitch: Radian(s(0.0)), yaw: Radian(s(0.0)) }
}

fn hover_at(n: f32, e: f32, d: f32) -> Setpoint {
    Setpoint::hover([Meter(s(n)), Meter(s(e)), Meter(s(d))], Radian(s(0.0)))
}

fn state_at(n: f32, e: f32, d: f32) -> VehicleState {
    let mut st = VehicleState::zero();
    st.pos = [Meter(s(n)), Meter(s(e)), Meter(s(d))];
    st
}

#[test]
fn mixing_and_limits() {
    let m = x4_mix(s(0.5), [s(0.0); 3]);
    assert_eq!(m, [s(0.5); 4]);
    let roll = x4_mix(s(0.5), [s(1.0), s(0.0), s(0.0)]);
    assert!(roll[0] > roll[1] && roll[3] > roll[2]);
    let sum: f32 = roll.iter().map(|x| f(*x)).sum();
    assert!((sum - 2.0).abs() < 1e-5);
    let c = limit([s(-1.0), s(0.5), s(2.0), s(1.0)]);
    assert_eq!(c.motor.map(f), [0.0, 0.5, 1.0, 1.0]);
}

#[test]
fn attitude_loop_on_exact_values() {
    let id = Quaternion::identity();
    let out = attitude_rates(id, id, s(3.0), s(0.3), [s(1.0), s(-2.0), s(0.0)]);
    assert_eq!(out.err.map(f), [0.0; 3]);
    assert_eq!(f(out.rates[0]), -0.3);
    assert_eq!(f(out.rates[1]), 0.3 * 2.0);
}

#[test]
fn smoothing_and_integrals() {
    assert_eq!(f(smoothing_share(s(0.1), s(0.3))), 0.1 / (0.3 + 0.1));
    let mut a = AxisFilter::new(s(0.3));
    assert_eq!(a.update(s(4.0), s(1.0), s(0.1)), (s(4.0), s(1.0)));
    let (p, v) = a.update(s(8.0), s(1.0), s(0.1));
    assert!(f(p) > 4.0 && f(p) < 8.0 && f(v) == 1.0);
    a.reset();
    assert!(!a.init);
    assert_eq!(f(wind(s(0.9), s(0.5), s(0.1), s(1.0), s(1.0))), 0.9);
    assert_eq!(f(wind(s(0.9), s(0.5), s(0.0), s(9.0), s(1.0))), 1.0);
    assert_eq!(f(wind(s(0.2), s(0.5), s(5.0), s(1.0), s(1.0))), -1.0);
    assert_eq!(f(thrust_when_tilted(s(0.5), s(0.0), s(9.81), s(0.0), s(1.0))), 0.5);
    assert_eq!(f(thrust_when_tilted(s(0.5), s(0.0), s(9.81), s(2.0), s(1.0))), 1.0);
}

#[test]
fn pid_asks_to_climb_and_to_lean() {
    let mut c = PidController::default_quad();
    let dt = Second(s(0.01));
    let t = Tuning::none();
    let d = c.control_outer(dt, &hover_at(0.0, 0.0, -10.0), &state_at(0.0, 0.0, -5.0), &t);
    assert!(f(d.acc_d) < 0.0);
    assert_eq!((f(d.tilt_n), f(d.tilt_e)), (0.0, 0.0));
    let mut c = PidController::default_quad();
    let d = c.control_outer(dt, &hover_at(100.0, 0.0, 0.0), &state_at(0.0, 0.0, 0.0), &t);
    assert!(f(d.tilt_n) > 0.0);
    let a = c.control_angles(&d, s(f(d.size).cos()), s(0.0), s(1.0));
    assert!(f(a.pitch.0) < 0.0);
    let cmd = c.control_attitude(dt, Quaternion::identity(), a.thrust, &state_at(0.0, 0.0, 0.0));
    for m in cmd.motor {
        assert!(f(m) >= 0.0 && f(m) <= 1.0);
    }
    assert_eq!(c.debug_pid_internal().des_thr, a.thrust);
}

#[test]
fn pid_rate_mode_ignores_the_position() {
    let dt = Second(s(0.01));
    let t = Tuning::none();
    let mut a = PidController::default_quad();
    a.set_rate_mode_xy(true);
    let mut b = a;
    let x = a.control_outer(dt, &hover_at(50.0, -20.0, 0.0), &state_at(0.0, 0.0, 0.0), &t);
    let y = b.control_outer(dt, &hover_at(0.0, 0.0, 0.0), &state_at(0.0, 0.0, 0.0), &t);
    assert_eq!((x.tilt_n, x.tilt_e), (y.tilt_n, y.tilt_e));
}

#[test]
fn pid_gains_and_reset() {
    let mut c = PidController::from_config(&VehicleConfig::default_quad().ctrl_params());
    let dt = Second(s(0.01));
    for _ in 0..50 {
        c.control_outer(dt, &hover_at(0.0, 0.0, -1.0), &state_at(0.0, 0.0, 0.0), &Tuning::none());
    }
    assert!(f(c.debug_iz()) != 0.0);
    c.reset();
    assert_eq!(f(c.debug_iz()), 0.0);
    let before = c;
    c.apply_gains(&[s(1.0); 4]);
    let sp = hover_at(1.0, 2.0, -1.0);
    let est = state_at(0.0, 0.0, 0.0);
    let mut same = before;
    assert_eq!(
        c.control_outer(dt, &sp, &est, &Tuning::none()).acc_d,
        same.control_outer(dt, &sp, &est, &Tuning::none()).acc_d
    );
    let mut other = before;
    other.apply_gains(&[s(9.0), s(9.0), s(9.0), s(9.0), s(0.4)]);
    let mut same = before;
    assert!(
        other.control_outer(dt, &sp, &est, &Tuning::none()).acc_d
            != same.control_outer(dt, &sp, &est, &Tuning::none()).acc_d
    );
}

#[test]
fn tecs_asks_to_climb() {
    let mut c = TecsController::default_quad();
    let dt = Second(s(0.01));
    let d = c.control_outer(dt, &hover_at(0.0, 0.0, -10.0), &state_at(0.0, 0.0, -5.0));
    let a = c.control_angles(&d, s(1.0));
    let cmd = c.control_attitude(Quaternion::identity(), a.thrust, &state_at(0.0, 0.0, -5.0));
    let mut h = TecsController::default_quad();
    let d2 = h.control_outer(dt, &hover_at(0.0, 0.0, -5.0), &state_at(0.0, 0.0, -5.0));
    let a2 = h.control_angles(&d2, s(1.0));
    assert!(f(a.thrust) > f(a2.thrust));
    for m in cmd.motor {
        assert!(f(m) >= 0.0 && f(m) <= 1.0);
    }
    c.set_drag_fwd(s(0.05));
    assert_eq!(f(c.drag_fwd()), 0.05);
}

#[test]
fn lqr_holds_and_answers() {
    let mut c = LqrController::default_quad();
    let still = c.control(&hover_at(0.0, 0.0, -5.0), &state_at(0.0, 0.0, -5.0), &level());
    let m0 = f(still.motor[0]);
    assert!(still.motor.iter().all(|m| f(*m) == m0));
    let up = c.control(&hover_at(0.0, 0.0, -6.0), &state_at(0.0, 0.0, -5.0), &level());
    assert!(f(up.motor[0]) > m0);
    let mut rolling = state_at(0.0, 0.0, -5.0);
    rolling.omega[0] = RadianPerSecond(s(1.0));
    let damp = c.control(&hover_at(0.0, 0.0, -5.0), &rolling, &level());
    assert!(damp.motor[0] < damp.motor[1]);
    let args = rpy_arguments(&Quaternion::identity());
    assert_eq!((f(args[0].y), f(args[0].x)), (0.0, 1.0));
}

#[test]
fn mpc_stays_within_its_bound() {
    let mut axis = AxisMpc2::new(12, s(1.0), s(0.5), s(0.1), s(3.0));
    let far = axis.solve(s(0.0), s(0.0), s(1000.0), s(0.0), s(0.02), 6);
    assert!(f(far) > 0.0 && f(far) <= 3.0);
    let mut there = AxisMpc2::new(12, s(1.0), s(0.5), s(0.1), s(3.0));
    assert_eq!(f(there.solve(s(2.0), s(0.0), s(2.0), s(0.0), s(0.02), 6)), 0.0);
    let mut c = MpcController::default_quad();
    let dt = Second(s(0.02));
    let still = c.control(dt, &hover_at(0.0, 0.0, -5.0), &state_at(0.0, 0.0, -5.0), &level());
    let m0 = f(still.motor[0]);
    assert!(still.motor.iter().all(|m| f(*m) == m0));
    let up = c.control(dt, &hover_at(0.0, 0.0, -9.0), &state_at(0.0, 0.0, -5.0), &level());
    assert!(f(up.motor[0]) > m0);
    c.reset();
    let again = c.control(dt, &hover_at(0.0, 0.0, -5.0), &state_at(0.0, 0.0, -5.0), &level());
    assert_eq!(again, still);
}

#[test]
fn the_default_aircraft() {
    let c = VehicleConfig::default_quad();
    assert_eq!(f(c.rotor_downwash_coupling), 0.35);
    let p = c.ctrl_params();
    assert_eq!((p.mass, p.gravity), (c.mass, c.gravity));
    assert_eq!(c.dyn_params().inertia, c.inertia);
    let g = c.with_gains(s(1.0), s(2.0), s(3.0), s(4.0)).ctrl_params();
    assert_eq!((f(g.att_kp), f(g.att_kd), f(g.kp_xy), f(g.kv_xy)), (1.0, 2.0, 3.0, 4.0));
    assert_eq!(g.mass, p.mass);
    let d = CtrlParams::default();
    assert!(f(d.gravity) > 9.0);
    let v = MeterPerSecond(s(1.0));
    assert_eq!(v, MeterPerSecond(s(1.0)));
}

#[test]
fn tecs_exchanges_height_for_speed() {
    let dt = Second(s(0.01));
    let est = state_at(0.0, 0.0, -5.0);
    let still = hover_at(0.0, 0.0, -5.0);
    let mut fast = hover_at(0.0, 0.0, -5.0);
    let g = f(TecsController::default_quad().gravity);
    let v = 4.0f32;
    fast.vel[0] = MeterPerSecond(s(v));
    fast.pos[2] = Meter(s(-5.0 + v * v / (2.0 * g)));
    let mut a = TecsController::default_quad();
    let mut b = TecsController::default_quad();
    let x = a.control_outer(dt, &still, &est).acc_d;
    let y = b.control_outer(dt, &fast, &est).acc_d;
    assert!((f(x) - f(y)).abs() < 1e-4);
}

#[test]
fn tecs_ignores_slow_air() {
    let dt = Second(s(0.01));
    let (sp, est) = (hover_at(1.0, 0.0, -5.0), state_at(0.0, 0.0, -5.0));
    let mut calm = TecsController::default_quad();
    calm.set_drag_fwd(s(0.1));
    let mut slow = calm;
    let mut windy = calm;
    slow.set_measured_airspeed_vec([s(0.3), s(0.4)]);
    windy.set_measured_airspeed_vec([s(3.0), s(4.0)]);
    let base = calm.control_outer(dt, &sp, &est);
    let a = slow.control_outer(dt, &sp, &est);
    let b = windy.control_outer(dt, &sp, &est);
    assert_eq!((a.tilt_n, a.tilt_e), (base.tilt_n, base.tilt_e));
    assert!((b.tilt_n, b.tilt_e) != (base.tilt_n, base.tilt_e));
}

#[test]
fn pid_integrals_and_tilts_stay_bounded() {
    let mut c = PidController::default_quad();
    let dt = Second(s(0.05));
    let t = Tuning { ki_xy: s(0.5), ..Tuning::none() };
    for k in 0..2000 {
        let sign = if (k / 500) % 2 == 0 { 1.0 } else { -1.0 };
        let sp = hover_at(900.0 * sign, -900.0, 80.0 * sign);
        let d = c.control_outer(dt, &sp, &state_at(0.0, 0.0, 0.0), &t);
        assert!(f(c.debug_iz()).abs() <= 2.0);
        assert!(f(d.tilt_n).abs() <= 0.4363 && f(d.tilt_e).abs() <= 0.4363);
        let a = c.control_angles(&d, s(f(d.size).cos()), s(0.0), s(1.0));
        assert!(f(a.thrust) >= 0.1 && f(a.thrust) <= 1.0);
    }
}

#[test]
fn a_reset_forgets_the_integrals_over_the_ground() {
    let mut c = PidController::default_quad();
    let t = Tuning { ki_xy: s(0.5), vel_lpf_h_tau: s(0.2), ..Tuning::none() };
    for _ in 0..20 {
        c.control_outer(Second(s(0.01)), &hover_at(1.0, -1.0, 0.0), &state_at(0.0, 0.0, 0.0), &t);
    }
    assert!(f(c.i_xy[0]) > 0.0 && c.north.init && c.east.init);
    c.reset();
    assert_eq!(c.i_xy.map(f), [0.0, 0.0]);
    assert!(!c.north.init && !c.east.init && f(c.north.tau) == 0.2);
}
