use flyctrl::config::VehicleConfig;
use flyctrl::controller::indi::{motors_to_rates, rates_to_motor_inc, IndiController};
use flyctrl::controller::pid::{PidController, Tuning};
use flyctrl::controller::trait_def::Setpoint;
use flyctrl::estimator::any_step::{AnyStep, StepInput};
use flyctrl::estimator::complementary::ComplementaryEstimator;
use flyctrl::estimator::ekf::{EkfEstimator, EkfTuning};
use flyctrl::estimator::eskf::EskfTuning;
use flyctrl::estimator::eskf_estimator::EskfEstimator;
use flyctrl::estimator::eskf_step::{EskfField, EskfStep};
use flyctrl::estimator::learning::{BiasResidual, LearningEstimator, NullResidual, ResidualModel};
use flyctrl::estimator::nominal::{ErrorState, HalfAngle, Turn};
use flyctrl::estimator::select::AnyEstimator;
use flyctrl::single::Single;
use flyctrl::units::{Meter, MeterPerSecond, Radian, RadianPerSecond, Second};
use flyctrl::vehicle::{
    ActuatorCmd, Airspeed, AirspeedSample, ImuSample, PosSample, Quaternion, RtkSample,
    VehicleState, VioSample,
};

fn s(x: f32) -> Single {
    Single::from_bits(x.to_bits())
}

fn f(x: Single) -> f32 {
    f32::from_bits(x.to_bits())
}

fn hover_imu() -> ImuSample {
    ImuSample::from_axes([s(0.0), s(0.0), s(-9.81)], [s(0.0); 3])
}

fn step(ekf: &mut EkfEstimator, dt: f32, imu: &ImuSample, gps: Option<PosSample>) -> VehicleState {
    let t = EkfTuning::none();
    match ekf.begin_step(Second(s(dt)), imu, &t) {
        None => ekf.state(),
        Some(a) => {
            let angle = a.turn().map_or(0.0, |turn| f(turn.angle));
            let (sin, cos) = (angle * 0.5).sin_cos();
            let half = HalfAngle { sin: s(sin), cos: s(cos) };
            ekf.finish_step(Second(s(dt)), imu, &a, &half, gps, None, &t)
        }
    }
}

fn pid(c: &mut PidController, dt: f32, sp: &Setpoint, est: &VehicleState) -> ActuatorCmd {
    let d = c.control_outer(Second(s(dt)), sp, est, &Tuning::none());
    let (sy, cy) = f(d.yaw.0).sin_cos();
    let a = c.control_angles(&d, s(f(d.size).cos()), s(sy), s(cy));
    let (sr, cr) = (f(a.roll.0) * 0.5).sin_cos();
    let (sp_, cp) = (f(a.pitch.0) * 0.5).sin_cos();
    let (sh, ch) = (f(a.yaw.0) * 0.5).sin_cos();
    let q_des = Quaternion::from_half_angles(s(sr), s(cr), s(sp_), s(cp), s(sh), s(ch));
    c.control_attitude(Second(s(dt)), q_des, a.thrust, est)
}

fn fix(n: f32, e: f32, d: f32) -> Option<PosSample> {
    Some(PosSample::pos_only([Meter(s(n)), Meter(s(e)), Meter(s(d))]))
}

#[test]
fn static_level_keeps_attitude() {
    let mut est = ComplementaryEstimator::new(s(0.5), s(0.1), s(0.1));
    let imu = hover_imu();
    let mut last: VehicleState = est.step(Second(s(0.005)), &imu, None, None);
    for _ in 0..200 {
        last = est.step(Second(s(0.005)), &imu, None, None);
    }
    assert!(f(last.att.w) > 0.99);
    assert!(f(last.att.x).abs() < 0.01);
    assert!(f(last.att.y).abs() < 0.01);
    assert_eq!(est.att(), last.att);
}

#[test]
fn a_complementary_reset_starts_anew() {
    let mut est = ComplementaryEstimator::new(s(0.5), s(0.1), s(0.1));
    est.step(Second(s(0.01)), &hover_imu(), fix(1.0, 2.0, -5.0), None);
    assert!(est.state().pos[0].0 > s(0.0));
    est.reset();
    assert_eq!(est.state(), ComplementaryEstimator::new(s(0.5), s(0.1), s(0.1)).state());
}

#[test]
fn null_residual_passthrough() {
    let mut ekf = EkfEstimator::default_quad();
    let mut base = EkfEstimator::default_quad();
    let mut le = LearningEstimator::new(NullResidual);
    let imu = hover_imu();
    let gps = fix(1.0, 2.0, -5.0);
    let a = step(&mut ekf, 0.01, &imu, gps);
    let b = le.step(step(&mut base, 0.01, &imu, gps), &imu, &gps);
    assert_eq!(a.pos[0].0, b.pos[0].0);
    assert_eq!(a.vel[1].0, b.vel[1].0);
}

#[test]
fn bias_residual_corrects() {
    let bias = BiasResidual { pos_bias: [s(0.1), s(-0.2), s(0.3)], vel_bias: [s(0.0); 3] };
    let mut le = LearningEstimator::new(bias);
    let mut base = EkfEstimator::default_quad();
    let imu = hover_imu();
    let gps = fix(1.0, 2.0, -5.0);
    let plain = step(&mut base, 0.01, &imu, gps);
    let st = le.step(plain, &imu, &gps);
    assert!((f(st.pos[0].0) - 1.1).abs() < 0.5, "{}", f(st.pos[0].0));
    assert_eq!(f(st.pos[1].0), f(plain.pos[1].0) + -0.2);
}

#[test]
fn indi_bounded_and_no_nan() {
    let cfg = VehicleConfig::default_quad();
    let mut ekf = EkfEstimator::default_quad();
    let mut base = PidController::from_config(&cfg.ctrl_params());
    let mut indi = IndiController::with_inertia(cfg.inertia, s(0.01), s(0.8));
    let sp = Setpoint::hover([Meter(s(0.0)), Meter(s(0.0)), Meter(s(-5.0))], Radian(s(0.0)));
    for _ in 0..300 {
        ekf.reset();
        let mut st = VehicleState::zero();
        for _ in 0..4 {
            st = step(&mut ekf, 0.01, &hover_imu(), fix(0.0, 0.0, -5.0));
        }
        let cmd = indi.control(Second(s(0.01)), pid(&mut base, 0.01, &sp, &st), &st);
        for m in cmd.motor {
            assert!(f(m) >= 0.0 && f(m) <= 1.0);
        }
        for i in 0..3 {
            assert!(st.pos[i].0.is_finite() && st.vel[i].0.is_finite());
        }
    }
}

#[test]
fn indi_active_increment_under_angular_accel() {
    let cfg = VehicleConfig::default_quad();
    let sp = Setpoint::hover([Meter(s(0.0)), Meter(s(0.0)), Meter(s(-5.0))], Radian(s(0.0)));
    let mut ekf = EkfEstimator::default_quad();
    let mut base = PidController::from_config(&cfg.ctrl_params());
    let mut indi = IndiController::with_inertia(cfg.inertia, s(0.01), s(1.0));
    let mut saw_nonzero_increment = false;
    for k in 0..400 {
        ekf.reset();
        let mut st = VehicleState::zero();
        for _ in 0..4 {
            st = step(&mut ekf, 0.01, &hover_imu(), fix(0.0, 0.0, -5.0));
        }
        if k % 2 == 0 {
            st.omega[0] = RadianPerSecond(s(f(st.omega[0].0) + 0.8 + (k as f32) * 0.01));
        }
        let c = indi.control(Second(s(0.01)), pid(&mut base, 0.01, &sp, &st), &st);
        for m in c.motor.iter() {
            assert!(f(*m) >= 0.0 && f(*m) <= 1.0);
        }
        let roll = (f(c.motor[0]) + f(c.motor[3])) - (f(c.motor[1]) + f(c.motor[2]));
        if roll.abs() > 1e-4 {
            saw_nonzero_increment = true;
        }
    }
    assert!(saw_nonzero_increment);
}

#[test]
fn indi_adds_nothing_without_a_rate_error() {
    let cfg = VehicleConfig::default_quad();
    let mut indi = IndiController::with_inertia(cfg.inertia, s(0.01), s(0.8));
    let even = ActuatorCmd { motor: [s(0.4); 4] };
    let st = VehicleState::zero();
    for _ in 0..5 {
        assert_eq!(indi.control(Second(s(0.01)), even, &st), even);
    }
    indi.reset();
    assert_eq!(indi.control(Second(s(0.01)), even, &st), even);
    let r = motors_to_rates(&[s(0.5), s(0.25), s(0.25), s(0.5)]);
    assert!(f(r[0]) > 0.0);
    let back = rates_to_motor_inc(r);
    assert!(f(back[0]) > 0.0 && f(back[1]) < 0.0);
}

#[test]
fn either_estimator_can_be_chosen() {
    let mut product = AnyEstimator::default_product();
    let mut legacy = AnyEstimator::legacy();
    assert_eq!((product.kind(), legacy.kind()), ("eskf", "legacy"));
    for e in [&mut product, &mut legacy] {
        e.set_initial_position([s(1.0), s(2.0), s(-3.0)]);
        assert_eq!(e.state().pos.map(|m| f(m.0)), [1.0, 2.0, -3.0]);
        e.set_initial_attitude(Quaternion { w: s(0.0), x: s(1.0), y: s(0.0), z: s(0.0) });
        assert_eq!(f(e.state().att.x), 1.0);
    }
    let rtk = RtkSample::new([Meter(s(5.0)), Meter(s(2.0)), Meter(s(-3.0))]);
    product.update_rtk(Some(rtk));
    legacy.update_rtk(Some(rtk));
    assert_eq!(f(product.state().pos[0].0), 1.0);
    assert!(f(legacy.state().pos[0].0) > 1.0);
    let vio = VioSample { pos: None, vel: None };
    product.update_vio(Some(vio), &EkfTuning::none());
    match &product {
        AnyEstimator::Eskf(e) => {
            assert_eq!((e.counts.n_rtk_refused, e.counts.n_vio_refused), (1, 1));
        }
        AnyEstimator::Legacy(_) => unreachable!(),
    }
    product.reset();
    legacy.reset();
    for e in [&product, &legacy] {
        let st = e.state();
        assert_eq!(st.pos.map(|m| f(m.0)), [0.0; 3]);
        assert_eq!(st.vel.map(|v| f(v.0)), [0.0; 3]);
        assert_eq!(st.att, Quaternion::identity());
    }
    assert_eq!(product.accel_bias().map(f), [0.0; 3]);
}

#[test]
fn the_first_fix_gives_no_speed() {
    let mut est = ComplementaryEstimator::new(s(0.5), s(0.1), s(0.1));
    let st = est.step(Second(s(0.01)), &hover_imu(), fix(100.0, 100.0, -100.0), None);
    for v in st.vel {
        assert!(f(v.0).abs() < 1e-6);
    }
    let st = est.step(Second(s(0.01)), &hover_imu(), fix(101.0, 102.0, -103.0), None);
    assert!(f(st.vel[0].0) > 0.0 && f(st.vel[1].0) > f(st.vel[0].0) && f(st.vel[2].0) < 0.0);
}

fn half_of(turn: Option<Turn>) -> HalfAngle {
    let (sin, cos) = (turn.map_or(0.0, |t| f(t.angle)) * 0.5).sin_cos();
    HalfAngle { sin: s(sin), cos: s(cos) }
}

fn eskf_step(
    e: &mut EskfEstimator,
    imu: &ImuSample,
    gps: Option<PosSample>,
    air: Option<AirspeedSample>,
) -> u32 {
    eskf_step_with(e, imu, gps, air, &EskfTuning::all())
}

fn eskf_step_with(
    e: &mut EskfEstimator,
    imu: &ImuSample,
    gps: Option<PosSample>,
    air: Option<AirspeedSample>,
    t: &EskfTuning,
) -> u32 {
    let dt = Second(s(0.004));
    let h = half_of(e.turn(dt, imu));
    let mut step = EskfStep::begin(e, dt, imu, &h, gps, air, t);
    let mut calls = 1;
    while step.next(e, &half_of(step.turn())) {
        calls += 1;
    }
    calls
}

#[test]
fn a_step_takes_its_measurements_in_order() {
    let mut e = EskfEstimator::default_quad();
    let full = PosSample::with_vel(
        [Meter(s(1.0)), Meter(s(0.0)), Meter(s(0.0))],
        [MeterPerSecond(s(0.1)), MeterPerSecond(s(0.0)), MeterPerSecond(s(0.0))],
    );
    let air = AirspeedSample { speed: Airspeed(s(3.0)), timestamp_s: s(0.0) };
    assert_eq!(eskf_step(&mut e, &hover_imu(), None, None), 2);
    assert_eq!(eskf_step(&mut e, &hover_imu(), Some(full), Some(air)), 3);
    assert_eq!((e.counts.n_gps_pos, e.counts.n_gps_vel, e.counts.n_airspeed_refused), (1, 1, 1));
    assert!(f(e.state().pos[0].0) > 0.5);
    for _ in 0..12 {
        eskf_step(&mut e, &hover_imu(), None, None);
    }
    assert_eq!(e.counts.n_grav_applied, 0);
    assert_eq!(eskf_step(&mut e, &hover_imu(), None, None), 6);
    assert_eq!((e.counts.n_step, e.counts.n_grav_applied), (15, 1));
    let falling = ImuSample::zero();
    for _ in 0..15 {
        eskf_step(&mut e, &falling, None, None);
    }
    assert_eq!((e.counts.n_grav_applied, e.counts.n_grav_gated), (1, 1));
}

#[test]
fn a_magnetic_field_is_taken_when_due() {
    let mut e = EskfEstimator::default_quad();
    let m = [s(0.25), s(0.05), s(0.4)];
    let mut field = EskfField::begin(&mut e, &m, &EskfTuning::all());
    while field.next(&mut e, &half_of(field.turn())) {}
    assert!(e.mag_first_done && e.f.yaw_aligned);
    assert_eq!((e.counts.n_mag, e.f.mag_applied), (1, 3));
    eskf_step(&mut e, &hover_imu(), None, None);
    let mut field = EskfField::begin(&mut e, &m, &EskfTuning::all());
    assert!(!field.next(&mut e, &half_of(field.turn())));
    assert_eq!(e.counts.n_mag, 1);
    e.reset();
    let off = EskfTuning { mag_on: s(0.0), ..EskfTuning::all() };
    let mut field = EskfField::begin(&mut e, &m, &off);
    assert!(!field.next(&mut e, &half_of(field.turn())));
    assert_eq!((e.counts.n_mag, e.counts.n_mag_rejected), (1, 1));
    assert!(!e.f.yaw_aligned);
}

#[test]
fn four_steps_are_recorded() {
    let mut e = EskfEstimator::default_quad();
    e.counts.n_step = 8;
    assert!(e.record(&hover_imu(), &None).is_none());
    e.counts.n_step = 9;
    let (slot, v) = e.record(&hover_imu(), &None).unwrap();
    assert_eq!((slot, f(v[5]), f(v[6]), f(v[13]), f(v[15])), (0, -9.81, 1.0, -999.0, 10.0));
    e.counts.n_step = 1499;
    let (slot, v) = e.record(&hover_imu(), &fix(1.0, 2.0, -5.0)).unwrap();
    assert_eq!((slot, f(v[13]), f(v[14]), f(v[15])), (3, -5.0, 1.0, 1500.0));
}

#[test]
fn satellites_can_be_switched_off() {
    let full = PosSample::with_vel(
        [Meter(s(1.0)), Meter(s(0.0)), Meter(s(0.0))],
        [MeterPerSecond(s(0.1)), MeterPerSecond(s(0.0)), MeterPerSecond(s(0.0))],
    );
    for (value, taken) in [(0.0f32, 1), (1.0, 1), (2.0, 0), (1.9999998, 1), (3.0, 1)] {
        let mut e = EskfEstimator::default_quad();
        let t = EskfTuning { gps_on: s(value), ..EskfTuning::all() };
        eskf_step_with(&mut e, &hover_imu(), Some(full), None, &t);
        assert_eq!((e.counts.n_gps_pos, e.counts.n_gps_vel), (taken, taken));
        assert_eq!(e.counts.n_gps_pos_rejected, 0);
        assert_eq!(f(e.state().pos[0].0) > 0.5, taken == 1);
    }
}

#[test]
fn the_field_of_the_earth_is_pulled_back_where_asked() {
    let m = [s(0.25), s(0.05), s(0.4)];
    let t = EskfTuning { mag_reanchor: s(0.1), ..EskfTuning::all() };
    let mut e = EskfEstimator::default_quad();
    let mut field = EskfField::begin(&mut e, &m, &t);
    let pull = field.pull(&e).unwrap();
    assert_eq!((pull.prior.map(f), f(pull.strength)), ([0.2, 0.0, 0.4], 0.1));
    assert!(!field.next(&mut e, &half_of(field.turn())));
    assert_eq!(e.counts.n_mag, 0);
    let mut pulled = e.f;
    pulled.mag_i = [s(0.21), s(0.0), s(0.39)];
    field.pulled(&mut e, &pulled, 2);
    assert_eq!((e.counts.n_mag_reanchored, f(e.f.mag_i[0])), (2, 0.21));
    assert!(field.pull(&e).is_none());
    field.pulled(&mut e, &pulled, 2);
    assert_eq!(e.counts.n_mag_reanchored, 2);
    while field.next(&mut e, &half_of(field.turn())) {}
    assert_eq!(e.counts.n_mag, 1);
    e.counts.n_mag_reanchored = u32::MAX;
    let mut field = EskfField::begin(&mut e, &m, &t);
    let same = e.f;
    field.pulled(&mut e, &same, 3);
    assert_eq!(e.counts.n_mag_reanchored, 2);
    for off in [0.0f32, -1.0, f32::NAN] {
        let t = EskfTuning { mag_reanchor: s(off), ..EskfTuning::all() };
        assert!(EskfField::begin(&mut e, &m, &t).pull(&e).is_none());
    }
}

fn any_step(e: &mut AnyEstimator, imu: &ImuSample, pos: Option<PosSample>) -> VehicleState {
    let x = StepInput { dt: Second(s(0.004)), imu: *imu, pos, airspeed: None };
    let mut step = AnyStep::begin(e, &x, &EkfTuning::none(), &EskfTuning::all());
    while step.next(e, &half_of(step.turn(e))) {}
    match step {
        AnyStep::Done(st) => st,
        _ => unreachable!(),
    }
}

#[test]
fn a_step_goes_to_the_estimator_in_use() {
    let mut product = AnyEstimator::default_product();
    let mut legacy = AnyEstimator::legacy();
    let mut eskf = EskfEstimator::default_quad();
    let mut ekf = EkfEstimator::default_quad();
    let imu = ImuSample::from_axes([s(0.3), s(0.1), s(-9.7)], [s(0.02), s(-0.01), s(0.05)]);
    for k in 0..40 {
        let pos = if k % 7 == 0 { fix(0.1 * k as f32, 0.0, -1.0) } else { None };
        eskf_step(&mut eskf, &imu, pos, None);
        let want = step(&mut ekf, 0.004, &imu, pos);
        assert_eq!(any_step(&mut product, &imu, pos), eskf.state());
        assert_eq!(any_step(&mut legacy, &imu, pos), want);
    }
    assert_ne!(product.state(), legacy.state());
    let broken = ImuSample::from_axes([s(f32::NAN); 3], [s(0.0); 3]);
    assert_eq!(any_step(&mut legacy, &broken, None), legacy.state());
}

#[test]
fn an_altitude_goes_to_the_estimator_in_use() {
    let mut product = AnyEstimator::default_product();
    let mut legacy = AnyEstimator::legacy();
    let t = EkfTuning::none();
    let errors = product.update_alt(s(1.0), &t).unwrap();
    assert_eq!(f(product.state().pos[2].0), 0.0);
    product.apply(&errors, &half_of(errors.turn()));
    assert!((f(product.state().pos[2].0) + 1.0).abs() < 1e-3);
    assert!(product.update_alt(s(1e6), &t).is_none());
    match &product {
        AnyEstimator::Eskf(e) => {
            assert_eq!((e.counts.n_baro, e.counts.n_baro_rejected), (1, 1));
        }
        AnyEstimator::Legacy(_) => unreachable!(),
    }
    let before = legacy.state();
    assert!(legacy.update_alt(s(f32::NAN), &t).is_none());
    assert_eq!(legacy.state(), before);
    assert!(legacy.update_alt(s(1.0), &t).is_none());
    assert!(f(legacy.state().pos[2].0) < 0.0);
    let moved = legacy.state();
    legacy.apply(&errors, &half_of(errors.turn()));
    assert_eq!(legacy.state(), moved);
}

struct Counting {
    seen: Vec<f32>,
}

impl ResidualModel for Counting {
    fn adapt(&mut self, estimate: &VehicleState, _imu: &ImuSample, _gps: &Option<PosSample>) {
        self.seen.push(f(estimate.pos[0].0));
    }
}

#[test]
fn a_model_learns_from_every_step() {
    let mut le = LearningEstimator::new(Counting { seen: Vec::new() });
    let mut st = VehicleState::zero();
    for k in 0..3 {
        st.pos[0] = Meter(s(k as f32));
        assert_eq!(le.step(st, &hover_imu(), &None), st);
    }
    assert_eq!(le.residual.seen, vec![0.0, 1.0, 2.0]);
}

#[test]
fn nothing_is_the_default() {
    let e = ErrorState::default();
    for v in [e.d_mag_i, e.d_mag_b, e.dtheta, e.dv, e.dp, e.dbg, e.dba] {
        assert_eq!(v.map(f), [0.0; 3]);
    }
    let b = BiasResidual::default();
    assert_eq!((b.pos_bias.map(f), b.vel_bias.map(f)), ([0.0; 3], [0.0; 3]));
    let mut le = LearningEstimator::new(NullResidual::default());
    let st = VehicleState::zero();
    assert_eq!(le.step(st, &hover_imu(), &None), st);
}
