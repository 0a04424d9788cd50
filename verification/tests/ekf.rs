use flyctrl::estimator::ekf::{EkfEstimator, EkfTuning};
use flyctrl::estimator::ekf_field::{EkfField, FieldAngles, FieldHalves};
use flyctrl::estimator::nominal::{HalfAngle, Turn};
use flyctrl::single::Single;
use flyctrl::units::{Meter, MeterPerSecond, Second};
use flyctrl::vehicle::{
    quat_mul, Airspeed, AirspeedSample, ImuSample, PosSample, Quaternion, RtkSample, VehicleState,
    VioSample,
};

fn s(x: f32) -> Single {
    Single::from_bits(x.to_bits())
}

fn f(x: Single) -> f32 {
    f32::from_bits(x.to_bits())
}

fn s3(v: [f32; 3]) -> [Single; 3] {
    v.map(s)
}

fn f3(v: [Single; 3]) -> [f32; 3] {
    v.map(f)
}

fn half(angle: f32) -> HalfAngle {
    let (sin, cos) = (angle * 0.5).sin_cos();
    HalfAngle { sin: s(sin), cos: s(cos) }
}

fn half_of(turn: Option<Turn>) -> HalfAngle {
    half(turn.map_or(0.0, |t| f(t.angle)))
}

fn about(axis: [f32; 3], angle: f32) -> Quaternion {
    let h = half(angle);
    Quaternion::from_axis_angle(s3(axis), h.sin, h.cos)
}

fn yaw_of(q: &Quaternion) -> f32 {
    let (w, x, y, z) = (f(q.w), f(q.x), f(q.y), f(q.z));
    (2.0 * (w * z + x * y)).atan2(1.0 - 2.0 * (y * y + z * z))
}

fn roll_of(q: &Quaternion) -> f32 {
    let (w, x, y, z) = (f(q.w), f(q.x), f(q.y), f(q.z));
    (2.0 * (w * x + y * z)).atan2(1.0 - 2.0 * (x * x + y * y))
}

fn pitch_of(q: &Quaternion) -> f32 {
    let (w, x, y, z) = (f(q.w), f(q.x), f(q.y), f(q.z));
    (2.0 * (w * y - z * x)).clamp(-1.0, 1.0).asin()
}

fn imu(accel: [f32; 3]) -> ImuSample {
    ImuSample::from_axes(s3(accel), s3([0.0; 3]))
}

fn step(
    ekf: &mut EkfEstimator,
    dt: f32,
    imu: &ImuSample,
    gps: Option<PosSample>,
    air: Option<AirspeedSample>,
) -> VehicleState {
    let t = EkfTuning::none();
    match ekf.begin_step(Second(s(dt)), imu, &t) {
        None => ekf.state(),
        Some(a) => {
            let h = half_of(a.turn());
            ekf.finish_step(Second(s(dt)), imu, &a, &h, gps, air, &t)
        }
    }
}

fn update_mag_with(ekf: &mut EkfEstimator, mag: Option<[f32; 3]>, t: &EkfTuning) {
    if let Some(field) = EkfField::begin(ekf, mag.map(s3), t) {
        let sight = field.sight;
        let angles = FieldAngles {
            heading: s(f(sight.y).atan2(f(sight.x))),
            tilt: s(sight.tilt.map_or(0.0, |x| f(x.s).atan2(f(x.c)))),
        };
        let turns = field.turns(ekf, &angles);
        let halves = FieldHalves {
            heading: half(f(turns.heading)),
            tilt: half(turns.tilt.map_or(0.0, f)),
        };
        field.finish(ekf, &angles, &halves);
    }
}

fn update_mag(ekf: &mut EkfEstimator, mag: Option<[f32; 3]>) {
    update_mag_with(ekf, mag, &EkfTuning::none())
}

#[test]
fn mag_declination_aligns_yaw_to_true_north() {
    let mut ekf = EkfEstimator::default_quad();
    let (sin, cos) = 15.0f32.to_radians().sin_cos();
    ekf.set_mag_declination(s(sin), s(cos));
    let m_body = [0.2f32, 0.0, 0.4];
    for _ in 0..500 {
        update_mag(&mut ekf, Some(m_body));
    }
    let yaw_deg = yaw_of(&ekf.att).to_degrees();
    assert!((yaw_deg - 15.0).abs() < 3.0, "{yaw_deg}");

    let mut ekf0 = EkfEstimator::default_quad();
    for _ in 0..500 {
        update_mag(&mut ekf0, Some(m_body));
    }
    let yaw0 = yaw_of(&ekf0.att).to_degrees();
    assert!(yaw0.abs() < 3.0, "{yaw0}");
}

#[test]
fn mag_heading_correction_converges_yaw() {
    let mut ekf = EkfEstimator::default_quad();
    ekf.att = about([0.0, 0.0, 1.0], 30f32.to_radians());
    let m_body = [0.2f32, 0.0, 0.4];
    for _ in 0..400 {
        update_mag(&mut ekf, Some(m_body));
    }
    let yaw_deg = yaw_of(&ekf.att).to_degrees();
    assert!(yaw_deg.abs() < 3.0, "{yaw_deg}");
    assert!(roll_of(&ekf.att).abs() < 1e-3);
    assert!(pitch_of(&ekf.att).abs() < 1e-3);

    let att_before = ekf.att;
    update_mag(&mut ekf, None);
    assert_eq!(ekf.att, att_before);
    update_mag(&mut ekf, Some([0.0, 0.0, 0.0]));
    assert_eq!(ekf.att, att_before);
    update_mag(&mut ekf, Some([f32::NAN, 0.0, 0.4]));
    assert_eq!(ekf.att, att_before);

    let mut ekf2 = EkfEstimator::default_quad();
    ekf2.att = about([0.0, 0.0, 1.0], -30f32.to_radians());
    for _ in 0..400 {
        update_mag(&mut ekf2, Some(m_body));
    }
    let yaw2 = yaw_of(&ekf2.att).to_degrees();
    assert!(yaw2.abs() < 3.0, "{yaw2}");
}

#[test]
fn airspeed_fusion_constrains_horizontal_speed() {
    let mut ekf = EkfEstimator::default_quad();
    ekf.x[3] = s(5.0);
    ekf.x[4] = s(0.0);
    let aspd = AirspeedSample { speed: Airspeed(s(5.0)), timestamp_s: s(0.0) };
    let mut last = VehicleState::zero();
    for _ in 0..200 {
        last = step(&mut ekf, 0.01, &imu([0.0; 3]), None, Some(aspd));
    }
    let (vn, ve) = (f(last.vel[0].0), f(last.vel[1].0));
    let vh = (vn * vn + ve * ve).sqrt();
    assert!((vh - 5.0).abs() < 0.3, "{vh:.3}");
    assert!(f(last.airspeed.0) > 0.0);
}

#[test]
fn airspeed_fusion_rejects_none_gracefully() {
    let mut ekf = EkfEstimator::default_quad();
    let st = step(&mut ekf, 0.01, &imu([0.0; 3]), None, None);
    assert!(st.vel[0].0.is_finite() && st.vel[1].0.is_finite());
}

#[test]
fn hil_ekf_vertical_stays_stable_with_mock_gps() {
    let mut ekf = EkfEstimator::default_quad();
    ekf.set_initial_position(s3([0.0, 0.0, -5.0]));
    let gps = PosSample::pos_only([Meter(s(0.0)), Meter(s(0.0)), Meter(s(-5.0))]);
    let mut max_abs = 0.0f32;
    let mut last = VehicleState::zero();
    let mut bad = false;
    for k in 0..300 {
        let shake = 0.3 * (k as f32 * 0.01 * 120.0 * 6.2831855).sin();
        let sample = ImuSample::from_axes(
            s3([shake, -shake, -9.81 + shake]),
            s3([0.02 * shake, 0.01 * shake, -0.01 * shake]),
        );
        last = step(&mut ekf, 0.01, &sample, Some(gps), None);
        max_abs = max_abs.max(f(last.pos[2].0).abs());
        if !last.pos[2].0.is_finite() {
            bad = true;
            break;
        }
    }
    assert!(!bad && max_abs < 100.0 && last.pos[2].0.is_finite(), "{max_abs}");
}

#[test]
fn vio_fusion_tracks_truth_during_gps_outage() {
    let mut ekf = EkfEstimator::default_quad();
    ekf.set_initial_position(s3([0.0, 0.0, -5.0]));
    let mut truth_n = 0.0f32;
    let mut last = VehicleState::zero();
    for _ in 0..300 {
        truth_n += 2.0 * 0.01;
        let vio = VioSample::with_vel(
            [Meter(s(truth_n)), Meter(s(0.0)), Meter(s(-5.0))],
            [MeterPerSecond(s(2.0)), MeterPerSecond(s(0.0)), MeterPerSecond(s(0.0))],
        );
        last = step(&mut ekf, 0.01, &imu([0.0; 3]), None, None);
        ekf.update_vio(Some(vio), &EkfTuning::none());
    }
    assert!((f(last.pos[0].0) - 6.0).abs() < 1.0, "{:.3}", f(last.pos[0].0));
    assert!((f(last.vel[0].0) - 2.0).abs() < 0.3, "{:.3}", f(last.vel[0].0));
    assert!(last.pos[2].0.is_finite() && last.vel[0].0.is_finite());
}

#[test]
fn rtk_fusion_reaches_cm_precision() {
    let mut ekf = EkfEstimator::default_quad();
    ekf.set_initial_position(s3([10.0, 5.0, -5.0]));
    let rtk = RtkSample::new([Meter(s(0.0)), Meter(s(0.0)), Meter(s(-5.0))]);
    let mut last = VehicleState::zero();
    for _ in 0..50 {
        last = step(&mut ekf, 0.01, &imu([0.0, 0.0, -9.81]), None, None);
        ekf.update_rtk(Some(rtk));
    }
    let err = [
        (f(last.pos[0].0) - 0.0).abs(),
        (f(last.pos[1].0) - 0.0).abs(),
        (f(last.pos[2].0) + 5.0).abs(),
    ];
    assert!(err[0] < 0.15 && err[1] < 0.15 && err[2] < 0.15, "{err:?}");
}

#[test]
fn vio_rtk_none_gracefully() {
    let mut ekf = EkfEstimator::default_quad();
    let st = step(&mut ekf, 0.01, &imu([0.0; 3]), None, None);
    ekf.update_vio(None, &EkfTuning::none());
    ekf.update_rtk(None);
    assert!(st.vel[0].0.is_finite() && st.pos[0].0.is_finite());
}

fn mag_anchor_yaw(hard_iron: [f32; 3], calib: Option<[f32; 3]>, steps: u32) -> f32 {
    let dt = 0.004f32;
    let mut ekf = EkfEstimator::default_quad();
    if let Some(c) = calib {
        ekf.set_mag_hard_iron(s3(c));
    }
    ekf.set_initial_attitude(Quaternion::identity());
    let field_world = [0.2f32, 0.0, -0.4];
    for _ in 0..steps {
        let m = [
            field_world[0] + hard_iron[0],
            field_world[1] + hard_iron[1],
            field_world[2] + hard_iron[2],
        ];
        step(&mut ekf, dt, &imu([0.0, 0.0, -9.81]), None, None);
        update_mag(&mut ekf, Some(m));
    }
    yaw_of(&ekf.state().att)
}

#[test]
fn mag_hard_iron_calibration_removes_heading_bias() {
    let hi = [0.3f32, -0.2, 0.4];
    let uncal = mag_anchor_yaw(hi, None, 2500).to_degrees();
    let cal = mag_anchor_yaw(hi, Some(hi), 2500).to_degrees();
    assert!(uncal.abs() > 10.0, "{uncal:.2}");
    assert!(cal.abs() < 2.0, "{cal:.2}");
}

#[test]
fn readings_that_are_not_finite_end_the_step() {
    let mut ekf = EkfEstimator::default_quad();
    step(&mut ekf, 0.01, &imu([0.1, 0.0, -9.81]), None, None);
    let before = ekf.state();
    let st = step(&mut ekf, 0.01, &imu([f32::NAN, 0.0, -9.81]), None, None);
    assert_eq!(st, before);
    let st = step(&mut ekf, 0.01, &imu([0.0, f32::INFINITY, -9.81]), None, None);
    assert_eq!(st, before);
}

#[test]
fn an_infinite_altitude_is_ignored() {
    let mut ekf = EkfEstimator::default_quad();
    step(&mut ekf, 0.01, &imu([0.1, 0.0, -9.81]), None, None);
    let (x, p) = (ekf.x, *ekf.cov());
    ekf.update_alt(s(f32::INFINITY), &EkfTuning::none());
    assert_eq!((ekf.x, *ekf.cov()), (x, p));
    ekf.update_alt(s(3.0), &EkfTuning::none());
    assert!(f(ekf.x[2]) < f(x[2]));
}

#[test]
fn the_covariance_stays_symmetric() {
    let mut ekf = EkfEstimator::default_quad();
    let gps = PosSample::with_vel(
        [Meter(s(1.0)), Meter(s(2.0)), Meter(s(-5.0))],
        [MeterPerSecond(s(0.5)), MeterPerSecond(s(0.0)), MeterPerSecond(s(0.0))],
    );
    for _ in 0..30 {
        step(&mut ekf, 0.01, &imu([0.3, 0.1, -9.7]), Some(gps), None);
        ekf.update_alt(s(5.0), &EkfTuning::none());
    }
    let p = ekf.cov();
    for i in 0..10 {
        for j in 0..10 {
            assert!((f(p[i][j]) - f(p[j][i])).abs() < 1e-4, "{i} {j}");
        }
        assert!(f(p[i][i]) > 0.0);
    }
    ekf.reset();
    assert_eq!(f(ekf.x[0]), 0.0);
    assert_eq!(ekf.att(), Quaternion::identity());
}

#[test]
fn a_position_moves_neither_vertical_speed_nor_its_bias() {
    let mut ekf = EkfEstimator::default_quad();
    for _ in 0..20 {
        step(&mut ekf, 0.01, &imu([0.2, 0.1, -9.7]), None, None);
    }
    let (vz, bias) = (ekf.x[5], ekf.x[9]);
    let fix = PosSample::pos_only([Meter(s(5.0)), Meter(s(-3.0)), Meter(s(8.0))]);
    ekf.update_pos(&fix, &EkfTuning::none());
    assert_eq!((ekf.x[5], ekf.x[9]), (vz, bias));
    assert!(f(ekf.x[0]) > 0.5);
}

#[test]
fn variances_stay_within_their_bounds() {
    let mut ekf = EkfEstimator::default_quad();
    for _ in 0..3000 {
        step(&mut ekf, 0.05, &imu([0.0, 0.0, -9.81]), None, None);
    }
    let p = ekf.cov();
    for i in 0..10 {
        assert!(f(p[i][i]) >= 1e-6 && f(p[i][i]) <= 1e3, "{i}: {}", f(p[i][i]));
    }
}

#[test]
fn gravity_pulls_a_tilted_estimate_level() {
    let mut ekf = EkfEstimator::default_quad();
    ekf.set_initial_attitude(about([1.0, 0.0, 0.0], 0.1));
    for _ in 0..300 {
        step(&mut ekf, 0.01, &imu([0.0, 0.0, -9.81]), None, None);
    }
    assert!(roll_of(&ekf.att).abs() < 0.02, "{}", roll_of(&ekf.att));
}

#[test]
fn wind_is_seen_in_the_tilt() {
    let mut ekf = EkfEstimator::default_quad();
    ekf.set_drag_k(s(0.05));
    for _ in 0..600 {
        ekf.set_initial_attitude(about([0.0, 1.0, 0.0], -0.1));
        step(&mut ekf, 0.004, &imu([0.0, 0.0, -9.81]), None, None);
        ekf.x[3] = s(0.0);
        ekf.x[4] = s(0.0);
    }
    let w = ekf.wind_estimate().map(f);
    let want = (9.81f32 * 0.1f32.tan() / 0.05).sqrt();
    assert!((w[0].abs() - want).abs() < 0.3 && w[1].abs() < 0.01, "{w:?} {want}");
    ekf.set_drag_k(s(-1.0));
    step(&mut ekf, 0.004, &imu([0.0, 0.0, -9.81]), None, None);
    assert_eq!(ekf.wind_estimate().map(f), [0.0, 0.0]);
}

#[test]
fn a_force_far_from_gravity_does_not_turn_the_estimate() {
    let mut ekf = EkfEstimator::default_quad();
    let st = step(&mut ekf, 0.004, &imu([-6.9367, 0.0, -6.9367]), None, None);
    assert_eq!(st.att, Quaternion::identity());
    let (sin, cos) = 0.44f32.sin_cos();
    let st = step(&mut ekf, 0.004, &imu([-9.81 * sin, 0.0, -9.81 * cos]), None, None);
    assert!(st.att != Quaternion::identity());
}

#[test]
fn a_reset_forgets_airspeed_and_wind() {
    let mut ekf = EkfEstimator::default_quad();
    ekf.set_drag_k(s(0.05));
    let air = AirspeedSample { speed: Airspeed(s(5.0)), timestamp_s: s(0.0) };
    step(&mut ekf, 0.01, &imu([0.0, 0.0, -9.81]), None, Some(air));
    assert!(f(ekf.state().airspeed.0) > 0.0);
    ekf.reset();
    assert_eq!(f(ekf.state().airspeed.0), 0.0);
    assert_eq!(f(ekf.side.drag_k), 0.05);
}

#[test]
fn a_field_turns_and_leaves_the_rest() {
    let mut ekf = EkfEstimator::default_quad();
    step(&mut ekf, 0.004, &imu([0.0, 0.0, -9.81]), None, None);
    ekf.set_mag_ref3d(s3([0.2, 0.0, 0.4]));
    let whole = EkfTuning { mag3d_alpha: s(0.5), ..EkfTuning::none() };
    let before = ekf;
    let mag = [0.2f32, 0.1, 0.4];
    let seen = EkfField::begin(&ekf, Some(s3(mag)), &whole).unwrap().sight;
    update_mag_with(&mut ekf, Some(mag), &whole);
    // First towards the expected field, then by the heading error seen before that.
    let tilt = seen.tilt.unwrap();
    let sine = f(tilt.s);
    let axis = [f(tilt.axis[0]) / sine, f(tilt.axis[1]) / sine, f(tilt.axis[2]) / sine];
    let by = sine.atan2(f(tilt.c)) * 0.5 * 0.5 * 0.004 * 250.0;
    let heading = f(seen.y).atan2(f(seen.x)) * (f(before.side.mag_alpha) * 0.5);
    let upright = quat_mul(about(axis, by), before.att).normalize();
    let want = quat_mul(about([0.0, 0.0, 1.0], heading), upright).normalize();
    for (a, b) in [
        (ekf.att.w, want.w),
        (ekf.att.x, want.x),
        (ekf.att.y, want.y),
        (ekf.att.z, want.z),
    ] {
        assert!((f(a) - f(b)).abs() < 1e-6);
    }
    assert!(by.abs() > 1e-3 && heading.abs() > 1e-4);
    assert_eq!((ekf.x, ekf.p), (before.x, before.p));
    let turned = ekf.att;
    update_mag(&mut ekf, None);
    update_mag(&mut ekf, Some([f32::NAN, 0.1, 0.4]));
    assert_eq!(ekf.att, turned);
    assert!(EkfField::begin(&before, Some(s3([0.0, 0.0, 0.4])), &EkfTuning::none()).is_none());
}
