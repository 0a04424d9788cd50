use flyctrl::estimator::c1::{C1Filter, C1State, N};
use flyctrl::estimator::linear::{
    inv3, predict_covariance, update_scalar, update_vec3, Refusal,
};
use flyctrl::estimator::nominal::{
    error_rotation, extract_error, inject_error, transition_matrix, ErrorState, HalfAngle,
    ImuDelta, Turn, I_ATT, I_POS, I_VEL,
};
use flyctrl::single::Single;
use flyctrl::vehicle::{
    quat_mul, rotate_vec_by_quat, rotate_vec_by_quat_inverse, Quaternion,
};

fn s(x: f32) -> Single {
    Single::from_bits(x.to_bits())
}

fn f(x: Single) -> f32 {
    f32::from_bits(x.to_bits())
}

fn s3(v: [f32; 3]) -> [Single; 3] {
    v.map(s)
}

fn f3(v: [Single; 3]) -> [f32; 3] {
    v.map(f)
}

fn half(angle: f32) -> HalfAngle {
    let (sin, cos) = (angle * 0.5).sin_cos();
    HalfAngle { sin: s(sin), cos: s(cos) }
}

fn half_of(turn: Option<Turn>) -> HalfAngle {
    half(turn.map_or(0.0, |t| f(t.angle)))
}

fn about(axis: [f32; 3], angle: f32) -> Quaternion {
    let h = half(angle);
    Quaternion::from_axis_angle(s3(axis), h.sin, h.cos)
}

fn diagonal(value: impl Fn(usize) -> f32) -> [[Single; N]; N] {
    let mut m = [[s(0.0); N]; N];
    for (i, row) in m.iter_mut().enumerate() {
        row[i] = s(value(i));
    }
    m
}

fn inject(st: &mut C1State, e: &ErrorState) {
    inject_error(st, e, &half_of(e.turn()));
}

fn extract(q_old: &Quaternion, st: &C1State) -> [f32; 3] {
    let (dq, len) = error_rotation(q_old, st);
    let angle = f(len).atan2(f(dq.w).max(0.0));
    f3(extract_error(&dq, len, s(angle)).dtheta)
}

fn advance(st: &mut C1State, imu: &ImuDelta, g: [f32; 3], dt: f32) {
    let h = half_of(st.turn(&imu.delta_ang, s(dt)));
    st.predict(imu, &s3(g), s(dt), &h);
}

fn max_difference(a: &[[Single; N]; N], b: &[[Single; N]; N]) -> f32 {
    let mut d = 0.0f32;
    for i in 0..N {
        for j in 0..N {
            d = d.max((f(a[i][j]) - f(b[i][j])).abs());
        }
    }
    d
}

#[test]
fn c1_c1_extreme_cases() {
    let g = [0.0f32, 0.0, 9.81];
    let dt = 0.01f32;
    let q = about([0.2, 0.3, 0.5], 0.4).normalize();
    let a_support = f3(rotate_vec_by_quat_inverse(&q, s3([-g[0], -g[1], -g[2]])));
    let zero = s3([0.0; 3]);
    let mut st = C1State { q, v: zero, p: zero, bg: zero, ba: zero };
    let support = ImuDelta { delta_ang: zero, delta_vel: s3(a_support.map(|a| a * dt)) };
    advance(&mut st, &support, g, dt);
    let v = f3(st.v);
    let dv2 = v[0] * v[0] + v[1] * v[1] + v[2] * v[2];
    assert!(dv2 < 1e-10, "{dv2:.2e}");
    let mut s2 = C1State { q, v: zero, p: zero, bg: zero, ba: zero };
    advance(&mut s2, &ImuDelta { delta_ang: zero, delta_vel: zero }, g, dt);
    let v2 = f3(s2.v);
    let dev2 = (v2[0] - g[0] * dt).powi(2)
        + (v2[1] - g[1] * dt).powi(2)
        + (v2[2] - g[2] * dt).powi(2);
    assert!(dev2 < 1e-12, "{dev2:.2e}");
    let r = [
        s3([1.0, 0.0, 0.0]),
        s3([0.0, 1.0, 0.0]),
        s3([0.0, 0.0, 1.0]),
    ];
    let f_body = [0.3f32, -0.2, -9.7];
    let fm = transition_matrix::<N>(&q, &s3([0.0, 0.0, 0.0]), s(dt), &r, s3(f_body));
    let aw = f3(rotate_vec_by_quat(&q, s3(f_body)));
    let cross = |a: [f32; 3], e: [f32; 3]| -> [f32; 3] {
        [a[1] * e[2] - a[2] * e[1], a[2] * e[0] - a[0] * e[2], a[0] * e[1] - a[1] * e[0]]
    };
    let basis = [[1.0f32, 0.0, 0.0], [0.0, 1.0, 0.0], [0.0, 0.0, 1.0]];
    let mut maxdev = 0.0f32;
    for j in 0..3 {
        let want = cross(aw, basis[j]);
        for i in 0..3 {
            maxdev = maxdev.max((f(fm[I_VEL + i][I_ATT + j]) - want[i] * dt).abs());
        }
    }
    assert!(maxdev < 1e-6, "{maxdev:.2e}");
    let p0 = diagonal(|i| 1.0 + i as f32 * 0.1);
    let eye = diagonal(|_| 1.0);
    let q0 = diagonal(|_| 0.25);
    let out = predict_covariance(&p0, &eye, &q0);
    let mut dev = 0.0f32;
    for i in 0..N {
        for j in 0..N {
            dev = dev.max((f(out[i][j]) - (f(p0[i][j]) + f(q0[i][j]))).abs());
        }
    }
    assert!(dev < 1e-6, "{dev:.2e}");
    let f2 = transition_matrix::<N>(&q, &s3([0.1, -0.05, 0.2]), s(dt), &r, s3(f_body));
    let out2 = predict_covariance(&p0, &f2, &q0);
    let mut sym = 0.0f32;
    for i in 0..N {
        for j in 0..N {
            sym = sym.max((f(out2[i][j]) - f(out2[j][i])).abs());
        }
    }
    assert!(sym < 1e-5, "{sym:.2e}");
    let mut pc = diagonal(|_| 1.0);
    let mut h_row = [s(0.0); N];
    h_row[I_POS + 2] = s(-1.0);
    let r_var = s(0.25f32);
    let before = f(pc[I_POS + 2][I_POS + 2]);
    let nis = f(update_scalar(&mut pc, &h_row, s(0.1), r_var, s(3.0)).unwrap());
    let after = f(pc[I_POS + 2][I_POS + 2]);
    assert!(nis < 1.0 && after < before, "{nis:.3}");
    let mut pc2 = diagonal(|_| 1.0);
    let snapshot = pc2;
    let rej = update_scalar(&mut pc2, &h_row, s(10.0), r_var, s(3.0));
    assert!(rej.is_err());
    let dmax = max_difference(&pc2, &snapshot);
    assert!(dmax == 0.0, "{dmax:.2e}");
    let q_old = about([0.2, 0.3, 0.5], 0.4).normalize();
    let mut st2 = C1State { q: q_old, v: zero, p: zero, bg: zero, ba: zero };
    let dth = [0.01f32, -0.02, 0.015];
    inject(&mut st2, &ErrorState { dtheta: s3(dth), ..ErrorState::zero() });
    let back = extract(&q_old, &st2);
    let mut rdev = 0.0f32;
    for i in 0..3 {
        rdev = rdev.max((back[i] - dth[i]).abs());
    }
    assert!(rdev < 1e-5, "{rdev:.2e}");
    let mut st3 = C1State { q: q_old, v: zero, p: zero, bg: zero, ba: zero };
    {
        let n = (dth[0] * dth[0] + dth[1] * dth[1] + dth[2] * dth[2]).sqrt();
        let dq = about([dth[0] / n, dth[1] / n, dth[2] / n], n);
        st3.q = quat_mul(q_old, dq).normalize();
    }
    let back3 = extract(&q_old, &st3);
    let mut rdev3 = 0.0f32;
    for i in 0..3 {
        rdev3 = rdev3.max((back3[i] - dth[i]).abs());
    }
    assert!(rdev3 > 1e-4, "{rdev3:.2e}");
    let mut pv = diagonal(|_| 1.0);
    let mut hv = [[s(0.0); N]; 3];
    for (a, row) in hv.iter_mut().enumerate() {
        row[I_VEL + a] = s(1.0);
    }
    let rv = [s3([0.25, 0.0, 0.0]), s3([0.0, 0.25, 0.0]), s3([0.0, 0.0, 0.25])];
    let b_before = f(pv[I_VEL][I_VEL]);
    let n3 = f(update_vec3(&mut pv, &hv, &s3([0.1, -0.1, 0.05]), &rv, s(5.0)).unwrap());
    assert!(n3 < 1.0 && f(pv[I_VEL][I_VEL]) < b_before);
    let mut pv2 = diagonal(|_| 1.0);
    let snap2 = pv2;
    assert!(update_vec3(&mut pv2, &hv, &s3([9.0, 9.0, 9.0]), &rv, s(5.0)).is_err());
    let d2 = max_difference(&pv2, &snap2);
    assert!(d2 == 0.0, "{d2:.2e}");
}

fn predict(c: &mut C1Filter, delta_ang: [f32; 3], delta_vel: [f32; 3], dt: f32, g: [f32; 3]) {
    let imu = ImuDelta { delta_ang: s3(delta_ang), delta_vel: s3(delta_vel) };
    let h = half_of(c.turn(&imu.delta_ang, s(dt)));
    c.predict(&imu, s(dt), &s3(g), &h);
}

fn settle(c: &mut C1Filter, o: Result<(Single, ErrorState), Refusal>) -> Result<f32, Refusal> {
    let (nis, e) = o?;
    c.apply(&e, &half_of(e.turn()));
    Ok(f(nis))
}

fn gps_pos(c: &mut C1Filter, meas: [f32; 3]) -> Result<f32, Refusal> {
    let o = c.update_gps_pos(&s3(meas));
    settle(c, o)
}

fn gps_vel(c: &mut C1Filter, meas: [f32; 3]) -> Result<f32, Refusal> {
    let o = c.update_gps_vel(&s3(meas));
    settle(c, o)
}

fn baro(c: &mut C1Filter, alt: f32) -> Result<f32, Refusal> {
    let o = c.update_baro(s(alt));
    settle(c, o)
}

#[test]
fn c1_c1_single_update_moves_toward_measurement() {
    let g = [0.0f32, 0.0, 9.81];
    let dt = 0.01f32;
    let q0 = about([0.0, 0.0, 1.0], 0.0).normalize();
    let mut c = C1Filter::new(q0, s3([0.0; 3]), s3([3.0, 0.0, -5.0]), s(5.0));
    let a_support = [0.0f32, 0.0, -9.81];
    let mut p0_err = 3.0f32;
    for k in 0..200 {
        predict(&mut c, [0.0; 3], a_support.map(|a| a * dt), dt, g);
        if k % 5 == 0 {
            let _ = gps_pos(&mut c, [0.0, 0.0, -5.0]);
            let _ = gps_vel(&mut c, [0.0, 0.0, 0.0]);
        }
        if k == 5 {
            let e1 = f(c.st.p[0]).abs();
            assert!(e1 < p0_err, "{p0_err} -> {e1}");
            p0_err = e1;
        }
        assert!(c.st.p[0].is_finite(), "step {k}");
    }
    let e = f(c.st.p[0]).abs();
    assert!(e < 0.5, "{e:.3}");
}

#[test]
fn barometer_and_refusals_of_the_inertial_filter() {
    let q0 = about([0.0, 0.0, 1.0], 0.0);
    let mut c = C1Filter::new(q0, s3([0.0; 3]), s3([0.0, 0.0, -4.0]), s(5.0));
    let nis = baro(&mut c, 5.0).unwrap();
    assert!(nis > 0.0 && nis < 1.0);
    assert!(f(c.st.p[2]) < -4.0);
    let before = c;
    assert_eq!(gps_pos(&mut c, [500.0, 0.0, -5.0]), Err(Refusal::BeyondGate));
    assert_eq!(c.p, before.p);
    assert_eq!(c.st.p, before.st.p);
}

#[test]
fn measurements_that_cannot_be_weighed_are_refused() {
    let mut p = [[s(0.0); 3]; 3];
    let h = [s(1.0), s(0.0), s(0.0)];
    let none = update_scalar(&mut p, &h, s(1.0), s(-0.5), s(3.0));
    assert_eq!(none, Err(Refusal::NotPositive));
    let eye = [s3([1.0, 0.0, 0.0]), s3([0.0, 1.0, 0.0]), s3([0.0, 0.0, 1.0])];
    let zero = [s3([0.0; 3]); 3];
    let one = s3([1.0, 1.0, 1.0]);
    assert_eq!(update_vec3(&mut p, &eye, &one, &zero, s(3.0)), Err(Refusal::Singular));
    let minus = [s3([-1.0, 0.0, 0.0]), s3([0.0, -1.0, 0.0]), s3([0.0, 0.0, -1.0])];
    assert_eq!(update_vec3(&mut p, &eye, &one, &minus, s(3.0)), Err(Refusal::NegativeSize));
    assert_eq!(update_vec3(&mut p, &eye, &one, &eye, s(1.0)), Err(Refusal::BeyondGate));
    assert_eq!(p, zero);
}

#[test]
fn inverses_of_small_matrices() {
    let m = [s3([2.0, 0.0, 0.0]), s3([0.0, 4.0, 0.0]), s3([0.0, 0.0, 0.5])];
    let i = inv3(&m).unwrap();
    assert_eq!(i, [s3([0.5, 0.0, 0.0]), s3([0.0, 0.25, 0.0]), s3([0.0, 0.0, 2.0])]);
    assert!(inv3(&[s3([1.0, 2.0, 3.0]), s3([2.0, 4.0, 6.0]), s3([0.0, 0.0, 1.0])]).is_none());
}
