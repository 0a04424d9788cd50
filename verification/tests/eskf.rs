use flyctrl::estimator::aids::{GravityRun, MagRun};
use flyctrl::estimator::eskf::{
    align_static, gravity_h, mag_h, predicted_gravity_body, predicted_mag_body, Eskf, EskfState,
    EskfTuning, N,
};
use flyctrl::estimator::linear::{
    predict_covariance, update_scalar, update_vec3, Refusal,
};
use flyctrl::estimator::nominal::{
    error_rotation, extract_error, inject_error, transition_matrix, ErrorState, HalfAngle,
    ImuDelta, Turn, I_ATT, I_POS, I_VEL, I_MAGB, I_MAGI,
};
use flyctrl::single::Single;
use flyctrl::vehicle::{
    quat_mul, rotate_vec_by_quat, rotate_vec_by_quat_inverse, Quaternion,
};

fn s(x: f32) -> Single {
    Single::from_bits(x.to_bits())
}

fn f(x: Single) -> f32 {
    f32::from_bits(x.to_bits())
}

fn s3(v: [f32; 3]) -> [Single; 3] {
    v.map(s)
}

fn f3(v: [Single; 3]) -> [f32; 3] {
    v.map(f)
}

fn half(angle: f32) -> HalfAngle {
    let (sin, cos) = (angle * 0.5).sin_cos();
    HalfAngle { sin: s(sin), cos: s(cos) }
}

fn half_of(turn: Option<Turn>) -> HalfAngle {
    half(turn.map_or(0.0, |t| f(t.angle)))
}

fn about(axis: [f32; 3], angle: f32) -> Quaternion {
    let h = half(angle);
    Quaternion::from_axis_angle(s3(axis), h.sin, h.cos)
}

fn diagonal(value: impl Fn(usize) -> f32) -> [[Single; N]; N] {
    let mut m = [[s(0.0); N]; N];
    for (i, row) in m.iter_mut().enumerate() {
        row[i] = s(value(i));
    }
    m
}

fn inject(st: &mut EskfState, e: &ErrorState) {
    inject_error(st, e, &half_of(e.turn()));
}

fn extract(q_old: &Quaternion, st: &EskfState) -> [f32; 3] {
    let (dq, len) = error_rotation(q_old, st);
    let angle = f(len).atan2(f(dq.w).max(0.0));
    f3(extract_error(&dq, len, s(angle)).dtheta)
}

fn advance(st: &mut EskfState, imu: &ImuDelta, g: [f32; 3], dt: f32) {
    let h = half_of(st.turn(&imu.delta_ang, s(dt)));
    st.predict(imu, &s3(g), s(dt), &h);
}

fn max_difference(a: &[[Single; N]; N], b: &[[Single; N]; N]) -> f32 {
    let mut d = 0.0f32;
    for i in 0..N {
        for j in 0..N {
            d = d.max((f(a[i][j]) - f(b[i][j])).abs());
        }
    }
    d
}

#[test]
fn eskf_c1_extreme_cases() {
    let g = [0.0f32, 0.0, 9.81];
    let dt = 0.01f32;
    let q = about([0.2, 0.3, 0.5], 0.4).normalize();
    let a_support = f3(rotate_vec_by_quat_inverse(&q, s3([-g[0], -g[1], -g[2]])));
    let zero = s3([0.0; 3]);
    let mut st = EskfState { q, v: zero, p: zero, bg: zero, ba: zero };
    let support = ImuDelta { delta_ang: zero, delta_vel: s3(a_support.map(|a| a * dt)) };
    advance(&mut st, &support, g, dt);
    let v = f3(st.v);
    let dv2 = v[0] * v[0] + v[1] * v[1] + v[2] * v[2];
    assert!(dv2 < 1e-10, "{dv2:.2e}");
    let mut s2 = EskfState { q, v: zero, p: zero, bg: zero, ba: zero };
    advance(&mut s2, &ImuDelta { delta_ang: zero, delta_vel: zero }, g, dt);
    let v2 = f3(s2.v);
    let dev2 = (v2[0] - g[0] * dt).powi(2)
        + (v2[1] - g[1] * dt).powi(2)
        + (v2[2] - g[2] * dt).powi(2);
    assert!(dev2 < 1e-12, "{dev2:.2e}");
    let r = [
        s3([1.0, 0.0, 0.0]),
        s3([0.0, 1.0, 0.0]),
        s3([0.0, 0.0, 1.0]),
    ];
    let f_body = [0.3f32, -0.2, -9.7];
    let fm = transition_matrix::<N>(&q, &s3([0.0, 0.0, 0.0]), s(dt), &r, s3(f_body));
    let aw = f3(rotate_vec_by_quat(&q, s3(f_body)));
    let cross = |a: [f32; 3], e: [f32; 3]| -> [f32; 3] {
        [a[1] * e[2] - a[2] * e[1], a[2] * e[0] - a[0] * e[2], a[0] * e[1] - a[1] * e[0]]
    };
    let basis = [[1.0f32, 0.0, 0.0], [0.0, 1.0, 0.0], [0.0, 0.0, 1.0]];
    let mut maxdev = 0.0f32;
    for j in 0..3 {
        let want = cross(aw, basis[j]);
        for i in 0..3 {
            maxdev = maxdev.max((f(fm[I_VEL + i][I_ATT + j]) - want[i] * dt).abs());
        }
    }
    assert!(maxdev < 1e-6, "{maxdev:.2e}");
    let p0 = diagonal(|i| 1.0 + i as f32 * 0.1);
    let eye = diagonal(|_| 1.0);
    let q0 = diagonal(|_| 0.25);
    let out = predict_covariance(&p0, &eye, &q0);
    let mut dev = 0.0f32;
    for i in 0..N {
        for j in 0..N {
            dev = dev.max((f(out[i][j]) - (f(p0[i][j]) + f(q0[i][j]))).abs());
        }
    }
    assert!(dev < 1e-6, "{dev:.2e}");
    let f2 = transition_matrix::<N>(&q, &s3([0.1, -0.05, 0.2]), s(dt), &r, s3(f_body));
    let out2 = predict_covariance(&p0, &f2, &q0);
    let mut sym = 0.0f32;
    for i in 0..N {
        for j in 0..N {
            sym = sym.max((f(out2[i][j]) - f(out2[j][i])).abs());
        }
    }
    assert!(sym < 1e-5, "{sym:.2e}");
    let mut pc = diagonal(|_| 1.0);
    let mut h_row = [s(0.0); N];
    h_row[I_POS + 2] = s(-1.0);
    let r_var = s(0.25f32);
    let before = f(pc[I_POS + 2][I_POS + 2]);
    let nis = f(update_scalar(&mut pc, &h_row, s(0.1), r_var, s(3.0)).unwrap());
    let after = f(pc[I_POS + 2][I_POS + 2]);
    assert!(nis < 1.0 && after < before, "{nis:.3}");
    let mut pc2 = diagonal(|_| 1.0);
    let snapshot = pc2;
    let rej = update_scalar(&mut pc2, &h_row, s(10.0), r_var, s(3.0));
    assert!(rej.is_err());
    let dmax = max_difference(&pc2, &snapshot);
    assert!(dmax == 0.0, "{dmax:.2e}");
    let q_old = about([0.2, 0.3, 0.5], 0.4).normalize();
    let mut st2 = EskfState { q: q_old, v: zero, p: zero, bg: zero, ba: zero };
    let dth = [0.01f32, -0.02, 0.015];
    inject(&mut st2, &ErrorState { dtheta: s3(dth), ..ErrorState::zero() });
    let back = extract(&q_old, &st2);
    let mut rdev = 0.0f32;
    for i in 0..3 {
        rdev = rdev.max((back[i] - dth[i]).abs());
    }
    assert!(rdev < 1e-5, "{rdev:.2e}");
    let mut st3 = EskfState { q: q_old, v: zero, p: zero, bg: zero, ba: zero };
    {
        let n = (dth[0] * dth[0] + dth[1] * dth[1] + dth[2] * dth[2]).sqrt();
        let dq = about([dth[0] / n, dth[1] / n, dth[2] / n], n);
        st3.q = quat_mul(q_old, dq).normalize();
    }
    let back3 = extract(&q_old, &st3);
    let mut rdev3 = 0.0f32;
    for i in 0..3 {
        rdev3 = rdev3.max((back3[i] - dth[i]).abs());
    }
    assert!(rdev3 > 1e-4, "{rdev3:.2e}");
    let mut pv = diagonal(|_| 1.0);
    let mut hv = [[s(0.0); N]; 3];
    for (a, row) in hv.iter_mut().enumerate() {
        row[I_VEL + a] = s(1.0);
    }
    let rv = [s3([0.25, 0.0, 0.0]), s3([0.0, 0.25, 0.0]), s3([0.0, 0.0, 0.25])];
    let b_before = f(pv[I_VEL][I_VEL]);
    let n3 = f(update_vec3(&mut pv, &hv, &s3([0.1, -0.1, 0.05]), &rv, s(5.0)).unwrap());
    assert!(n3 < 1.0 && f(pv[I_VEL][I_VEL]) < b_before);
    let mut pv2 = diagonal(|_| 1.0);
    let snap2 = pv2;
    assert!(update_vec3(&mut pv2, &hv, &s3([9.0, 9.0, 9.0]), &rv, s(5.0)).is_err());
    let d2 = max_difference(&pv2, &snap2);
    assert!(d2 == 0.0, "{d2:.2e}");
}

fn predict(c: &mut Eskf, delta_ang: [f32; 3], delta_vel: [f32; 3], dt: f32, g: [f32; 3]) {
    let imu = ImuDelta { delta_ang: s3(delta_ang), delta_vel: s3(delta_vel) };
    let h = half_of(c.turn(&imu.delta_ang, s(dt)));
    c.predict(&imu, s(dt), &s3(g), &h);
}

fn settle(c: &mut Eskf, o: Result<(Single, ErrorState), Refusal>) -> Result<f32, Refusal> {
    let (nis, e) = o?;
    c.apply(&e, &half_of(e.turn()));
    Ok(f(nis))
}

fn gps_pos(c: &mut Eskf, meas: [f32; 3]) -> Result<f32, Refusal> {
    let o = c.update_gps_pos(&s3(meas));
    settle(c, o)
}

fn gps_vel(c: &mut Eskf, meas: [f32; 3]) -> Result<f32, Refusal> {
    let o = c.update_gps_vel(&s3(meas));
    settle(c, o)
}

fn baro(c: &mut Eskf, alt: f32) -> Result<f32, Refusal> {
    let o = c.update_baro(s(alt));
    settle(c, o)
}

#[test]
fn eskf_c1_single_update_moves_toward_measurement() {
    let g = [0.0f32, 0.0, 9.81];
    let dt = 0.01f32;
    let q0 = about([0.0, 0.0, 1.0], 0.0).normalize();
    let mut c = Eskf::new(q0, s3([0.0; 3]), s3([3.0, 0.0, -5.0]), s(5.0));
    let a_support = [0.0f32, 0.0, -9.81];
    let mut p0_err = 3.0f32;
    for k in 0..200 {
        predict(&mut c, [0.0; 3], a_support.map(|a| a * dt), dt, g);
        if k % 5 == 0 {
            let _ = gps_pos(&mut c, [0.0, 0.0, -5.0]);
            let _ = gps_vel(&mut c, [0.0, 0.0, 0.0]);
        }
        if k == 5 {
            let e1 = f(c.st.p[0]).abs();
            assert!(e1 < p0_err, "{p0_err} -> {e1}");
            p0_err = e1;
        }
        assert!(c.st.p[0].is_finite(), "step {k}");
    }
    let e = f(c.st.p[0]).abs();
    assert!(e < 0.5, "{e:.3}");
}

fn update_mag(c: &mut Eskf, meas: [f32; 3]) -> f32 {
    let mut run = MagRun::begin(&s3(meas), &EskfTuning::all()).unwrap();
    while let Some(e) = run.next(c) {
        c.apply(&e, &half_of(e.turn()));
    }
    f(run.worst)
}

fn distance(a: [Single; 3], b: [f32; 3]) -> f32 {
    let a = f3(a);
    ((0..3).map(|i| (a[i] - b[i]).powi(2)).sum::<f32>()).sqrt()
}

fn seen(q: &Quaternion, mag_i: [f32; 3], mag_b: [f32; 3]) -> [f32; 3] {
    let rti = f3(rotate_vec_by_quat_inverse(q, s3(mag_i)));
    [rti[0] + mag_b[0], rti[1] + mag_b[1], rti[2] + mag_b[2]]
}

#[test]
fn c2_v4_reset_mag_states_solves_bias_once() {
    let mag_i_prior = [0.2f32, 0.0, 0.4];
    let mag_b_true = [0.1f32, -0.05, 0.2];
    let q = about([0.2, -0.3, 0.5], 0.7).normalize();
    let meas = seen(&q, mag_i_prior, mag_b_true);
    let mut c = Eskf::new(q, s3([0.0; 3]), s3([0.0; 3]), s(3.0));
    assert!(!c.yaw_aligned);
    c.reset_mag_states(&s3(meas), &s3(mag_i_prior), &EskfTuning::all());
    assert!(c.yaw_aligned);
    let eb = distance(c.mag_b, mag_b_true);
    let ei = distance(c.mag_i, mag_i_prior);
    assert!(eb < 1e-6 && ei < 1e-6, "{eb:.2e} {ei:.2e}");
}

#[test]
fn c2_v1_algebraic_mag_bias_inversion() {
    let mag_i_prior = [0.2f32, 0.0, 0.4];
    let mag_b_true = [0.1f32, -0.05, 0.2];
    let q = about([0.2, -0.3, 0.5], 0.7).normalize();
    let rti = f3(rotate_vec_by_quat_inverse(&q, s3(mag_i_prior)));
    let meas = [rti[0] + mag_b_true[0], rti[1] + mag_b_true[1], rti[2] + mag_b_true[2]];
    let mag_b_solved = [meas[0] - rti[0], meas[1] - rti[1], meas[2] - rti[2]];
    let dev = ((0..3).map(|i| (mag_b_solved[i] - mag_b_true[i]).powi(2)).sum::<f32>()).sqrt();
    assert!(dev < 1e-6, "{dev:.2e}");
}

#[test]
fn c2_single_update_moves_states_toward_truth() {
    let mag_i_true = [0.2f32, 0.0, 0.4];
    let mag_b_true = [0.1f32, -0.05, 0.2];
    let q = about([0.2, -0.3, 0.5], 0.7).normalize();
    let mut c = Eskf::new(q, s3([0.0; 3]), s3([0.0; 3]), s(1e9));
    c.mag_i = s3([0.15, 0.05, 0.35]);
    c.mag_b = s3([0.0; 3]);
    let meas = seen(&q, mag_i_true, mag_b_true);
    let (b0, i0) = (distance(c.mag_b, mag_b_true), distance(c.mag_i, mag_i_true));
    let _ = update_mag(&mut c, meas);
    let (b1, i1) = (distance(c.mag_b, mag_b_true), distance(c.mag_i, mag_i_true));
    assert!(b1 < b0 * 0.9 || i1 < i0 * 0.9, "{b0:.4} {b1:.4} {i0:.4} {i1:.4}");
    assert!(b1 < b0 * 2.0 && i1 < i0 * 2.0, "{b0:.4} {b1:.4} {i0:.4} {i1:.4}");
}

#[test]
fn c2_single_update_moves_toward_measurement() {
    let mag_i_true = [0.2f32, 0.0, 0.4];
    let mag_b_true = [0.1f32, -0.05, 0.2];
    let q = about([0.2, -0.3, 0.5], 0.7).normalize();
    let mut c = Eskf::new(q, s3([0.0; 3]), s3([0.0; 3]), s(1e9));
    c.mag_i = s3([0.15, 0.05, 0.35]);
    c.mag_b = s3([0.0; 3]);
    let meas = seen(&q, mag_i_true, mag_b_true);
    let dist = |c: &Eskf| distance(predicted_mag_body(&c.st.q, &c.mag_i, &c.mag_b), meas);
    let d0 = dist(&c);
    let _ = update_mag(&mut c, meas);
    let d1 = dist(&c);
    assert!(d1 < d0, "{d0:.4} {d1:.4}");
}

#[test]
fn c2_mag_bias_converges_under_rotation() {
    let mag_i_true = [0.2f32, 0.0, 0.4];
    let mag_b_true = [0.1f32, -0.05, 0.2];
    let q0 = about([0.0, 0.0, 1.0], 0.0);
    let mut c = Eskf::new(q0, s3([0.0; 3]), s3([0.0; 3]), s(3.0));
    let meas0 = seen(&q0, mag_i_true, mag_b_true);
    c.mag_i = rotate_vec_by_quat(&q0, s3(meas0));
    let dt = 0.01f32;
    let (mi_init, mb_init) = (f3(c.mag_i), f3(c.mag_b));
    let wv = [0.3f32, 0.2, 0.5];
    let wn = (wv[0] * wv[0] + wv[1] * wv[1] + wv[2] * wv[2]).sqrt();
    let mut q_true = about([0.0, 0.0, 1.0], 0.0);
    let (mut rsum, mut rn) = (0.0f64, 0u32);
    let mut info = [0.0f64; N];
    let mut hs: Vec<[[Single; N]; 3]> = Vec::new();
    for k in 0..6000 {
        let dq = about([wv[0] / wn, wv[1] / wn, wv[2] / wn], wn * dt);
        q_true = quat_mul(dq, q_true).normalize();
        let sup = f3(rotate_vec_by_quat_inverse(&q_true, s3([0.0, 0.0, -9.81])));
        predict(&mut c, wv.map(|w| w * dt), sup.map(|a| a * dt), dt, [0.0, 0.0, 9.81]);
        let meas = seen(&q_true, mag_i_true, mag_b_true);
        if !c.yaw_aligned {
            c.reset_mag_states(&s3(meas), &s3(mag_i_true), &EskfTuning::all());
        }
        let _ = update_mag(&mut c, meas);
        let (w, x, y, z) = (f(c.st.q.w), f(c.st.q.x), f(c.st.q.y), f(c.st.q.z));
        let qn = w * w + x * x + y * y + z * z;
        let pn = (0..N).map(|i| f(c.p[i][i])).fold(0.0f32, |a, b| a.max(b.abs()));
        assert!(qn.is_finite() && pn.is_finite() && pn < 1e12, "step {k}: {qn:.3e} {pn:.3e}");
        assert!((qn - 1.0).abs() < 0.1, "step {k}: {qn:.4}");
        let h = [0, 1, 2].map(|i| mag_h(&c.st.q, &c.mag_i, i));
        if k % 200 == 0 && hs.len() < 20 {
            hs.push(h);
        }
        for i in 0..N {
            let c2: f32 = (0..3).map(|a| f(h[a][i]) * f(h[a][i])).sum();
            info[i] += (c2 / f(c.r_mag)) as f64;
        }
        if k >= 3000 {
            let pred = f3(predicted_mag_body(&c.st.q, &c.mag_i, &c.mag_b));
            let r2 = (0..3).map(|i| (pred[i] - meas[i]).powi(2)).sum::<f32>();
            rsum += r2 as f64;
            rn += 1;
        }
        let _ = update_mag(&mut c, meas);
    }
    let r_res = (rsum / rn.max(1) as f64).sqrt();
    let blk = |b: usize| -> f64 { (0..3).map(|i| info[b + i]).sum::<f64>() };
    let (i_att, i_mi, i_mb) = (blk(I_ATT), blk(I_MAGI), blk(I_MAGB));
    assert!(i_att > 0.0 && i_mi > 0.0 && i_mb > 0.0, "{i_att:.3e} {i_mi:.3e} {i_mb:.3e}");
    assert!(i_mb * 5.0 > i_mi, "{i_mi:.3e} {i_mb:.3e}");
    assert!(r_res < 1e-3, "{r_res:.2e}");
    let cols: [usize; 9] = [
        I_ATT, I_ATT + 1, I_ATT + 2, I_MAGI, I_MAGI + 1, I_MAGI + 2, I_MAGB, I_MAGB + 1,
        I_MAGB + 2,
    ];
    let mut m = [[0.0f64; 9]; 60];
    let mut mn = 0usize;
    for h in &hs {
        for row in h {
            for (ci, &col) in cols.iter().enumerate() {
                m[mn][ci] = f(row[col]) as f64;
            }
            mn += 1;
        }
    }
    let mut rank = 0usize;
    for col in 0..9 {
        let mut piv = None;
        let mut best = 1e-9f64;
        for ri in rank..mn {
            if m[ri][col].abs() > best {
                best = m[ri][col].abs();
                piv = Some(ri);
            }
        }
        if let Some(pi) = piv {
            m.swap(rank, pi);
            let pv = m[rank][col];
            for a in col..9 {
                m[rank][a] /= pv;
            }
            for ri in 0..mn {
                if ri != rank && m[ri][col].abs() > 1e-12 {
                    let fct = m[ri][col];
                    for a in col..9 {
                        m[ri][a] -= fct * m[rank][a];
                    }
                }
            }
            rank += 1;
        }
    }
    assert_eq!(rank, 9);
    let (mi, mb) = (f3(c.mag_i), f3(c.mag_b));
    let dm_i = (0..3).map(|k| (mi[k] - mi_init[k]).abs()).fold(0.0f32, f32::max);
    let dm_b = (0..3).map(|k| (mb[k] - mb_init[k]).abs()).fold(0.0f32, f32::max);
    assert!(c.mag_applied > 0);
    assert!(dm_i > 1e-6 && dm_b > 1e-6, "{dm_i:.2e} {dm_b:.2e}");
    assert!(c.mag_applied > 1000, "{} {}", c.mag_applied, c.mag_skipped);
    let eb = distance(c.mag_b, mag_b_true);
    let ei = distance(c.mag_i, mag_i_true);
    assert!(eb < 0.02, "{eb:.4}");
    assert!(ei < 0.05, "{ei:.4}");
}

#[test]
fn c2_gravity_h_numeric_check() {
    let g_ned = s3([0.0f32, 0.0, 9.81]);
    let q = about([0.3, -0.4, 0.6], 0.8).normalize();
    let eng = [0, 1, 2].map(|i| gravity_h(&q, &g_ned, i));
    let eps = 1e-3f32;
    let base = f3(predicted_gravity_body(&q, &g_ned));
    let mut maxdev = 0.0f32;
    for j in 0..3 {
        let mut d = [0.0f32; 3];
        d[j] = eps;
        let dq = about([d[0] / eps, d[1] / eps, d[2] / eps], eps);
        let out = f3(predicted_gravity_body(&quat_mul(dq, q).normalize(), &g_ned));
        for i in 0..3 {
            maxdev = maxdev.max((((out[i] - base[i]) / eps) - f(eng[i][I_ATT + j])).abs());
        }
    }
    assert!(maxdev < 1e-3, "{maxdev:.2e}");
}

#[test]
fn c2_mag_h_numeric_check() {
    let q = about([0.3, -0.4, 0.6], 0.8).normalize();
    let mag_i = [0.21f32, -0.05, 0.43];
    let mag_b = [0.12f32, -0.07, 0.2];
    let eng = [0, 1, 2].map(|i| mag_h(&q, &s3(mag_i), i));
    let eps = 1e-3f32;
    let base = f3(predicted_mag_body(&q, &s3(mag_i), &s3(mag_b)));
    let mut maxdev = 0.0f32;
    for j in 0..3 {
        let mut d = [0.0f32; 3];
        d[j] = eps;
        let n = eps;
        let dq = about([d[0] / n, d[1] / n, d[2] / n], n);
        let turned = quat_mul(dq, q).normalize();
        let out = f3(predicted_mag_body(&turned, &s3(mag_i), &s3(mag_b)));
        for i in 0..3 {
            maxdev = maxdev.max((((out[i] - base[i]) / eps) - f(eng[i][I_ATT + j])).abs());
        }
    }
    for j in 0..3 {
        let mut mi = mag_i;
        mi[j] += eps;
        let out = f3(predicted_mag_body(&q, &s3(mi), &s3(mag_b)));
        for i in 0..3 {
            maxdev = maxdev.max((((out[i] - base[i]) / eps) - f(eng[i][I_MAGI + j])).abs());
        }
    }
    for j in 0..3 {
        let mut mb = mag_b;
        mb[j] += eps;
        let out = f3(predicted_mag_body(&q, &s3(mag_i), &s3(mb)));
        for i in 0..3 {
            maxdev = maxdev.max((((out[i] - base[i]) / eps) - f(eng[i][I_MAGB + j])).abs());
        }
    }
    assert!(maxdev < 1e-3, "{maxdev:.2e}");
}

fn aligned(f_body: [f32; 3]) -> Quaternion {
    let l = align_static(&s3(f_body), &s3([0.0; 3]));
    about(f3(l.axis), f(l.sin).atan2(f(l.cos))).normalize()
}

#[test]
fn c1_static_alignment_recovers_known_attitude() {
    let qy = about([0.0, 0.0, 1.0], 0.7);
    let qp = about([0.0, 1.0, 0.0], 0.35);
    let qr = about([1.0, 0.0, 0.0], -0.26);
    let q_true = quat_mul(quat_mul(qr, qp), qy).normalize();
    let g_ned = [0.0f32, 0.0, 9.81];
    let a_body = f3(rotate_vec_by_quat_inverse(&q_true, s3([-g_ned[0], -g_ned[1], -g_ned[2]])));
    let gyro = [0.01, -0.02, 0.03];
    let l = align_static(&s3(a_body), &s3(gyro));
    let q0 = about(f3(l.axis), f(l.sin).atan2(f(l.cos))).normalize();
    let up_true = f3(rotate_vec_by_quat_inverse(&q_true, s3([0.0, 0.0, -1.0])));
    let up_est = f3(rotate_vec_by_quat_inverse(&q0, s3([0.0, 0.0, -1.0])));
    let dev = ((up_true[0] - up_est[0]).powi(2)
        + (up_true[1] - up_est[1]).powi(2)
        + (up_true[2] - up_est[2]).powi(2))
    .sqrt();
    assert!(dev < 1e-4, "{dev:.2e}");
    assert_eq!(f3(l.bg), [0.01, -0.02, 0.03]);
}

#[test]
fn alignment_of_the_special_directions() {
    let id = about([0.0, 0.0, 1.0], 0.0);
    assert_eq!(aligned([0.0; 3]), id);
    assert_eq!(aligned([0.0, 0.0, -9.81]), id);
    let over = aligned([0.0, 0.0, 9.81]);
    let up = f3(rotate_vec_by_quat(&over, s3([0.0, 0.0, 1.0])));
    assert!((up[2] + 1.0).abs() < 1e-5);
}

#[test]
fn eskf_c1_filter_loop_stationary_converges() {
    let g = [0.0f32, 0.0, 9.81];
    let dt = 0.01f32;
    let q0 = about([0.0, 0.0, 1.0], 0.0).normalize();
    let truth_p = [0.0f32, 0.0, -5.0];
    let mut c = Eskf::new(q0, s3([-1.0, 0.5, 0.2]), s3([3.0, -2.0, -4.0]), s(5.0));
    let a_support = [0.0f32, 0.0, -9.81];
    let mut max_nis = 0.0f32;
    let mut rejected = 0u32;
    let mut v_first = 0.0f32;
    let mut v_last = 0.0f32;
    for k in 0..3000 {
        predict(&mut c, [0.0; 3], a_support.map(|a| a * dt), dt, g);
        if k % 10 == 0 {
            if let Ok(n) = gps_vel(&mut c, [0.0, 0.0, 0.0]) {
                max_nis = max_nis.max(n);
            }
            if let Ok(n) = gps_pos(&mut c, truth_p) {
                max_nis = max_nis.max(n);
            }
            if let Ok(n) = baro(&mut c, 5.0) {
                max_nis = max_nis.max(n);
            }
        }
        if k == 1500 {
            assert!(gps_pos(&mut c, [100.0, 100.0, 100.0]).is_err());
            rejected += 1;
        }
        let (v, p) = (f3(c.st.v), f3(c.st.p));
        assert!(
            v.iter().all(|x| x.is_finite()) && p.iter().all(|x| x.is_finite()),
            "step {k}"
        );
        if k == 1000 {
            v_first = v.iter().map(|x| x * x).sum::<f32>().sqrt();
        }
        if k == 2999 {
            v_last = v.iter().map(|x| x * x).sum::<f32>().sqrt();
        }
        let vn = (v.iter().map(|x| x * x).sum::<f32>()).max(0.0);
        let pn = p.iter().map(|x| x.abs()).fold(0.0f32, f32::max);
        let cap = match k {
            0..=50 => 20.0f32,
            51..=200 => 50.0,
            201..=1000 => 200.0,
            _ => 1e6,
        };
        assert!(vn < cap * cap && pn < cap, "step {k}: {vn:.3e} {pn:.3e}");
    }
    let (v, p) = (f3(c.st.v), f3(c.st.p));
    let vnorm2: f32 = v.iter().map(|x| x * x).sum();
    let perr2: f32 = (0..3).map(|i| (p[i] - truth_p[i]).powi(2)).sum();
    assert!(vnorm2.is_finite() && vnorm2 < 100.0, "{vnorm2:.4}");
    assert!(perr2 < 100.0, "{perr2:.4}");
    assert!(max_nis < 5.0);
    assert_eq!(rejected, 1);
    let slope = (v_last - v_first) / 20.0;
    assert!(slope < 0.5, "{slope:.3}");
    assert!(slope > -0.5, "{slope:.3}");
}

#[test]
fn gravity_is_refused_in_free_fall_and_under_acceleration() {
    let q0 = about([0.0, 0.0, 1.0], 0.0);
    let c = Eskf::new(q0, s3([0.0; 3]), s3([0.0; 3]), s(5.0));
    let g = s3([0.0, 0.0, 9.81]);
    let t = EskfTuning::all();
    assert_eq!(c.gravity_direction(&s3([0.0; 3]), &g, &t), Err(Refusal::Weightless));
    assert_eq!(c.gravity_direction(&s3([5.0, 0.0, -9.81]), &g, &t), Err(Refusal::Accelerating));
    let d = c.gravity_direction(&s3([0.0, 0.0, -9.81]), &g, &t).unwrap();
    assert_eq!(f3(d), [0.0, 0.0, -1.0]);
}

#[test]
fn gravity_levels_a_tilted_estimate() {
    let tilted = about([1.0, 0.0, 0.0], 0.05);
    let mut c = Eskf::new(tilted, s3([0.0; 3]), s3([0.0; 3]), s(5.0));
    let g = s3([0.0, 0.0, 9.81]);
    let t = EskfTuning::all();
    let mut run = GravityRun::begin(&c, &s3([0.0, 0.0, -9.81]), &g, &t).unwrap();
    while let Some(e) = run.next(&mut c) {
        c.apply(&e, &half_of(e.turn()));
    }
    assert_eq!((run.applied, run.at), (3, 3));
    assert!(f(c.st.q.x).abs() < f(tilted.x));
    c.gate = s(0.0);
    let mut strict = MagRun::begin(&s3([5.0, 5.0, 5.0]), &t).unwrap();
    assert!(strict.next(&mut c).is_none());
    assert_eq!((c.mag_skipped, c.mag_applied, f(strict.worst)), (3, 0, 0.0));
    let off = EskfTuning { mag_on: s(0.0), ..t };
    assert!(matches!(MagRun::begin(&s3([0.0; 3]), &off), Err(Refusal::SwitchedOff)));
}

#[test]
fn a_frozen_bias_stays() {
    let q0 = about([0.0, 0.0, 1.0], 0.0);
    let mut c = Eskf::new(q0, s3([0.0; 3]), s3([0.0; 3]), s(5.0));
    let e = ErrorState {
        dbg: s3([0.1, 0.2, 0.3]),
        dba: s3([0.1; 3]),
        dv: s3([1.0, 2.0, 3.0]),
        ..ErrorState::zero()
    };
    c.freeze_bias = true;
    c.apply(&e, &half_of(e.turn()));
    assert_eq!((f3(c.st.bg), f3(c.st.v)), ([0.0; 3], [1.0, 2.0, 3.0]));
    c.freeze_bias = false;
    c.apply(&e, &half_of(e.turn()));
    assert_eq!(f3(c.st.bg), [0.1, 0.2, 0.3]);
}

#[test]
fn aids_that_are_off_change_nothing() {
    let q0 = about([0.0, 0.0, 1.0], 0.0);
    let mut c = Eskf::new(q0, s3([0.0; 3]), s3([0.0; 3]), s(5.0));
    let off = EskfTuning { grav_on: s(0.0), mag_on: s(0.49), ..EskfTuning::all() };
    let g = s3([0.0, 0.0, 9.81]);
    let up = s3([0.0, 0.0, -9.81]);
    assert_eq!(c.gravity_direction(&up, &g, &off), Err(Refusal::SwitchedOff));
    let p = c.p;
    assert!(matches!(c.update_mag(&s3([0.2, 0.1, 0.4]), 0, &off), Err(Refusal::SwitchedOff)));
    c.reset_mag_states(&s3([0.2, 0.1, 0.4]), &s3([0.2, 0.0, 0.4]), &off);
    assert!(!c.yaw_aligned && c.mag_skipped == 0 && c.p == p);
}

#[test]
fn an_altitude_moves_the_position_onto_it() {
    let mut c = Eskf::new(Quaternion::identity(), s3([0.0; 3]), s3([0.0; 3]), s(5.0));
    let nis = baro(&mut c, 1.0).unwrap();
    assert!((nis - 0.2).abs() < 1e-3);
    assert!((f(c.st.p[2]) + 1.0).abs() < 1e-3);
    assert_eq!((f(c.st.p[0]), f(c.st.p[1])), (0.0, 0.0));
    assert_eq!((f3(c.st.v), f3(c.st.bg), f3(c.st.ba)), ([0.0; 3], [0.0; 3], [0.0; 3]));
    let before = c;
    baro(&mut c, -f(before.st.p[2])).unwrap();
    assert_eq!(f3(c.st.p), f3(before.st.p));
}
