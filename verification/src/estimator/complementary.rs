//! The complementary filter: the gyroscope gives the attitude, measured positions give
//! the position, and the specific force fills in between.

use crate::single::Single;
use crate::units::{Meter, MeterPerSecond, RadianPerSecond, Second};
use crate::vehicle::{
    rotate_vec_by_quat, AirspeedSample, ImuSample, PosSample, Quaternion, VehicleState,
};
use vstd::prelude::*;

verus! {

/// What is estimated along one axis.
#[derive(Debug, Clone, Copy)]
pub struct AxisEstimate {
    /// The position by integration alone.
    pub pos_int: Single,
    pub vel: Single,
    /// The position that is handed out.
    pub pos_out: Single,
    /// The smoothed speed between measured positions.
    pub obs_v_lpf: Single,
    /// The last measured position.
    pub prev_raw: Single,
}

#[derive(Debug, Clone, Copy)]
pub struct ComplementaryEstimator {
    pub att: Quaternion,
    pub omega: [RadianPerSecond; 3],
    pub axes: [AxisEstimate; 3],
    pub airspeed: Single,
    pub att_alpha: Single,
    /// The share of a measured position in the position handed out.
    pub pos_out_alpha: Single,
    /// The share of the observed speed in the speed.
    pub vel_alpha: Single,
    /// The share of a new observed speed in the smoothed one.
    pub obs_alpha: Single,
    /// Whether a position was measured.
    pub have_prev: bool,
}

impl AxisEstimate {
    pub open spec fn zero() -> AxisEstimate {
        let z = Single::of_int(0);
        AxisEstimate { pos_int: z, vel: z, pos_out: z, obs_v_lpf: z, prev_raw: z }
    }

    fn new() -> (r: AxisEstimate)
        ensures
            r == AxisEstimate::zero(),
    {
        let z: Single = Single::from_i32(0);
        AxisEstimate { pos_int: z, vel: z, pos_out: z, obs_v_lpf: z, prev_raw: z }
    }
}

impl ComplementaryEstimator {
    pub open spec fn fresh(
        att_alpha: Single,
        pos_out_alpha: Single,
        vel_alpha: Single,
        obs_alpha: Single,
    ) -> ComplementaryEstimator {
        let z = Single::of_int(0);
        ComplementaryEstimator {
            att: Quaternion::unit(),
            omega: [RadianPerSecond(z), RadianPerSecond(z), RadianPerSecond(z)],
            axes: [AxisEstimate::zero(), AxisEstimate::zero(), AxisEstimate::zero()],
            airspeed: z,
            att_alpha,
            pos_out_alpha,
            vel_alpha,
            obs_alpha,
            have_prev: false,
        }
    }

    pub fn new(att_alpha: Single, pos_out_alpha: Single, vel_alpha: Single) -> (r:
        ComplementaryEstimator)
        ensures
            r == ComplementaryEstimator::fresh(
                att_alpha,
                pos_out_alpha,
                vel_alpha,
                Single::of_ratio(1, 100),
            ),
    {
        ComplementaryEstimator::with_vel(
            att_alpha,
            pos_out_alpha,
            vel_alpha,
            Single::ratio(1, 100),
        )
    }

    pub fn with_vel(
        att_alpha: Single,
        pos_out_alpha: Single,
        vel_alpha: Single,
        obs_alpha: Single,
    ) -> (r: ComplementaryEstimator)
        ensures
            r == ComplementaryEstimator::fresh(att_alpha, pos_out_alpha, vel_alpha, obs_alpha),
    {
        let z: Single = Single::from_i32(0);
        let w: RadianPerSecond = RadianPerSecond(z);
        let a: AxisEstimate = AxisEstimate::new();
        ComplementaryEstimator {
            att: Quaternion::identity(),
            omega: [w, w, w],
            axes: [a, a, a],
            airspeed: z,
            att_alpha,
            pos_out_alpha,
            vel_alpha,
            obs_alpha,
            have_prev: false,
        }
    }

    /// An axis after a step with the acceleration `a` and, where there is one, the
    /// measured position `raw`. The observed speed is that between measured positions,
    /// where `seen` says that there was one before.
    pub open spec fn axis_after(
        self,
        e: AxisEstimate,
        a: Single,
        dt: Single,
        raw: Option<Single>,
        seen: bool,
    ) -> AxisEstimate {
        let v = e.vel + a * dt;
        let p = e.pos_int + v * dt;
        match raw {
            Some(x) => {
                let between = if Single::of_ratio(1, 1_000_000).less(dt) && seen {
                    (x - e.prev_raw) / dt
                } else {
                    Single::of_int(0)
                };
                let observed = e.obs_v_lpf + self.obs_alpha * (between - e.obs_v_lpf);
                AxisEstimate {
                    pos_int: p,
                    vel: (Single::of_int(1) - self.vel_alpha) * v + self.vel_alpha * observed,
                    pos_out: e.pos_out + self.pos_out_alpha * (x - e.pos_out),
                    obs_v_lpf: observed,
                    prev_raw: x,
                }
            },
            None => AxisEstimate { pos_int: p, vel: v, pos_out: p, ..e },
        }
    }

    fn advance_axis(
        &self,
        e: &AxisEstimate,
        a: Single,
        dt: Single,
        raw: Option<Single>,
        seen: bool,
    ) -> (r: AxisEstimate)
        ensures
            r == self.axis_after(*e, a, dt, raw, seen),
    {
        let v: Single = e.vel + a * dt;
        let p: Single = e.pos_int + v * dt;
        match raw {
            Some(x) => {
                let between: Single = if dt > Single::ratio(1, 1_000_000) && seen {
                    (x - e.prev_raw) / dt
                } else {
                    Single::from_i32(0)
                };
                let observed: Single = e.obs_v_lpf + self.obs_alpha * (between - e.obs_v_lpf);
                AxisEstimate {
                    pos_int: p,
                    vel: (Single::from_i32(1) - self.vel_alpha) * v + self.vel_alpha * observed,
                    pos_out: e.pos_out + self.pos_out_alpha * (x - e.pos_out),
                    obs_v_lpf: observed,
                    prev_raw: x,
                }
            },
            None => AxisEstimate {
                pos_int: p,
                vel: v,
                pos_out: p,
                obs_v_lpf: e.obs_v_lpf,
                prev_raw: e.prev_raw,
            },
        }
    }

    /// The measured position along axis `i`.
    pub open spec fn measured(pos: Option<PosSample>, i: int) -> Option<Single> {
        match pos {
            Some(p) => Some(p.pos[i].0),
            None => None,
        }
    }

    /// The estimator after a step.
    pub open spec fn stepped(
        self,
        dt: Single,
        imu: ImuSample,
        pos: Option<PosSample>,
        airspeed: Option<AirspeedSample>,
    ) -> ComplementaryEstimator {
        let att = self.att.turned([imu.gyro[0].0, imu.gyro[1].0, imu.gyro[2].0], dt);
        let f = att.rotated(seq![imu.accel[0].0, imu.accel[1].0, imu.accel[2].0]);
        let seen = self.have_prev;
        let half = Single::of_ratio(5, 10);
        ComplementaryEstimator {
            att,
            omega: imu.gyro,
            axes: [
                self.axis_after(self.axes[0], f[0], dt, Self::measured(pos, 0), seen),
                self.axis_after(self.axes[1], f[1], dt, Self::measured(pos, 1), seen),
                self.axis_after(
                    self.axes[2],
                    f[2] + Single::of_ratio(981, 100),
                    dt,
                    Self::measured(pos, 2),
                    seen,
                ),
            ],
            airspeed: match airspeed {
                Some(a) => self.airspeed + (dt / (dt + half)).clamped(
                    Single::of_int(0),
                    Single::of_int(1),
                ) * (a.speed.0 - self.airspeed),
                None => self.airspeed,
            },
            have_prev: seen || pos is Some,
            ..self
        }
    }

    /// What is handed out.
    pub open spec fn shown(self) -> VehicleState {
        let z = Single::of_int(0);
        VehicleState {
            time_boot_ms: 0,
            pos: [
                Meter(self.axes[0].pos_out),
                Meter(self.axes[1].pos_out),
                Meter(self.axes[2].pos_out),
            ],
            vel: [
                MeterPerSecond(self.axes[0].vel),
                MeterPerSecond(self.axes[1].vel),
                MeterPerSecond(self.axes[2].vel),
            ],
            att: self.att,
            omega: self.omega,
            airspeed: MeterPerSecond(self.airspeed),
            accel_bias: [z, z, z],
        }
    }

    /// Advances by one step of inertial readings, with a measured position and a measured
    /// airspeed where there are any.
    pub fn step(
        &mut self,
        dt: Second,
        imu: &ImuSample,
        pos: Option<PosSample>,
        airspeed: Option<AirspeedSample>,
    ) -> (r: VehicleState)
        ensures
            *final(self) == old(self).stepped(dt.0, *imu, pos, airspeed),
            r == final(self).shown(),
    {
        let dt: Single = dt.0;
        self.att = self.att.integrate([imu.gyro[0].0, imu.gyro[1].0, imu.gyro[2].0], dt);
        self.omega = imu.gyro;
        let accel: [Single; 3] = [imu.accel[0].0, imu.accel[1].0, imu.accel[2].0];
        assert(accel@ =~= seq![accel[0], accel[1], accel[2]]);
        let f: [Single; 3] = rotate_vec_by_quat(&self.att, accel);
        let (m0, m1, m2) = match pos {
            Some(p) => (Some(p.pos[0].0), Some(p.pos[1].0), Some(p.pos[2].0)),
            None => (None, None, None),
        };
        let seen: bool = self.have_prev;
        let a0: AxisEstimate = self.advance_axis(&self.axes[0], f[0], dt, m0, seen);
        let a1: AxisEstimate = self.advance_axis(&self.axes[1], f[1], dt, m1, seen);
        let a2: AxisEstimate = self.advance_axis(
            &self.axes[2],
            f[2] + Single::ratio(981, 100),
            dt,
            m2,
            seen,
        );
        self.axes = [a0, a1, a2];
        self.have_prev = seen || pos.is_some();
        if let Some(a) = airspeed {
            let share: Single = (dt / (dt + Single::ratio(5, 10))).clamp(
                Single::from_i32(0),
                Single::from_i32(1),
            );
            self.airspeed = self.airspeed + share * (a.speed.0 - self.airspeed);
        }
        self.state()
    }

    /// What is estimated now.
    pub fn state(&self) -> (r: VehicleState)
        ensures
            r == self.shown(),
    {
        let z: Single = Single::from_i32(0);
        VehicleState {
            time_boot_ms: 0,
            pos: [
                Meter(self.axes[0].pos_out),
                Meter(self.axes[1].pos_out),
                Meter(self.axes[2].pos_out),
            ],
            vel: [
                MeterPerSecond(self.axes[0].vel),
                MeterPerSecond(self.axes[1].vel),
                MeterPerSecond(self.axes[2].vel),
            ],
            att: self.att,
            omega: self.omega,
            airspeed: MeterPerSecond(self.airspeed),
            accel_bias: [z, z, z],
        }
    }

    /// Forgets everything but the shares.
    pub fn reset(&mut self)
        ensures
            *final(self) == ComplementaryEstimator::fresh(
                old(self).att_alpha,
                old(self).pos_out_alpha,
                old(self).vel_alpha,
                old(self).obs_alpha,
            ),
    {
        *self = ComplementaryEstimator::with_vel(
            self.att_alpha,
            self.pos_out_alpha,
            self.vel_alpha,
            self.obs_alpha,
        );
    }

    /// The estimated attitude.
    pub fn att(&self) -> (r: Quaternion)
        ensures
            r == self.att,
    {
        self.att
    }
}

/// Between measured positions an axis coasts: the velocity gains the acceleration times the
/// step, and the position the new velocity times the step; here for all integers that leave
/// no rounding, times the unit of the step for velocities and its square for positions.
pub proof fn law_axis_coasts(
    c: ComplementaryEstimator,
    e: AxisEstimate,
    a: Single,
    dt: Single,
    seen: bool,
    n: int,
    v: int,
    p: int,
    d: int,
    k: nat,
)
    requires
        k <= 30,
        crate::single::exact::worth(dt, d, k) && crate::vehicle::small(d, 128),
        crate::single::exact::worth(a, n, 0) && crate::vehicle::small(n, 128),
        crate::single::exact::worth(e.vel, v, k) && crate::vehicle::small(v, 4096),
        crate::single::exact::worth(e.pos_int, p, 2 * k) && crate::vehicle::small(p, 0x40_0000),
    ensures
        ({
            let r = c.axis_after(e, a, dt, None, seen);
            let w = v + n * d;
            &&& crate::single::exact::worth(r.vel, w, k)
            &&& crate::single::exact::worth(r.pos_int, p + w * d, 2 * k)
            &&& r.pos_out == r.pos_int
            &&& r.obs_v_lpf == e.obs_v_lpf && r.prev_raw == e.prev_raw
        }),
{
    lemma_coasted(e, a, dt, n, v, p, d, k);
}

proof fn lemma_coasted(
    e: AxisEstimate,
    a: Single,
    dt: Single,
    n: int,
    v: int,
    p: int,
    d: int,
    k: nat,
)
    requires
        k <= 30,
        crate::single::exact::worth(dt, d, k) && crate::vehicle::small(d, 128),
        crate::single::exact::worth(a, n, 0) && crate::vehicle::small(n, 128),
        crate::single::exact::worth(e.vel, v, k) && crate::vehicle::small(v, 4096),
        crate::single::exact::worth(e.pos_int, p, 2 * k) && crate::vehicle::small(p, 0x40_0000),
    ensures
        crate::single::exact::worth(e.vel + a * dt, v + n * d, k),
        crate::vehicle::small(v + n * d, 20480),
        crate::single::exact::worth(
            e.pos_int + (e.vel + a * dt) * dt,
            p + (v + n * d) * d,
            2 * k,
        ),
{
    let w = v + n * d;
    crate::vehicle::lemma_small_product(n, d, 128, 128);
    crate::single::exact::law_worth_product(a, dt, n, d, 0, k);
    crate::single::exact::law_worth_sum(e.vel, a * dt, v, n * d, k);
    crate::vehicle::lemma_small_product(w, d, 20480, 128);
    crate::single::exact::law_worth_product(e.vel + a * dt, dt, w, d, k, k);
    crate::single::exact::law_worth_sum(e.pos_int, (e.vel + a * dt) * dt, p, w * d, 2 * k);
}

/// A measured position is weighed against the one put out, by the share of the filter. The
/// speed between two measured positions is smoothed in the same way, and mixed with the
/// speed that the acceleration gives; here for shares over powers of two and integers that
/// leave no rounding.
pub proof fn law_axis_follows_fix(
    c: ComplementaryEstimator,
    e: AxisEstimate,
    a: Single,
    dt: Single,
    x: Single,
    n: int,
    v: int,
    d: int,
    p: int,
    y: int,
    u: int,
    o: int,
    f: int,
    g: int,
    h: int,
)
    requires
        crate::single::exact::worth(dt, d, 0) && 1 <= d <= 16,
        crate::single::exact::worth(a, n, 0) && crate::vehicle::small(n, 16),
        crate::single::exact::worth(e.vel, v, 0) && crate::vehicle::small(v, 256),
        crate::single::exact::worth(e.pos_out, p, 0) && crate::vehicle::small(p, 4096),
        crate::single::exact::worth(x, y, 0) && crate::vehicle::small(y, 4096),
        crate::single::exact::worth(e.prev_raw, y - u * d, 0) && crate::vehicle::small(u, 64),
        crate::single::exact::worth(e.obs_v_lpf, o, 0) && crate::vehicle::small(o, 64),
        crate::single::exact::worth(c.obs_alpha, f, 4) && 0 <= f <= 16,
        crate::single::exact::worth(c.vel_alpha, g, 4) && 0 <= g <= 16,
        crate::single::exact::worth(c.pos_out_alpha, h, 4) && 0 <= h <= 16,
    ensures
        ({
            let r = c.axis_after(e, a, dt, Some(x), true);
            let w = v + n * d;
            let s = (16 - f) * o + f * u;
            &&& crate::single::exact::worth(r.pos_out, (16 - h) * p + h * y, 4)
            &&& crate::single::exact::worth(r.obs_v_lpf, s, 4)
            &&& crate::single::exact::worth(r.vel, (16 - g) * (16 * w) + g * s, 8)
            &&& r.prev_raw == x
        }),
{
    let one = Single::of_int(1);
    let w = v + n * d;
    let r = c.axis_after(e, a, dt, Some(x), true);
    let z = Single::of_int(0);
    vstd::arithmetic::power2::lemma2_to64();
    crate::single::exact::law_integer_worth(1);
    // The velocity without the measurement.
    crate::vehicle::lemma_small_product(n, d, 16, 16);
    crate::single::exact::law_worth_product(a, dt, n, d, 0, 0);
    crate::single::exact::law_worth_sum(e.vel, a * dt, v, n * d, 0);
    // The speed between two positions.
    lemma_step_is_seen(dt, d);
    crate::vehicle::lemma_small_product(u, d, 64, 16);
    crate::single::exact::law_worth_difference(x, e.prev_raw, y, y - u * d, 0);
    crate::single::exact::law_worth_quotient(x - e.prev_raw, dt, u, d, 0, 0);
    let b = (x - e.prev_raw) / dt;
    lemma_eased(e.obs_v_lpf, b, c.obs_alpha, o, u, f);
    lemma_eased(e.pos_out, x, c.pos_out_alpha, p, y, h);
    let s = (16 - f) * o + f * u;
    let seen = e.obs_v_lpf + c.obs_alpha * (b - e.obs_v_lpf);
    crate::vehicle::lemma_small_product(16 - f, o, 16, 64);
    crate::vehicle::lemma_small_product(f, u, 16, 64);
    crate::single::exact::law_worth_finer_to(one, 1, 0, 4);
    crate::single::exact::law_worth_difference(one, c.vel_alpha, 16, g, 4);
    crate::vehicle::lemma_small_product(16 - g, w, 16, 512);
    crate::vehicle::lemma_small_product(g, s, 16, 2048);
    let m = e.vel + a * dt;
    crate::single::exact::law_worth_product(one - c.vel_alpha, m, 16 - g, w, 4, 0);
    crate::single::exact::law_worth_finer_to((one - c.vel_alpha) * m, (16 - g) * w, 4, 8);
    assert((16 - g) * w * 16 == (16 - g) * (16 * w)) by (nonlinear_arith);
    crate::single::exact::law_worth_product(c.vel_alpha, seen, g, s, 4, 4);
    crate::single::exact::law_worth_sum(
        (one - c.vel_alpha) * m,
        c.vel_alpha * seen,
        (16 - g) * (16 * w),
        g * s,
        8,
    );
}

/// A step of one or more is not too short.
proof fn lemma_step_is_seen(dt: Single, d: int)
    requires
        crate::single::exact::worth(dt, d, 0),
        d >= 1,
    ensures
        Single::of_ratio(1, 1_000_000).less(dt),
{
    let p = vstd::arithmetic::power2::pow2(149);
    let q = vstd::arithmetic::power2::pow2(148);
    vstd::arithmetic::power2::lemma_pow2_unfold(149);
    vstd::arithmetic::power2::lemma_pow2_pos(148);
    let f = crate::single::exact::lemma_field_of(1, 148);
    assert(1 * q == q);
    crate::single::rounding::lemma_nearest_exact(f);
    crate::single::rounding::lemma_nearest_keeps_order(1 * p, 1_000_000, q, 1);
    reveal(Single::of_ratio);
    let n = crate::single::rounding::nearest(1 * p, 1_000_000);
    crate::single::laws::law_ratio_is_positive(1, 1_000_000);
    crate::single::laws::lemma_packed(false, n);
    crate::single::laws::lemma_field_order(n, f);
    assert(d * p >= p) by (nonlinear_arith)
        requires
            d >= 1,
            p >= 0,
    ;
}

/// A value moved by sixteenths of a difference.
proof fn lemma_eased(x: Single, y: Single, share: Single, m: int, n: int, f: int)
    requires
        crate::single::exact::worth(x, m, 0) && crate::vehicle::small(m, 4096),
        crate::single::exact::worth(y, n, 0) && crate::vehicle::small(n, 4096),
        crate::single::exact::worth(share, f, 4) && 0 <= f <= 16,
    ensures
        crate::single::exact::worth(x + share * (y - x), (16 - f) * m + f * n, 4),
{
    vstd::arithmetic::power2::lemma2_to64();
    crate::single::exact::law_worth_difference(y, x, n, m, 0);
    crate::vehicle::lemma_small_product(f, n - m, 16, 8192);
    crate::single::exact::law_worth_product(share, y - x, f, n - m, 4, 0);
    crate::single::exact::law_worth_finer_to(x, m, 0, 4);
    crate::single::exact::law_worth_sum(x, share * (y - x), m * 16, f * (n - m), 4);
    assert(m * 16 + f * (n - m) == (16 - f) * m + f * n) by (nonlinear_arith);
}

/// Gravity is accounted for downwards: without a fix, a vehicle whose force in the new
/// attitude points up an axis does not gain speed the other way along it, and vertically only
/// the force beyond gravity counts.
pub proof fn law_force_drives_velocity(
    c: ComplementaryEstimator,
    dt: Single,
    imu: ImuSample,
    airspeed: Option<AirspeedSample>,
    i: int,
    up: bool,
)
    requires
        0 <= i < 3,
        dt.finite(),
        crate::single::signs::toward(true, dt),
        c.axes[i].vel.finite(),
        ({
            let att = c.att.turned([imu.gyro[0].0, imu.gyro[1].0, imu.gyro[2].0], dt);
            let f = att.rotated(seq![imu.accel[0].0, imu.accel[1].0, imu.accel[2].0]);
            let push = if i == 2 {
                f[2] + Single::of_ratio(981, 100)
            } else {
                f[i]
            };
            push.finite() && crate::single::signs::toward(up, push)
        }),
    ensures
        crate::single::signs::ahead(
            up,
            c.axes[i].vel,
            c.stepped(dt, imu, None, airspeed).axes[i].vel,
        ),
{
    let att = c.att.turned([imu.gyro[0].0, imu.gyro[1].0, imu.gyro[2].0], dt);
    let f = att.rotated(seq![imu.accel[0].0, imu.accel[1].0, imu.accel[2].0]);
    let push = if i == 2 {
        f[2] + Single::of_ratio(981, 100)
    } else {
        f[i]
    };
    crate::single::signs::law_product_points(up, push, dt);
    crate::single::signs::law_sum_moves(up, c.axes[i].vel, push * dt);
}

} // verus!
