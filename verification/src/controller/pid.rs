//! The cascade of proportional loops: position error to speed, speed error to
//! acceleration, acceleration to attitude, attitude error to rates.

use super::attitude::{
    attitude_rates, ease, limit, smoothing_share, thrust_when_tilted, wind, x4_mix, AttitudeOut,
    AxisFilter,
};
use super::trait_def::Setpoint;
use crate::config::CtrlParams;
use crate::single::Single;
use crate::units::{Radian, Second};
use crate::vehicle::{ActuatorCmd, Quaternion, VehicleState};
use vstd::prelude::*;

verus! {

/// Values that replace those of the controller. A negative one replaces nothing.
#[derive(Debug, Clone, Copy)]
pub struct Tuning {
    pub ki_xy: Single,
    pub tilt_max: Single,
    pub i_xy_max: Single,
    pub vel_lpf_h_tau: Single,
}

impl Tuning {
    pub open spec fn unset() -> Tuning {
        Tuning {
            ki_xy: Single::of_int(-1),
            tilt_max: Single::of_int(-1),
            i_xy_max: Single::of_int(-1),
            vel_lpf_h_tau: Single::of_int(-1),
        }
    }

    /// Nothing replaced.
    pub fn none() -> (r: Tuning)
        ensures
            r == Tuning::unset(),
    {
        let off: Single = Single::from_i32(-1);
        Tuning { ki_xy: off, tilt_max: off, i_xy_max: off, vel_lpf_h_tau: off }
    }
}

/// The tuned value where there is one.
pub open spec fn tuned(own: Single, tuning: Single) -> Single {
    if Single::of_int(0).less_eq(tuning) {
        tuning
    } else {
        own
    }
}

fn tune(own: Single, tuning: Single) -> (r: Single)
    ensures
        r == tuned(own, tuning),
{
    if tuning >= Single::from_i32(0) {
        tuning
    } else {
        own
    }
}

/// What the vertical loop last worked with.
#[derive(Debug, Clone, Copy)]
pub struct PidDebug {
    pub raw_d: Single,
    pub raw_vd: Single,
    pub filt_d: Single,
    pub filt_vd: Single,
    pub ez: Single,
    pub iz: Single,
    pub des_vz: Single,
    pub acc_d: Single,
    pub des_thr: Single,
}

#[derive(Debug, Clone, Copy)]
pub struct PidController {
    pub kp_xy: Single,
    pub kp_z: Single,
    pub kv_xy: Single,
    pub kv_z: Single,
    pub vmax_xy: Single,
    pub vmax_z: Single,
    pub tilt_max: Single,
    /// Whether the sticks command speed and the position is not held.
    pub rate_mode_xy: bool,
    pub att_kp: Single,
    pub att_kd: Single,
    pub hover_thrust: Single,
    pub gravity: Single,
    pub ki_z: Single,
    /// The integral of the vertical error.
    pub iz: Single,
    pub ki_xy: Single,
    /// The integrals of the errors to the north and to the east.
    pub i_xy: [Single; 2],
    pub vertical: AxisFilter,
    pub north: AxisFilter,
    pub east: AxisFilter,
    /// The time constant with which the rates are smoothed; zero does not smooth.
    pub rate_lpf_tau: Single,
    pub filt_w: [Single; 3],
    pub rate_filt_init: bool,
    /// The last attitude error.
    pub dbg_err: [Single; 3],
    /// The last wanted rates.
    pub dbg_pqr: [Single; 3],
    /// The last measured rates.
    pub dbg_omega: [Single; 3],
    pub debug: PidDebug,
}

/// What the position and speed loops ask of the attitude and of the thrust.
#[derive(Debug, Clone, Copy)]
pub struct TiltDemand {
    /// The tilt for acceleration to the north.
    pub tilt_n: Single,
    /// The tilt for acceleration to the east.
    pub tilt_e: Single,
    /// The size of the whole tilt.
    pub size: Single,
    /// The acceleration downwards.
    pub acc_d: Single,
    pub yaw: Radian,
}

/// The thrust and the angles that meet a demand.
#[derive(Debug, Clone, Copy)]
pub struct AttitudeDemand {
    pub thrust: Single,
    pub roll: Radian,
    pub pitch: Radian,
    pub yaw: Radian,
}

impl PidController {
    /// For an X quadrotor of 450 millimetres. The tilt reaches 25 degrees.
    pub open spec fn quad() -> PidController {
        let z = Single::of_int(0);
        PidController {
            kp_xy: Single::of_ratio(5, 10),
            kp_z: Single::of_ratio(5, 10),
            kv_xy: Single::of_ratio(8, 10),
            kv_z: Single::of_ratio(15, 10),
            vmax_xy: Single::of_ratio(35, 10),
            vmax_z: Single::of_int(2),
            tilt_max: Single::of_ratio(4363, 10000),
            rate_mode_xy: false,
            att_kp: Single::of_int(3),
            att_kd: Single::of_ratio(3, 10),
            hover_thrust: Single::of_ratio(5, 10),
            gravity: Single::of_ratio(981, 100),
            ki_z: Single::of_ratio(3, 10),
            iz: z,
            ki_xy: z,
            i_xy: [z, z],
            vertical: AxisFilter::idle(Single::of_ratio(15, 100)),
            north: AxisFilter::idle(z),
            east: AxisFilter::idle(z),
            rate_lpf_tau: Single::of_ratio(2, 100),
            filt_w: [z, z, z],
            rate_filt_init: false,
            dbg_err: [z, z, z],
            dbg_pqr: [z, z, z],
            dbg_omega: [z, z, z],
            debug: PidDebug {
                raw_d: z,
                raw_vd: z,
                filt_d: z,
                filt_vd: z,
                ez: z,
                iz: z,
                des_vz: z,
                acc_d: z,
                des_thr: z,
            },
        }
    }

    pub fn default_quad() -> (r: PidController)
        ensures
            r == PidController::quad(),
    {
        let z: Single = Single::from_i32(0);
        PidController {
            kp_xy: Single::ratio(5, 10),
            kp_z: Single::ratio(5, 10),
            kv_xy: Single::ratio(8, 10),
            kv_z: Single::ratio(15, 10),
            vmax_xy: Single::ratio(35, 10),
            vmax_z: Single::from_i32(2),
            tilt_max: Single::ratio(4363, 10000),
            rate_mode_xy: false,
            att_kp: Single::from_i32(3),
            att_kd: Single::ratio(3, 10),
            hover_thrust: Single::ratio(5, 10),
            gravity: Single::ratio(981, 100),
            ki_z: Single::ratio(3, 10),
            iz: z,
            ki_xy: z,
            i_xy: [z, z],
            vertical: AxisFilter::new(Single::ratio(15, 100)),
            north: AxisFilter::new(z),
            east: AxisFilter::new(z),
            rate_lpf_tau: Single::ratio(2, 100),
            filt_w: [z, z, z],
            rate_filt_init: false,
            dbg_err: [z, z, z],
            dbg_pqr: [z, z, z],
            dbg_omega: [z, z, z],
            debug: PidDebug {
                raw_d: z,
                raw_vd: z,
                filt_d: z,
                filt_vd: z,
                ez: z,
                iz: z,
                des_vz: z,
                acc_d: z,
                des_thr: z,
            },
        }
    }

    /// For an aircraft.
    pub fn from_config(c: &CtrlParams) -> (r: PidController)
        ensures
            r == (PidController {
                tilt_max: c.tilt_max,
                hover_thrust: c.hover_thrust,
                gravity: c.gravity,
                vmax_xy: c.vmax_xy,
                vmax_z: c.vmax_z,
                att_kp: c.att_kp,
                att_kd: c.att_kd,
                kp_xy: c.kp_xy,
                kv_xy: c.kv_xy,
                vertical: AxisFilter::idle(c.vel_lpf_tau),
                ..PidController::quad()
            }),
    {
        let mut s: PidController = PidController::default_quad();
        s.tilt_max = c.tilt_max;
        s.hover_thrust = c.hover_thrust;
        s.gravity = c.gravity;
        s.vmax_xy = c.vmax_xy;
        s.vmax_z = c.vmax_z;
        s.att_kp = c.att_kp;
        s.att_kd = c.att_kd;
        s.kp_xy = c.kp_xy;
        s.kv_xy = c.kv_xy;
        s.vertical = AxisFilter::new(c.vel_lpf_tau);
        s
    }

    /// The last attitude error, wanted rates and measured rates.
    pub fn dbg_last(&self) -> (r: ([Single; 3], [Single; 3], [Single; 3]))
        ensures
            r == (self.dbg_err, self.dbg_pqr, self.dbg_omega),
    {
        (self.dbg_err, self.dbg_pqr, self.dbg_omega)
    }

    /// The integral of the vertical error.
    pub fn debug_iz(&self) -> (r: Single)
        ensures
            r == self.iz,
    {
        self.iz
    }

    /// What the vertical loop last worked with.
    pub fn debug_pid_internal(&self) -> (r: PidDebug)
        ensures
            r == self.debug,
    {
        self.debug
    }

    /// Takes over five gains: of position and speed over the ground and vertically,
    /// and the throttle of a hover. A shorter list changes nothing.
    pub fn apply_gains(&mut self, g: &[Single])
        ensures
            *final(self) == if g@.len() >= 5 {
                PidController {
                    kp_xy: g[0],
                    kp_z: g[1],
                    kv_xy: g[2],
                    kv_z: g[3],
                    hover_thrust: g[4],
                    ..*old(self)
                }
            } else {
                *old(self)
            },
    {
        if g.len() < 5 {
            return;
        }
        self.kp_xy = g[0];
        self.kp_z = g[1];
        self.kv_xy = g[2];
        self.kv_z = g[3];
        self.hover_thrust = g[4];
    }

    /// Whether the sticks command speed and the position is not held.
    pub fn set_rate_mode_xy(&mut self, on: bool)
        ensures
            *final(self) == (PidController { rate_mode_xy: on, ..*old(self) }),
    {
        self.rate_mode_xy = on;
    }

    /// The controller with the tuned gain and the tuned smoothing over the ground.
    pub open spec fn adjusted(self, t: Tuning) -> PidController {
        PidController {
            ki_xy: tuned(self.ki_xy, t.ki_xy),
            north: AxisFilter { tau: tuned(self.north.tau, t.vel_lpf_h_tau), ..self.north },
            east: AxisFilter { tau: tuned(self.east.tau, t.vel_lpf_h_tau), ..self.east },
            ..self
        }
    }

    /// The integral of an axis over the ground: the position is not held in rate mode,
    /// so there nothing saturates.
    pub open spec fn ground_integral(
        self,
        i: Single,
        e: Single,
        dt: Single,
        pre: Single,
        imax: Single,
    ) -> Single {
        if self.rate_mode_xy {
            (i + self.ki_xy * e * dt).clamped(imax.negated(), imax)
        } else {
            super::attitude::wound(i, self.ki_xy * e * dt, pre, self.vmax_xy, imax)
        }
    }

    fn wind_ground(&self, i: Single, e: Single, dt: Single, pre: Single, imax: Single) -> (r:
        Single)
        ensures
            r == self.ground_integral(i, e, dt, pre, imax),
    {
        let more: Single = self.ki_xy * e * dt;
        if self.rate_mode_xy {
            (i + more).clamp(imax.negate(), imax)
        } else {
            wind(i, more, pre, self.vmax_xy, imax)
        }
    }

    /// The wanted speed of an axis over the ground.
    pub open spec fn ground_speed(self, stick: Single, pre: Single, integral: Single) -> Single {
        (if self.rate_mode_xy {
            stick
        } else {
            pre + integral
        }).clamped(self.vmax_xy.negated(), self.vmax_xy)
    }

    fn wanted_speed(&self, stick: Single, pre: Single, integral: Single) -> (r: Single)
        ensures
            r == self.ground_speed(stick, pre, integral),
    {
        let v: Single = if self.rate_mode_xy {
            stick
        } else {
            pre + integral
        };
        v.clamp(self.vmax_xy.negate(), self.vmax_xy)
    }

    /// The position and speed loops: the controller after them, and what they ask for.
    pub open spec fn outer(self, dt: Single, sp: Setpoint, est: VehicleState, t: Tuning) -> (
        PidController,
        TiltDemand,
    ) {
        let c = self.adjusted(t);
        let down = c.vertical.output(est.pos[2].0, est.vel[2].0, dt);
        let north = c.north.output(est.pos[0].0, est.vel[0].0, dt);
        let east = c.east.output(est.pos[1].0, est.vel[1].0, dt);
        let ex = sp.pos[0].0 - north.0;
        let ey = sp.pos[1].0 - east.0;
        let ez = sp.pos[2].0 - down.0;
        let pre_z = c.kp_z * ez + sp.vel[2].0;
        let iz = super::attitude::wound(
            c.iz,
            c.ki_z * ez * dt,
            pre_z,
            c.vmax_z,
            Single::of_int(2),
        );
        let imax = tuned(Single::of_int(2), t.i_xy_max);
        let pre_x = c.kp_xy * ex + sp.vel[0].0;
        let pre_y = c.kp_xy * ey + sp.vel[1].0;
        let ix = c.ground_integral(c.i_xy[0], ex, dt, pre_x, imax);
        let iy = c.ground_integral(c.i_xy[1], ey, dt, pre_y, imax);
        let des_vz = (pre_z + iz).clamped(c.vmax_z.negated(), c.vmax_z);
        let acc_n = c.kv_xy * (c.ground_speed(sp.vel[0].0, pre_x, ix) - north.1) + sp.acc[0].0;
        let acc_e = c.kv_xy * (c.ground_speed(sp.vel[1].0, pre_y, iy) - east.1) + sp.acc[1].0;
        let acc_d = c.kv_z * (des_vz - down.1) + sp.acc[2].0;
        let tilt_max = tuned(c.tilt_max, t.tilt_max);
        let tilt_n = (acc_n / c.gravity).clamped(tilt_max.negated(), tilt_max);
        let tilt_e = (acc_e / c.gravity).clamped(tilt_max.negated(), tilt_max);
        (
            PidController {
                iz,
                i_xy: [ix, iy],
                vertical: c.vertical.next(est.pos[2].0, est.vel[2].0, dt),
                north: c.north.next(est.pos[0].0, est.vel[0].0, dt),
                east: c.east.next(est.pos[1].0, est.vel[1].0, dt),
                debug: PidDebug {
                    raw_d: est.pos[2].0,
                    raw_vd: est.vel[2].0,
                    filt_d: down.0,
                    filt_vd: down.1,
                    ez,
                    iz,
                    des_vz,
                    acc_d,
                    des_thr: c.debug.des_thr,
                },
                ..c
            },
            TiltDemand {
                tilt_n,
                tilt_e,
                size: super::attitude::tilt_size(tilt_n, tilt_e),
                acc_d,
                yaw: sp.yaw,
            },
        )
    }

    /// The position and speed loops: what they ask of the attitude and of the thrust.
    pub fn control_outer(
        &mut self,
        dt: Second,
        sp: &Setpoint,
        est: &VehicleState,
        t: &Tuning,
    ) -> (r: TiltDemand)
        ensures
            (*final(self), r) == old(self).outer(dt.0, *sp, *est, *t),
    {
        let dt: Single = dt.0;
        self.ki_xy = tune(self.ki_xy, t.ki_xy);
        self.north.tau = tune(self.north.tau, t.vel_lpf_h_tau);
        self.east.tau = tune(self.east.tau, t.vel_lpf_h_tau);
        let (est_d, est_vd) = self.vertical.update(est.pos[2].0, est.vel[2].0, dt);
        let (est_n, est_vn) = self.north.update(est.pos[0].0, est.vel[0].0, dt);
        let (est_e, est_ve) = self.east.update(est.pos[1].0, est.vel[1].0, dt);
        let ex: Single = sp.pos[0].0 - est_n;
        let ey: Single = sp.pos[1].0 - est_e;
        let ez: Single = sp.pos[2].0 - est_d;
        let pre_iz: Single = self.kp_z * ez + sp.vel[2].0;
        self.iz = wind(self.iz, self.ki_z * ez * dt, pre_iz, self.vmax_z, Single::from_i32(2));
        let i_xy_max: Single = tune(Single::from_i32(2), t.i_xy_max);
        let pre_ix: Single = self.kp_xy * ex + sp.vel[0].0;
        let pre_iy: Single = self.kp_xy * ey + sp.vel[1].0;
        let ix: Single = self.wind_ground(self.i_xy[0], ex, dt, pre_ix, i_xy_max);
        let iy: Single = self.wind_ground(self.i_xy[1], ey, dt, pre_iy, i_xy_max);
        self.i_xy = [ix, iy];
        let des_vx: Single = self.wanted_speed(sp.vel[0].0, pre_ix, ix);
        let des_vy: Single = self.wanted_speed(sp.vel[1].0, pre_iy, iy);
        let des_vz: Single = (pre_iz + self.iz).clamp(self.vmax_z.negate(), self.vmax_z);
        let acc_n: Single = self.kv_xy * (des_vx - est_vn) + sp.acc[0].0;
        let acc_e: Single = self.kv_xy * (des_vy - est_ve) + sp.acc[1].0;
        let acc_d: Single = self.kv_z * (des_vz - est_vd) + sp.acc[2].0;
        self.debug = PidDebug {
            raw_d: est.pos[2].0,
            raw_vd: est.vel[2].0,
            filt_d: est_d,
            filt_vd: est_vd,
            ez,
            iz: self.iz,
            des_vz,
            acc_d,
            des_thr: self.debug.des_thr,
        };
        let tilt_max: Single = tune(self.tilt_max, t.tilt_max);
        let tilt_n: Single = (acc_n / self.gravity).clamp(tilt_max.negate(), tilt_max);
        let tilt_e: Single = (acc_e / self.gravity).clamp(tilt_max.negate(), tilt_max);
        TiltDemand {
            tilt_n,
            tilt_e,
            size: (tilt_n * tilt_n + tilt_e * tilt_e).sqrt(),
            acc_d,
            yaw: sp.yaw,
        }
    }

    /// The thrust and the angles that meet a demand, where `cos_tilt` is the cosine of
    /// the tilt's size, and `sy` and `cy` are the sine and the cosine of the yaw. The
    /// tilt is turned from north and east to forward and right: to the right by
    /// positive roll, forward by negative pitch.
    pub open spec fn angles_of(
        self,
        d: TiltDemand,
        cos_tilt: Single,
        sy: Single,
        cy: Single,
    ) -> AttitudeDemand {
        AttitudeDemand {
            thrust: super::attitude::tilted_thrust(
                self.hover_thrust,
                d.acc_d,
                self.gravity,
                d.size,
                cos_tilt,
            ),
            roll: Radian(d.tilt_n.negated() * sy + d.tilt_e * cy),
            pitch: Radian((d.tilt_n * cy + d.tilt_e * sy).negated()),
            yaw: d.yaw,
        }
    }

    /// The wanted angles and thrust, with the cosine of the tilt and the sine and the
    /// cosine of the wanted yaw.
    pub fn control_angles(
        &mut self,
        d: &TiltDemand,
        cos_tilt: Single,
        sy: Single,
        cy: Single,
    ) -> (r: AttitudeDemand)
        ensures
            r == old(self).angles_of(*d, cos_tilt, sy, cy),
            *final(self) == (PidController {
                debug: PidDebug { des_thr: r.thrust, ..old(self).debug },
                ..*old(self)
            }),
    {
        let thrust: Single = thrust_when_tilted(
            self.hover_thrust,
            d.acc_d,
            self.gravity,
            d.size,
            cos_tilt,
        );
        self.debug.des_thr = thrust;
        let tilt_fwd: Single = d.tilt_n * cy + d.tilt_e * sy;
        let tilt_right: Single = d.tilt_n.negate() * sy + d.tilt_e * cy;
        AttitudeDemand {
            thrust,
            roll: Radian(tilt_right),
            pitch: Radian(tilt_fwd.negate()),
            yaw: d.yaw,
        }
    }

    /// The rates that the attitude loop works with: smoothed, the first as it is.
    pub open spec fn rates_after(self, dt: Single, w: [Single; 3]) -> [Single; 3] {
        let a = super::attitude::share(dt, self.rate_lpf_tau);
        if !Single::of_int(0).less(self.rate_lpf_tau) || !self.rate_filt_init {
            w
        } else {
            [
                super::attitude::eased(self.filt_w[0], w[0], a),
                super::attitude::eased(self.filt_w[1], w[1], a),
                super::attitude::eased(self.filt_w[2], w[2], a),
            ]
        }
    }

    /// The attitude loop: the controller after it, and the motor command.
    pub open spec fn inner(
        self,
        dt: Single,
        q_des: Quaternion,
        des_thrust: Single,
        est: VehicleState,
    ) -> (PidController, ActuatorCmd) {
        let w = [est.omega[0].0, est.omega[1].0, est.omega[2].0];
        let smooth = Single::of_int(0).less(self.rate_lpf_tau);
        let rates = self.rates_after(dt, w);
        let out = super::attitude::attitude_answer(
            est.att,
            q_des,
            self.att_kp,
            self.att_kd,
            rates,
        );
        (
            PidController {
                filt_w: if smooth {
                    rates
                } else {
                    self.filt_w
                },
                rate_filt_init: self.rate_filt_init || smooth,
                dbg_err: out.err,
                dbg_pqr: out.rates,
                dbg_omega: w,
                ..self
            },
            super::attitude::limited(
                super::attitude::mixed(des_thrust, out.rates[0], out.rates[1], out.rates[2]),
            ),
        )
    }

    /// The attitude loop alone: from the wanted attitude and thrust to the motors.
    pub fn control_attitude(
        &mut self,
        dt: Second,
        q_des: Quaternion,
        des_thrust: Single,
        est: &VehicleState,
    ) -> (r: ActuatorCmd)
        ensures
            (*final(self), r) == old(self).inner(dt.0, q_des, des_thrust, *est),
    {
        let w: [Single; 3] = [est.omega[0].0, est.omega[1].0, est.omega[2].0];
        let omega_f: [Single; 3] = if self.rate_lpf_tau > Single::from_i32(0) {
            let a: Single = smoothing_share(dt.0, self.rate_lpf_tau);
            if !self.rate_filt_init {
                self.filt_w = w;
                self.rate_filt_init = true;
            } else {
                self.filt_w = [
                    ease(self.filt_w[0], w[0], a),
                    ease(self.filt_w[1], w[1], a),
                    ease(self.filt_w[2], w[2], a),
                ];
            }
            self.filt_w
        } else {
            w
        };
        let att_out: AttitudeOut = attitude_rates(
            est.att,
            q_des,
            self.att_kp,
            self.att_kd,
            omega_f,
        );
        self.dbg_err = att_out.err;
        self.dbg_pqr = att_out.rates;
        self.dbg_omega = w;
        limit(x4_mix(des_thrust, att_out.rates))
    }

    /// Forgets the integrals and what was smoothed.
    pub fn reset(&mut self)
        ensures
            *final(self) == (PidController {
                iz: Single::of_int(0),
                i_xy: [Single::of_int(0), Single::of_int(0)],
                vertical: AxisFilter::idle(old(self).vertical.tau),
                north: AxisFilter::idle(old(self).north.tau),
                east: AxisFilter::idle(old(self).east.tau),
                filt_w: [Single::of_int(0), Single::of_int(0), Single::of_int(0)],
                rate_filt_init: false,
                ..*old(self)
            }),
    {
        let z: Single = Single::from_i32(0);
        self.iz = z;
        self.i_xy = [z, z];
        self.vertical.reset();
        self.north.reset();
        self.east.reset();
        self.filt_w = [z, z, z];
        self.rate_filt_init = false;
    }
}

/// The vertical integral stays within two metres per second.
pub proof fn law_vertical_integral_bounded(
    c: PidController,
    dt: Single,
    sp: Setpoint,
    est: VehicleState,
    t: Tuning,
)
    requires
        !c.outer(dt, sp, est, t).0.iz.nan(),
    ensures
        Single::of_int(2).negated().less_eq(c.outer(dt, sp, est, t).0.iz),
        c.outer(dt, sp, est, t).0.iz.less_eq(Single::of_int(2)),
{
    crate::single::arith::lemma_two();
    let a = c.adjusted(t);
    let down = a.vertical.output(est.pos[2].0, est.vel[2].0, dt);
    let ez = sp.pos[2].0 - down.0;
    let pre_z = a.kp_z * ez + sp.vel[2].0;
    super::attitude::law_integral_bounded(
        a.iz,
        a.ki_z * ez * dt,
        pre_z,
        a.vmax_z,
        Single::of_int(2),
    );
}

/// The tilt that is asked for stays within the limit in each direction.
pub proof fn law_tilt_bounded(
    c: PidController,
    dt: Single,
    sp: Setpoint,
    est: VehicleState,
    t: Tuning,
)
    requires
        tuned(c.tilt_max, t.tilt_max).negated().less_eq(tuned(c.tilt_max, t.tilt_max)),
    ensures
        ({
            let limit = tuned(c.tilt_max, t.tilt_max);
            let d = c.outer(dt, sp, est, t).1;
            &&& !d.tilt_n.nan() ==> limit.negated().less_eq(d.tilt_n) && d.tilt_n.less_eq(limit)
            &&& !d.tilt_e.nan() ==> limit.negated().less_eq(d.tilt_e) && d.tilt_e.less_eq(limit)
        }),
{
    let limit = tuned(c.tilt_max, t.tilt_max);
    let d = c.outer(dt, sp, est, t).1;
    assert forall|x: Single| !x.nan() implies limit.negated().less_eq(
        #[trigger] x.clamped(limit.negated(), limit),
    ) && x.clamped(limit.negated(), limit).less_eq(limit) by {
        crate::single::number::law_clamp_bounds(x, limit.negated(), limit);
    }
}

/// In rate mode the position does not matter for the tilt.
pub proof fn law_rate_mode_ignores_position(
    c: PidController,
    dt: Single,
    a: Setpoint,
    b: Setpoint,
    est: VehicleState,
    t: Tuning,
)
    requires
        c.rate_mode_xy,
        a.vel == b.vel,
        a.acc == b.acc,
    ensures
        c.outer(dt, a, est, t).1.tilt_n == c.outer(dt, b, est, t).1.tilt_n,
        c.outer(dt, a, est, t).1.tilt_e == c.outer(dt, b, est, t).1.tilt_e,
{
}

} // verus!
