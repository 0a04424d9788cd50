//! Total energy control: the vertical loop works on the height that potential and
//! kinetic energy amount to, so that speed may be traded for height without throttle,
//! and the drag of the measured airflow is compensated in advance. The loops below
//! are those of the cascade.

use super::attitude::{
    attitude_rates, limit, thrust_when_tilted, wind, x4_mix, AttitudeOut, AxisFilter,
};
use super::pid::{AttitudeDemand, TiltDemand};
use super::trait_def::Setpoint;
use crate::config::CtrlParams;
use crate::single::Single;
use crate::units::{Radian, Second};
use crate::vehicle::{ActuatorCmd, Quaternion, VehicleState};
use vstd::prelude::*;

verus! {

#[derive(Debug, Clone, Copy)]
pub struct TecsController {
    pub kp_xy: Single,
    pub vmax_xy: Single,
    pub kv_xy: Single,
    pub kp_z: Single,
    pub kv_z: Single,
    pub ki_z: Single,
    /// The integral of the energy height error.
    pub iz: Single,
    pub vmax_z: Single,
    /// The drag to compensate, per squared airspeed; zero compensates nothing.
    pub drag_k: Single,
    /// The measured airflow: velocity over the ground minus wind, north and east.
    pub meas_v_rel: [Single; 2],
    pub att_kp: Single,
    pub att_kd: Single,
    pub hover_thrust: Single,
    pub gravity: Single,
    pub tilt_max: Single,
    pub vertical: AxisFilter,
    pub dbg_err: [Single; 3],
    pub dbg_pqr: [Single; 3],
    pub dbg_omega: [Single; 3],
    /// The last airspeed.
    pub dbg_airspeed: Single,
    /// The last compensation of drag.
    pub dbg_drag_a: Single,
    /// The last energy height, downwards.
    pub dbg_h_eq: Single,
    /// The last error of it.
    pub dbg_e_eq: Single,
    pub dbg_des_thr: Single,
}

/// The length of a vector over the ground.
pub open spec fn ground_norm(a: Single, b: Single) -> Single {
    (a * a + b * b).root()
}

fn norm2(a: Single, b: Single) -> (r: Single)
    ensures
        r == ground_norm(a, b),
{
    (a * a + b * b).sqrt()
}

/// The height, downwards, that altitude `d` and speed `vh` over the ground amount to.
pub open spec fn energy_height(d: Single, vh: Single, g: Single) -> Single {
    d - (vh * vh) / (Single::of_int(2) * g)
}

fn height_of_energy(d: Single, vh: Single, g: Single) -> (r: Single)
    ensures
        r == energy_height(d, vh, g),
{
    d - (vh * vh) / (Single::from_i32(2) * g)
}

impl TecsController {
    pub open spec fn quad() -> TecsController {
        let z = Single::of_int(0);
        TecsController {
            kp_xy: Single::of_ratio(5, 10),
            vmax_xy: Single::of_int(2),
            kv_xy: Single::of_ratio(8, 10),
            kp_z: Single::of_ratio(5, 10),
            kv_z: Single::of_ratio(15, 10),
            ki_z: Single::of_ratio(3, 10),
            iz: z,
            vmax_z: Single::of_int(2),
            drag_k: Single::of_ratio(9, 100),
            meas_v_rel: [z, z],
            att_kp: Single::of_int(3),
            att_kd: Single::of_ratio(3, 10),
            hover_thrust: Single::of_ratio(5, 10),
            gravity: Single::of_ratio(981, 100),
            tilt_max: Single::of_ratio(35, 100),
            vertical: AxisFilter::idle(Single::of_ratio(15, 100)),
            dbg_err: [z, z, z],
            dbg_pqr: [z, z, z],
            dbg_omega: [z, z, z],
            dbg_airspeed: z,
            dbg_drag_a: z,
            dbg_h_eq: z,
            dbg_e_eq: z,
            dbg_des_thr: z,
        }
    }

    /// For an X quadrotor of 450 millimetres.
    pub fn default_quad() -> (r: TecsController)
        ensures
            r == TecsController::quad(),
    {
        let z: Single = Single::from_i32(0);
        TecsController {
            kp_xy: Single::ratio(5, 10),
            vmax_xy: Single::from_i32(2),
            kv_xy: Single::ratio(8, 10),
            kp_z: Single::ratio(5, 10),
            kv_z: Single::ratio(15, 10),
            ki_z: Single::ratio(3, 10),
            iz: z,
            vmax_z: Single::from_i32(2),
            drag_k: Single::ratio(9, 100),
            meas_v_rel: [z, z],
            att_kp: Single::from_i32(3),
            att_kd: Single::ratio(3, 10),
            hover_thrust: Single::ratio(5, 10),
            gravity: Single::ratio(981, 100),
            tilt_max: Single::ratio(35, 100),
            vertical: AxisFilter::new(Single::ratio(15, 100)),
            dbg_err: [z, z, z],
            dbg_pqr: [z, z, z],
            dbg_omega: [z, z, z],
            dbg_airspeed: z,
            dbg_drag_a: z,
            dbg_h_eq: z,
            dbg_e_eq: z,
            dbg_des_thr: z,
        }
    }

    /// For an aircraft.
    pub fn from_config(c: &CtrlParams) -> (r: TecsController)
        ensures
            r == (TecsController {
                tilt_max: c.tilt_max,
                hover_thrust: c.hover_thrust,
                gravity: c.gravity,
                vmax_xy: c.vmax_xy,
                vmax_z: c.vmax_z,
                att_kp: c.att_kp,
                att_kd: c.att_kd,
                kp_xy: c.kp_xy,
                kv_xy: c.kv_xy,
                vertical: AxisFilter::idle(c.vel_lpf_tau),
                drag_k: c.drag_fwd,
                ..TecsController::quad()
            }),
    {
        let mut s: TecsController = TecsController::default_quad();
        s.tilt_max = c.tilt_max;
        s.hover_thrust = c.hover_thrust;
        s.gravity = c.gravity;
        s.vmax_xy = c.vmax_xy;
        s.vmax_z = c.vmax_z;
        s.att_kp = c.att_kp;
        s.att_kd = c.att_kd;
        s.kp_xy = c.kp_xy;
        s.kv_xy = c.kv_xy;
        s.vertical = AxisFilter::new(c.vel_lpf_tau);
        s.drag_k = c.drag_fwd;
        s
    }

    /// Sets the drag to compensate.
    pub fn set_drag_fwd(&mut self, k: Single)
        ensures
            *final(self) == (TecsController { drag_k: k, ..*old(self) }),
    {
        self.drag_k = k;
    }

    /// The drag to compensate.
    pub fn drag_fwd(&self) -> (r: Single)
        ensures
            r == self.drag_k,
    {
        self.drag_k
    }

    /// The last energy height and its error, downwards.
    pub fn debug_energy(&self) -> (r: (Single, Single))
        ensures
            r == (self.dbg_h_eq, self.dbg_e_eq),
    {
        (self.dbg_h_eq, self.dbg_e_eq)
    }

    /// The last airspeed and compensation of drag.
    pub fn debug_drag(&self) -> (r: (Single, Single))
        ensures
            r == (self.dbg_airspeed, self.dbg_drag_a),
    {
        (self.dbg_airspeed, self.dbg_drag_a)
    }

    /// The last attitude error, wanted rates and measured rates.
    pub fn dbg_last(&self) -> (r: ([Single; 3], [Single; 3], [Single; 3]))
        ensures
            r == (self.dbg_err, self.dbg_pqr, self.dbg_omega),
    {
        (self.dbg_err, self.dbg_pqr, self.dbg_omega)
    }

    /// Takes in the measured airflow.
    pub fn set_measured_airspeed_vec(&mut self, v: [Single; 2])
        ensures
            *final(self) == (TecsController { meas_v_rel: v, ..*old(self) }),
    {
        self.meas_v_rel = v;
    }

    /// The acceleration that compensates the drag of the measured airflow, north and
    /// east; below half a metre per second none.
    pub open spec fn drag_compensation(self) -> (Single, Single) {
        let v = self.meas_v_rel;
        let speed = ground_norm(v[0], v[1]);
        if Single::of_ratio(5, 10).less(speed) {
            (self.drag_k * speed * v[0], self.drag_k * speed * v[1])
        } else {
            (Single::of_int(0), Single::of_int(0))
        }
    }

    fn compensate_drag(&self) -> (r: (Single, Single))
        ensures
            r == self.drag_compensation(),
    {
        let v: [Single; 2] = self.meas_v_rel;
        let speed: Single = norm2(v[0], v[1]);
        if speed > Single::ratio(5, 10) {
            let k: Single = self.drag_k * speed;
            (k * v[0], k * v[1])
        } else {
            (Single::from_i32(0), Single::from_i32(0))
        }
    }

    /// The acceleration wanted along an axis over the ground, without drag.
    pub open spec fn ground_acceleration(
        self,
        pos: Single,
        vel: Single,
        want_pos: Single,
        want_vel: Single,
        want_acc: Single,
    ) -> Single {
        let v = (self.kp_xy * (want_pos - pos) + want_vel).clamped(
            self.vmax_xy.negated(),
            self.vmax_xy,
        );
        self.kv_xy * (v - vel) + want_acc
    }

    fn accelerate(
        &self,
        pos: Single,
        vel: Single,
        want_pos: Single,
        want_vel: Single,
        want_acc: Single,
    ) -> (r: Single)
        ensures
            r == self.ground_acceleration(pos, vel, want_pos, want_vel, want_acc),
    {
        let v: Single = (self.kp_xy * (want_pos - pos) + want_vel).clamp(
            self.vmax_xy.negate(),
            self.vmax_xy,
        );
        self.kv_xy * (v - vel) + want_acc
    }

    /// The position, speed and energy loops: the controller after them, and what they
    /// ask for.
    pub open spec fn outer(self, dt: Single, sp: Setpoint, est: VehicleState) -> (
        TecsController,
        TiltDemand,
    ) {
        let g = self.gravity;
        let down = self.vertical.output(est.pos[2].0, est.vel[2].0, dt);
        let drag = self.drag_compensation();
        let acc_n = self.ground_acceleration(
            est.pos[0].0,
            est.vel[0].0,
            sp.pos[0].0,
            sp.vel[0].0,
            sp.acc[0].0,
        ) + drag.0;
        let acc_e = self.ground_acceleration(
            est.pos[1].0,
            est.vel[1].0,
            sp.pos[1].0,
            sp.vel[1].0,
            sp.acc[1].0,
        ) + drag.1;
        let have = energy_height(down.0, ground_norm(est.vel[0].0, est.vel[1].0), g);
        let want = energy_height(sp.pos[2].0, ground_norm(sp.vel[0].0, sp.vel[1].0), g);
        let ez = want - have;
        let pre = self.kp_z * ez + sp.vel[2].0;
        let iz = super::attitude::wound(
            self.iz,
            self.ki_z * ez * dt,
            pre,
            self.vmax_z,
            Single::of_int(2),
        );
        let des_vz = (pre + iz).clamped(self.vmax_z.negated(), self.vmax_z);
        let tilt_n = (acc_n / g).clamped(self.tilt_max.negated(), self.tilt_max);
        let tilt_e = (acc_e / g).clamped(self.tilt_max.negated(), self.tilt_max);
        (
            TecsController {
                iz,
                vertical: self.vertical.next(est.pos[2].0, est.vel[2].0, dt),
                dbg_airspeed: ground_norm(self.meas_v_rel[0], self.meas_v_rel[1]),
                dbg_drag_a: ground_norm(drag.0, drag.1),
                dbg_h_eq: have,
                dbg_e_eq: ez,
                ..self
            },
            TiltDemand {
                tilt_n,
                tilt_e,
                size: super::attitude::tilt_size(tilt_n, tilt_e),
                acc_d: self.kv_z * (des_vz - down.1) + sp.acc[2].0,
                yaw: sp.yaw,
            },
        )
    }

    /// The position, speed and energy loops: what they ask of the attitude and of the
    /// thrust.
    pub fn control_outer(&mut self, dt: Second, sp: &Setpoint, est: &VehicleState) -> (r:
        TiltDemand)
        ensures
            (*final(self), r) == old(self).outer(dt.0, *sp, *est),
    {
        let dt: Single = dt.0;
        let g: Single = self.gravity;
        let (est_d, est_vd) = self.vertical.update(est.pos[2].0, est.vel[2].0, dt);
        let (drag_n, drag_e) = self.compensate_drag();
        let acc_n: Single = self.accelerate(
            est.pos[0].0,
            est.vel[0].0,
            sp.pos[0].0,
            sp.vel[0].0,
            sp.acc[0].0,
        ) + drag_n;
        let acc_e: Single = self.accelerate(
            est.pos[1].0,
            est.vel[1].0,
            sp.pos[1].0,
            sp.vel[1].0,
            sp.acc[1].0,
        ) + drag_e;
        self.dbg_airspeed = norm2(self.meas_v_rel[0], self.meas_v_rel[1]);
        self.dbg_drag_a = norm2(drag_n, drag_e);
        let est_d_eq: Single = height_of_energy(est_d, norm2(est.vel[0].0, est.vel[1].0), g);
        let sp_d_eq: Single = height_of_energy(
            sp.pos[2].0,
            norm2(sp.vel[0].0, sp.vel[1].0),
            g,
        );
        let ez: Single = sp_d_eq - est_d_eq;
        let pre_iz: Single = self.kp_z * ez + sp.vel[2].0;
        self.iz = wind(self.iz, self.ki_z * ez * dt, pre_iz, self.vmax_z, Single::from_i32(2));
        let des_vz: Single = (pre_iz + self.iz).clamp(self.vmax_z.negate(), self.vmax_z);
        let acc_d: Single = self.kv_z * (des_vz - est_vd) + sp.acc[2].0;
        self.dbg_h_eq = est_d_eq;
        self.dbg_e_eq = ez;
        let tilt_n: Single = (acc_n / g).clamp(self.tilt_max.negate(), self.tilt_max);
        let tilt_e: Single = (acc_e / g).clamp(self.tilt_max.negate(), self.tilt_max);
        TiltDemand {
            tilt_n,
            tilt_e,
            size: (tilt_n * tilt_n + tilt_e * tilt_e).sqrt(),
            acc_d,
            yaw: sp.yaw,
        }
    }

    /// The thrust and the angles that meet a demand.
    pub open spec fn angles_of(self, d: TiltDemand, cos_tilt: Single) -> AttitudeDemand {
        AttitudeDemand {
            thrust: super::attitude::tilted_thrust(
                self.hover_thrust,
                d.acc_d,
                self.gravity,
                d.size,
                cos_tilt,
            ),
            roll: Radian(d.tilt_e),
            pitch: Radian(d.tilt_n.negated()),
            yaw: d.yaw,
        }
    }

    /// The thrust and the angles that meet a demand, where `cos_tilt` is the cosine of
    /// the tilt's size: east by positive roll, north by negative pitch.
    pub fn control_angles(&mut self, d: &TiltDemand, cos_tilt: Single) -> (r: AttitudeDemand)
        ensures
            r == old(self).angles_of(*d, cos_tilt),
            *final(self) == (TecsController { dbg_des_thr: r.thrust, ..*old(self) }),
    {
        let thrust: Single = thrust_when_tilted(
            self.hover_thrust,
            d.acc_d,
            self.gravity,
            d.size,
            cos_tilt,
        );
        self.dbg_des_thr = thrust;
        AttitudeDemand {
            thrust,
            roll: Radian(d.tilt_e),
            pitch: Radian(d.tilt_n.negate()),
            yaw: d.yaw,
        }
    }

    /// The attitude loop: the controller after it, and the motor command.
    pub open spec fn inner(self, q_des: Quaternion, des_thrust: Single, est: VehicleState) -> (
        TecsController,
        ActuatorCmd,
    ) {
        let w = [est.omega[0].0, est.omega[1].0, est.omega[2].0];
        let out = super::attitude::attitude_answer(est.att, q_des, self.att_kp, self.att_kd, w);
        (
            TecsController { dbg_err: out.err, dbg_pqr: out.rates, dbg_omega: w, ..self },
            super::attitude::limited(
                super::attitude::mixed(des_thrust, out.rates[0], out.rates[1], out.rates[2]),
            ),
        )
    }

    /// The attitude loop: from the wanted attitude and thrust to the motors.
    pub fn control_attitude(
        &mut self,
        q_des: Quaternion,
        des_thrust: Single,
        est: &VehicleState,
    ) -> (r: ActuatorCmd)
        ensures
            (*final(self), r) == old(self).inner(q_des, des_thrust, *est),
    {
        let w: [Single; 3] = [est.omega[0].0, est.omega[1].0, est.omega[2].0];
        let att_out: AttitudeOut = attitude_rates(est.att, q_des, self.att_kp, self.att_kd, w);
        self.dbg_err = att_out.err;
        self.dbg_pqr = att_out.rates;
        self.dbg_omega = w;
        limit(x4_mix(des_thrust, att_out.rates))
    }

    /// Forgets the integral and what was smoothed.
    pub fn reset(&mut self)
        ensures
            *final(self) == (TecsController {
                iz: Single::of_int(0),
                vertical: AxisFilter::idle(old(self).vertical.tau),
                ..*old(self)
            }),
    {
        self.iz = Single::from_i32(0);
        self.vertical.reset();
    }
}

/// Only the sum of the energies counts for the vertical loop, not how it is shared
/// between height and speed.
pub proof fn law_energy_is_exchangeable(
    c: TecsController,
    dt: Single,
    a: Setpoint,
    b: Setpoint,
    est: VehicleState,
)
    requires
        energy_height(a.pos[2].0, ground_norm(a.vel[0].0, a.vel[1].0), c.gravity)
            == energy_height(b.pos[2].0, ground_norm(b.vel[0].0, b.vel[1].0), c.gravity),
        a.vel[2] == b.vel[2],
        a.acc[2] == b.acc[2],
    ensures
        c.outer(dt, a, est).1.acc_d == c.outer(dt, b, est).1.acc_d,
        c.outer(dt, a, est).0.iz == c.outer(dt, b, est).0.iz,
{
}

/// Below half a metre per second the airflow does not matter.
pub proof fn law_slow_air_is_ignored(c: TecsController, v: [Single; 2])
    requires
        !Single::of_ratio(5, 10).less(ground_norm(v[0], v[1])),
    ensures
        (TecsController { meas_v_rel: v, ..c }).drag_compensation() == (
            Single::of_int(0),
            Single::of_int(0),
        ),
{
}

/// Whether the gains and limits of a controller are of ordinary size and not negative.
pub open spec fn well_tuned(c: TecsController, dt: Single) -> bool {
    &&& super::pid_laws::ordinary(c.kp_xy)
    &&& super::pid_laws::ordinary(c.kv_xy)
    &&& super::pid_laws::ordinary(c.kp_z)
    &&& super::pid_laws::ordinary(c.kv_z)
    &&& super::pid_laws::ordinary(c.ki_z)
    &&& super::pid_laws::ordinary(c.vmax_xy)
    &&& super::pid_laws::ordinary(c.vmax_z)
    &&& super::pid_laws::ordinary(c.tilt_max)
    &&& super::pid_laws::ordinary(c.drag_k)
    &&& super::pid_laws::ordinary(c.gravity)
    &&& crate::single::signs::beyond(true, c.gravity, 10)
    &&& super::pid_laws::ordinary(dt)
}

/// The length of a vector of ordinary size.
proof fn lemma_ground_norm(a: Single, b: Single)
    requires
        crate::single::laws::within(a, 10),
        crate::single::laws::within(b, 10),
    ensures
        crate::single::laws::within(ground_norm(a, b), 11),
        crate::single::signs::toward(true, ground_norm(a, b)),
{
    crate::single::arith::lemma_small_ints();
    crate::single::laws::lemma_within_is_finite(a, 10);
    crate::single::laws::lemma_within_is_finite(b, 10);
    crate::single::laws::law_product_within(a, a, 10, 10);
    crate::single::laws::law_product_within(b, b, 10, 10);
    lemma_square_points(a);
    lemma_square_points(b);
    crate::single::laws::law_sum_within(a * a, b * b, 20);
    crate::single::signs::law_sum_points(true, a * a, b * b);
    crate::single::signs::law_within_more(a * a + b * b, 21, 22);
    crate::single::root::law_root_within(a * a + b * b, 11);
}

/// A square is not negative.
proof fn lemma_square_points(a: Single)
    requires
        a.finite(),
    ensures
        crate::single::signs::toward(true, a * a),
{
    crate::single::arith::lemma_small_ints();
    if crate::single::signs::toward(true, a) {
        crate::single::signs::law_product_points(true, a, a);
    } else {
        crate::single::signs::law_product_points_back(false, a, a);
    }
}

/// The compensation of drag pushes with the airflow, along both axes, and by a share of it at
/// least.
pub proof fn law_drag_is_pushed_against(c: TecsController, i: int, up: bool, a: nat, b: nat)
    requires
        i == 0 || i == 1,
        super::pid_laws::ordinary(c.drag_k),
        crate::single::laws::within(c.meas_v_rel[0], 10),
        crate::single::laws::within(c.meas_v_rel[1], 10),
        crate::single::signs::toward(up, c.meas_v_rel[i]),
        a + b + 1 <= 149,
    ensures
        ({
            let d = if i == 0 {
                c.drag_compensation().0
            } else {
                c.drag_compensation().1
            };
            &&& crate::single::laws::within(d, 41)
            &&& crate::single::signs::toward(up, d)
            &&& crate::single::signs::beyond(up, c.meas_v_rel[i], a)
                && crate::single::signs::beyond(true, c.drag_k, b)
                && crate::single::signs::beyond(
                true,
                ground_norm(c.meas_v_rel[0], c.meas_v_rel[1]),
                1,
            ) && Single::of_ratio(5, 10).less(ground_norm(c.meas_v_rel[0], c.meas_v_rel[1]))
                ==> crate::single::signs::beyond(up, d, a + b + 1)
        }),
{
    let v = c.meas_v_rel[i];
    let s = ground_norm(c.meas_v_rel[0], c.meas_v_rel[1]);
    crate::single::arith::lemma_small_ints();
    lemma_ground_norm(c.meas_v_rel[0], c.meas_v_rel[1]);
    crate::single::laws::lemma_within_is_finite(v, 10);
    crate::single::laws::lemma_within_is_finite(s, 11);
    crate::single::laws::lemma_within_is_finite(c.drag_k, 20);
    crate::single::laws::law_product_within(c.drag_k, s, 20, 11);
    crate::single::signs::law_product_points(true, s, c.drag_k);
    crate::single::laws::law_product_within(c.drag_k * s, v, 31, 10);
    crate::single::signs::law_product_points(up, v, c.drag_k * s);
    crate::single::exact::law_integer_worth(0);
    if crate::single::signs::beyond(up, v, a) && crate::single::signs::beyond(true, c.drag_k, b)
        && crate::single::signs::beyond(true, s, 1) {
        crate::single::signs::law_product_beyond(true, s, c.drag_k, 1, b);
        crate::single::signs::law_product_beyond(up, v, c.drag_k * s, a, b + 1);
    }
}

/// A vehicle at rest leans towards where it is to be, and into the airflow, along both ground
/// axes alike: the tilt along an axis points as the position error and the airflow along it,
/// and really does so where the error is not too small to see.
pub proof fn law_leans_towards_target(
    c: TecsController,
    dt: Single,
    sp: Setpoint,
    est: VehicleState,
    i: int,
    up: bool,
)
    requires
        i == 0 || i == 1,
        well_tuned(c, dt),
        crate::single::laws::within(sp.pos[i].0, 20),
        crate::single::laws::within(est.pos[i].0, 20),
        est.vel[i].0.same(Single::of_int(0)),
        sp.vel[i].0.same(Single::of_int(0)),
        sp.acc[i].0.same(Single::of_int(0)),
        crate::single::laws::within(c.meas_v_rel[0], 10),
        crate::single::laws::within(c.meas_v_rel[1], 10),
        crate::single::signs::toward(up, c.meas_v_rel[i]),
        crate::single::signs::ahead(up, est.pos[i].0, sp.pos[i].0),
    ensures
        ({
            let d = c.outer(dt, sp, est).1;
            let e = sp.pos[i].0 - est.pos[i].0;
            &&& crate::single::signs::toward(up, super::pid_laws::tilt_along(d, i))
            &&& crate::single::signs::beyond(up, e, 20) && crate::single::signs::beyond(
                true,
                c.kp_xy,
                10,
            ) && crate::single::signs::beyond(true, c.kv_xy, 10) && crate::single::signs::beyond(
                true,
                c.vmax_xy,
                30,
            ) && crate::single::signs::beyond(true, c.tilt_max, 60)
                ==> crate::single::signs::beyond(up, super::pid_laws::tilt_along(d, i), 60)
        }),
{
    let pos = est.pos[i].0;
    let want = sp.pos[i].0;
    let e = want - pos;
    super::pid_laws::lemma_error_points(c.kp_xy, c.kp_xy, dt, want, pos, sp.vel[i].0, up);
    let pre = c.kp_xy * e + sp.vel[i].0;
    let v = pre.clamped(c.vmax_xy.negated(), c.vmax_xy);
    crate::single::signs::law_clamp_points(up, pre, c.vmax_xy);
    crate::single::signs::law_clamp_within(pre, c.vmax_xy, 20);
    super::pid_laws::lemma_acceleration_points(
        c.kv_xy,
        v,
        est.vel[i].0,
        sp.acc[i].0,
        up,
        30,
    );
    let acc = c.kv_xy * (v - est.vel[i].0) + sp.acc[i].0;
    law_drag_is_pushed_against(c, i, up, 0, 0);
    let d = if i == 0 {
        c.drag_compensation().0
    } else {
        c.drag_compensation().1
    };
    crate::single::signs::law_within_more(acc, 40, 41);
    crate::single::laws::lemma_within_is_finite(acc, 41);
    crate::single::laws::law_sum_within(acc, d, 41);
    crate::single::signs::law_sum_points(up, acc, d);
    super::pid_laws::lemma_tilt_points(acc + d, c.gravity, c.tilt_max, up, 40);
    if crate::single::signs::beyond(up, pre, 30) && crate::single::signs::beyond(
        true,
        c.vmax_xy,
        30,
    ) {
        crate::single::signs::law_clamp_beyond(up, pre, c.vmax_xy, 30);
        if crate::single::signs::beyond(up, acc, 40) {
            crate::single::signs::law_sum_beyond(up, acc, d, 40);
        }
    }
}

/// Moving faster, or being further, along a ground axis lowers the acceleration along it.
/// Wanting more of either raises it.
pub proof fn law_ground_speed_is_damped(
    c: TecsController,
    pos: Single,
    further: Single,
    vel: Single,
    faster: Single,
    want_pos: Single,
    want_vel: Single,
    want_acc: Single,
    up: bool,
)
    requires
        super::pid_laws::ordinary(c.kp_xy),
        super::pid_laws::ordinary(c.kv_xy),
        super::pid_laws::ordinary(c.vmax_xy),
        crate::single::laws::within(pos, 20),
        crate::single::laws::within(further, 20),
        crate::single::laws::within(vel, 20),
        crate::single::laws::within(faster, 20),
        crate::single::laws::within(want_pos, 20),
        crate::single::laws::within(want_vel, 20),
        crate::single::laws::within(want_acc, 20),
        crate::single::signs::ahead(up, pos, further),
        crate::single::signs::ahead(up, vel, faster),
    ensures
        crate::single::signs::ahead(
            !up,
            c.ground_acceleration(pos, vel, want_pos, want_vel, want_acc),
            c.ground_acceleration(further, faster, want_pos, want_vel, want_acc),
        ),
        crate::single::signs::ahead(
            up,
            c.ground_acceleration(want_pos, want_vel, pos, vel, want_acc),
            c.ground_acceleration(want_pos, want_vel, further, faster, want_acc),
        ),
{
    lemma_ground_order(
        c,
        [pos, vel, want_pos, want_vel],
        [further, faster, want_pos, want_vel],
        want_acc,
        !up,
    );
    lemma_ground_order(
        c,
        [want_pos, want_vel, pos, vel],
        [want_pos, want_vel, further, faster],
        want_acc,
        up,
    );
}

/// The acceleration along a ground axis from position, speed and what is wanted of them.
proof fn lemma_ground_order(
    c: TecsController,
    a: [Single; 4],
    b: [Single; 4],
    acc: Single,
    up: bool,
)
    requires
        super::pid_laws::ordinary(c.kp_xy),
        super::pid_laws::ordinary(c.kv_xy),
        super::pid_laws::ordinary(c.vmax_xy),
        crate::single::laws::within(a[0], 20) && crate::single::laws::within(b[0], 20),
        crate::single::laws::within(a[1], 20) && crate::single::laws::within(b[1], 20),
        crate::single::laws::within(a[2], 20) && crate::single::laws::within(b[2], 20),
        crate::single::laws::within(a[3], 20) && crate::single::laws::within(b[3], 20),
        crate::single::laws::within(acc, 20),
        crate::single::signs::ahead(!up, a[0], b[0]),
        crate::single::signs::ahead(!up, a[1], b[1]),
        crate::single::signs::ahead(up, a[2], b[2]),
        crate::single::signs::ahead(up, a[3], b[3]),
    ensures
        crate::single::signs::ahead(
            up,
            c.ground_acceleration(a[0], a[1], a[2], a[3], acc),
            c.ground_acceleration(b[0], b[1], b[2], b[3], acc),
        ),
{
    let l = c.vmax_xy;
    crate::single::arith::lemma_small_ints();
    lemma_more_within(a[0]);
    lemma_more_within(a[1]);
    lemma_more_within(a[2]);
    lemma_more_within(a[3]);
    lemma_more_within(b[0]);
    lemma_more_within(b[1]);
    lemma_more_within(b[2]);
    lemma_more_within(b[3]);
    crate::single::laws::lemma_within_is_finite(a[3], 20);
    crate::single::laws::lemma_within_is_finite(b[3], 20);
    crate::single::laws::lemma_within_is_finite(acc, 20);
    crate::single::signs::law_feedback_order(up, c.kp_xy, a[2], b[2], a[0], b[0]);
    let x = c.kp_xy * (a[2] - a[0]);
    let y = c.kp_xy * (b[2] - b[0]);
    crate::single::laws::lemma_within_is_finite(x, 81);
    crate::single::laws::lemma_within_is_finite(y, 81);
    crate::single::signs::law_sum_order(up, x, y, a[3]);
    crate::single::signs::law_sum_order(up, a[3], b[3], y);
    crate::single::signs::law_within_more(a[3], 20, 81);
    crate::single::signs::law_within_more(b[3], 20, 81);
    crate::single::laws::law_sum_within(x, a[3], 81);
    crate::single::laws::law_sum_within(y, b[3], 81);
    let v = (x + a[3]).clamped(l.negated(), l);
    let w = (y + b[3]).clamped(l.negated(), l);
    crate::single::signs::law_clamp_points(true, l, l);
    crate::single::signs::law_clamp_order(up, x + a[3], y + b[3], l.negated(), l);
    crate::single::signs::law_clamp_within(x + a[3], l, 20);
    crate::single::signs::law_clamp_within(y + b[3], l, 20);
    lemma_more_within(v);
    lemma_more_within(w);
    crate::single::signs::law_feedback_order(up, c.kv_xy, v, w, a[1], b[1]);
    crate::single::laws::lemma_within_is_finite(c.kv_xy * (v - a[1]), 81);
    crate::single::signs::law_sum_order(up, c.kv_xy * (v - a[1]), c.kv_xy * (w - b[1]), acc);
}

proof fn lemma_more_within(x: Single)
    requires
        crate::single::laws::within(x, 20),
    ensures
        crate::single::laws::within(x, 60),
{
    crate::single::signs::law_within_more(x, 20, 60);
}

/// Speed counts as height: of two vehicles equally high the faster one has the energy of the
/// higher one. Height is counted downwards.
pub proof fn law_speed_counts_as_height(
    d: Single,
    lower: Single,
    slow: Single,
    fast: Single,
    g: Single,
    up: bool,
)
    requires
        crate::single::laws::within(d, 20),
        crate::single::laws::within(lower, 20),
        crate::single::laws::within(slow, 20),
        crate::single::laws::within(fast, 20),
        crate::single::signs::toward(true, slow),
        slow.less_eq(fast),
        crate::single::signs::ahead(up, d, lower),
        super::pid_laws::ordinary(g),
        crate::single::signs::beyond(true, g, 10),
    ensures
        energy_height(d, fast, g).less_eq(energy_height(d, slow, g)),
        crate::single::signs::ahead(up, energy_height(d, slow, g), energy_height(lower, slow, g)),
{
    let two = Single::of_int(2);
    let z = Single::of_int(0);
    vstd::arithmetic::power2::lemma2_to64();
    crate::single::arith::lemma_small_ints();
    crate::single::laws::lemma_within_is_finite(d, 20);
    crate::single::laws::lemma_within_is_finite(lower, 20);
    crate::single::laws::lemma_within_is_finite(slow, 20);
    crate::single::laws::lemma_within_is_finite(fast, 20);
    crate::single::laws::lemma_within_is_finite(g, 20);
    crate::single::laws::law_integer_within(2, 1);
    crate::single::exact::law_integer_worth(2);
    crate::single::exact::law_integer_worth(0);
    crate::single::exact::law_worth_order(z, two, 0, 2, 0);
    vstd::arithmetic::power2::lemma_pow2_pos(149);
    assert(two.value() == 2 * vstd::arithmetic::power2::pow2(149));
    assert(crate::single::signs::beyond(true, two, 0));
    crate::single::signs::law_product_beyond(true, g, two, 10, 0);
    crate::single::signs::law_beyond_is_toward(true, two * g, 10);
    crate::single::laws::law_product_within(two, g, 1, 20);
    crate::single::laws::law_product_within(slow, slow, 20, 20);
    crate::single::laws::law_product_within(fast, fast, 20, 20);
    crate::single::signs::law_product_order(true, slow, fast, slow);
    crate::single::signs::law_product_order(true, slow, fast, fast);
    crate::single::laws::law_product_within(slow, fast, 20, 20);
    let p = slow * slow;
    let q = fast * fast;
    assert(p.less_eq(q));
    crate::single::signs::law_quotient_order(true, p, q, two * g);
    crate::single::signs::law_quotient_within(p, two * g, 40, 10);
    crate::single::signs::law_difference_order(true, p / (two * g), q / (two * g), d);
    crate::single::signs::law_difference_order(up, d, lower, p / (two * g));
}

/// A vehicle that could climb by `n` through giving up its speed counts as `n` higher; here
/// for all values that leave no rounding.
pub proof fn law_speed_is_worth_height(
    d: Single,
    vh: Single,
    g: Single,
    m: int,
    v: int,
    h: int,
    n: int,
)
    requires
        crate::single::exact::worth(d, m, 0),
        crate::single::exact::worth(vh, v, 0),
        crate::single::exact::worth(g, h, 0),
        v * v == 2 * h * n,
        h > 0,
        crate::vehicle::small(v, 4096),
        crate::vehicle::small(h, 4096),
        crate::vehicle::small(m, 0x40_0000),
        crate::vehicle::small(n, 0x40_0000),
    ensures
        crate::single::exact::worth(energy_height(d, vh, g), m - n, 0),
{
    let two = Single::of_int(2);
    crate::single::exact::law_integer_worth(2);
    crate::vehicle::lemma_small_product(v, v, 4096, 4096);
    crate::single::exact::law_worth_product(vh, vh, v, v, 0, 0);
    crate::single::exact::law_worth_product(two, g, 2, h, 0, 0);
    assert(n * (2 * h) == 2 * h * n) by (nonlinear_arith);
    crate::single::exact::law_worth_quotient(vh * vh, two * g, n, 2 * h, 0, 0);
    crate::single::exact::law_worth_difference(d, (vh * vh) / (two * g), m, n, 0);
}

/// A vehicle that does not move vertically accelerates towards the energy height where it is
/// to be: down where it has more energy than wanted, up where it has less.
pub proof fn law_climbs_towards_energy(
    c: TecsController,
    dt: Single,
    sp: Setpoint,
    est: VehicleState,
    up: bool,
)
    requires
        well_tuned(c, dt),
        super::pid_laws::open_filter(c.vertical),
        c.iz.same(Single::of_int(0)),
        est.vel[2].0.same(Single::of_int(0)),
        sp.vel[2].0.same(Single::of_int(0)),
        sp.acc[2].0.same(Single::of_int(0)),
        ({
            let want = energy_height(
                sp.pos[2].0,
                ground_norm(sp.vel[0].0, sp.vel[1].0),
                c.gravity,
            );
            let have = energy_height(
                est.pos[2].0,
                ground_norm(est.vel[0].0, est.vel[1].0),
                c.gravity,
            );
            &&& crate::single::laws::within(want, 20)
            &&& crate::single::laws::within(have, 20)
            &&& crate::single::signs::ahead(up, have, want)
        }),
    ensures
        ({
            let d = c.outer(dt, sp, est).1;
            let e = energy_height(
                sp.pos[2].0,
                ground_norm(sp.vel[0].0, sp.vel[1].0),
                c.gravity,
            ) - energy_height(
                est.pos[2].0,
                ground_norm(est.vel[0].0, est.vel[1].0),
                c.gravity,
            );
            &&& crate::single::signs::toward(up, d.acc_d)
            &&& crate::single::signs::beyond(up, e, 20) && crate::single::signs::beyond(
                true,
                c.kp_z,
                10,
            ) && crate::single::signs::beyond(true, c.kv_z, 10) && crate::single::signs::beyond(
                true,
                c.vmax_z,
                30,
            ) && (c.kp_z * e).magnitude_of().less_eq(c.vmax_z) ==> crate::single::signs::beyond(
                up,
                d.acc_d,
                40,
            )
        }),
{
    let want = energy_height(sp.pos[2].0, ground_norm(sp.vel[0].0, sp.vel[1].0), c.gravity);
    let have = energy_height(est.pos[2].0, ground_norm(est.vel[0].0, est.vel[1].0), c.gravity);
    let e = want - have;
    let two = Single::of_int(2);
    vstd::arithmetic::power2::lemma2_to64();
    crate::single::laws::law_integer_within(2, 1);
    crate::single::signs::law_within_more(two, 1, 20);
    crate::single::exact::law_integer_worth(2);
    crate::single::exact::law_integer_worth(0);
    crate::single::exact::law_worth_order(Single::of_int(0), two, 0, 2, 0);
    let pre = c.kp_z * e + sp.vel[2].0;
    super::pid_laws::lemma_error_points(c.kp_z, c.ki_z, dt, want, have, sp.vel[2].0, up);
    let more = c.ki_z * e * dt;
    super::pid_laws::lemma_speed_points(c.iz, more, pre, c.vmax_z, two, up, 30);
    let w = super::attitude::wound(c.iz, more, pre, c.vmax_z, two);
    let v = (pre + w).clamped(c.vmax_z.negated(), c.vmax_z);
    super::pid_laws::lemma_acceleration_points(c.kv_z, v, est.vel[2].0, sp.acc[2].0, up, 30);
    crate::single::arith::lemma_small_ints();
    crate::single::laws::lemma_within_is_finite(pre, 42);
    crate::single::signs::law_difference_within(want, have, 20);
    crate::single::laws::law_product_within(c.kp_z, e, 20, 21);
    crate::single::laws::lemma_add_nothing(c.kp_z * e, c.kp_z * e, sp.vel[2].0);
    crate::single::laws::lemma_packed(false, pre.field());
    crate::single::laws::lemma_packed(false, (c.kp_z * e).field());
}

/// The vehicle leans east by rolling to the right and north by pitching down: the angles tilt
/// a vehicle that heads north along the demand. The yaw is what was asked for.
pub proof fn law_leans_along_demand(c: TecsController, d: TiltDemand, cos_tilt: Single, up: bool)
    requires
        !d.tilt_n.nan(),
        !d.tilt_e.nan(),
    ensures
        ({
            let a = c.angles_of(d, cos_tilt);
            &&& crate::single::signs::toward(up, d.tilt_e) <==> crate::single::signs::toward(
                up,
                a.roll.0,
            )
            &&& crate::single::signs::toward(up, d.tilt_n) <==> crate::single::signs::toward(
                !up,
                a.pitch.0,
            )
            &&& a.roll.0.magnitude() == d.tilt_e.magnitude()
            &&& a.pitch.0.magnitude() == d.tilt_n.magnitude()
            &&& a.yaw == d.yaw
        }),
{
    crate::single::arith::lemma_small_ints();
    crate::single::signs::lemma_negated(d.tilt_n);
}

/// A vehicle that drifts over the place where it is to be, in still air, leans against the
/// drift along both ground axes alike, and one that climbs or sinks through its energy height
/// accelerates against that.
pub proof fn law_drift_is_stopped(
    c: TecsController,
    dt: Single,
    sp: Setpoint,
    est: VehicleState,
    i: int,
    up: bool,
)
    requires
        i == 0 || i == 1,
        well_tuned(c, dt),
        super::pid_laws::open_filter(c.vertical),
        c.iz.same(Single::of_int(0)),
        sp.pos[i] == est.pos[i],
        crate::single::laws::within(sp.pos[i].0, 20),
        crate::single::laws::within(est.vel[i].0, 20),
        crate::single::laws::within(est.vel[2].0, 20),
        crate::single::signs::toward(up, est.vel[i].0),
        crate::single::signs::toward(up, est.vel[2].0),
        sp.vel[i].0.same(Single::of_int(0)),
        sp.vel[2].0.same(Single::of_int(0)),
        sp.acc[i].0.same(Single::of_int(0)),
        sp.acc[2].0.same(Single::of_int(0)),
        c.meas_v_rel[0].same(Single::of_int(0)),
        c.meas_v_rel[1].same(Single::of_int(0)),
        ({
            let want = energy_height(
                sp.pos[2].0,
                ground_norm(sp.vel[0].0, sp.vel[1].0),
                c.gravity,
            );
            let have = energy_height(
                est.pos[2].0,
                ground_norm(est.vel[0].0, est.vel[1].0),
                c.gravity,
            );
            want == have && crate::single::laws::within(want, 20)
        }),
    ensures
        ({
            let d = c.outer(dt, sp, est).1;
            &&& crate::single::signs::toward(!up, super::pid_laws::tilt_along(d, i))
            &&& crate::single::signs::toward(!up, d.acc_d)
            &&& crate::single::signs::beyond(up, est.vel[i].0, 20) && crate::single::signs::beyond(
                true,
                c.kv_xy,
                10,
            ) && crate::single::signs::beyond(true, c.tilt_max, 50)
                ==> crate::single::signs::beyond(!up, super::pid_laws::tilt_along(d, i), 50)
            &&& crate::single::signs::beyond(up, est.vel[2].0, 20) && crate::single::signs::beyond(
                true,
                c.kv_z,
                10,
            ) ==> crate::single::signs::beyond(!up, d.acc_d, 30)
        }),
{
    let z = Single::of_int(0);
    let two = Single::of_int(2);
    vstd::arithmetic::power2::lemma2_to64();
    crate::single::arith::lemma_small_ints();
    crate::single::laws::law_integer_within(0, 0);
    crate::single::signs::law_within_more(z, 0, 10);
    // Over the ground.
    let e = sp.pos[i].0 - est.pos[i].0;
    let pre = c.kp_xy * e + sp.vel[i].0;
    super::pid_laws::lemma_error_points(
        c.kp_xy,
        c.kp_xy,
        dt,
        sp.pos[i].0,
        est.pos[i].0,
        sp.vel[i].0,
        true,
    );
    super::pid_laws::lemma_error_points(
        c.kp_xy,
        c.kp_xy,
        dt,
        sp.pos[i].0,
        est.pos[i].0,
        sp.vel[i].0,
        false,
    );
    let v = pre.clamped(c.vmax_xy.negated(), c.vmax_xy);
    crate::single::signs::law_clamp_points(true, pre, c.vmax_xy);
    crate::single::signs::law_clamp_points(false, pre, c.vmax_xy);
    super::pid_laws::lemma_stopping(c.kv_xy, v, est.vel[i].0, sp.acc[i].0, up, 20);
    let acc = c.kv_xy * (v - est.vel[i].0) + sp.acc[i].0;
    assert(c.meas_v_rel[0].magnitude() == z.magnitude() && c.meas_v_rel[1].magnitude()
        == z.magnitude());
    law_drag_is_pushed_against(c, i, true, 0, 0);
    law_drag_is_pushed_against(c, i, false, 0, 0);
    let d = if i == 0 {
        c.drag_compensation().0
    } else {
        c.drag_compensation().1
    };
    assert(d.same(z));
    crate::single::laws::lemma_within_is_finite(acc, 42);
    crate::single::laws::lemma_add_nothing(acc, acc, d);
    let a = acc + d;
    assert(a.magnitude() == acc.magnitude());
    super::pid_laws::lemma_tilt_points(a, c.gravity, c.tilt_max, !up, 30);
    if crate::single::signs::beyond(!up, acc, 30) {
        crate::single::signs::law_ahead_of_beyond(!up, acc, a, 30);
    }
    // Vertically.
    let want = energy_height(sp.pos[2].0, ground_norm(sp.vel[0].0, sp.vel[1].0), c.gravity);
    crate::single::laws::law_integer_within(2, 1);
    crate::single::signs::law_within_more(two, 1, 20);
    crate::single::exact::law_integer_worth(2);
    crate::single::exact::law_integer_worth(0);
    crate::single::exact::law_worth_order(z, two, 0, 2, 0);
    super::pid_laws::lemma_no_speed(
        c.kp_z,
        c.ki_z,
        dt,
        want,
        sp.vel[2].0,
        c.iz,
        c.vmax_z,
        two,
    );
    let ez = want - want;
    let prez = c.kp_z * ez + sp.vel[2].0;
    let w = super::attitude::wound(c.iz, c.ki_z * ez * dt, prez, c.vmax_z, two);
    let vz = (prez + w).clamped(c.vmax_z.negated(), c.vmax_z);
    super::pid_laws::lemma_stopping(c.kv_z, vz, est.vel[2].0, sp.acc[2].0, up, 20);
}

/// An energy error that lasts adds up: the integral, where it was empty, points as the error
/// after a step, while the speed that is asked for is within its limit.
pub proof fn law_error_adds_up(
    c: TecsController,
    dt: Single,
    sp: Setpoint,
    est: VehicleState,
    up: bool,
)
    requires
        well_tuned(c, dt),
        super::pid_laws::open_filter(c.vertical),
        c.iz.same(Single::of_int(0)),
        crate::single::signs::beyond(true, dt, 10),
        crate::single::signs::beyond(true, c.ki_z, 10),
        ({
            let want = energy_height(
                sp.pos[2].0,
                ground_norm(sp.vel[0].0, sp.vel[1].0),
                c.gravity,
            );
            let have = energy_height(
                est.pos[2].0,
                ground_norm(est.vel[0].0, est.vel[1].0),
                c.gravity,
            );
            let e = want - have;
            let two = Single::of_int(2);
            let speed = c.kp_z * e + sp.vel[2].0 + (c.iz + c.ki_z * e * dt).clamped(
                two.negated(),
                two,
            );
            &&& crate::single::laws::within(want, 20)
            &&& crate::single::laws::within(have, 20)
            &&& crate::single::signs::beyond(up, e, 20)
            &&& !c.vmax_z.less(speed)
            &&& !speed.less(c.vmax_z.negated())
        }),
    ensures
        crate::single::signs::beyond(up, c.outer(dt, sp, est).0.iz, 40),
{
    let want = energy_height(sp.pos[2].0, ground_norm(sp.vel[0].0, sp.vel[1].0), c.gravity);
    let have = energy_height(est.pos[2].0, ground_norm(est.vel[0].0, est.vel[1].0), c.gravity);
    let two = Single::of_int(2);
    let p = vstd::arithmetic::power2::pow2(149);
    vstd::arithmetic::power2::lemma2_to64();
    crate::single::arith::lemma_small_ints();
    crate::single::laws::law_integer_within(2, 1);
    crate::single::signs::law_within_more(two, 1, 20);
    crate::single::exact::law_integer_worth(2);
    crate::single::exact::law_integer_worth(0);
    crate::single::exact::law_worth_order(Single::of_int(0), two, 0, 2, 0);
    vstd::arithmetic::power2::lemma_pow2_pos(149);
    vstd::arithmetic::power2::lemma_pow2_strictly_increases(109, 149);
    assert(2 * p >= p);
    assert(crate::single::signs::beyond(true, two, 40));
    super::pid_laws::lemma_adds_up(
        c.ki_z,
        dt,
        want,
        have,
        c.iz,
        c.kp_z * (want - have) + sp.vel[2].0,
        c.vmax_z,
        two,
        up,
    );
}

} // verus!
