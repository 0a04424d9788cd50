//! The error state filter as the estimator of the product.
//!
//! Nothing is dropped in silence: what is taken, refused or not supported is counted.

use super::eskf::{Eskf, EskfTuning};
use super::linear::Refusal;
use super::nominal::{ErrorState, HalfAngle, ImuDelta, Turn};
use crate::single::Single;
use crate::units::{Meter, MeterPerSecond, RadianPerSecond, Second};
use crate::vehicle::{
    AirspeedSample, ImuSample, PosSample, Quaternion, RtkSample, VehicleState, VioSample,
};
use vstd::prelude::*;

verus! {

/// What was taken, refused and not supported.
#[derive(Debug, Clone, Copy, PartialEq, Eq, Structural)]
pub struct Counts {
    pub n_step: u32,
    pub n_grav_applied: u32,
    pub n_grav_gated: u32,
    pub n_baro: u32,
    pub n_baro_rejected: u32,
    pub n_mag: u32,
    pub n_mag_rejected: u32,
    /// Components of the earth's field that were pulled back.
    pub n_mag_reanchored: u32,
    pub n_gps_pos: u32,
    pub n_gps_pos_rejected: u32,
    pub n_gps_vel: u32,
    pub n_gps_vel_rejected: u32,
    pub n_vio_refused: u32,
    pub n_rtk_refused: u32,
    pub n_airspeed_refused: u32,
}

/// The next count; after the largest, zero.
pub open spec fn counted(n: u32) -> u32 {
    if n == u32::MAX {
        0
    } else {
        (n + 1) as u32
    }
}

impl Counts {
    pub open spec fn none() -> Counts {
        Counts {
            n_step: 0,
            n_grav_applied: 0,
            n_grav_gated: 0,
            n_baro: 0,
            n_baro_rejected: 0,
            n_mag: 0,
            n_mag_rejected: 0,
            n_mag_reanchored: 0,
            n_gps_pos: 0,
            n_gps_pos_rejected: 0,
            n_gps_vel: 0,
            n_gps_vel_rejected: 0,
            n_vio_refused: 0,
            n_rtk_refused: 0,
            n_airspeed_refused: 0,
        }
    }
}

#[derive(Debug, Clone, Copy)]
pub struct EskfEstimator {
    pub f: Eskf,
    /// Gravity, downwards positive.
    pub g_ned: [Single; 3],
    /// The earth's magnetic field where the vehicle flies.
    pub mag_i_prior: [Single; 3],
    /// Whether the magnetic field was measured before.
    pub mag_first_done: bool,
    pub omega_body: [Single; 3],
    pub aid_div: u32,
    /// Every how many steps gravity and the magnetic field are taken.
    pub aid_period: u32,
    pub counts: Counts,
}

/// Whether gravity and the magnetic field are taken in a step; a period of zero counts
/// as one.
pub open spec fn aid_due(div: u32, period: u32) -> bool {
    div % (if period == 0 {
        1
    } else {
        period
    }) == 0
}

fn is_due(div: u32, period: u32) -> (r: bool)
    ensures
        r == aid_due(div, period),
{
    let p: u32 = if period == 0 {
        1
    } else {
        period
    };
    div % p == 0
}

/// The inertial increments of a step.
pub open spec fn increments(imu: ImuSample, dt: Single) -> ImuDelta {
    ImuDelta {
        delta_ang: [imu.gyro[0].0 * dt, imu.gyro[1].0 * dt, imu.gyro[2].0 * dt],
        delta_vel: [imu.accel[0].0 * dt, imu.accel[1].0 * dt, imu.accel[2].0 * dt],
    }
}

fn increments_of(imu: &ImuSample, dt: Single) -> (r: ImuDelta)
    ensures
        r == increments(*imu, dt),
{
    ImuDelta {
        delta_ang: [imu.gyro[0].0 * dt, imu.gyro[1].0 * dt, imu.gyro[2].0 * dt],
        delta_vel: [imu.accel[0].0 * dt, imu.accel[1].0 * dt, imu.accel[2].0 * dt],
    }
}

impl EskfEstimator {
    pub open spec fn fresh(f: Eskf, mag_i_prior: [Single; 3]) -> EskfEstimator {
        let z = Single::of_int(0);
        EskfEstimator {
            f,
            g_ned: [z, z, Single::of_ratio(981, 100)],
            mag_i_prior,
            mag_first_done: false,
            omega_body: [z, z, z],
            aid_div: 0,
            aid_period: 15,
            counts: Counts::none(),
        }
    }

    /// Whether the filter is as `Eskf::new` makes it.
    pub open spec fn starts(
        f: Eskf,
        q0: Quaternion,
        v0: [Single; 3],
        p0: [Single; 3],
        gate: Single,
    ) -> bool {
        &&& f.st == super::nominal::NominalState::without_bias(q0, v0, p0)
        &&& super::linear::rows(f.p) == super::nominal::block_diagonal(
            21,
            super::eskf::first_variances(),
        )
        &&& f.gate == gate
        &&& f.mag_i == [Single::of_ratio(2, 10), Single::of_int(0), Single::of_ratio(4, 10)]
        &&& f.mag_b == [Single::of_int(0), Single::of_int(0), Single::of_int(0)]
        &&& f.r_gps_p == Single::of_ratio(3, 10000)
        &&& f.r_gps_v == Single::of_ratio(25, 100)
        &&& f.r_baro == Single::of_ratio(15, 100000)
        &&& f.r_mag == Single::of_ratio(1, 100)
        &&& !f.yaw_aligned
        &&& !f.heading_guard
        &&& f.mag_applied == 0
        &&& f.mag_skipped == 0
        &&& !f.freeze_bias
    }

    pub fn new(
        q0: Quaternion,
        v0: [Single; 3],
        p0: [Single; 3],
        gate: Single,
        mag_i_prior: [Single; 3],
    ) -> (r: EskfEstimator)
        ensures
            EskfEstimator::starts(r.f, q0, v0, p0, gate),
            r == EskfEstimator::fresh(r.f, mag_i_prior),
    {
        let z: Single = Single::from_i32(0);
        EskfEstimator {
            f: Eskf::new(q0, v0, p0, gate),
            g_ned: [z, z, Single::ratio(981, 100)],
            mag_i_prior,
            mag_first_done: false,
            omega_body: [z, z, z],
            aid_div: 0,
            aid_period: 15,
            counts: Counts {
                n_step: 0,
                n_grav_applied: 0,
                n_grav_gated: 0,
                n_baro: 0,
                n_baro_rejected: 0,
                n_mag: 0,
                n_mag_rejected: 0,
                n_mag_reanchored: 0,
                n_gps_pos: 0,
                n_gps_pos_rejected: 0,
                n_gps_vel: 0,
                n_gps_vel_rejected: 0,
                n_vio_refused: 0,
                n_rtk_refused: 0,
                n_airspeed_refused: 0,
            },
        }
    }

    /// At rest at the origin, level.
    pub fn default_quad() -> (r: EskfEstimator)
        ensures
            ({
                let z = Single::of_int(0);
                let prior = [Single::of_ratio(2, 10), z, Single::of_ratio(4, 10)];
                &&& EskfEstimator::starts(
                    r.f,
                    Quaternion::unit(),
                    [z, z, z],
                    [z, z, z],
                    Single::of_int(5),
                )
                &&& r == EskfEstimator::fresh(r.f, prior)
            }),
    {
        let z: Single = Single::from_i32(0);
        EskfEstimator::new(
            Quaternion::identity(),
            [z, z, z],
            [z, z, z],
            Single::from_i32(5),
            [Single::ratio(2, 10), z, Single::ratio(4, 10)],
        )
    }

    /// The filter inside.
    pub fn filter(&self) -> (r: &Eskf)
        ensures
            *r == self.f,
    {
        &self.f
    }

    /// Where the step with the number `n` is recorded; four steps are.
    pub open spec fn record_slot(n: u32) -> Option<usize> {
        if n == 10 {
            Some(0)
        } else if n == 300 {
            Some(1)
        } else if n == 800 {
            Some(2)
        } else if n == 1500 {
            Some(3)
        } else {
            None
        }
    }

    /// What is recorded of a step: rates, specific force, attitude and gyroscope errors
    /// before it, the measured position down and north, with -999 where there is none, and
    /// the number of the step.
    pub open spec fn record_of(self, imu: ImuSample, pos: Option<PosSample>) -> Seq<Single> {
        let st = self.f.st;
        let none = Single::of_int(-999);
        seq![
            imu.gyro[0].0,
            imu.gyro[1].0,
            imu.gyro[2].0,
            imu.accel[0].0,
            imu.accel[1].0,
            imu.accel[2].0,
            st.q.w,
            st.q.x,
            st.q.y,
            st.q.z,
            st.bg[0],
            st.bg[1],
            st.bg[2],
            match pos {
                Some(p) => p.pos[2].0,
                None => none,
            },
            match pos {
                Some(p) => p.pos[0].0,
                None => none,
            },
            Single::of_int(counted(self.counts.n_step) as int),
        ]
    }

    /// The record of the step that is about to be made, where it is one to record, with
    /// its slot.
    pub fn record(&self, imu: &ImuSample, pos: &Option<PosSample>) -> (r: Option<
        (usize, [Single; 16]),
    >)
        ensures
            r is Some <==> Self::record_slot(counted(self.counts.n_step)) is Some,
            r matches Some(x) ==> {
                &&& Self::record_slot(counted(self.counts.n_step)) == Some(x.0)
                &&& x.1@ == self.record_of(*imu, *pos)
            },
    {
        let n: u32 = self.counts.n_step.wrapping_add(1);
        let slot: usize = match n {
            10 => 0,
            300 => 1,
            800 => 2,
            1500 => 3,
            _ => {
                return None;
            },
        };
        let none: Single = Single::from_i32(-999);
        let (down, north) = match pos {
            Some(p) => (p.pos[2].0, p.pos[0].0),
            None => (none, none),
        };
        let st = &self.f.st;
        let values: [Single; 16] = [
            imu.gyro[0].0,
            imu.gyro[1].0,
            imu.gyro[2].0,
            imu.accel[0].0,
            imu.accel[1].0,
            imu.accel[2].0,
            st.q.w,
            st.q.x,
            st.q.y,
            st.q.z,
            st.bg[0],
            st.bg[1],
            st.bg[2],
            down,
            north,
            Single::from_u64(n as u64),
        ];
        assert(values@ =~= self.record_of(*imu, *pos));
        Some((slot, values))
    }

    /// The turn of a step.
    pub fn turn(&self, dt: Second, imu: &ImuSample) -> (r: Option<Turn>)
        ensures
            r == self.f.st.turn_of(increments(*imu, dt.0).delta_ang, dt.0),
    {
        let d: ImuDelta = increments_of(imu, dt.0);
        self.f.turn(&d.delta_ang, dt.0)
    }

    /// Whether a step of inertial readings makes `after` of the estimator, where `half`
    /// belongs to the angle of the turn.
    pub open spec fn advances(
        self,
        dt: Second,
        imu: ImuSample,
        half: HalfAngle,
        after: EskfEstimator,
    ) -> bool {
        let d = increments(imu, dt.0);
        &&& super::linear::rows(after.f.p) == self.f.covariance_after(d, dt.0)
        &&& after == (EskfEstimator {
            f: Eskf {
                st: self.f.st.predicted(d, self.g_ned, dt.0, half),
                p: after.f.p,
                ..self.f
            },
            omega_body: [imu.gyro[0].0, imu.gyro[1].0, imu.gyro[2].0],
            aid_div: counted(self.aid_div),
            counts: Counts { n_step: counted(self.counts.n_step), ..self.counts },
            ..self
        })
    }

    /// Advances by one step of inertial readings, where `half` belongs to the angle of
    /// `turn`. Returns whether gravity is to be taken in this step.
    pub fn advance(&mut self, dt: Second, imu: &ImuSample, half: &HalfAngle) -> (due: bool)
        ensures
            old(self).advances(dt, *imu, *half, *final(self)),
            due == aid_due(counted(old(self).aid_div), old(self).aid_period),
    {
        self.counts.n_step = self.counts.n_step.wrapping_add(1);
        self.omega_body = [imu.gyro[0].0, imu.gyro[1].0, imu.gyro[2].0];
        let d: ImuDelta = increments_of(imu, dt.0);
        let g: [Single; 3] = self.g_ned;
        self.f.predict(&d, dt.0, &g, half);
        self.aid_div = self.aid_div.wrapping_add(1);
        is_due(self.aid_div, self.aid_period)
    }

    /// With the count of how taking gravity went.
    pub open spec fn gravity_noted(self, o: Result<u32, Refusal>) -> EskfEstimator {
        EskfEstimator {
            counts: match o {
                Ok(n) => if n > 0 {
                    Counts {
                        n_grav_applied: counted(self.counts.n_grav_applied),
                        ..self.counts
                    }
                } else {
                    self.counts
                },
                Err(_) => Counts {
                    n_grav_gated: counted(self.counts.n_grav_gated),
                    ..self.counts
                },
            },
            ..self
        }
    }

    /// Counts how taking gravity went: how many components were taken, or why none could
    /// be.
    pub fn note_gravity(&mut self, o: Result<u32, Refusal>)
        ensures
            *final(self) == old(self).gravity_noted(o),
    {
        match o {
            Ok(n) => {
                if n > 0 {
                    self.counts.n_grav_applied = self.counts.n_grav_applied.wrapping_add(1);
                }
            },
            Err(_) => {
                self.counts.n_grav_gated = self.counts.n_grav_gated.wrapping_add(1);
            },
        }
    }

    /// Whether taking the position of a fix finds the errors `o` and makes `after` of the
    /// estimator.
    pub open spec fn takes_position(
        self,
        p: PosSample,
        o: Option<ErrorState>,
        after: EskfEstimator,
    ) -> bool {
        let before = super::linear::rows(self.f.p);
        let meas = [p.pos[0].0, p.pos[1].0, p.pos[2].0];
        let residual = super::nominal::difference3(meas, self.f.st.p);
        let at = super::nominal::I_POS as int;
        let ok = super::nominal::picked_judgement(
            before,
            at,
            self.f.r_gps_p,
            residual@,
            self.f.gate,
        ) is Ok;
        &&& o is Some <==> ok
        &&& o matches Some(e) ==> {
            &&& e == super::nominal::picked_errors(before, at, self.f.r_gps_p, residual@)
            &&& super::linear::rows(after.f.p) == super::nominal::picked_covariance(
                before,
                at,
                self.f.r_gps_p,
            )
        }
        &&& !ok ==> after.f == self.f
        &&& after == (EskfEstimator {
            f: Eskf { p: after.f.p, ..self.f },
            counts: if ok {
                Counts { n_gps_pos: counted(self.counts.n_gps_pos), ..self.counts }
            } else {
                Counts { n_gps_pos_rejected: counted(self.counts.n_gps_pos_rejected), ..self.counts }
            },
            ..self
        })
    }

    /// Takes the position of a fix; the errors it finds are to be applied.
    pub fn take_position(&mut self, p: &PosSample) -> (o: Option<ErrorState>)
        ensures
            old(self).takes_position(*p, o, *final(self)),
    {
        let meas: [Single; 3] = [p.pos[0].0, p.pos[1].0, p.pos[2].0];
        match self.f.update_gps_pos(&meas) {
            Ok((_, e)) => {
                self.counts.n_gps_pos = self.counts.n_gps_pos.wrapping_add(1);
                Some(e)
            },
            Err(_) => {
                self.counts.n_gps_pos_rejected = self.counts.n_gps_pos_rejected.wrapping_add(1);
                None
            },
        }
    }

    /// Whether taking the velocity of a fix finds the errors `o` and makes `after` of the
    /// estimator.
    pub open spec fn takes_velocity(
        self,
        v: [MeterPerSecond; 3],
        o: Option<ErrorState>,
        after: EskfEstimator,
    ) -> bool {
        let before = super::linear::rows(self.f.p);
        let meas = [v[0].0, v[1].0, v[2].0];
        let residual = super::nominal::difference3(meas, self.f.st.v);
        let at = super::nominal::I_VEL as int;
        let ok = super::nominal::picked_judgement(
            before,
            at,
            self.f.r_gps_v,
            residual@,
            self.f.gate,
        ) is Ok;
        &&& o is Some <==> ok
        &&& o matches Some(e) ==> {
            &&& e == super::nominal::picked_errors(before, at, self.f.r_gps_v, residual@)
            &&& super::linear::rows(after.f.p) == super::nominal::picked_covariance(
                before,
                at,
                self.f.r_gps_v,
            )
        }
        &&& !ok ==> after.f == self.f
        &&& after == (EskfEstimator {
            f: Eskf { p: after.f.p, ..self.f },
            counts: if ok {
                Counts { n_gps_vel: counted(self.counts.n_gps_vel), ..self.counts }
            } else {
                Counts { n_gps_vel_rejected: counted(self.counts.n_gps_vel_rejected), ..self.counts }
            },
            ..self
        })
    }

    /// Takes the velocity of a fix; the errors it finds are to be applied.
    pub fn take_velocity(&mut self, v: &[MeterPerSecond; 3]) -> (o: Option<ErrorState>)
        ensures
            old(self).takes_velocity(*v, o, *final(self)),
    {
        let meas: [Single; 3] = [v[0].0, v[1].0, v[2].0];
        match self.f.update_gps_vel(&meas) {
            Ok((_, e)) => {
                self.counts.n_gps_vel = self.counts.n_gps_vel.wrapping_add(1);
                Some(e)
            },
            Err(_) => {
                self.counts.n_gps_vel_rejected = self.counts.n_gps_vel_rejected.wrapping_add(1);
                None
            },
        }
    }

    /// Whether taking a measured altitude finds the errors `o` and makes `after` of the
    /// estimator.
    pub open spec fn takes_altitude(
        self,
        alt: Single,
        o: Option<ErrorState>,
        after: EskfEstimator,
    ) -> bool {
        let before = super::linear::rows(self.f.p);
        let residual = alt - self.f.st.p[2].negated();
        let h = super::nominal::altitude_row(21);
        let ok = super::linear::judged(before, h, residual, self.f.r_baro, self.f.gate) is Ok;
        &&& o is Some <==> ok
        &&& o matches Some(e) ==> {
            &&& e == super::nominal::altitude_errors(before, self.f.r_baro, residual)
            &&& super::linear::rows(after.f.p) == super::linear::reduced(
                before,
                super::linear::gain(before, h, self.f.r_baro),
                h,
            )
        }
        &&& !ok ==> after.f == self.f
        &&& after == (EskfEstimator {
            f: Eskf { p: after.f.p, ..self.f },
            counts: if ok {
                Counts { n_baro: counted(self.counts.n_baro), ..self.counts }
            } else {
                Counts { n_baro_rejected: counted(self.counts.n_baro_rejected), ..self.counts }
            },
            ..self
        })
    }

    /// Takes a measured altitude; the errors it finds are to be applied.
    pub fn update_alt(&mut self, alt: Single) -> (o: Option<ErrorState>)
        ensures
            old(self).takes_altitude(alt, o, *final(self)),
    {
        match self.f.update_baro(alt) {
            Ok((_, e)) => {
                self.counts.n_baro = self.counts.n_baro.wrapping_add(1);
                Some(e)
            },
            Err(_) => {
                self.counts.n_baro_rejected = self.counts.n_baro_rejected.wrapping_add(1);
                None
            },
        }
    }

    /// What is left of an airspeed: its count.
    pub open spec fn airspeed_noted(self, airspeed: Option<AirspeedSample>) -> EskfEstimator {
        EskfEstimator {
            counts: if airspeed is Some {
                Counts {
                    n_airspeed_refused: counted(self.counts.n_airspeed_refused),
                    ..self.counts
                }
            } else {
                self.counts
            },
            ..self
        }
    }

    /// Counts an airspeed, which is not supported.
    pub fn note_airspeed(&mut self, airspeed: Option<AirspeedSample>)
        ensures
            *final(self) == old(self).airspeed_noted(airspeed),
    {
        if airspeed.is_some() {
            self.counts.n_airspeed_refused = self.counts.n_airspeed_refused.wrapping_add(1);
        }
    }

    /// Whether preparing to take the magnetic field `m` makes `after` of the estimator: the
    /// first one sets the magnetic fields of the filter, unless they are switched off.
    pub open spec fn prepares_field(
        self,
        m: [Single; 3],
        t: EskfTuning,
        after: EskfEstimator,
    ) -> bool {
        let e = self.f.st.q.conjugate().rotated(self.mag_i_prior@);
        if self.mag_first_done {
            after == self
        } else if t.magnetic_off() {
            after == (EskfEstimator { mag_first_done: true, ..self })
        } else {
            &&& super::linear::rows(after.f.p) == super::eskf::unmagnetic(
                super::linear::rows(self.f.p),
                self.f.r_mag,
            )
            &&& after == (EskfEstimator {
                f: Eskf {
                    mag_i: self.mag_i_prior,
                    mag_b: [m[0] - e[0], m[1] - e[1], m[2] - e[2]],
                    p: after.f.p,
                    yaw_aligned: true,
                    ..self.f
                },
                mag_first_done: true,
                ..self
            })
        }
    }

    /// Prepares to take a magnetic field.
    pub fn begin_mag(&mut self, m: &[Single; 3], t: &EskfTuning)
        ensures
            old(self).prepares_field(*m, *t, *final(self)),
    {
        if !self.mag_first_done {
            let prior: [Single; 3] = self.mag_i_prior;
            self.f.reset_mag_states(m, &prior, t);
            self.mag_first_done = true;
        }
    }

    /// With the filter `f`, in which `n` components of the earth's field were pulled back.
    pub open spec fn reanchored(self, f: Eskf, n: u32) -> EskfEstimator {
        EskfEstimator {
            f,
            counts: Counts {
                n_mag_reanchored: self.counts.n_mag_reanchored.wrapping_add(n),
                ..self.counts
            },
            ..self
        }
    }

    /// Goes on with the filter `f`, in which `n` components of the earth's field were pulled
    /// back.
    pub fn reanchor(&mut self, f: &Eskf, n: u32)
        ensures
            *final(self) == old(self).reanchored(*f, n),
    {
        self.f = *f;
        self.counts.n_mag_reanchored = self.counts.n_mag_reanchored.wrapping_add(n);
    }

    /// Whether the components of a magnetic field are to be taken in this step.
    pub fn mag_due(&self) -> (due: bool)
        ensures
            due == aid_due(self.aid_div, self.aid_period),
    {
        is_due(self.aid_div, self.aid_period)
    }

    /// With the count of a magnetic field.
    pub open spec fn field_noted(self, taken: bool) -> EskfEstimator {
        EskfEstimator {
            counts: if taken {
                Counts { n_mag: counted(self.counts.n_mag), ..self.counts }
            } else {
                Counts { n_mag_rejected: counted(self.counts.n_mag_rejected), ..self.counts }
            },
            ..self
        }
    }

    /// Counts a magnetic field: whether it could be taken at all.
    pub fn note_mag(&mut self, taken: bool)
        ensures
            *final(self) == old(self).field_noted(taken),
    {
        if taken {
            self.counts.n_mag = self.counts.n_mag.wrapping_add(1);
        } else {
            self.counts.n_mag_rejected = self.counts.n_mag_rejected.wrapping_add(1);
        }
    }

    /// As at the start with the filter `f`; the settings and the counts stay.
    pub open spec fn restarted(self, f: Eskf) -> EskfEstimator {
        let z = Single::of_int(0);
        EskfEstimator { f, mag_first_done: false, omega_body: [z, z, z], aid_div: 0, ..self }
    }

    /// Whether the filter is at rest at the origin, level.
    pub open spec fn at_rest(f: Eskf) -> bool {
        let z = Single::of_int(0);
        EskfEstimator::starts(f, Quaternion::unit(), [z, z, z], [z, z, z], Single::of_int(5))
    }

    /// Starts anew at rest at the origin, level.
    pub fn reset(&mut self)
        ensures
            EskfEstimator::at_rest(final(self).f),
            *final(self) == old(self).restarted(final(self).f),
    {
        let z: Single = Single::from_i32(0);
        self.f = Eskf::new(Quaternion::identity(), [z, z, z], [z, z, z], Single::from_i32(5));
        self.mag_first_done = false;
        self.omega_body = [z, z, z];
        self.aid_div = 0;
    }

    pub open spec fn turned_to(self, q: Quaternion) -> EskfEstimator {
        EskfEstimator {
            f: Eskf { st: super::nominal::NominalState { q, ..self.f.st }, ..self.f },
            ..self
        }
    }

    pub open spec fn placed(self, ned: [Single; 3]) -> EskfEstimator {
        EskfEstimator {
            f: Eskf { st: super::nominal::NominalState { p: ned, ..self.f.st }, ..self.f },
            ..self
        }
    }

    /// What is left of visual odometry: its count.
    pub open spec fn without_odometry(self, vio: Option<VioSample>) -> EskfEstimator {
        EskfEstimator {
            counts: if vio is Some {
                Counts { n_vio_refused: counted(self.counts.n_vio_refused), ..self.counts }
            } else {
                self.counts
            },
            ..self
        }
    }

    /// What is left of a precise position: its count.
    pub open spec fn without_precise(self, rtk: Option<RtkSample>) -> EskfEstimator {
        EskfEstimator {
            counts: if rtk is Some {
                Counts { n_rtk_refused: counted(self.counts.n_rtk_refused), ..self.counts }
            } else {
                self.counts
            },
            ..self
        }
    }

    /// Sets the attitude where the filter starts.
    pub fn set_initial_attitude(&mut self, q: Quaternion)
        ensures
            *final(self) == old(self).turned_to(q),
    {
        self.f.st.q = q;
    }

    /// Sets the position where the filter starts.
    pub fn set_initial_position(&mut self, ned: [Single; 3])
        ensures
            *final(self) == old(self).placed(ned),
    {
        self.f.st.p = ned;
    }

    /// Counts visual odometry, which is not supported.
    pub fn update_vio(&mut self, vio: Option<VioSample>)
        ensures
            *final(self) == old(self).without_odometry(vio),
    {
        if vio.is_some() {
            self.counts.n_vio_refused = self.counts.n_vio_refused.wrapping_add(1);
        }
    }

    /// Counts a precise position, which is not supported.
    pub fn update_rtk(&mut self, rtk: Option<RtkSample>)
        ensures
            *final(self) == old(self).without_precise(rtk),
    {
        if rtk.is_some() {
            self.counts.n_rtk_refused = self.counts.n_rtk_refused.wrapping_add(1);
        }
    }

    pub open spec fn shown(self) -> VehicleState {
        let st = self.f.st;
        VehicleState {
            time_boot_ms: 0,
            pos: [Meter(st.p[0]), Meter(st.p[1]), Meter(st.p[2])],
            vel: [MeterPerSecond(st.v[0]), MeterPerSecond(st.v[1]), MeterPerSecond(st.v[2])],
            att: st.q,
            omega: [
                RadianPerSecond(self.omega_body[0]),
                RadianPerSecond(self.omega_body[1]),
                RadianPerSecond(self.omega_body[2]),
            ],
            airspeed: MeterPerSecond(Single::of_int(0)),
            accel_bias: st.ba,
        }
    }

    /// What is estimated now.
    pub fn state(&self) -> (r: VehicleState)
        ensures
            r == self.shown(),
    {
        let p: [Single; 3] = self.f.st.p;
        let v: [Single; 3] = self.f.st.v;
        VehicleState {
            time_boot_ms: 0,
            pos: [Meter(p[0]), Meter(p[1]), Meter(p[2])],
            vel: [MeterPerSecond(v[0]), MeterPerSecond(v[1]), MeterPerSecond(v[2])],
            att: self.f.st.q,
            omega: [
                RadianPerSecond(self.omega_body[0]),
                RadianPerSecond(self.omega_body[1]),
                RadianPerSecond(self.omega_body[2]),
            ],
            airspeed: MeterPerSecond(Single::from_i32(0)),
            accel_bias: self.f.st.ba,
        }
    }

    /// The estimated error of the accelerometer.
    pub fn accel_bias(&self) -> (r: [Single; 3])
        ensures
            r == self.f.st.ba,
    {
        self.f.st.ba
    }
}

} // verus!
