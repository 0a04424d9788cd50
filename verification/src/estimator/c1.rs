//! The error state filter of fifteen elements: attitude, velocity, position and the
//! errors of gyroscope and accelerometer.

use super::linear::{predict_covariance, Refusal};
use super::nominal::{
    diagonal_blocks, inject_error, measure_altitude, measure_three, rot_of, sub_vectors,
    transition_matrix, unbiased_rate, ErrorState, HalfAngle, ImuDelta, NominalState, Turn, I_POS,
    I_VEL,
};
use crate::single::Single;
use crate::vehicle::Quaternion;
use vstd::prelude::*;

verus! {

/// The elements of the error state.
pub const N: usize = 15;

/// The nominal state of the filter.
pub type C1State = NominalState;

#[derive(Debug, Clone, Copy)]
pub struct C1Filter {
    pub st: C1State,
    pub p: [[Single; 15]; 15],
    /// How many standard deviations an innovation may be.
    pub gate: Single,
    pub r_gps_p: Single,
    pub r_gps_v: Single,
    pub r_baro: Single,
}

/// The variances of the blocks at the start.
pub open spec fn first_variances() -> Seq<Single> {
    seq![
        Single::of_ratio(1, 100),
        Single::of_int(1),
        Single::of_int(25),
        Single::of_ratio(1, 10000),
        Single::of_ratio(1, 100),
    ]
}

/// The noise of the blocks in one step.
pub open spec fn step_noise(dt: Single) -> Seq<Single> {
    seq![
        Single::of_ratio(1, 1_000_000) * dt,
        Single::of_ratio(1, 100) * dt,
        Single::of_ratio(1, 10000) * dt,
        Single::of_ratio(1, 100_000_000) * dt,
        Single::of_ratio(1, 1_000_000) * dt,
    ]
}

impl C1Filter {
    pub fn new(q0: Quaternion, v0: [Single; 3], p0: [Single; 3], gate: Single) -> (r: C1Filter)
        ensures
            r.st == NominalState::without_bias(q0, v0, p0),
            super::linear::rows(r.p) == super::nominal::block_diagonal(15, first_variances()),
            r.gate == gate,
            r.r_gps_p == Single::of_int(2),
            r.r_gps_v == Single::of_ratio(25, 100),
            r.r_baro == Single::of_ratio(25, 100),
    {
        let d: [Single; 5] = [
            Single::ratio(1, 100),
            Single::from_i32(1),
            Single::from_i32(25),
            Single::ratio(1, 10000),
            Single::ratio(1, 100),
        ];
        assert(d@ =~= first_variances());
        C1Filter {
            st: NominalState::new(q0, v0, p0),
            p: diagonal_blocks(&d),
            gate,
            r_gps_p: Single::from_i32(2),
            r_gps_v: Single::ratio(25, 100),
            r_baro: Single::ratio(25, 100),
        }
    }

    /// The covariance after a step.
    pub open spec fn covariance_after(self, imu: ImuDelta, dt: Single) -> Seq<Seq<Single>> {
        let w = super::nominal::rate_of(imu.delta_ang, dt, self.st.bg);
        let f = super::nominal::rate_of(imu.delta_vel, dt, self.st.ba);
        super::linear::propagated(
            super::linear::rows(self.p),
            super::nominal::transition(
                15,
                w@,
                dt,
                super::nominal::rotation_of(self.st.q),
                self.st.q.rotated(f@),
            ),
            super::nominal::block_diagonal(15, step_noise(dt)),
        )
    }

    /// The turn of a step.
    pub fn turn(&self, delta_ang: &[Single; 3], dt: Single) -> (r: Option<Turn>)
        ensures
            r == self.st.turn_of(*delta_ang, dt),
    {
        self.st.turn(delta_ang, dt)
    }

    /// Advances covariance and state by one step, where `half` belongs to the angle of
    /// `turn`.
    pub fn predict(&mut self, imu: &ImuDelta, dt: Single, g: &[Single; 3], half: &HalfAngle)
        ensures
            super::linear::rows(final(self).p) == old(self).covariance_after(*imu, dt),
            *final(self) == (C1Filter {
                st: old(self).st.predicted(*imu, *g, dt, *half),
                p: final(self).p,
                ..*old(self)
            }),
    {
        let w: [Single; 3] = unbiased_rate(&imu.delta_ang, dt, &self.st.bg);
        let f_body: [Single; 3] = unbiased_rate(&imu.delta_vel, dt, &self.st.ba);
        let r: [[Single; 3]; 3] = rot_of(&self.st.q);
        let fm: [[Single; 15]; 15] = transition_matrix(&self.st.q, &w, dt, &r, f_body);
        let d: [Single; 5] = [
            Single::ratio(1, 1_000_000) * dt,
            Single::ratio(1, 100) * dt,
            Single::ratio(1, 10000) * dt,
            Single::ratio(1, 100_000_000) * dt,
            Single::ratio(1, 1_000_000) * dt,
        ];
        assert(d@ =~= step_noise(dt));
        let q: [[Single; 15]; 15] = diagonal_blocks(&d);
        self.p = predict_covariance(&self.p, &fm, &q);
        self.st.predict(imu, g, dt, half);
    }

    /// Adds the errors that a measurement found, where `half` belongs to their turn.
    pub fn apply(&mut self, e: &ErrorState, half: &HalfAngle)
        ensures
            *final(self) == (C1Filter { st: old(self).st.injected(*e, *half), ..*old(self) }),
    {
        inject_error(&mut self.st, e, half);
    }

    /// Takes a measured position; the errors it finds are to be applied.
    pub fn update_gps_pos(&mut self, meas: &[Single; 3]) -> (o: Result<
        (Single, ErrorState),
        Refusal,
    >)
        ensures
            ({
                let c = *old(self);
                let before = super::linear::rows(c.p);
                let residual = super::nominal::difference3(*meas, c.st.p);
                let j = super::nominal::picked_judgement(
                    before,
                    I_POS as int,
                    c.r_gps_p,
                    residual@,
                    c.gate,
                );
                &&& o is Ok <==> j is Ok
                &&& o matches Err(e) ==> j == Err::<Single, Refusal>(e)
                &&& o matches Ok(x) ==> {
                    &&& j == Ok::<Single, Refusal>(x.0)
                    &&& x.1 == super::nominal::picked_errors(
                        before,
                        I_POS as int,
                        c.r_gps_p,
                        residual@,
                    )
                    &&& super::linear::rows(final(self).p) == super::nominal::picked_covariance(
                        before,
                        I_POS as int,
                        c.r_gps_p,
                    )
                    &&& *final(self) == (C1Filter { p: final(self).p, ..c })
                }
            }),
            o is Err ==> *final(self) == *old(self),
    {
        let residual: [Single; 3] = sub_vectors(meas, &self.st.p);
        measure_three(&mut self.p, I_POS, &residual, self.r_gps_p, self.gate)
    }

    /// Takes a measured velocity; the errors it finds are to be applied.
    pub fn update_gps_vel(&mut self, meas: &[Single; 3]) -> (o: Result<
        (Single, ErrorState),
        Refusal,
    >)
        ensures
            ({
                let c = *old(self);
                let before = super::linear::rows(c.p);
                let residual = super::nominal::difference3(*meas, c.st.v);
                let j = super::nominal::picked_judgement(
                    before,
                    I_VEL as int,
                    c.r_gps_v,
                    residual@,
                    c.gate,
                );
                &&& o is Ok <==> j is Ok
                &&& o matches Err(e) ==> j == Err::<Single, Refusal>(e)
                &&& o matches Ok(x) ==> {
                    &&& j == Ok::<Single, Refusal>(x.0)
                    &&& x.1 == super::nominal::picked_errors(
                        before,
                        I_VEL as int,
                        c.r_gps_v,
                        residual@,
                    )
                    &&& super::linear::rows(final(self).p) == super::nominal::picked_covariance(
                        before,
                        I_VEL as int,
                        c.r_gps_v,
                    )
                    &&& *final(self) == (C1Filter { p: final(self).p, ..c })
                }
            }),
            o is Err ==> *final(self) == *old(self),
    {
        let residual: [Single; 3] = sub_vectors(meas, &self.st.v);
        measure_three(&mut self.p, I_VEL, &residual, self.r_gps_v, self.gate)
    }

    /// Takes a measured altitude; the errors it finds are to be applied.
    pub fn update_baro(&mut self, alt: Single) -> (o: Result<(Single, ErrorState), Refusal>)
        ensures
            ({
                let c = *old(self);
                let before = super::linear::rows(c.p);
                let residual = alt - c.st.p[2].negated();
                let h = super::nominal::altitude_row(15);
                let j = super::linear::judged(before, h, residual, c.r_baro, c.gate);
                &&& o is Ok <==> j is Ok
                &&& o matches Err(e) ==> j == Err::<Single, Refusal>(e)
                &&& o matches Ok(x) ==> {
                    &&& j == Ok::<Single, Refusal>(x.0)
                    &&& x.1 == super::nominal::altitude_errors(before, c.r_baro, residual)
                    &&& super::linear::rows(final(self).p) == super::linear::reduced(
                        before,
                        super::linear::gain(before, h, c.r_baro),
                        h,
                    )
                    &&& *final(self) == (C1Filter { p: final(self).p, ..c })
                }
            }),
            o is Err ==> *final(self) == *old(self),
    {
        let residual: Single = alt - self.st.p[2].negate();
        measure_altitude(&mut self.p, residual, self.r_baro, self.gate)
    }
}

} // verus!
