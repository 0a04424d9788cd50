//! Learned corrections on top of an estimator.

use crate::single::Single;
use crate::units::{Meter, MeterPerSecond};
use crate::vehicle::{ImuSample, PosSample, VehicleState};
use vstd::prelude::*;

verus! {

/// A model of what an estimator gets wrong. One that says nothing else corrects nothing
/// and learns nothing.
pub trait ResidualModel: Sized {
    /// Whether learning from a step can make `after` of the model.
    open spec fn learns(
        self,
        estimate: VehicleState,
        imu: ImuSample,
        gps: Option<PosSample>,
        after: Self,
    ) -> bool {
        true
    }

    /// The correction of position and velocity.
    fn correct(&self, _estimate: &VehicleState, _imu: &ImuSample, _gps: &Option<PosSample>) -> (r: (
        [Single; 3],
        [Single; 3],
    ))
        default_ensures
            r == no_correction(),
    {
        let z: Single = Single::from_i32(0);
        ([z, z, z], [z, z, z])
    }

    /// Learns from a step, or leaves the model as it is.
    fn adapt(&mut self, _estimate: &VehicleState, _imu: &ImuSample, _gps: &Option<PosSample>)
        ensures
            *final(self) == *old(self) || old(self).learns(
                *_estimate,
                *_imu,
                *_gps,
                *final(self),
            ),
        default_ensures
            *final(self) == *old(self),
    {
    }
}

/// Zeros for position and velocity.
pub open spec fn no_correction() -> ([Single; 3], [Single; 3]) {
    let z = Single::of_int(0);
    ([z, z, z], [z, z, z])
}

/// Whether `c` is a correction that the model gives.
pub open spec fn gives<R: ResidualModel>(
    model: R,
    estimate: VehicleState,
    imu: ImuSample,
    gps: Option<PosSample>,
    c: ([Single; 3], [Single; 3]),
) -> bool {
    call_ensures(R::correct, (&model, &estimate, &imu, &gps), c)
}

/// The model that corrects nothing.
#[derive(Debug, Clone, Copy)]
pub struct NullResidual;

impl Default for NullResidual {
    fn default() -> (r: NullResidual)
        ensures
            r == NullResidual,
    {
        NullResidual
    }
}

impl ResidualModel for NullResidual {
    open spec fn learns(
        self,
        estimate: VehicleState,
        imu: ImuSample,
        gps: Option<PosSample>,
        after: NullResidual,
    ) -> bool {
        false
    }
}

/// The model that corrects by a constant.
#[derive(Debug, Clone, Copy)]
pub struct BiasResidual {
    pub pos_bias: [Single; 3],
    pub vel_bias: [Single; 3],
}

impl Default for BiasResidual {
    fn default() -> (r: BiasResidual)
        ensures
            (r.pos_bias, r.vel_bias) == no_correction(),
    {
        let z: Single = Single::from_i32(0);
        BiasResidual { pos_bias: [z, z, z], vel_bias: [z, z, z] }
    }
}

impl ResidualModel for BiasResidual {
    open spec fn learns(
        self,
        estimate: VehicleState,
        imu: ImuSample,
        gps: Option<PosSample>,
        after: BiasResidual,
    ) -> bool {
        false
    }

    fn correct(&self, _estimate: &VehicleState, _imu: &ImuSample, _gps: &Option<PosSample>) -> (r: (
        [Single; 3],
        [Single; 3],
    ))
        ensures
            r == (self.pos_bias, self.vel_bias),
    {
        (self.pos_bias, self.vel_bias)
    }
}

/// The state with corrections added to position and velocity.
pub open spec fn corrected(st: VehicleState, c: ([Single; 3], [Single; 3])) -> VehicleState {
    VehicleState {
        pos: [
            Meter(st.pos[0].0 + c.0[0]),
            Meter(st.pos[1].0 + c.0[1]),
            Meter(st.pos[2].0 + c.0[2]),
        ],
        vel: [
            MeterPerSecond(st.vel[0].0 + c.1[0]),
            MeterPerSecond(st.vel[1].0 + c.1[1]),
            MeterPerSecond(st.vel[2].0 + c.1[2]),
        ],
        ..st
    }
}

/// Corrects the estimates of another estimator.
#[derive(Debug)]
pub struct LearningEstimator<R: ResidualModel> {
    pub residual: R,
}

impl<R: ResidualModel> LearningEstimator<R> {
    pub fn new(residual: R) -> (r: LearningEstimator<R>)
        ensures
            r.residual == residual,
    {
        LearningEstimator { residual }
    }

    /// Corrects an estimate, and learns from the corrected one.
    pub fn step(&mut self, base: VehicleState, imu: &ImuSample, gps: &Option<PosSample>) -> (st:
        VehicleState)
        ensures
            exists|c: ([Single; 3], [Single; 3])| #[trigger]
                gives(old(self).residual, base, *imu, *gps, c) && st == corrected(base, c),
            exists|m: &mut R| #[trigger]
                call_ensures(R::adapt, (m, &st, imu, gps), ()) && *m == old(self).residual
                    && *final(m) == final(self).residual,
            final(self).residual == old(self).residual || old(self).residual.learns(
                st,
                *imu,
                *gps,
                final(self).residual,
            ),
    {
        let c: ([Single; 3], [Single; 3]) = self.residual.correct(&base, imu, gps);
        assert(gives(self.residual, base, *imu, *gps, c));
        let (dp, dv) = c;
        let mut st: VehicleState = base;
        st.pos = [
            Meter(base.pos[0].0 + dp[0]),
            Meter(base.pos[1].0 + dp[1]),
            Meter(base.pos[2].0 + dp[2]),
        ];
        st.vel = [
            MeterPerSecond(base.vel[0].0 + dv[0]),
            MeterPerSecond(base.vel[1].0 + dv[1]),
            MeterPerSecond(base.vel[2].0 + dv[2]),
        ];
        self.residual.adapt(&st, imu, gps);
        st
    }
}

/// The model that corrects nothing leaves every position and velocity the number it was.
pub proof fn law_null_corrects_nothing(
    base: VehicleState,
    imu: ImuSample,
    gps: Option<PosSample>,
    c: ([Single; 3], [Single; 3]),
    i: int,
)
    requires
        gives(NullResidual, base, imu, gps, c),
        0 <= i < 3,
        !base.pos[i].0.nan(),
        !base.vel[i].0.nan(),
    ensures
        corrected(base, c).pos[i].0.same(base.pos[i].0),
        corrected(base, c).vel[i].0.same(base.vel[i].0),
{
    crate::single::laws::law_zero_is_neutral(base.pos[i].0);
    crate::single::laws::law_zero_is_neutral(base.vel[i].0);
}

/// A known constant error is added back exactly.
pub proof fn law_bias_is_added(
    model: BiasResidual,
    base: VehicleState,
    imu: ImuSample,
    gps: Option<PosSample>,
    c: ([Single; 3], [Single; 3]),
    i: int,
)
    requires
        gives(model, base, imu, gps, c),
        0 <= i < 3,
    ensures
        corrected(base, c).pos[i].0 == base.pos[i].0 + model.pos_bias[i],
        corrected(base, c).vel[i].0 == base.vel[i].0 + model.vel_bias[i],
{
}

} // verus!
