//! Which estimator the product uses.

use super::ekf::{EkfEstimator, EkfModel, EkfTuning};
use super::eskf_estimator::EskfEstimator;
use super::nominal::{ErrorState, HalfAngle};
use crate::single::Single;
use crate::vehicle::{Quaternion, RtkSample, VehicleState, VioSample};
use vstd::prelude::*;

verus! {

/// One of the two estimators.
#[derive(Debug)]
pub enum AnyEstimator {
    /// The error state filter, which is the default.
    Eskf(EskfEstimator),
    /// The filter with fixed anchors, to fall back to and to compare with.
    Legacy(EkfEstimator),
}

impl AnyEstimator {
    /// The estimator of the product.
    pub fn default_product() -> (r: AnyEstimator)
        ensures
            r matches AnyEstimator::Eskf(e) && {
                let z = Single::of_int(0);
                &&& EskfEstimator::starts(
                    e.f,
                    Quaternion::unit(),
                    [z, z, z],
                    [z, z, z],
                    Single::of_int(5),
                )
                &&& e == EskfEstimator::fresh(
                    e.f,
                    [Single::of_ratio(2, 10), z, Single::of_ratio(4, 10)],
                )
            },
    {
        AnyEstimator::Eskf(EskfEstimator::default_quad())
    }

    /// The estimator to fall back to.
    pub fn legacy() -> (r: AnyEstimator)
        ensures
            r matches AnyEstimator::Legacy(e) && e@ == EkfEstimator::fresh(
                EkfEstimator::side_of(
                    Single::of_ratio(2, 100),
                    Single::of_ratio(5, 10),
                    Single::of_ratio(5, 100),
                    Single::of_ratio(1, 100_000),
                    Single::of_ratio(5, 10000),
                    Single::of_ratio(5, 10),
                    Single::of_ratio(3, 10),
                    Single::of_ratio(3, 10),
                ),
            ),
    {
        AnyEstimator::Legacy(EkfEstimator::default_quad())
    }

    /// The name of the estimator in use.
    pub fn kind(&self) -> (r: &'static str)
        ensures
            r@ == if self is Eskf {
                "eskf"@
            } else {
                "legacy"@
            },
    {
        match self {
            AnyEstimator::Eskf(_) => "eskf",
            AnyEstimator::Legacy(_) => "legacy",
        }
    }

    /// Starts the estimator anew.
    pub fn reset(&mut self)
        ensures
            *final(self) is Eskf <==> *old(self) is Eskf,
            *old(self) is Eskf ==> {
                let a = old(self)->Eskf_0;
                let b = final(self)->Eskf_0;
                &&& EskfEstimator::at_rest(b.f)
                &&& b == a.restarted(b.f)
            },
            *old(self) is Legacy ==> final(self)->Legacy_0@ == EkfEstimator::fresh(
                old(self)->Legacy_0@.side.forgotten(),
            ),
    {
        match self {
            AnyEstimator::Eskf(e) => e.reset(),
            AnyEstimator::Legacy(e) => e.reset(),
        }
    }

    /// Whether this is `eskf` or `legacy`, whichever is in use.
    pub open spec fn is_now(self, eskf: EskfEstimator, legacy: EkfModel) -> bool {
        match self {
            AnyEstimator::Eskf(e) => e == eskf,
            AnyEstimator::Legacy(e) => e@ == legacy,
        }
    }

    /// Sets the attitude where the estimator starts.
    pub fn set_initial_attitude(&mut self, q: Quaternion)
        ensures
            *final(self) is Eskf <==> *old(self) is Eskf,
            final(self).is_now(
                old(self)->Eskf_0.turned_to(q),
                EkfModel { att: q.unit_of(), ..old(self)->Legacy_0@ },
            ),
    {
        match self {
            AnyEstimator::Eskf(e) => e.set_initial_attitude(q),
            AnyEstimator::Legacy(e) => e.set_initial_attitude(q),
        }
    }

    /// Sets the position where the estimator starts.
    pub fn set_initial_position(&mut self, ned: [Single; 3])
        ensures
            *final(self) is Eskf <==> *old(self) is Eskf,
            final(self).is_now(old(self)->Eskf_0.placed(ned), old(self)->Legacy_0@.placed(ned)),
    {
        match self {
            AnyEstimator::Eskf(e) => e.set_initial_position(ned),
            AnyEstimator::Legacy(e) => e.set_initial_position(ned),
        }
    }

    /// Takes what visual odometry gives, where it is supported.
    pub fn update_vio(&mut self, vio: Option<VioSample>, t: &EkfTuning)
        ensures
            *final(self) is Eskf <==> *old(self) is Eskf,
            final(self).is_now(
                old(self)->Eskf_0.without_odometry(vio),
                old(self)->Legacy_0@.with_odometry(vio, *t),
            ),
    {
        match self {
            AnyEstimator::Eskf(e) => e.update_vio(vio),
            AnyEstimator::Legacy(e) => e.update_vio(vio, t),
        }
    }

    /// Takes a precise position, where it is supported.
    pub fn update_rtk(&mut self, rtk: Option<RtkSample>)
        ensures
            *final(self) is Eskf <==> *old(self) is Eskf,
            final(self).is_now(
                old(self)->Eskf_0.without_precise(rtk),
                old(self)->Legacy_0@.with_precise(rtk),
            ),
    {
        match self {
            AnyEstimator::Eskf(e) => e.update_rtk(rtk),
            AnyEstimator::Legacy(e) => e.update_rtk(rtk),
        }
    }

    /// Takes a measured altitude, upwards. The errors that it finds, if any, are to be
    /// applied.
    pub fn update_alt(&mut self, alt: Single, t: &EkfTuning) -> (o: Option<ErrorState>)
        ensures
            *final(self) is Eskf <==> *old(self) is Eskf,
            *old(self) is Eskf ==> old(self)->Eskf_0.takes_altitude(alt, o, final(self)->Eskf_0),
            *old(self) is Legacy ==> {
                &&& o is None
                &&& final(self)->Legacy_0@ == old(self)->Legacy_0@.with_altitude(alt, *t)
            },
    {
        match self {
            AnyEstimator::Eskf(e) => e.update_alt(alt),
            AnyEstimator::Legacy(e) => {
                e.update_alt(alt, t);
                None
            },
        }
    }

    /// Applies errors that a measurement found, where `half` belongs to the angle of their
    /// turn. The filter with fixed anchors finds none to apply.
    pub fn apply(&mut self, errors: &ErrorState, half: &HalfAngle)
        ensures
            *final(self) is Eskf <==> *old(self) is Eskf,
            final(self).is_now(
                super::eskf_step::settled(old(self)->Eskf_0, Some(*errors), *half),
                old(self)->Legacy_0@,
            ),
    {
        if let AnyEstimator::Eskf(e) = self {
            e.f.apply(errors, half);
        }
    }

    /// What is estimated now.
    pub fn state(&self) -> (r: VehicleState)
        ensures
            r == match *self {
                AnyEstimator::Eskf(e) => e.shown(),
                AnyEstimator::Legacy(e) => e@.shown(
                    [e.x[3] * Single::of_int(0), Single::of_int(0), Single::of_int(0)],
                ),
            },
    {
        match self {
            AnyEstimator::Eskf(e) => e.state(),
            AnyEstimator::Legacy(e) => e.state(),
        }
    }

    /// The estimated error of the accelerometer.
    pub fn accel_bias(&self) -> (r: [Single; 3])
        ensures
            r == match *self {
                AnyEstimator::Eskf(e) => e.f.st.ba,
                AnyEstimator::Legacy(e) => [Single::of_int(0), Single::of_int(0), e.x[9]],
            },
    {
        match self {
            AnyEstimator::Eskf(e) => e.accel_bias(),
            AnyEstimator::Legacy(e) => e.accel_bias(),
        }
    }
}

} // verus!
