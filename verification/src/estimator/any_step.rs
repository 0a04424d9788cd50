//! Whole steps of whichever estimator is in use.
//!
//! A step is run as: begin, then `next` with the half angle of `turn` until it says that
//! the step is over. What is estimated then stands in the step.

use super::ekf::{Anchor, EkfEstimator, EkfTuning};
use super::eskf::EskfTuning;
use super::eskf_estimator::EskfEstimator;
use super::eskf_step::EskfStep;
use super::nominal::{HalfAngle, Turn};
use super::select::AnyEstimator;
use crate::single::Single;
use crate::units::Second;
use crate::vehicle::{AirspeedSample, ImuSample, PosSample, VehicleState};
use vstd::prelude::*;

verus! {

/// What a step of both estimators is made of.
#[derive(Debug, Clone, Copy)]
pub struct StepInput {
    pub dt: Second,
    pub imu: ImuSample,
    pub pos: Option<PosSample>,
    pub airspeed: Option<AirspeedSample>,
}

/// A step and how far it is.
#[derive(Debug, Clone, Copy)]
pub enum AnyStep {
    /// The error state filter has yet to advance.
    Ahead(StepInput, EskfTuning),
    /// The error state filter takes its measurements.
    Eskf(EskfStep),
    /// The filter with fixed anchors has integrated the rates.
    Legacy(StepInput, Anchor, EkfTuning),
    /// It is over, with this estimate.
    Done(VehicleState),
}

impl AnyStep {
    /// Whether the step is one of the estimator.
    pub open spec fn fits(self, est: AnyEstimator) -> bool {
        match self {
            AnyStep::Ahead(_, _) => est is Eskf,
            AnyStep::Eskf(step) => est is Eskf && step.valid(),
            AnyStep::Legacy(_, _, _) => est is Legacy,
            AnyStep::Done(_) => true,
        }
    }

    /// Begins a step.
    pub fn begin(est: &mut AnyEstimator, x: &StepInput, te: &EkfTuning, ts: &EskfTuning) -> (r:
        AnyStep)
        ensures
            r.fits(*final(est)),
            *old(est) is Eskf ==> *final(est) == *old(est) && r == AnyStep::Ahead(*x, *ts),
            *old(est) is Legacy ==> {
                let (after, anchor) = old(est)->Legacy_0@.begun(x.dt.0, x.imu, *te);
                &&& *final(est) is Legacy
                &&& final(est)->Legacy_0@ == after
                &&& r == match anchor {
                    Some(a) => AnyStep::Legacy(*x, a, *te),
                    None => AnyStep::Done(
                        after.shown(
                            [after.x[3] * Single::of_int(0), Single::of_int(0), Single::of_int(0)],
                        ),
                    ),
                }
            },
    {
        match est {
            AnyEstimator::Eskf(_) => AnyStep::Ahead(*x, *ts),
            AnyEstimator::Legacy(e) => match e.begin_step(x.dt, &x.imu, te) {
                Some(a) => AnyStep::Legacy(*x, a, *te),
                None => AnyStep::Done(e.state()),
            },
        }
    }

    /// The turn whose half angle `next` is to be given.
    pub fn turn(&self, est: &AnyEstimator) -> (r: Option<Turn>)
        requires
            self.fits(*est),
        ensures
            r == match *self {
                AnyStep::Ahead(x, _) => est->Eskf_0.f.st.turn_of(
                    super::eskf_estimator::increments(x.imu, x.dt.0).delta_ang,
                    x.dt.0,
                ),
                AnyStep::Eskf(step) => super::eskf_step::turn_of_errors(step.pending),
                AnyStep::Legacy(_, a, _) => a.turn_of(),
                AnyStep::Done(_) => None,
            },
    {
        match self {
            AnyStep::Ahead(x, _) => match est {
                AnyEstimator::Eskf(e) => e.turn(x.dt, &x.imu),
                AnyEstimator::Legacy(_) => None,
            },
            AnyStep::Eskf(step) => step.turn(),
            AnyStep::Legacy(_, a, _) => a.turn(),
            AnyStep::Done(_) => None,
        }
    }

    /// Whether the error state filter `c` goes on with this step so that `after` is the step
    /// and `d` the filter then.
    pub open spec fn eskf_follows(
        self,
        c: EskfEstimator,
        half: HalfAngle,
        after: AnyStep,
        d: EskfEstimator,
    ) -> bool {
        match self {
            AnyStep::Ahead(x, t) => {
                &&& after matches AnyStep::Eskf(next) && next.pos == t.taken_fix(x.pos)
                    && next.airspeed == x.airspeed && exists|mid: EskfEstimator| #[trigger]
                    c.advances(x.dt, x.imu, half, mid) && next.begins(mid, x.imu, t, d)
            },
            AnyStep::Eskf(step) => exists|next: EskfStep| #[trigger]
                step.follows(super::eskf_step::settled(c, step.pending, half), next, d)
                    && after == if next.stage is Done {
                    AnyStep::Done(d.shown())
                } else {
                    AnyStep::Eskf(next)
                },
            _ => after == self && d == c,
        }
    }

    /// Whether the filter with fixed anchors `c` goes on with this step so that `after` is
    /// the step and `d` the filter then.
    pub open spec fn legacy_follows(
        self,
        c: EkfEstimator,
        half: HalfAngle,
        after: AnyStep,
        d: EkfEstimator,
    ) -> bool {
        match self {
            AnyStep::Legacy(x, a, t) => {
                &&& d@ == c@.anchored_by(a, half, x.dt.0).advanced(
                    x.imu,
                    x.dt.0,
                    t,
                ).with_measurements(x.pos, x.airspeed, t)
                &&& after == AnyStep::Done(
                    d@.shown(
                        [
                            x.imu.gyro[0].0 - d.x[6],
                            x.imu.gyro[1].0 - d.x[7],
                            x.imu.gyro[2].0 - d.x[8],
                        ],
                    ),
                )
            },
            _ => after == self && d == c,
        }
    }

    /// Goes on, where `half` belongs to the angle of `turn`. Returns whether the step is not
    /// over yet.
    pub fn next(&mut self, est: &mut AnyEstimator, half: &HalfAngle) -> (going: bool)
        requires
            old(self).fits(*old(est)),
        ensures
            final(self).fits(*final(est)),
            *final(est) is Eskf <==> *old(est) is Eskf,
            *old(est) is Eskf ==> old(self).eskf_follows(
                old(est)->Eskf_0,
                *half,
                *final(self),
                final(est)->Eskf_0,
            ),
            *old(est) is Legacy ==> old(self).legacy_follows(
                old(est)->Legacy_0,
                *half,
                *final(self),
                final(est)->Legacy_0,
            ),
            going == !(*final(self) is Done),
    {
        let now: AnyStep = *self;
        match est {
            AnyEstimator::Eskf(e) => match now {
                AnyStep::Ahead(x, t) => {
                    let step: EskfStep = EskfStep::begin(
                        e,
                        x.dt,
                        &x.imu,
                        half,
                        x.pos,
                        x.airspeed,
                        &t,
                    );
                    *self = AnyStep::Eskf(step);
                },
                AnyStep::Eskf(step) => {
                    let mut step: EskfStep = step;
                    if step.next(e, half) {
                        *self = AnyStep::Eskf(step);
                    } else {
                        *self = AnyStep::Done(e.state());
                    }
                },
                _ => {},
            },
            AnyEstimator::Legacy(e) => {
                if let AnyStep::Legacy(x, a, t) = now {
                    let st: VehicleState = e.finish_step(
                        x.dt,
                        &x.imu,
                        &a,
                        half,
                        x.pos,
                        x.airspeed,
                        &t,
                    );
                    *self = AnyStep::Done(st);
                }
            },
        }
        !matches!(*self, AnyStep::Done(_))
    }

    /// How many times `next` can still be called before the step is over, at most.
    pub open spec fn left(self) -> int {
        match self {
            AnyStep::Ahead(_, _) => 8,
            AnyStep::Eskf(step) => step.left(),
            AnyStep::Legacy(_, _, _) => 1,
            AnyStep::Done(_) => 0,
        }
    }
}

/// Every step of the error state filter is over in the end: each call of `next` leaves fewer.
pub proof fn law_any_eskf_step_ends(
    s: AnyStep,
    c: EskfEstimator,
    half: HalfAngle,
    after: AnyStep,
    d: EskfEstimator,
)
    requires
        s.fits(AnyEstimator::Eskf(c)),
        s.eskf_follows(c, half, after, d),
        after.fits(AnyEstimator::Eskf(d)),
        !(s is Done),
        s matches AnyStep::Eskf(step) ==> !(step.stage is Done),
    ensures
        0 <= after.left() < s.left() <= 8,
{
    if let AnyStep::Eskf(step) = s {
        let c1 = super::eskf_step::settled(c, step.pending, half);
        let next = choose|next: EskfStep| #[trigger]
            step.follows(c1, next, d) && after == if next.stage is Done {
                AnyStep::Done(d.shown())
            } else {
                AnyStep::Eskf(next)
            };
        super::eskf_step::law_step_ends(step, c1, next, d);
    }
}

} // verus!
