//! Whole steps of the error state filter.
//!
//! A step takes one measurement after the other, and what each finds turns the attitude
//! before the next is looked at. The half angle of that turn is handed in with `next`, so a
//! step is run as: begin, then `next` with the half angle of `turn` until it says that the
//! step is over.

use super::aids::{GravityRun, MagRun};
use super::eskf::{Eskf, EskfTuning};
use super::eskf_estimator::EskfEstimator;
use super::nominal::{ErrorState, HalfAngle, Turn};
use crate::single::Single;
use crate::units::Second;
use crate::vehicle::{AirspeedSample, ImuSample, PosSample};
use vstd::prelude::*;

verus! {

/// The estimator with the errors `e`, where there are any, applied with `half`.
pub open spec fn settled(
    c: EskfEstimator,
    e: Option<ErrorState>,
    half: HalfAngle,
) -> EskfEstimator {
    match e {
        Some(e) => EskfEstimator { f: c.f.corrected(e, half), ..c },
        None => c,
    }
}

fn settle(c: &mut EskfEstimator, e: &Option<ErrorState>, half: &HalfAngle)
    ensures
        *final(c) == settled(*old(c), *e, *half),
{
    if let Some(e) = e {
        c.f.apply(e, half);
    }
}

/// The turn of errors, where there are any.
pub open spec fn turn_of_errors(e: Option<ErrorState>) -> Option<Turn> {
    match e {
        Some(e) => e.turn_of(),
        None => None,
    }
}

fn errors_turn(e: &Option<ErrorState>) -> (r: Option<Turn>)
    ensures
        r == turn_of_errors(*e),
{
    match e {
        Some(e) => e.turn(),
        None => None,
    }
}

/// What a step takes next.
#[derive(Debug, Clone, Copy)]
pub enum Stage {
    Gravity(GravityRun),
    Position,
    Velocity,
    Airspeed,
    Done,
}

/// A step after its inertial readings: gravity where it is due, position, velocity and
/// airspeed follow in this order.
#[derive(Debug, Clone, Copy)]
pub struct EskfStep {
    pub stage: Stage,
    /// The errors that are to be applied first.
    pub pending: Option<ErrorState>,
    pub pos: Option<PosSample>,
    pub airspeed: Option<AirspeedSample>,
}

impl EskfStep {
    pub open spec fn valid(self) -> bool {
        self.stage matches Stage::Gravity(run) ==> run.valid()
    }

    /// Whether this is the step that the estimator `mid`, advanced by the readings `imu`,
    /// begins, and `after` the estimator then. Gravity that cannot be seen is counted.
    pub open spec fn begins(
        self,
        mid: EskfEstimator,
        imu: ImuSample,
        t: EskfTuning,
        after: EskfEstimator,
    ) -> bool {
        let accel = [imu.accel[0].0, imu.accel[1].0, imu.accel[2].0];
        let due = super::eskf_estimator::aid_due(mid.aid_div, mid.aid_period);
        let seen = super::eskf::direction_judged(mid.f.st.q, accel, mid.g_ned, t);
        &&& self.pending is None
        &&& !due ==> self.stage is Position && after == mid
        &&& due ==> match seen {
            Ok(d) => {
                &&& after == mid
                &&& self.stage matches Stage::Gravity(run) && run.direction@ == d && run.g_ned
                    == mid.g_ned && run.at == 0 && run.applied == 0
            },
            Err(e) => {
                &&& self.stage is Position
                &&& after == mid.gravity_noted(Err(e))
            },
        }
    }

    /// Advances the estimator by inertial readings, where `half` belongs to the angle of
    /// their turn, and begins to take the measurements. No fix is taken where satellites are
    /// off.
    pub fn begin(
        est: &mut EskfEstimator,
        dt: Second,
        imu: &ImuSample,
        half: &HalfAngle,
        pos: Option<PosSample>,
        airspeed: Option<AirspeedSample>,
        t: &EskfTuning,
    ) -> (r: EskfStep)
        ensures
            r.valid(),
            r.pos == t.taken_fix(pos),
            r.airspeed == airspeed,
            exists|mid: EskfEstimator| #[trigger]
                old(est).advances(dt, *imu, *half, mid) && r.begins(mid, *imu, *t, *final(est)),
    {
        let due: bool = est.advance(dt, imu, half);
        let ghost mid = *est;
        assert(old(est).advances(dt, *imu, *half, mid));
        let mut stage: Stage = Stage::Position;
        if due {
            let accel: [Single; 3] = [imu.accel[0].0, imu.accel[1].0, imu.accel[2].0];
            match GravityRun::begin(&est.f, &accel, &est.g_ned, t) {
                Ok(run) => {
                    stage = Stage::Gravity(run);
                },
                Err(e) => {
                    est.note_gravity(Err(e));
                },
            }
        }
        let r = EskfStep { stage, pending: None, pos: t.take_fix(pos), airspeed };
        assert(r.begins(mid, *imu, *t, *est));
        r
    }

    /// The turn of the errors that are to be applied first.
    pub fn turn(&self) -> (r: Option<Turn>)
        ensures
            r == turn_of_errors(self.pending),
    {
        errors_turn(&self.pending)
    }

    /// Whether the estimator `c`, with nothing left to apply, takes the next measurement so
    /// that `after` is the step and `d` the estimator then.
    pub open spec fn follows(self, c: EskfEstimator, after: EskfStep, d: EskfEstimator) -> bool {
        &&& after.pos == self.pos
        &&& after.airspeed == self.airspeed
        &&& match self.stage {
            Stage::Gravity(run) => if run.first_taken(c.f, run.at as int) < 3 {
                &&& after.stage matches Stage::Gravity(next) && run.goes_on(
                    c.f,
                    after.pending,
                    next,
                    d.f,
                )
                &&& d == (EskfEstimator { f: d.f, ..c })
            } else {
                &&& after.stage is Position
                &&& after.pending is None
                &&& d == c.gravity_noted(Ok(run.applied))
            },
            Stage::Position => match self.pos {
                Some(p) => after.stage is Velocity && c.takes_position(p, after.pending, d),
                None => after.stage is Airspeed && after.pending is None && d == c,
            },
            Stage::Velocity => {
                &&& after.stage is Airspeed
                &&& match self.pos {
                    Some(p) => match p.vel {
                        Some(v) => c.takes_velocity(v, after.pending, d),
                        None => after.pending is None && d == c,
                    },
                    None => after.pending is None && d == c,
                }
            },
            Stage::Airspeed => {
                &&& after.stage is Done
                &&& after.pending is None
                &&& d == c.airspeed_noted(self.airspeed)
            },
            Stage::Done => after.stage is Done && after.pending is None && d == c,
        }
    }

    /// Applies the errors found last, where `half` belongs to the angle of `turn`, and takes
    /// the next measurement. Returns whether the step goes on.
    pub fn next(&mut self, est: &mut EskfEstimator, half: &HalfAngle) -> (going: bool)
        requires
            old(self).valid(),
        ensures
            final(self).valid(),
            old(self).follows(
                settled(*old(est), old(self).pending, *half),
                *final(self),
                *final(est),
            ),
            going == !(final(self).stage is Done),
    {
        settle(est, &self.pending, half);
        self.pending = None;
        match self.stage {
            Stage::Gravity(run) => {
                let mut run: GravityRun = run;
                let ghost c = est.f;
                let ghost r = run;
                match run.next(&mut est.f) {
                    Some(e) => {
                        self.pending = Some(e);
                        self.stage = Stage::Gravity(run);
                    },
                    None => {
                        assert(r.first_taken(c, r.at as int) >= 3);
                        est.note_gravity(Ok(run.applied));
                        self.stage = Stage::Position;
                    },
                }
            },
            Stage::Position => match self.pos {
                Some(p) => {
                    self.pending = est.take_position(&p);
                    self.stage = Stage::Velocity;
                },
                None => {
                    self.stage = Stage::Airspeed;
                },
            },
            Stage::Velocity => {
                if let Some(p) = self.pos {
                    if let Some(v) = p.vel {
                        self.pending = est.take_velocity(&v);
                    }
                }
                self.stage = Stage::Airspeed;
            },
            Stage::Airspeed => {
                est.note_airspeed(self.airspeed);
                self.stage = Stage::Done;
            },
            Stage::Done => {},
        }
        !matches!(self.stage, Stage::Done)
    }

    /// How many measurements can still follow.
    pub open spec fn left(self) -> int {
        match self.stage {
            Stage::Gravity(run) => 7 - run.at,
            Stage::Position => 3,
            Stage::Velocity => 2,
            Stage::Airspeed => 1,
            Stage::Done => 0,
        }
    }
}

/// Every step is over after at most seven measurements.
pub proof fn law_step_ends(s: EskfStep, c: EskfEstimator, after: EskfStep, d: EskfEstimator)
    requires
        s.valid(),
        s.follows(c, after, d),
        !(s.stage is Done),
    ensures
        0 <= after.left() < s.left() <= 7,
{
    if let Stage::Gravity(run) = s.stage {
        lemma_taken_from(run, c.f, run.at as int);
    }
}

proof fn lemma_taken_from(run: GravityRun, f: Eskf, i: int)
    requires
        0 <= i <= 3,
    ensures
        i <= run.first_taken(f, i) <= 3,
    decreases 3 - i,
{
    if i < 3 {
        lemma_taken_from(run, f, i + 1);
    }
}

/// How far taking a magnetic field is.
#[derive(Debug, Clone, Copy)]
pub enum FieldStage {
    /// The earth's field is to be pulled back first.
    Reanchor,
    /// The run over the components.
    Run(MagRun),
    Done,
}

/// With what the earth's field is pulled back to the known one.
#[derive(Debug, Clone, Copy)]
pub struct Pull {
    pub prior: [Single; 3],
    pub strength: Single,
}

/// Taking a magnetic field.
#[derive(Debug, Clone, Copy)]
pub struct EskfField {
    pub stage: FieldStage,
    pub meas_body: [Single; 3],
    pub t: EskfTuning,
    /// The errors that are to be applied first.
    pub pending: Option<ErrorState>,
}

impl EskfField {
    pub open spec fn valid(self) -> bool {
        self.stage matches FieldStage::Run(run) ==> run.valid()
    }

    /// Whether this is how the estimator `mid`, with nothing left to pull back, begins to
    /// take the components of the field `m`, and `after` the estimator then.
    pub open spec fn begins(
        self,
        mid: EskfEstimator,
        m: [Single; 3],
        t: EskfTuning,
        after: EskfEstimator,
    ) -> bool {
        let due = super::eskf_estimator::aid_due(mid.aid_div, mid.aid_period);
        &&& self.meas_body == m
        &&& self.t == t
        &&& self.pending is None
        &&& if !due {
            self.stage is Done && after == mid
        } else if t.magnetic_off() {
            self.stage is Done && after == mid.field_noted(false)
        } else {
            &&& after == mid
            &&& self.stage == FieldStage::Run(
                MagRun { meas_body: m, t, at: 0, worst: Single::of_int(0) },
            )
        }
    }

    fn begin_components(est: &mut EskfEstimator, m: &[Single; 3], t: &EskfTuning) -> (r: EskfField)
        ensures
            r.valid(),
            r.begins(*old(est), *m, *t, *final(est)),
    {
        let mut stage: FieldStage = FieldStage::Done;
        if est.mag_due() {
            match MagRun::begin(m, t) {
                Ok(run) => {
                    stage = FieldStage::Run(run);
                },
                Err(_) => {
                    est.note_mag(false);
                },
            }
        }
        EskfField { stage, meas_body: *m, t: *t, pending: None }
    }

    /// Prepares the estimator for the field `m` and begins to take it, where that is due and
    /// nothing is to be pulled back first.
    pub fn begin(est: &mut EskfEstimator, m: &[Single; 3], t: &EskfTuning) -> (r: EskfField)
        ensures
            r.valid(),
            exists|mid: EskfEstimator| #[trigger]
                old(est).prepares_field(*m, *t, mid) && if t.reanchors() {
                    *final(est) == mid && r == (EskfField {
                        stage: FieldStage::Reanchor,
                        meas_body: *m,
                        t: *t,
                        pending: None,
                    })
                } else {
                    r.begins(mid, *m, *t, *final(est))
                },
    {
        est.begin_mag(m, t);
        let ghost mid = *est;
        assert(old(est).prepares_field(*m, *t, mid));
        if t.mag_reanchor > Single::from_i32(0) {
            return EskfField {
                stage: FieldStage::Reanchor,
                meas_body: *m,
                t: *t,
                pending: None,
            };
        }
        EskfField::begin_components(est, m, t)
    }

    /// With what the earth's field is to be pulled back, if it is.
    pub fn pull(&self, est: &EskfEstimator) -> (r: Option<Pull>)
        ensures
            r == if self.stage is Reanchor {
                Some(Pull { prior: est.mag_i_prior, strength: self.t.mag_reanchor })
            } else {
                None
            },
    {
        match self.stage {
            FieldStage::Reanchor => Some(
                Pull { prior: est.mag_i_prior, strength: self.t.mag_reanchor },
            ),
            _ => None,
        }
    }

    /// Goes on with the filter `f`, in which `n` components of the earth's field were pulled
    /// back. Does nothing where none was to be.
    pub fn pulled(&mut self, est: &mut EskfEstimator, f: &Eskf, n: u32)
        requires
            old(self).valid(),
        ensures
            final(self).valid(),
            if old(self).stage is Reanchor {
                final(self).begins(
                    old(est).reanchored(*f, n),
                    old(self).meas_body,
                    old(self).t,
                    *final(est),
                )
            } else {
                *final(self) == *old(self) && *final(est) == *old(est)
            },
    {
        if let FieldStage::Reanchor = self.stage {
            est.reanchor(f, n);
            let m: [Single; 3] = self.meas_body;
            let t: EskfTuning = self.t;
            *self = EskfField::begin_components(est, &m, &t);
        }
    }

    /// The turn of the errors that are to be applied first.
    pub fn turn(&self) -> (r: Option<Turn>)
        ensures
            r == turn_of_errors(self.pending),
    {
        errors_turn(&self.pending)
    }

    /// Whether the estimator `c`, with nothing left to apply, takes the next component so
    /// that `after` is left to do and `d` the estimator then. While something is to be pulled
    /// back, none is taken.
    pub open spec fn follows(self, c: EskfEstimator, after: EskfField, d: EskfEstimator) -> bool {
        &&& after.meas_body == self.meas_body
        &&& after.t == self.t
        &&& match self.stage {
            FieldStage::Run(run) => if run.first_taken(c.f, run.at as int) < 3 {
                &&& after.stage matches FieldStage::Run(next) && run.goes_on(
                    c.f,
                    after.pending,
                    next,
                    d.f,
                )
                &&& d == (EskfEstimator { f: d.f, ..c })
            } else {
                &&& after.stage is Done
                &&& after.pending is None
                &&& exists|next: MagRun, f: Eskf| #[trigger]
                    run.goes_on(c.f, None, next, f) && d == (EskfEstimator {
                        f,
                        ..c
                    }).field_noted(true)
            },
            _ => after.stage == self.stage && after.pending is None && d == c,
        }
    }

    /// Applies the errors found last, where `half` belongs to the angle of `turn`, and takes
    /// the next component. Returns whether there is more to do.
    pub fn next(&mut self, est: &mut EskfEstimator, half: &HalfAngle) -> (going: bool)
        requires
            old(self).valid(),
        ensures
            final(self).valid(),
            old(self).follows(
                settled(*old(est), old(self).pending, *half),
                *final(self),
                *final(est),
            ),
            going == (final(self).stage is Run),
    {
        settle(est, &self.pending, half);
        self.pending = None;
        if let FieldStage::Run(x) = self.stage {
            let mut run: MagRun = x;
            let ghost c = est.f;
            match run.next(&mut est.f) {
                Some(e) => {
                    self.pending = Some(e);
                    self.stage = FieldStage::Run(run);
                },
                None => {
                    assert(x.goes_on(c, None, run, est.f));
                    est.note_mag(true);
                    self.stage = FieldStage::Done;
                },
            }
        }
        matches!(self.stage, FieldStage::Run(_))
    }
}

} // verus!
