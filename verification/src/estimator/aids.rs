//! Taking a measured direction component by component.
//!
//! Each component that is taken turns the attitude before the next one is looked at. So
//! a run over the components stops whenever errors are to be applied, and goes on from
//! there.

use super::eskf::{Eskf, EskfTuning};
use super::linear::Refusal;
use super::nominal::ErrorState;
use crate::single::Single;
use vstd::prelude::*;

verus! {

/// A run over the components of the direction of gravity.
#[derive(Debug, Clone, Copy)]
pub struct GravityRun {
    pub direction: [Single; 3],
    pub g_ned: [Single; 3],
    /// The component to look at next.
    pub at: usize,
    /// How many components were taken.
    pub applied: u32,
}

impl GravityRun {
    pub open spec fn valid(self) -> bool {
        self.at <= 3 && self.applied <= self.at
    }

    /// What component `i` shows beyond what the filter expects.
    pub open spec fn residual(self, c: Eskf, i: int) -> Single {
        self.direction[i] - super::eskf::gravity_seen(c.st.q, self.g_ned)[i]
    }

    /// Whether the filter takes component `i`, or why not.
    pub open spec fn judgement(self, c: Eskf, i: int) -> Result<Single, Refusal> {
        super::linear::judged(
            super::linear::rows(c.p),
            super::eskf::gravity_row(c.st.q, self.g_ned, i),
            self.residual(c, i),
            c.r_mag,
            c.gate,
        )
    }

    /// The first component from `i` on that the filter takes; three where there is none.
    pub open spec fn first_taken(self, c: Eskf, i: int) -> int
        decreases 3 - i,
    {
        if i >= 3 {
            3
        } else if self.judgement(c, i) is Ok {
            i
        } else {
            self.first_taken(c, i + 1)
        }
    }

    /// Starts a run, unless gravity cannot be seen.
    pub fn begin(
        f: &Eskf,
        accel_body: &[Single; 3],
        g_ned: &[Single; 3],
        t: &EskfTuning,
    ) -> (o: Result<GravityRun, Refusal>)
        ensures
            ({
                let j = super::eskf::direction_judged(f.st.q, *accel_body, *g_ned, *t);
                &&& o is Ok <==> j is Ok
                &&& o matches Ok(r) ==> {
                    &&& j == Ok::<Seq<Single>, Refusal>(r.direction@)
                    &&& r.g_ned == *g_ned
                    &&& r.at == 0
                    &&& r.applied == 0
                }
                &&& o matches Err(e) ==> j == Err::<Seq<Single>, Refusal>(e)
            }),
    {
        match f.gravity_direction(accel_body, g_ned, t) {
            Ok(direction) => Ok(GravityRun { direction, g_ned: *g_ned, at: 0, applied: 0 }),
            Err(e) => Err(e),
        }
    }

    /// Whether going on with the filter `c` gives the errors `o`, and makes `after` of the
    /// run and `f` of the filter.
    pub open spec fn goes_on(
        self,
        c: Eskf,
        o: Option<ErrorState>,
        after: GravityRun,
        f: Eskf,
    ) -> bool {
        let k = self.first_taken(c, self.at as int);
        let before = super::linear::rows(c.p);
        let h = super::eskf::gravity_row(c.st.q, self.g_ned, k);
        &&& k >= 3 ==> {
            &&& o is None
            &&& f == c
            &&& after == (GravityRun { at: 3, ..self })
        }
        &&& k < 3 ==> {
            &&& o == Some(
                super::eskf::errors_of(
                    super::eskf::found(before, h, c.r_mag, self.residual(c, k)),
                ),
            )
            &&& super::linear::rows(f.p) == super::linear::reduced(
                before,
                super::linear::gain(before, h, c.r_mag),
                h,
            )
            &&& f == (Eskf { p: f.p, ..c })
            &&& after == (GravityRun {
                at: (k + 1) as usize,
                applied: (self.applied + 1) as u32,
                ..self
            })
        }
    }

    /// Takes the next component that the filter accepts and returns the errors to apply;
    /// none where the run is over.
    pub fn next(&mut self, f: &mut Eskf) -> (o: Option<ErrorState>)
        requires
            old(self).valid(),
        ensures
            final(self).valid(),
            old(self).goes_on(*old(f), o, *final(self), *final(f)),
    {
        let ghost c = *f;
        let ghost r = *self;
        while self.at < 3
            invariant
                c == *old(f),
                r == *old(self),
                *f == c,
                r.valid(),
                self.at <= 3,
                r.at <= self.at,
                *self == (GravityRun { at: self.at, ..r }),
                r.first_taken(c, r.at as int) == r.first_taken(c, self.at as int),
            decreases 3 - self.at,
        {
            let i: usize = self.at;
            self.at = i + 1;
            if let Ok(e) = f.update_gravity(&self.direction, &self.g_ned, i) {
                self.applied += 1;
                assert(r.judgement(c, i as int) is Ok);
                assert(r.first_taken(c, i as int) == i);
                return Some(e);
            }
        }
        None
    }
}

/// A run over the components of a measured magnetic field.
#[derive(Debug, Clone, Copy)]
pub struct MagRun {
    pub meas_body: [Single; 3],
    pub t: EskfTuning,
    /// The component to look at next.
    pub at: usize,
    /// How surprising the most surprising component taken was.
    pub worst: Single,
}

/// A count that grows by `more`, held at the top of the type.
pub open spec fn counted_up(n: u32, more: int) -> u32 {
    if n + more > u32::MAX {
        u32::MAX
    } else {
        (n + more) as u32
    }
}

impl MagRun {
    pub open spec fn valid(self) -> bool {
        self.at <= 3 && !self.t.magnetic_off()
    }

    /// What component `i` shows beyond what the filter expects.
    pub open spec fn residual(self, c: Eskf, i: int) -> Single {
        self.meas_body[i] - super::eskf::field_seen(c.st.q, c.mag_i, c.mag_b)[i]
    }

    /// Whether the filter takes component `i`, or why not.
    pub open spec fn judgement(self, c: Eskf, i: int) -> Result<Single, Refusal> {
        super::linear::judged(
            super::linear::rows(c.p),
            super::eskf::mag_row(c.st.q, c.mag_i, i),
            self.residual(c, i),
            c.r_mag,
            c.gate,
        )
    }

    /// The first component from `i` on that the filter takes; three where there is none.
    pub open spec fn first_taken(self, c: Eskf, i: int) -> int
        decreases 3 - i,
    {
        if i >= 3 {
            3
        } else if self.judgement(c, i) is Ok {
            i
        } else {
            self.first_taken(c, i + 1)
        }
    }

    /// Starts a run, unless the magnetic field is switched off.
    pub fn begin(meas_body: &[Single; 3], t: &EskfTuning) -> (o: Result<MagRun, Refusal>)
        ensures
            o == if t.magnetic_off() {
                Err::<MagRun, Refusal>(Refusal::SwitchedOff)
            } else {
                Ok(MagRun { meas_body: *meas_body, t: *t, at: 0, worst: Single::of_int(0) })
            },
    {
        if t.mag_on < Single::ratio(5, 10) {
            return Err(Refusal::SwitchedOff);
        }
        Ok(MagRun { meas_body: *meas_body, t: *t, at: 0, worst: Single::from_i32(0) })
    }

    /// Whether going on with the filter `c` gives the errors `o`, and makes `after` of the
    /// run and `f` of the filter. Every component is counted as taken or as skipped.
    pub open spec fn goes_on(
        self,
        c: Eskf,
        o: Option<ErrorState>,
        after: MagRun,
        f: Eskf,
    ) -> bool {
        let k = self.first_taken(c, self.at as int);
        let before = super::linear::rows(c.p);
        let h = super::eskf::mag_row(c.st.q, c.mag_i, k);
        &&& k >= 3 ==> {
            &&& o is None
            &&& f == (Eskf { mag_skipped: counted_up(c.mag_skipped, 3 - self.at), ..c })
            &&& after == (MagRun { at: 3, ..self })
        }
        &&& k < 3 ==> {
            &&& o == Some(
                super::eskf::errors_of(
                    super::eskf::found(before, h, c.r_mag, self.residual(c, k)),
                ),
            )
            &&& super::linear::rows(f.p) == super::linear::reduced(
                before,
                super::linear::gain(before, h, c.r_mag),
                h,
            )
            &&& f == (Eskf {
                p: f.p,
                mag_skipped: counted_up(c.mag_skipped, k - self.at),
                mag_applied: counted_up(c.mag_applied, 1),
                ..c
            })
            &&& after == (MagRun {
                at: (k + 1) as usize,
                worst: self.worst.larger(self.judgement(c, k)->Ok_0),
                ..self
            })
        }
    }

    /// Takes the next component that the filter accepts and returns the errors to apply;
    /// none where the run is over.
    pub fn next(&mut self, f: &mut Eskf) -> (o: Option<ErrorState>)
        requires
            old(self).valid(),
        ensures
            final(self).valid(),
            old(self).goes_on(*old(f), o, *final(self), *final(f)),
    {
        let ghost c = *f;
        let ghost r = *self;
        while self.at < 3
            invariant
                c == *old(f),
                r == *old(self),
                r.valid(),
                self.at <= 3,
                r.at <= self.at,
                *f == (Eskf { mag_skipped: counted_up(c.mag_skipped, self.at - r.at), ..c }),
                *self == (MagRun { at: self.at, ..r }),
                r.first_taken(c, r.at as int) == r.first_taken(c, self.at as int),
            decreases 3 - self.at,
        {
            let i: usize = self.at;
            self.at = i + 1;
            if let Ok((nis, e)) = f.update_mag(&self.meas_body, i, &self.t) {
                self.worst = self.worst.max(nis);
                assert(r.judgement(c, i as int) is Ok);
                assert(r.first_taken(c, i as int) == i);
                return Some(e);
            }
        }
        None
    }
}

} // verus!
