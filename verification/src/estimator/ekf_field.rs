//! Taking a magnetic field in the filter with fixed anchors.
//!
//! What a field shows is two angles, which are handed in. By a share of each the attitude
//! is turned, first towards the expected field, then about the vertical, and the sines of
//! half the angles are handed in for that: begin, then `turns` with the angles of the
//! sight, then `finish` with the halves of the turns.

use super::ekf::{EkfEstimator, EkfModel, EkfTuning, MagSight};
use super::nominal::HalfAngle;
use crate::single::Single;
use vstd::prelude::*;

verus! {

/// The angles that a field shows: the heading error, and the angle to the expected field,
/// which counts only where the sight has a tilt.
#[derive(Debug, Clone, Copy)]
pub struct FieldAngles {
    pub heading: Single,
    pub tilt: Single,
}

/// By how much the attitude is turned about the vertical and towards the expected field.
#[derive(Debug, Clone, Copy)]
pub struct FieldTurns {
    pub heading: Single,
    pub tilt: Option<Single>,
}

/// What belongs to half of the turns; that of the tilt counts only where there is one.
#[derive(Debug, Clone, Copy)]
pub struct FieldHalves {
    pub heading: HalfAngle,
    pub tilt: HalfAngle,
}

impl EkfModel {
    /// By how much a field that shows the angles `a` turns the attitude.
    pub open spec fn field_turns(self, sight: MagSight, a: FieldAngles, t: EkfTuning) -> FieldTurns {
        FieldTurns {
            heading: a.heading * (super::ekf::unless_negative(self.side.mag_alpha, t.mag_alpha)
                * Single::of_ratio(5, 10) * Single::of_int(1)),
            tilt: match sight.tilt {
                Some(_) => Some(
                    a.tilt * t.mag3d_alpha * Single::of_ratio(5, 10) * self.side.last_dt
                        * Single::of_int(250),
                ),
                None => None,
            },
        }
    }

    /// After a sight of the field: turned towards the expected field where there is a tilt,
    /// then about the vertical by the heading error that the attitude before had.
    pub open spec fn field_taken(
        self,
        sight: MagSight,
        a: FieldAngles,
        halves: FieldHalves,
        t: EkfTuning,
    ) -> EkfModel {
        let turns = self.field_turns(sight, a, t);
        let upright = match sight.tilt {
            Some(x) => self.tilted(x, turns.tilt->0, halves.tilt),
            None => self,
        };
        upright.headed(turns.heading, halves.heading, t)
    }

    /// After the measured field `mag`; unchanged where it shows nothing.
    pub open spec fn with_field(
        self,
        mag: Option<[Single; 3]>,
        a: FieldAngles,
        halves: FieldHalves,
        t: EkfTuning,
    ) -> EkfModel {
        match self.mag_sight(mag, t) {
            Some(sight) => self.field_taken(sight, a, halves, t),
            None => self,
        }
    }
}

/// A field that shows something.
#[derive(Debug, Clone, Copy)]
pub struct EkfField {
    pub sight: MagSight,
    pub t: EkfTuning,
}

impl EkfField {
    /// Begins to take a measured field; none where it shows nothing.
    pub fn begin(est: &EkfEstimator, mag: Option<[Single; 3]>, t: &EkfTuning) -> (r: Option<
        EkfField,
    >)
        ensures
            r == match est@.mag_sight(mag, *t) {
                Some(sight) => Some(EkfField { sight, t: *t }),
                None => None,
            },
    {
        match est.begin_mag(mag, t) {
            Some(sight) => Some(EkfField { sight, t: *t }),
            None => None,
        }
    }

    /// By how much the attitude is turned, where `a` are the angles of the sight.
    pub fn turns(&self, est: &EkfEstimator, a: &FieldAngles) -> (r: FieldTurns)
        ensures
            r == est@.field_turns(self.sight, *a, self.t),
    {
        FieldTurns {
            heading: est.heading_angle(a.heading, &self.t),
            tilt: match self.sight.tilt {
                Some(_) => Some(est.tilt_angle(a.tilt, &self.t)),
                None => None,
            },
        }
    }

    /// Turns the attitude, where `a` are the angles of the sight and `halves` belong to half
    /// of the turns.
    pub fn finish(&self, est: &mut EkfEstimator, a: &FieldAngles, halves: &FieldHalves)
        ensures
            final(est)@ == old(est)@.field_taken(self.sight, *a, *halves, self.t),
            forall|mag: Option<[Single; 3]>| #[trigger]
                old(est)@.mag_sight(mag, self.t) == Some(self.sight) ==> final(est)@ == old(
                    est,
                )@.with_field(mag, *a, *halves, self.t),
    {
        let turns: FieldTurns = self.turns(est, a);
        if let (Some(x), Some(ang)) = (self.sight.tilt, turns.tilt) {
            est.apply_tilt(&x, ang, &halves.tilt);
        }
        est.apply_heading(turns.heading, &halves.heading, &self.t);
    }
}

/// A magnetic field turns the attitude and teaches the vertical gyroscope error. Position,
/// velocity, the other errors, what is known of them and the settings stay.
pub proof fn law_field_only_turns(
    m: EkfModel,
    mag: Option<[Single; 3]>,
    a: FieldAngles,
    halves: FieldHalves,
    t: EkfTuning,
)
    requires
        m.x.len() == 10,
    ensures
        ({
            let n = m.with_field(mag, a, halves, t);
            &&& n.p == m.p
            &&& n.side == m.side
            &&& n.x == m.x.update(8, n.x[8])
        }),
{
    let n = m.with_field(mag, a, halves, t);
    assert(n.x =~= m.x.update(8, n.x[8]));
}

/// A field that shows nothing changes nothing: none measured, one that is not finite, or an
/// anchor that is off.
pub proof fn law_no_sight_changes_nothing(
    m: EkfModel,
    mag: Option<[Single; 3]>,
    a: FieldAngles,
    halves: FieldHalves,
    t: EkfTuning,
)
    requires
        mag is None || (exists|i: int| 0 <= i < 3 && !(#[trigger] mag->0[i]).finite())
            || super::ekf::unless_negative(m.side.mag_alpha, t.mag_alpha).less_eq(
            Single::of_int(0),
        ),
    ensures
        m.with_field(mag, a, halves, t) == m,
{
}

} // verus!
