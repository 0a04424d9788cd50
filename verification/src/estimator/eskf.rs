//! The error state filter of twenty-one elements: besides attitude, velocity, position
//! and the inertial errors it estimates the earth's magnetic field and the magnetic
//! field of the body.
//!
//! Gravity and the magnetic field are taken one component after the other: each sees the
//! state and the covariance that the one before has left.

use super::linear::{predict_covariance, scalar_gain, update_scalar, Refusal};
use super::nominal::{
    add_vectors, basis_vector, diagonal_blocks, inject_error, measure_altitude, measure_three,
    rot_of, squared_length, sub_vectors, transition_matrix, unbiased_rate, ErrorState, HalfAngle,
    ImuDelta, NominalState, Turn, I_MAGB, I_MAGI, I_POS, I_VEL,
};
use crate::single::Single;
use crate::vehicle::{rotate_vec_by_quat, rotate_vec_by_quat_inverse, PosSample, Quaternion};
use vstd::prelude::*;

verus! {

/// The elements of the error state.
pub const N: usize = 21;

/// The nominal state of the filter.
pub type EskfState = NominalState;

/// Values that switch the aids of the filter. Gravity and the magnetic field are on unless
/// their value is below a half, satellites unless theirs is two. Where `mag_reanchor` is
/// positive, the earth's field is pulled back to the known one with that strength.
#[derive(Debug, Clone, Copy)]
pub struct EskfTuning {
    pub grav_on: Single,
    pub mag_on: Single,
    pub gps_on: Single,
    pub mag_reanchor: Single,
}

impl EskfTuning {
    pub open spec fn gravity_off(self) -> bool {
        self.grav_on.less(Single::of_ratio(5, 10))
    }

    pub open spec fn magnetic_off(self) -> bool {
        self.mag_on.less(Single::of_ratio(5, 10))
    }

    pub open spec fn satellites_off(self) -> bool {
        self.gps_on.same(Single::of_int(2))
    }

    pub open spec fn reanchors(self) -> bool {
        Single::of_int(0).less(self.mag_reanchor)
    }

    /// Everything on, and nothing pulled back.
    pub fn all() -> (r: EskfTuning)
        ensures
            r == (EskfTuning {
                grav_on: Single::of_int(1),
                mag_on: Single::of_int(1),
                gps_on: Single::of_int(0),
                mag_reanchor: Single::of_int(0),
            }),
    {
        let z: Single = Single::from_i32(0);
        EskfTuning {
            grav_on: Single::from_i32(1),
            mag_on: Single::from_i32(1),
            gps_on: z,
            mag_reanchor: z,
        }
    }

    /// What is taken of a fix: all of it, unless satellites are off.
    pub open spec fn taken_fix(self, pos: Option<PosSample>) -> Option<PosSample> {
        if self.satellites_off() {
            None
        } else {
            pos
        }
    }

    pub fn take_fix(&self, pos: Option<PosSample>) -> (r: Option<PosSample>)
        ensures
            r == self.taken_fix(pos),
    {
        if self.gps_on == Single::from_i32(2) {
            None
        } else {
            pos
        }
    }
}

#[derive(Debug, Clone, Copy)]
pub struct Eskf {
    pub st: EskfState,
    /// The earth's magnetic field, north-east-down.
    pub mag_i: [Single; 3],
    /// The magnetic field of the body, in body axes.
    pub mag_b: [Single; 3],
    pub p: [[Single; 21]; 21],
    /// How many standard deviations an innovation may be.
    pub gate: Single,
    pub r_gps_p: Single,
    pub r_gps_v: Single,
    pub r_baro: Single,
    pub r_mag: Single,
    /// Whether the heading was set from the magnetic field.
    pub yaw_aligned: bool,
    /// Whether the heading is kept apart from the magnetic fields.
    pub heading_guard: bool,
    /// How many magnetic components were taken.
    pub mag_applied: u32,
    /// How many were not.
    pub mag_skipped: u32,
    /// Whether the inertial errors are left as they are.
    pub freeze_bias: bool,
}

/// The variances of the blocks at the start.
pub open spec fn first_variances() -> Seq<Single> {
    seq![
        Single::of_ratio(1, 100),
        Single::of_int(1),
        Single::of_int(25),
        Single::of_ratio(1, 10000),
        Single::of_ratio(1, 100),
        Single::of_ratio(1, 100),
        Single::of_ratio(1, 100),
    ]
}

/// The noise of the blocks in one step.
pub open spec fn step_noise(dt: Single) -> Seq<Single> {
    seq![
        Single::of_ratio(1, 10000) * dt,
        Single::of_int(2) * dt,
        Single::of_ratio(1, 10000) * dt,
        Single::of_ratio(1, 1_000_000) * dt,
        Single::of_ratio(1, 10000) * dt,
        Single::of_ratio(1, 1000) * dt,
        Single::of_ratio(1, 1000) * dt,
    ]
}

/// The noise that keeps the variances of the magnetic fields from vanishing.
pub open spec fn floor_noise(dt: Single, per_second: Single) -> Single {
    (per_second * dt) * (per_second * dt)
}

/// An element of the covariance after the magnetic variances were kept from vanishing
/// and, where `guard` says so, the heading was kept apart from the magnetic fields and
/// its variance capped.
pub open spec fn settled_at(
    p: Seq<Seq<Single>>,
    dt: Single,
    r_mag: Single,
    guard: bool,
    i: int,
    j: int,
) -> Single {
    let x = p[i][j];
    let cap = Single::of_ratio(1, 100);
    if i == j && I_MAGI <= i < I_MAGB && x.less(r_mag) {
        x + floor_noise(dt, Single::of_ratio(1, 1000))
    } else if i == j && I_MAGB <= i && x.less(r_mag) {
        x + floor_noise(dt, Single::of_ratio(1, 10000))
    } else if guard && ((i == 2 && I_MAGI <= j) || (j == 2 && I_MAGI <= i)) {
        Single::of_int(0)
    } else if guard && i == 2 && j == 2 && cap.less(x) {
        cap
    } else {
        x
    }
}

pub open spec fn settled(p: Seq<Seq<Single>>, dt: Single, r_mag: Single, guard: bool) -> Seq<
    Seq<Single>,
> {
    Seq::new(
        21,
        |i: int| Seq::new(21, |j: int| settled_at(p, dt, r_mag, guard, i, j)),
    )
}

fn settle(p: &[[Single; 21]; 21], dt: Single, r_mag: Single, guard: bool) -> (r: [[Single; 21]; 21])
    ensures
        super::linear::rows(r) == settled(super::linear::rows(*p), dt, r_mag, guard),
{
    let zero: Single = Single::from_i32(0);
    let cap: Single = Single::ratio(1, 100);
    let si: Single = Single::ratio(1, 1000) * dt;
    let mq_i: Single = si * si;
    let sb: Single = Single::ratio(1, 10000) * dt;
    let mq_b: Single = sb * sb;
    let ghost want = settled(super::linear::rows(*p), dt, r_mag, guard);
    let mut out: [[Single; 21]; 21] = *p;
    let mut i: usize = 0;
    while i < 21
        invariant
            i <= 21,
            zero == Single::of_int(0),
            cap == Single::of_ratio(1, 100),
            mq_i == floor_noise(dt, Single::of_ratio(1, 1000)),
            mq_b == floor_noise(dt, Single::of_ratio(1, 10000)),
            want == settled(super::linear::rows(*p), dt, r_mag, guard),
            forall|n: int| 0 <= n < i ==> (#[trigger] out[n])@ == want[n],
        decreases 21 - i,
    {
        let mut row: [Single; 21] = p[i];
        let mut j: usize = 0;
        while j < 21
            invariant
                i < 21,
                j <= 21,
                zero == Single::of_int(0),
                cap == Single::of_ratio(1, 100),
                mq_i == floor_noise(dt, Single::of_ratio(1, 1000)),
                mq_b == floor_noise(dt, Single::of_ratio(1, 10000)),
                want == settled(super::linear::rows(*p), dt, r_mag, guard),
                forall|n: int| 0 <= n < j ==> #[trigger] row[n] == want[i as int][n],
            decreases 21 - j,
        {
            let x: Single = p[i][j];
            row[j] = if i == j && I_MAGI <= i && i < I_MAGB && x < r_mag {
                x + mq_i
            } else if i == j && I_MAGB <= i && x < r_mag {
                x + mq_b
            } else if guard && ((i == 2 && I_MAGI <= j) || (j == 2 && I_MAGI <= i)) {
                zero
            } else if guard && i == 2 && j == 2 && x > cap {
                cap
            } else {
                x
            };
            j += 1;
        }
        assert(row@ =~= want[i as int]);
        out[i] = row;
        i += 1;
    }
    assert(super::linear::rows(out) =~= want);
    out
}

/// The length of a vector.
pub open spec fn length3(v: [Single; 3]) -> Single {
    super::nominal::squared3(v).root()
}

fn length(v: &[Single; 3]) -> (r: Single)
    ensures
        r == length3(*v),
{
    squared_length(v).sqrt()
}

/// The opposite of a vector, shortened by `n`.
pub open spec fn against(v: [Single; 3], n: Single) -> [Single; 3] {
    [v[0].negated() / n, v[1].negated() / n, v[2].negated() / n]
}

fn oppose(v: &[Single; 3], n: Single) -> (r: [Single; 3])
    ensures
        r == against(*v, n),
{
    [v[0].negate() / n, v[1].negate() / n, v[2].negate() / n]
}

/// The direction against gravity in body axes; straight up in level attitude where there
/// is no gravity.
pub open spec fn gravity_seen(q: Quaternion, g: [Single; 3]) -> Seq<Single> {
    if length3(g).less(Single::of_ratio(1, 1_000_000)) {
        seq![Single::of_int(0), Single::of_int(0), Single::of_int(-1)]
    } else {
        q.conjugate().rotated(against(g, length3(g))@)
    }
}

pub fn predicted_gravity_body(q: &Quaternion, g_ned: &[Single; 3]) -> (r: [Single; 3])
    ensures
        r@ == gravity_seen(*q, *g_ned),
{
    let gn: Single = length(g_ned);
    if gn < Single::ratio(1, 1_000_000) {
        let r: [Single; 3] = [Single::from_i32(0), Single::from_i32(0), Single::from_i32(-1)];
        assert(r@ =~= gravity_seen(*q, *g_ned));
        return r;
    }
    rotate_vec_by_quat_inverse(q, oppose(g_ned, gn))
}

/// The cross product.
pub open spec fn cross(a: Seq<Single>, b: Seq<Single>) -> Seq<Single> {
    seq![a[1] * b[2] - a[2] * b[1], a[2] * b[0] - a[0] * b[2], a[0] * b[1] - a[1] * b[0]]
}

fn cross_product(a: &[Single; 3], b: &[Single; 3]) -> (r: [Single; 3])
    ensures
        r@ == cross(a@, b@),
{
    let r: [Single; 3] = [
        a[1] * b[2] - a[2] * b[1],
        a[2] * b[0] - a[0] * b[2],
        a[0] * b[1] - a[1] * b[0],
    ];
    assert(r@ =~= cross(a@, b@));
    r
}

/// How component `i` of a fixed vector, seen in body axes, changes with attitude error
/// `j`.
pub open spec fn sight_slope(q: Quaternion, v: Seq<Single>, i: int, j: int) -> Single {
    q.conjugate().rotated(cross(v, super::nominal::basis(j)))[i]
}

fn sight(q: &Quaternion, v: &[Single; 3], i: usize) -> (r: [Single; 3])
    requires
        i < 3,
    ensures
        forall|j: int| 0 <= j < 3 ==> #[trigger] r[j] == sight_slope(*q, v@, i as int, j),
{
    let c0: [Single; 3] = rotate_vec_by_quat_inverse(q, cross_product(v, &basis_vector(0)));
    let c1: [Single; 3] = rotate_vec_by_quat_inverse(q, cross_product(v, &basis_vector(1)));
    let c2: [Single; 3] = rotate_vec_by_quat_inverse(q, cross_product(v, &basis_vector(2)));
    [c0[i], c1[i], c2[i]]
}

/// The row of component `i` of gravity.
pub open spec fn gravity_row(q: Quaternion, g: [Single; 3], i: int) -> Seq<Single> {
    let up = against(g, length3(g).larger(Single::of_ratio(1, 1_000_000)));
    Seq::new(
        21,
        |j: int|
            if j < 3 {
                sight_slope(q, up@, i, j)
            } else {
                Single::of_int(0)
            },
    )
}

/// The row of component `i` of gravity.
pub fn gravity_h(q: &Quaternion, g_ned: &[Single; 3], i: usize) -> (h: [Single; 21])
    requires
        i < 3,
    ensures
        h@ == gravity_row(*q, *g_ned, i as int),
{
    let gn: Single = length(g_ned).max(Single::ratio(1, 1_000_000));
    let up: [Single; 3] = oppose(g_ned, gn);
    let s: [Single; 3] = sight(q, &up, i);
    let zero: Single = Single::from_i32(0);
    let mut h: [Single; 21] = [zero; 21];
    h[0] = s[0];
    h[1] = s[1];
    h[2] = s[2];
    assert(h@ =~= gravity_row(*q, *g_ned, i as int));
    h
}

/// The magnetic field in body axes: that of the earth and that of the body.
pub open spec fn field_seen(q: Quaternion, mag_i: [Single; 3], mag_b: [Single; 3]) -> Seq<Single> {
    let e = q.conjugate().rotated(mag_i@);
    seq![e[0] + mag_b[0], e[1] + mag_b[1], e[2] + mag_b[2]]
}

pub fn predicted_mag_body(q: &Quaternion, mag_i: &[Single; 3], mag_b: &[Single; 3]) -> (r: [Single;
    3])
    ensures
        r@ == field_seen(*q, *mag_i, *mag_b),
{
    let mi: [Single; 3] = rotate_vec_by_quat_inverse(q, *mag_i);
    let r: [Single; 3] = [mi[0] + mag_b[0], mi[1] + mag_b[1], mi[2] + mag_b[2]];
    assert(r@ =~= field_seen(*q, *mag_i, *mag_b));
    r
}

/// The row of component `i` of the magnetic field.
pub open spec fn mag_row(q: Quaternion, mag_i: [Single; 3], i: int) -> Seq<Single> {
    Seq::new(
        21,
        |j: int|
            if j < 3 {
                sight_slope(q, mag_i@, i, j)
            } else if I_MAGI <= j < I_MAGB {
                q.conjugate().rotated(super::nominal::basis(j - I_MAGI))[i]
            } else if j == I_MAGB + i {
                Single::of_int(1)
            } else {
                Single::of_int(0)
            },
    )
}

/// The row of component `i` of the magnetic field.
pub fn mag_h(q: &Quaternion, mag_i: &[Single; 3], i: usize) -> (h: [Single; 21])
    requires
        i < 3,
    ensures
        h@ == mag_row(*q, *mag_i, i as int),
{
    let s: [Single; 3] = sight(q, mag_i, i);
    let e0: [Single; 3] = rotate_vec_by_quat_inverse(q, basis_vector(0));
    let e1: [Single; 3] = rotate_vec_by_quat_inverse(q, basis_vector(1));
    let e2: [Single; 3] = rotate_vec_by_quat_inverse(q, basis_vector(2));
    let zero: Single = Single::from_i32(0);
    let mut h: [Single; 21] = [zero; 21];
    h[0] = s[0];
    h[1] = s[1];
    h[2] = s[2];
    h[15] = e0[i];
    h[16] = e1[i];
    h[17] = e2[i];
    h[I_MAGB + i] = Single::from_i32(1);
    assert(h@ =~= mag_row(*q, *mag_i, i as int));
    h
}

/// All errors, one block behind the other.
pub open spec fn errors_of(x: Seq<Single>) -> ErrorState {
    ErrorState {
        d_mag_i: [x[15], x[16], x[17]],
        d_mag_b: [x[18], x[19], x[20]],
        ..ErrorState::of_inertial(x)
    }
}

/// The errors that a scalar measurement finds.
pub open spec fn found(p: Seq<Seq<Single>>, h: Seq<Single>, r: Single, residual: Single) -> Seq<
    Single,
> {
    Seq::new(21, |i: int| super::linear::gain(p, h, r)[i] * residual)
}

/// Takes one component: the row `h`, the innovation `residual`, the noise `r`. Returns
/// how surprising that was and the errors found.
fn take_component(
    p: &mut [[Single; 21]; 21],
    h: &[Single; 21],
    residual: Single,
    r: Single,
    gate: Single,
) -> (o: Result<(Single, ErrorState), Refusal>)
    ensures
        ({
            let before = super::linear::rows(*old(p));
            let j = super::linear::judged(before, h@, residual, r, gate);
            &&& o is Ok <==> j is Ok
            &&& o matches Err(e) ==> j == Err::<Single, Refusal>(e)
            &&& o matches Ok(x) ==> {
                &&& j == Ok::<Single, Refusal>(x.0)
                &&& x.1 == errors_of(found(before, h@, r, residual))
                &&& super::linear::rows(*final(p)) == super::linear::reduced(
                    before,
                    super::linear::gain(before, h@, r),
                    h@,
                )
            }
        }),
        o is Err ==> *final(p) == *old(p),
{
    let ghost before = super::linear::rows(*p);
    let (k, sigma) = match scalar_gain(p, h, residual, r, gate) {
        Ok(x) => x,
        Err(e) => {
            return Err(e);
        },
    };
    let mut dx: [Single; 21] = k;
    let mut i: usize = 0;
    while i < 21
        invariant
            i <= 21,
            k@ == super::linear::gain(before, h@, r),
            forall|n: int|
                0 <= n < i ==> #[trigger] dx[n] == found(before, h@, r, residual)[n],
        decreases 21 - i,
    {
        dx[i] = k[i] * residual;
        i += 1;
    }
    assert(dx@ =~= found(before, h@, r, residual));
    let base: ErrorState = ErrorState::from_inertial(&dx);
    let e = ErrorState {
        d_mag_i: [dx[15], dx[16], dx[17]],
        d_mag_b: [dx[18], dx[19], dx[20]],
        ..base
    };
    match update_scalar(p, h, residual, r, gate) {
        Ok(_) => Ok((sigma, e)),
        Err(refusal) => Err(refusal),
    }
}

/// An element of the covariance after the magnetic fields were set: they are
/// uncorrelated, with the variance of the measurement.
pub open spec fn unmagnetic(p: Seq<Seq<Single>>, r_mag: Single) -> Seq<Seq<Single>> {
    Seq::new(
        21,
        |i: int|
            Seq::new(
                21,
                |j: int|
                    if i < I_MAGI && j < I_MAGI {
                        p[i][j]
                    } else if i == j {
                        r_mag
                    } else {
                        Single::of_int(0)
                    },
            ),
    )
}

fn clear_magnetic(p: &[[Single; 21]; 21], r_mag: Single) -> (r: [[Single; 21]; 21])
    ensures
        super::linear::rows(r) == unmagnetic(super::linear::rows(*p), r_mag),
{
    let zero: Single = Single::from_i32(0);
    let ghost want = unmagnetic(super::linear::rows(*p), r_mag);
    let mut out: [[Single; 21]; 21] = *p;
    let mut i: usize = 0;
    while i < 21
        invariant
            i <= 21,
            zero == Single::of_int(0),
            want == unmagnetic(super::linear::rows(*p), r_mag),
            forall|n: int| 0 <= n < i ==> (#[trigger] out[n])@ == want[n],
        decreases 21 - i,
    {
        let mut row: [Single; 21] = p[i];
        let mut j: usize = 0;
        while j < 21
            invariant
                i < 21,
                j <= 21,
                zero == Single::of_int(0),
                want == unmagnetic(super::linear::rows(*p), r_mag),
                forall|n: int| 0 <= n < j ==> #[trigger] row[n] == want[i as int][n],
            decreases 21 - j,
        {
            row[j] = if i < I_MAGI && j < I_MAGI {
                p[i][j]
            } else if i == j {
                r_mag
            } else {
                zero
            };
            j += 1;
        }
        assert(row@ =~= want[i as int]);
        out[i] = row;
        i += 1;
    }
    assert(super::linear::rows(out) =~= want);
    out
}

/// The specific force as a direction, where the vehicle is neither in free fall nor
/// accelerating by more than a quarter of gravity.
pub open spec fn direction_judged(
    q: Quaternion,
    f: [Single; 3],
    g: [Single; 3],
    t: EskfTuning,
) -> Result<Seq<Single>, Refusal> {
    let n = length3(f);
    let a = q.rotated(f@);
    let extra = length3([a[0] + g[0], a[1] + g[1], a[2] + g[2]]);
    if t.gravity_off() {
        Err(Refusal::SwitchedOff)
    } else if n.less(Single::of_ratio(1, 1000)) {
        Err(Refusal::Weightless)
    } else if (Single::of_ratio(25, 100) * length3(g).larger(Single::of_ratio(1, 1_000_000))).less(
        extra,
    ) {
        Err(Refusal::Accelerating)
    } else {
        Ok(seq![f[0] / n, f[1] / n, f[2] / n])
    }
}

impl Eskf {
    pub fn new(q0: Quaternion, v0: [Single; 3], p0: [Single; 3], gate: Single) -> (r: Eskf)
        ensures
            super::linear::rows(r.p) == super::nominal::block_diagonal(21, first_variances()),
            r == (Eskf {
                st: NominalState::without_bias(q0, v0, p0),
                mag_i: [Single::of_ratio(2, 10), Single::of_int(0), Single::of_ratio(4, 10)],
                mag_b: [Single::of_int(0), Single::of_int(0), Single::of_int(0)],
                p: r.p,
                gate,
                r_gps_p: Single::of_ratio(3, 10000),
                r_gps_v: Single::of_ratio(25, 100),
                r_baro: Single::of_ratio(15, 100000),
                r_mag: Single::of_ratio(1, 100),
                yaw_aligned: false,
                heading_guard: false,
                mag_applied: 0,
                mag_skipped: 0,
                freeze_bias: false,
            }),
    {
        let d: [Single; 7] = [
            Single::ratio(1, 100),
            Single::from_i32(1),
            Single::from_i32(25),
            Single::ratio(1, 10000),
            Single::ratio(1, 100),
            Single::ratio(1, 100),
            Single::ratio(1, 100),
        ];
        assert(d@ =~= first_variances());
        let z: Single = Single::from_i32(0);
        Eskf {
            st: NominalState::new(q0, v0, p0),
            mag_i: [Single::ratio(2, 10), z, Single::ratio(4, 10)],
            mag_b: [z, z, z],
            p: diagonal_blocks(&d),
            gate,
            r_gps_p: Single::ratio(3, 10000),
            r_gps_v: Single::ratio(25, 100),
            r_baro: Single::ratio(15, 100000),
            r_mag: Single::ratio(1, 100),
            yaw_aligned: false,
            heading_guard: false,
            mag_applied: 0,
            mag_skipped: 0,
            freeze_bias: false,
        }
    }

    /// The covariance after a step.
    pub open spec fn covariance_after(self, imu: ImuDelta, dt: Single) -> Seq<Seq<Single>> {
        let w = super::nominal::rate_of(imu.delta_ang, dt, self.st.bg);
        let f = super::nominal::rate_of(imu.delta_vel, dt, self.st.ba);
        settled(
            super::linear::propagated(
                super::linear::rows(self.p),
                super::nominal::transition(
                    21,
                    w@,
                    dt,
                    super::nominal::rotation_of(self.st.q),
                    self.st.q.rotated(f@),
                ),
                super::nominal::block_diagonal(21, step_noise(dt)),
            ),
            dt,
            self.r_mag,
            self.heading_guard,
        )
    }

    /// The turn of a step.
    pub fn turn(&self, delta_ang: &[Single; 3], dt: Single) -> (r: Option<Turn>)
        ensures
            r == self.st.turn_of(*delta_ang, dt),
    {
        self.st.turn(delta_ang, dt)
    }

    /// Advances covariance and state by one step, where `half` belongs to the angle of
    /// `turn`.
    pub fn predict(&mut self, imu: &ImuDelta, dt: Single, g: &[Single; 3], half: &HalfAngle)
        ensures
            super::linear::rows(final(self).p) == old(self).covariance_after(*imu, dt),
            *final(self) == (Eskf {
                st: old(self).st.predicted(*imu, *g, dt, *half),
                p: final(self).p,
                ..*old(self)
            }),
    {
        let w: [Single; 3] = unbiased_rate(&imu.delta_ang, dt, &self.st.bg);
        let f_body: [Single; 3] = unbiased_rate(&imu.delta_vel, dt, &self.st.ba);
        let r: [[Single; 3]; 3] = rot_of(&self.st.q);
        let fm: [[Single; 21]; 21] = transition_matrix(&self.st.q, &w, dt, &r, f_body);
        let d: [Single; 7] = [
            Single::ratio(1, 10000) * dt,
            Single::from_i32(2) * dt,
            Single::ratio(1, 10000) * dt,
            Single::ratio(1, 1_000_000) * dt,
            Single::ratio(1, 10000) * dt,
            Single::ratio(1, 1000) * dt,
            Single::ratio(1, 1000) * dt,
        ];
        assert(d@ =~= step_noise(dt));
        let q: [[Single; 21]; 21] = diagonal_blocks(&d);
        let moved: [[Single; 21]; 21] = predict_covariance(&self.p, &fm, &q);
        self.p = settle(&moved, dt, self.r_mag, self.heading_guard);
        self.st.predict(imu, g, dt, half);
    }

    /// The filter with errors added.
    pub open spec fn corrected(self, e: ErrorState, half: HalfAngle) -> Eskf {
        let z = Single::of_int(0);
        let kept = if self.freeze_bias {
            ErrorState { dbg: [z, z, z], dba: [z, z, z], ..e }
        } else {
            e
        };
        Eskf {
            mag_i: super::nominal::sum3(self.mag_i, e.d_mag_i),
            mag_b: super::nominal::sum3(self.mag_b, e.d_mag_b),
            st: self.st.injected(kept, half),
            ..self
        }
    }

    /// Adds the errors that a measurement found, where `half` belongs to their turn.
    pub fn apply(&mut self, e: &ErrorState, half: &HalfAngle)
        ensures
            *final(self) == old(self).corrected(*e, *half),
    {
        self.mag_i = add_vectors(&self.mag_i, &e.d_mag_i);
        self.mag_b = add_vectors(&self.mag_b, &e.d_mag_b);
        if self.freeze_bias {
            let z: Single = Single::from_i32(0);
            let mut e2: ErrorState = *e;
            e2.dbg = [z, z, z];
            e2.dba = [z, z, z];
            inject_error(&mut self.st, &e2, half);
        } else {
            inject_error(&mut self.st, e, half);
        }
    }

    /// Takes a measured position; the errors it finds are to be applied.
    pub fn update_gps_pos(&mut self, meas: &[Single; 3]) -> (o: Result<
        (Single, ErrorState),
        Refusal,
    >)
        ensures
            ({
                let c = *old(self);
                let before = super::linear::rows(c.p);
                let residual = super::nominal::difference3(*meas, c.st.p);
                let j = super::nominal::picked_judgement(
                    before,
                    I_POS as int,
                    c.r_gps_p,
                    residual@,
                    c.gate,
                );
                &&& o is Ok <==> j is Ok
                &&& o matches Err(e) ==> j == Err::<Single, Refusal>(e)
                &&& o matches Ok(x) ==> {
                    &&& j == Ok::<Single, Refusal>(x.0)
                    &&& x.1 == super::nominal::picked_errors(
                        before,
                        I_POS as int,
                        c.r_gps_p,
                        residual@,
                    )
                    &&& super::linear::rows(final(self).p) == super::nominal::picked_covariance(
                        before,
                        I_POS as int,
                        c.r_gps_p,
                    )
                    &&& *final(self) == (Eskf { p: final(self).p, ..c })
                }
            }),
            o is Err ==> *final(self) == *old(self),
    {
        let residual: [Single; 3] = sub_vectors(meas, &self.st.p);
        measure_three(&mut self.p, I_POS, &residual, self.r_gps_p, self.gate)
    }

    /// Takes a measured velocity; the errors it finds are to be applied.
    pub fn update_gps_vel(&mut self, meas: &[Single; 3]) -> (o: Result<
        (Single, ErrorState),
        Refusal,
    >)
        ensures
            ({
                let c = *old(self);
                let before = super::linear::rows(c.p);
                let residual = super::nominal::difference3(*meas, c.st.v);
                let j = super::nominal::picked_judgement(
                    before,
                    I_VEL as int,
                    c.r_gps_v,
                    residual@,
                    c.gate,
                );
                &&& o is Ok <==> j is Ok
                &&& o matches Err(e) ==> j == Err::<Single, Refusal>(e)
                &&& o matches Ok(x) ==> {
                    &&& j == Ok::<Single, Refusal>(x.0)
                    &&& x.1 == super::nominal::picked_errors(
                        before,
                        I_VEL as int,
                        c.r_gps_v,
                        residual@,
                    )
                    &&& super::linear::rows(final(self).p) == super::nominal::picked_covariance(
                        before,
                        I_VEL as int,
                        c.r_gps_v,
                    )
                    &&& *final(self) == (Eskf { p: final(self).p, ..c })
                }
            }),
            o is Err ==> *final(self) == *old(self),
    {
        let residual: [Single; 3] = sub_vectors(meas, &self.st.v);
        measure_three(&mut self.p, I_VEL, &residual, self.r_gps_v, self.gate)
    }

    /// Takes a measured altitude; the errors it finds are to be applied.
    pub fn update_baro(&mut self, alt: Single) -> (o: Result<(Single, ErrorState), Refusal>)
        ensures
            ({
                let c = *old(self);
                let before = super::linear::rows(c.p);
                let residual = alt - c.st.p[2].negated();
                let h = super::nominal::altitude_row(21);
                let j = super::linear::judged(before, h, residual, c.r_baro, c.gate);
                &&& o is Ok <==> j is Ok
                &&& o matches Err(e) ==> j == Err::<Single, Refusal>(e)
                &&& o matches Ok(x) ==> {
                    &&& j == Ok::<Single, Refusal>(x.0)
                    &&& x.1 == super::nominal::altitude_errors(before, c.r_baro, residual)
                    &&& super::linear::rows(final(self).p) == super::linear::reduced(
                        before,
                        super::linear::gain(before, h, c.r_baro),
                        h,
                    )
                    &&& *final(self) == (Eskf { p: final(self).p, ..c })
                }
            }),
            o is Err ==> *final(self) == *old(self),
    {
        let residual: Single = alt - self.st.p[2].negate();
        measure_altitude(&mut self.p, residual, self.r_baro, self.gate)
    }

    /// The direction of gravity as the accelerometer shows it, where it can be trusted.
    pub fn gravity_direction(
        &self,
        accel_body: &[Single; 3],
        g_ned: &[Single; 3],
        t: &EskfTuning,
    ) -> (o: Result<[Single; 3], Refusal>)
        ensures
            ({
                let j = direction_judged(self.st.q, *accel_body, *g_ned, *t);
                &&& o is Ok <==> j is Ok
                &&& o matches Ok(d) ==> j == Ok::<Seq<Single>, Refusal>(d@)
                &&& o matches Err(e) ==> j == Err::<Seq<Single>, Refusal>(e)
            }),
    {
        if t.grav_on < Single::ratio(5, 10) {
            return Err(Refusal::SwitchedOff);
        }
        let an: Single = length(accel_body);
        if an < Single::ratio(1, 1000) {
            return Err(Refusal::Weightless);
        }
        let gn: Single = length(g_ned).max(Single::ratio(1, 1_000_000));
        let a: [Single; 3] = rotate_vec_by_quat(&self.st.q, *accel_body);
        let extra: Single = length(&[a[0] + g_ned[0], a[1] + g_ned[1], a[2] + g_ned[2]]);
        if extra > Single::ratio(25, 100) * gn {
            return Err(Refusal::Accelerating);
        }
        let d: [Single; 3] = [accel_body[0] / an, accel_body[1] / an, accel_body[2] / an];
        assert(d@ =~= seq![d[0], d[1], d[2]]);
        Ok(d)
    }

    /// Takes component `i` of the direction of gravity; the errors it finds are to be
    /// applied before the next component. A component that is refused changes nothing.
    pub fn update_gravity(&mut self, direction: &[Single; 3], g_ned: &[Single; 3], i: usize) -> (o:
        Result<ErrorState, Refusal>)
        requires
            i < 3,
        ensures
            ({
                let c = *old(self);
                let before = super::linear::rows(c.p);
                let h = gravity_row(c.st.q, *g_ned, i as int);
                let residual = direction[i as int] - gravity_seen(c.st.q, *g_ned)[i as int];
                let j = super::linear::judged(before, h, residual, c.r_mag, c.gate);
                &&& o is Ok <==> j is Ok
                &&& o matches Err(e) ==> j == Err::<Single, Refusal>(e)
                &&& o matches Ok(e) ==> {
                    &&& e == errors_of(found(before, h, c.r_mag, residual))
                    &&& super::linear::rows(final(self).p) == super::linear::reduced(
                        before,
                        super::linear::gain(before, h, c.r_mag),
                        h,
                    )
                    &&& *final(self) == (Eskf { p: final(self).p, ..c })
                }
            }),
            o is Err ==> *final(self) == *old(self),
    {
        let pred: [Single; 3] = predicted_gravity_body(&self.st.q, g_ned);
        let residual: Single = direction[i] - pred[i];
        let h: [Single; 21] = gravity_h(&self.st.q, g_ned, i);
        match take_component(&mut self.p, &h, residual, self.r_mag, self.gate) {
            Ok((_, e)) => Ok(e),
            Err(refusal) => Err(refusal),
        }
    }

    /// Sets the earth's field to `prior` and the body's field to what then explains the
    /// measurement, uncorrelated with all else. Where the magnetic field is switched off
    /// nothing changes.
    pub fn reset_mag_states(&mut self, meas: &[Single; 3], prior: &[Single; 3], t: &EskfTuning)
        ensures
            t.magnetic_off() ==> *final(self) == *old(self),
            !t.magnetic_off() ==> ({
                let c = *old(self);
                let e = c.st.q.conjugate().rotated(prior@);
                &&& super::linear::rows(final(self).p) == unmagnetic(
                    super::linear::rows(c.p),
                    c.r_mag,
                )
                &&& *final(self) == (Eskf {
                    mag_i: *prior,
                    mag_b: [meas[0] - e[0], meas[1] - e[1], meas[2] - e[2]],
                    p: final(self).p,
                    yaw_aligned: true,
                    ..c
                })
            }),
    {
        if t.mag_on < Single::ratio(5, 10) {
            return;
        }
        self.mag_i = *prior;
        let e: [Single; 3] = rotate_vec_by_quat_inverse(&self.st.q, *prior);
        self.mag_b = [meas[0] - e[0], meas[1] - e[1], meas[2] - e[2]];
        self.p = clear_magnetic(&self.p, self.r_mag);
        self.yaw_aligned = true;
    }

    /// Takes component `i` of the measured magnetic field; the errors it finds are to be
    /// applied before the next component. A component that is refused changes nothing
    /// but its count; where the magnetic field is switched off nothing changes.
    pub fn update_mag(&mut self, meas_body: &[Single; 3], i: usize, t: &EskfTuning) -> (o: Result<
        (Single, ErrorState),
        Refusal,
    >)
        requires
            i < 3,
        ensures
            t.magnetic_off() ==> o == Err::<(Single, ErrorState), Refusal>(Refusal::SwitchedOff)
                && *final(self) == *old(self),
            !t.magnetic_off() ==> ({
                let c = *old(self);
                let before = super::linear::rows(c.p);
                let h = mag_row(c.st.q, c.mag_i, i as int);
                let residual = meas_body[i as int] - field_seen(c.st.q, c.mag_i, c.mag_b)[i as int];
                let j = super::linear::judged(before, h, residual, c.r_mag, c.gate);
                &&& o is Ok <==> j is Ok
                &&& o matches Err(e) ==> {
                    &&& j == Err::<Single, Refusal>(e)
                    &&& *final(self) == (Eskf {
                        mag_skipped: if c.mag_skipped == u32::MAX {
                            u32::MAX
                        } else {
                            (c.mag_skipped + 1) as u32
                        },
                        ..c
                    })
                }
                &&& o matches Ok(x) ==> {
                    &&& j == Ok::<Single, Refusal>(x.0)
                    &&& x.1 == errors_of(found(before, h, c.r_mag, residual))
                    &&& super::linear::rows(final(self).p) == super::linear::reduced(
                        before,
                        super::linear::gain(before, h, c.r_mag),
                        h,
                    )
                    &&& *final(self) == (Eskf {
                        p: final(self).p,
                        mag_applied: if c.mag_applied == u32::MAX {
                            u32::MAX
                        } else {
                            (c.mag_applied + 1) as u32
                        },
                        ..c
                    })
                }
            }),
    {
        if t.mag_on < Single::ratio(5, 10) {
            return Err(Refusal::SwitchedOff);
        }
        let pred: [Single; 3] = predicted_mag_body(&self.st.q, &self.mag_i, &self.mag_b);
        let residual: Single = meas_body[i] - pred[i];
        let h: [Single; 21] = mag_h(&self.st.q, &self.mag_i, i);
        match take_component(&mut self.p, &h, residual, self.r_mag, self.gate) {
            Ok(x) => {
                self.mag_applied = self.mag_applied.saturating_add(1);
                Ok(x)
            },
            Err(refusal) => {
                self.mag_skipped = self.mag_skipped.saturating_add(1);
                Err(refusal)
            },
        }
    }
}

/// The rotation that levels the vehicle: about which axis, and the sine and the cosine of
/// the angle. With it comes the error of the gyroscope.
#[derive(Debug, Clone, Copy)]
pub struct Leveling {
    pub axis: [Single; 3],
    pub sin: Single,
    pub cos: Single,
    pub bg: [Single; 3],
}

/// The rotation from the measured up to the true up: none where there is no specific
/// force or it points up already, a half turn about the first axis where it points down.
pub open spec fn leveling_of(f: [Single; 3], bg: [Single; 3]) -> Leveling {
    let zero = Single::of_int(0);
    let one = Single::of_int(1);
    let none = Leveling { axis: [zero, zero, one], sin: zero, cos: one, bg };
    let n = length3(f);
    let up = [f[0] / n, f[1] / n, f[2] / n];
    let down = [zero, zero, Single::of_int(-1)];
    let ax = cross(up@, down@);
    let s = length3([ax[0], ax[1], ax[2]]);
    let c = (up[0] * zero + up[1] * zero + up[2] * Single::of_int(-1)).clamped(
        Single::of_int(-1),
        one,
    );
    if n.less(Single::of_ratio(1, 1_000_000)) {
        none
    } else if s.less(Single::of_ratio(1, 1_000_000_000)) {
        if zero.less(c) {
            none
        } else {
            Leveling { axis: [one, zero, zero], sin: zero, cos: Single::of_int(-1), bg }
        }
    } else {
        Leveling { axis: [ax[0] / s, ax[1] / s, ax[2] / s], sin: s, cos: c, bg }
    }
}

/// The rotation that levels a vehicle at rest whose accelerometer shows `f` and whose
/// gyroscope shows `gyro` on average. Nothing is known of the heading.
pub fn align_static(f: &[Single; 3], gyro: &[Single; 3]) -> (r: Leveling)
    ensures
        r == leveling_of(*f, *gyro),
{
    let bg: [Single; 3] = *gyro;
    let zero: Single = Single::from_i32(0);
    let one: Single = Single::from_i32(1);
    let minus: Single = Single::from_i32(-1);
    let n: Single = length(f);
    if n < Single::ratio(1, 1_000_000) {
        return Leveling { axis: [zero, zero, one], sin: zero, cos: one, bg };
    }
    let up: [Single; 3] = [f[0] / n, f[1] / n, f[2] / n];
    let ax: [Single; 3] = cross_product(&up, &[zero, zero, minus]);
    let s: Single = length(&ax);
    let c: Single = (up[0] * zero + up[1] * zero + up[2] * minus).clamp(minus, one);
    proof {
        assert([ax[0], ax[1], ax[2]]@ =~= ax@);
    }
    if s < Single::ratio(1, 1_000_000_000) {
        if c > zero {
            Leveling { axis: [zero, zero, one], sin: zero, cos: one, bg }
        } else {
            Leveling { axis: [one, zero, zero], sin: zero, cos: minus, bg }
        }
    } else {
        Leveling { axis: [ax[0] / s, ax[1] / s, ax[2] / s], sin: s, cos: c, bg }
    }
}

/// Setting the magnetic fields explains the measurement by which they were set, up to
/// the rounding of one difference and one sum.
pub proof fn law_reset_explains_measurement(
    c: Eskf,
    meas: [Single; 3],
    prior: [Single; 3],
    i: int,
)
    requires
        0 <= i < 3,
    ensures
        ({
            let e = c.st.q.conjugate().rotated(prior@);
            let b = [meas[0] - e[0], meas[1] - e[1], meas[2] - e[2]];
            field_seen(c.st.q, prior, b)[i] == e[i] + (meas[i] - e[i])
        }),
{
}

/// While the errors of the inertial unit are frozen, no measurement changes them.
pub proof fn law_frozen_bias_stays(c: Eskf, e: ErrorState, half: HalfAngle, i: int)
    requires
        c.freeze_bias,
        0 <= i < 3,
        !c.st.bg[i].nan(),
        !c.st.ba[i].nan(),
    ensures
        c.corrected(e, half).st.bg[i].same(c.st.bg[i]),
        c.corrected(e, half).st.ba[i].same(c.st.ba[i]),
{
    crate::single::laws::law_zero_is_neutral(c.st.bg[i]);
    crate::single::laws::law_zero_is_neutral(c.st.ba[i]);
}

/// A measurement that shows what was expected finds no error.
pub proof fn law_expected_measurement_finds_nothing(
    p: Seq<Seq<Single>>,
    h: Seq<Single>,
    r: Single,
    residual: Single,
    i: int,
)
    requires
        0 <= i < 21,
        residual.same(Single::of_int(0)),
        super::linear::gain(p, h, r)[i].finite(),
    ensures
        found(p, h, r, residual)[i].same(Single::of_int(0)),
{
    crate::single::laws::law_product_with_zero(super::linear::gain(p, h, r)[i], residual);
}

/// Whether all three are zero.
pub open spec fn all_zero(v: [Single; 3]) -> bool {
    let z = Single::of_int(0);
    v[0].same(z) && v[1].same(z) && v[2].same(z)
}

/// Where no error was found, nothing turns, and velocity, position, the errors of the
/// inertial unit and the magnetic fields stay the numbers they were.
pub proof fn law_no_error_changes_nothing(c: Eskf, e: ErrorState, half: HalfAngle, i: int)
    requires
        0 <= i < 3,
        all_zero(e.dtheta),
        all_zero(e.dv),
        all_zero(e.dp),
        all_zero(e.dbg),
        all_zero(e.dba),
        all_zero(e.d_mag_i),
        all_zero(e.d_mag_b),
        c.st.v[i].finite(),
        c.st.p[i].finite(),
        c.st.bg[i].finite(),
        c.st.ba[i].finite(),
        c.mag_i[i].finite(),
        c.mag_b[i].finite(),
    ensures
        e.turn_of() is None,
        c.corrected(e, half).st.v[i].same(c.st.v[i]),
        c.corrected(e, half).st.p[i].same(c.st.p[i]),
        c.corrected(e, half).st.bg[i].same(c.st.bg[i]),
        c.corrected(e, half).st.ba[i].same(c.st.ba[i]),
        c.corrected(e, half).mag_i[i].same(c.mag_i[i]),
        c.corrected(e, half).mag_b[i].same(c.mag_b[i]),
{
    let z = Single::of_int(0);
    crate::single::arith::lemma_small_ints();
    crate::single::laws::law_zero_takes_nothing(c.st.v[i], e.dv[i]);
    crate::single::laws::law_zero_takes_nothing(c.st.p[i], e.dp[i]);
    crate::single::laws::law_zero_takes_nothing(c.st.bg[i], e.dbg[i]);
    crate::single::laws::law_zero_takes_nothing(c.st.ba[i], e.dba[i]);
    crate::single::laws::law_zero_is_neutral(c.st.bg[i]);
    crate::single::laws::law_zero_is_neutral(c.st.ba[i]);
    crate::single::laws::law_zero_takes_nothing(c.mag_i[i], e.d_mag_i[i]);
    crate::single::laws::law_zero_takes_nothing(c.mag_b[i], e.d_mag_b[i]);
    let t = e.dtheta;
    crate::single::laws::lemma_same_is_finite(t[0], z);
    crate::single::laws::lemma_same_is_finite(t[1], z);
    crate::single::laws::lemma_same_is_finite(t[2], z);
    crate::single::laws::law_product_with_zero(t[0], t[0]);
    crate::single::laws::law_product_with_zero(t[1], t[1]);
    crate::single::laws::law_product_with_zero(t[2], t[2]);
    crate::single::laws::law_zero_is_neutral(z);
    crate::single::laws::law_same_sums(t[0] * t[0], t[1] * t[1], z, z);
    crate::single::laws::law_same_sums(t[0] * t[0] + t[1] * t[1], t[2] * t[2], z, z);
    let least = Single { bits: super::nominal::NO_TURN_BITS };
    assert(least.value() >= 0);
}

} // verus!
