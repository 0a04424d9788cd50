//! The nominal state of the error state filters, its prediction from inertial
//! increments, the errors that measurements find in it, and their injection.
//!
//! Where a rotation by a computed angle is needed, the caller supplies the sine and the
//! cosine of its half.

use super::linear::{add_products, see, update_scalar, update_vec3, vector_gain, Refusal};
use crate::single::Single;
use crate::vehicle::{quat_mul, rotate_vec_by_quat, Quaternion};
use vstd::prelude::*;

verus! {

/// Attitude, velocity, position, and the errors of gyroscope and accelerometer.
#[derive(Debug, Clone, Copy)]
pub struct NominalState {
    /// From body axes to north-east-down.
    pub q: Quaternion,
    pub v: [Single; 3],
    pub p: [Single; 3],
    pub bg: [Single; 3],
    pub ba: [Single; 3],
}

/// The turn and the change of velocity that the inertial unit measured in one step.
#[derive(Debug, Clone, Copy)]
pub struct ImuDelta {
    pub delta_ang: [Single; 3],
    pub delta_vel: [Single; 3],
}

/// Where the blocks of the error state start.
pub const I_ATT: usize = 0;

pub const I_VEL: usize = 3;

pub const I_POS: usize = 6;

pub const I_BG: usize = 9;

pub const I_BA: usize = 12;

/// The earth's magnetic field.
pub const I_MAGI: usize = 15;

/// The magnetic field of the body.
pub const I_MAGB: usize = 18;

/// The size of an error state without the magnetic fields.
pub const INERTIAL_LEN: usize = 15;

/// Ten to the power of minus eighteen: below it, a squared angle is none.
pub const NO_TURN_BITS: u32 = 0x2193_92EF;

/// A rotation to be made: a unit axis and an angle.
#[derive(Debug, Clone, Copy)]
pub struct Turn {
    pub axis: [Single; 3],
    pub angle: Single,
}

/// The sine and the cosine of half of an angle.
#[derive(Debug, Clone, Copy)]
pub struct HalfAngle {
    pub sin: Single,
    pub cos: Single,
}

/// The squared length of a vector.
pub open spec fn squared3(v: [Single; 3]) -> Single {
    v[0] * v[0] + v[1] * v[1] + v[2] * v[2]
}

pub fn squared_length(v: &[Single; 3]) -> (r: Single)
    ensures
        r == squared3(*v),
{
    v[0] * v[0] + v[1] * v[1] + v[2] * v[2]
}

/// The axis of a rotation vector, unless it is too short to have one.
pub open spec fn axis_of(v: [Single; 3]) -> Option<[Single; 3]> {
    let n = squared3(v).root();
    if (Single { bits: NO_TURN_BITS }).less(squared3(v)) {
        Some([v[0] / n, v[1] / n, v[2] / n])
    } else {
        None
    }
}

/// The difference of measured and erroneous rate.
pub open spec fn rate_of(delta: [Single; 3], dt: Single, bias: [Single; 3]) -> [Single; 3] {
    [delta[0] / dt - bias[0], delta[1] / dt - bias[1], delta[2] / dt - bias[2]]
}

pub fn unbiased_rate(delta: &[Single; 3], dt: Single, bias: &[Single; 3]) -> (r: [Single; 3])
    ensures
        r == rate_of(*delta, dt, *bias),
{
    [delta[0] / dt - bias[0], delta[1] / dt - bias[1], delta[2] / dt - bias[2]]
}

impl NominalState {
    /// The state without sensor errors.
    pub open spec fn without_bias(q: Quaternion, v: [Single; 3], p: [Single; 3]) -> NominalState {
        let z = Single::of_int(0);
        NominalState { q, v, p, bg: [z, z, z], ba: [z, z, z] }
    }

    pub fn new(q: Quaternion, v: [Single; 3], p: [Single; 3]) -> (r: NominalState)
        ensures
            r == NominalState::without_bias(q, v, p),
    {
        let z: Single = Single::from_i32(0);
        NominalState { q, v, p, bg: [z, z, z], ba: [z, z, z] }
    }

    /// The turn of one step.
    pub open spec fn turn_of(self, delta_ang: [Single; 3], dt: Single) -> Option<Turn> {
        let w = rate_of(delta_ang, dt, self.bg);
        match axis_of(w) {
            Some(axis) => Some(Turn { axis, angle: squared3(w).root() * dt }),
            None => None,
        }
    }

    /// The turn of one step: about which axis and by which angle the body turned.
    pub fn turn(&self, delta_ang: &[Single; 3], dt: Single) -> (r: Option<Turn>)
        ensures
            r == self.turn_of(*delta_ang, dt),
    {
        let w: [Single; 3] = unbiased_rate(delta_ang, dt, &self.bg);
        let wn2: Single = squared_length(&w);
        if wn2 > Single::from_bits(NO_TURN_BITS) {
            let wn: Single = wn2.sqrt();
            Some(Turn { axis: [w[0] / wn, w[1] / wn, w[2] / wn], angle: wn * dt })
        } else {
            None
        }
    }

    /// The state after one step: the attitude turns, then the specific force in the new
    /// attitude and gravity change the velocity, and the old velocity the position.
    pub open spec fn predicted(
        self,
        imu: ImuDelta,
        g: [Single; 3],
        dt: Single,
        half: HalfAngle,
    ) -> NominalState {
        let q = match self.turn_of(imu.delta_ang, dt) {
            Some(t) => Quaternion::of_turn(t.axis, half.sin, half.cos).times(self.q).unit_of(),
            None => self.q,
        };
        let a = q.rotated(rate_of(imu.delta_vel, dt, self.ba)@);
        NominalState {
            q,
            v: [
                self.v[0] + (a[0] + g[0]) * dt,
                self.v[1] + (a[1] + g[1]) * dt,
                self.v[2] + (a[2] + g[2]) * dt,
            ],
            p: [
                self.p[0] + self.v[0] * dt,
                self.p[1] + self.v[1] * dt,
                self.p[2] + self.v[2] * dt,
            ],
            ..self
        }
    }

    /// Advances by one step, where `half` belongs to the angle of `turn`.
    pub fn predict(&mut self, imu: &ImuDelta, g: &[Single; 3], dt: Single, half: &HalfAngle)
        ensures
            *final(self) == old(self).predicted(*imu, *g, dt, *half),
    {
        if let Some(t) = self.turn(&imu.delta_ang, dt) {
            let dq: Quaternion = Quaternion::from_axis_angle(t.axis, half.sin, half.cos);
            self.q = quat_mul(dq, self.q).normalize();
        }
        let f: [Single; 3] = unbiased_rate(&imu.delta_vel, dt, &self.ba);
        let a: [Single; 3] = rotate_vec_by_quat(&self.q, f);
        let v: [Single; 3] = self.v;
        self.v = [
            v[0] + (a[0] + g[0]) * dt,
            v[1] + (a[1] + g[1]) * dt,
            v[2] + (a[2] + g[2]) * dt,
        ];
        self.p = [self.p[0] + v[0] * dt, self.p[1] + v[1] * dt, self.p[2] + v[2] * dt];
    }
}

/// Element `(i, j)` of the matrix that multiplies by `v` crosswise.
pub open spec fn cross_at(v: Seq<Single>, i: int, j: int) -> Single {
    if i == j {
        Single::of_int(0)
    } else if j == (i + 1) % 3 {
        v[(i + 2) % 3].negated()
    } else {
        v[(i + 1) % 3]
    }
}

fn cross_element(v: &[Single; 3], i: usize, j: usize) -> (r: Single)
    requires
        i < 3,
        j < 3,
    ensures
        r == cross_at(v@, i as int, j as int),
{
    if i == j {
        Single::from_i32(0)
    } else if j == (i + 1) % 3 {
        v[(i + 2) % 3].negate()
    } else {
        v[(i + 1) % 3]
    }
}

/// Element `(i, j)` of the transition of the error state: `w` turns the attitude error
/// and `a`, the specific force to north-east-down, turns it into velocity; `r` takes the
/// accelerometer's error there.
pub open spec fn transition_at(
    i: int,
    j: int,
    w: Seq<Single>,
    dt: Single,
    r: Seq<Seq<Single>>,
    a: Seq<Single>,
) -> Single {
    let zero = Single::of_int(0);
    if i < 3 && j < 3 && i != j {
        zero + cross_at(w, i, j) * dt
    } else if i < 3 && I_BG <= j < I_BA {
        if j == i + I_BG {
            zero + dt.negated()
        } else {
            zero
        }
    } else if I_VEL <= i < I_POS && j < 3 {
        zero + cross_at(a, i - I_VEL, j) * dt
    } else if I_VEL <= i < I_POS && I_BA <= j < INERTIAL_LEN {
        zero + r[i - I_VEL][j - I_BA].negated() * dt
    } else if I_POS <= i < I_BG && I_VEL <= j < I_POS {
        if j + I_VEL == i {
            zero + dt
        } else {
            zero
        }
    } else if i == j {
        Single::of_int(1)
    } else {
        zero
    }
}

/// The transition of an error state of `n` elements.
pub open spec fn transition(
    n: nat,
    w: Seq<Single>,
    dt: Single,
    r: Seq<Seq<Single>>,
    a: Seq<Single>,
) -> Seq<Seq<Single>> {
    Seq::new(n, |i: int| Seq::new(n, |j: int| transition_at(i, j, w, dt, r, a)))
}

fn transition_element(
    i: usize,
    j: usize,
    w: &[Single; 3],
    dt: Single,
    r: &[[Single; 3]; 3],
    a: &[Single; 3],
) -> (x: Single)
    ensures
        x == transition_at(i as int, j as int, w@, dt, super::linear::rows(*r), a@),
{
    let zero: Single = Single::from_i32(0);
    if i < 3 && j < 3 && i != j {
        zero + cross_element(w, i, j) * dt
    } else if i < 3 && I_BG <= j && j < I_BA {
        if j == i + I_BG {
            zero + dt.negate()
        } else {
            zero
        }
    } else if I_VEL <= i && i < I_POS && j < 3 {
        zero + cross_element(a, i - I_VEL, j) * dt
    } else if I_VEL <= i && i < I_POS && I_BA <= j && j < INERTIAL_LEN {
        zero + r[i - I_VEL][j - I_BA].negate() * dt
    } else if I_POS <= i && i < I_BG && I_VEL <= j && j < I_POS {
        if j + I_VEL == i {
            zero + dt
        } else {
            zero
        }
    } else if i == j {
        Single::from_i32(1)
    } else {
        zero
    }
}

/// The transition of the error state in the attitude `q`, with the body rates `w`, the
/// specific force `f_body` and the rotation `r` of the attitude.
pub fn transition_matrix<const N: usize>(
    q: &Quaternion,
    w: &[Single; 3],
    dt: Single,
    r: &[[Single; 3]; 3],
    f_body: [Single; 3],
) -> (f: [[Single; N]; N])
    ensures
        super::linear::rows(f) == transition(
            N as nat,
            w@,
            dt,
            super::linear::rows(*r),
            q.rotated(f_body@),
        ),
{
    let a: [Single; 3] = rotate_vec_by_quat(q, f_body);
    let ghost want = transition(N as nat, w@, dt, super::linear::rows(*r), a@);
    let zero: Single = Single::from_i32(0);
    let mut f: [[Single; N]; N] = [[zero; N]; N];
    let mut i: usize = 0;
    while i < N
        invariant
            i <= N,
            want == transition(N as nat, w@, dt, super::linear::rows(*r), a@),
            forall|n: int| 0 <= n < i ==> (#[trigger] f[n])@ == want[n],
        decreases N - i,
    {
        let mut row: [Single; N] = [zero; N];
        let mut j: usize = 0;
        while j < N
            invariant
                i < N,
                j <= N,
                want == transition(N as nat, w@, dt, super::linear::rows(*r), a@),
                forall|n: int| 0 <= n < j ==> #[trigger] row[n] == want[i as int][n],
            decreases N - j,
        {
            row[j] = transition_element(i, j, w, dt, r, &a);
            j += 1;
        }
        assert(row@ =~= want[i as int]);
        f[i] = row;
        i += 1;
    }
    assert(super::linear::rows(f) =~= want);
    f
}

/// The unit vector along axis `j`.
pub open spec fn basis(j: int) -> Seq<Single> {
    Seq::new(
        3,
        |i: int|
            if i == j {
                Single::of_int(1)
            } else {
                Single::of_int(0)
            },
    )
}

pub fn basis_vector(j: usize) -> (r: [Single; 3])
    requires
        j < 3,
    ensures
        r@ == basis(j as int),
{
    let zero: Single = Single::from_i32(0);
    let mut r: [Single; 3] = [zero, zero, zero];
    r[j] = Single::from_i32(1);
    assert(r@ =~= basis(j as int));
    r
}

/// The rotation of an attitude as a matrix.
pub open spec fn rotation_of(q: Quaternion) -> Seq<Seq<Single>> {
    Seq::new(3, |i: int| Seq::new(3, |j: int| q.rotated(basis(j))[i]))
}

pub fn rot_of(q: &Quaternion) -> (r: [[Single; 3]; 3])
    ensures
        super::linear::rows(r) == rotation_of(*q),
{
    let c0: [Single; 3] = rotate_vec_by_quat(q, basis_vector(0));
    let c1: [Single; 3] = rotate_vec_by_quat(q, basis_vector(1));
    let c2: [Single; 3] = rotate_vec_by_quat(q, basis_vector(2));
    let r: [[Single; 3]; 3] = [
        [c0[0], c1[0], c2[0]],
        [c0[1], c1[1], c2[1]],
        [c0[2], c1[2], c2[2]],
    ];
    proof {
        let want = rotation_of(*q);
        assert(r[0]@ =~= want[0]);
        assert(r[1]@ =~= want[1]);
        assert(r[2]@ =~= want[2]);
        assert(super::linear::rows(r) =~= want);
    }
    r
}

/// A diagonal matrix whose blocks of three have the values of `d`.
pub open spec fn block_diagonal(n: nat, d: Seq<Single>) -> Seq<Seq<Single>> {
    Seq::new(
        n,
        |i: int|
            Seq::new(
                n,
                |j: int|
                    if i == j && i / 3 < d.len() {
                        d[i / 3]
                    } else {
                        Single::of_int(0)
                    },
            ),
    )
}

pub fn diagonal_blocks<const N: usize, const B: usize>(d: &[Single; B]) -> (m: [[Single; N]; N])
    ensures
        super::linear::rows(m) == block_diagonal(N as nat, d@),
{
    let zero: Single = Single::from_i32(0);
    let ghost want = block_diagonal(N as nat, d@);
    let mut m: [[Single; N]; N] = [[zero; N]; N];
    let mut i: usize = 0;
    while i < N
        invariant
            i <= N,
            zero == Single::of_int(0),
            want == block_diagonal(N as nat, d@),
            forall|n: int| 0 <= n < i ==> (#[trigger] m[n])@ == want[n],
        decreases N - i,
    {
        let mut row: [Single; N] = [zero; N];
        if i / 3 < B {
            row[i] = d[i / 3];
        }
        assert(row@ =~= want[i as int]);
        m[i] = row;
        i += 1;
    }
    assert(super::linear::rows(m) =~= want);
    m
}

/// The errors that a measurement found: what to add to the nominal state.
#[derive(Debug, Clone, Copy)]
pub struct ErrorState {
    pub d_mag_i: [Single; 3],
    pub d_mag_b: [Single; 3],
    pub dtheta: [Single; 3],
    pub dv: [Single; 3],
    pub dp: [Single; 3],
    pub dbg: [Single; 3],
    pub dba: [Single; 3],
}

impl Default for ErrorState {
    fn default() -> (r: ErrorState)
        ensures
            r == ErrorState::none(),
    {
        ErrorState::zero()
    }
}

impl ErrorState {
    pub open spec fn none() -> ErrorState {
        let z = Single::of_int(0);
        ErrorState {
            d_mag_i: [z, z, z],
            d_mag_b: [z, z, z],
            dtheta: [z, z, z],
            dv: [z, z, z],
            dp: [z, z, z],
            dbg: [z, z, z],
            dba: [z, z, z],
        }
    }

    /// No error.
    pub fn zero() -> (r: ErrorState)
        ensures
            r == ErrorState::none(),
    {
        let z: Single = Single::from_i32(0);
        ErrorState {
            d_mag_i: [z, z, z],
            d_mag_b: [z, z, z],
            dtheta: [z, z, z],
            dv: [z, z, z],
            dp: [z, z, z],
            dbg: [z, z, z],
            dba: [z, z, z],
        }
    }

    /// The errors of the inertial blocks, one behind the other.
    pub open spec fn of_inertial(x: Seq<Single>) -> ErrorState {
        ErrorState {
            dtheta: [x[0], x[1], x[2]],
            dv: [x[3], x[4], x[5]],
            dp: [x[6], x[7], x[8]],
            dbg: [x[9], x[10], x[11]],
            dba: [x[12], x[13], x[14]],
            ..ErrorState::none()
        }
    }

    /// The errors of the inertial blocks, one behind the other.
    pub fn from_inertial<const N: usize>(x: &[Single; N]) -> (r: ErrorState)
        requires
            N >= INERTIAL_LEN,
        ensures
            r == ErrorState::of_inertial(x@),
    {
        let e: ErrorState = ErrorState::zero();
        ErrorState {
            dtheta: [x[0], x[1], x[2]],
            dv: [x[3], x[4], x[5]],
            dp: [x[6], x[7], x[8]],
            dbg: [x[9], x[10], x[11]],
            dba: [x[12], x[13], x[14]],
            ..e
        }
    }

    pub open spec fn turn_of(self) -> Option<Turn> {
        match axis_of(self.dtheta) {
            Some(axis) => Some(Turn { axis, angle: squared3(self.dtheta).root() }),
            None => None,
        }
    }

    /// The rotation by the attitude error.
    pub fn turn(&self) -> (r: Option<Turn>)
        ensures
            r == self.turn_of(),
    {
        let th: [Single; 3] = self.dtheta;
        let th2: Single = squared_length(&th);
        if th2 > Single::from_bits(NO_TURN_BITS) {
            let n: Single = th2.sqrt();
            Some(Turn { axis: [th[0] / n, th[1] / n, th[2] / n], angle: n })
        } else {
            None
        }
    }
}

/// The sum of two vectors.
pub open spec fn sum3(a: [Single; 3], b: [Single; 3]) -> [Single; 3] {
    [a[0] + b[0], a[1] + b[1], a[2] + b[2]]
}

pub fn add_vectors(a: &[Single; 3], b: &[Single; 3]) -> (r: [Single; 3])
    ensures
        r == sum3(*a, *b),
{
    [a[0] + b[0], a[1] + b[1], a[2] + b[2]]
}

/// The difference of two vectors.
pub open spec fn difference3(a: [Single; 3], b: [Single; 3]) -> [Single; 3] {
    [a[0] - b[0], a[1] - b[1], a[2] - b[2]]
}

pub fn sub_vectors(a: &[Single; 3], b: &[Single; 3]) -> (r: [Single; 3])
    ensures
        r == difference3(*a, *b),
{
    [a[0] - b[0], a[1] - b[1], a[2] - b[2]]
}

impl NominalState {
    /// The state with the errors added: the attitude is turned, the rest is a sum.
    pub open spec fn injected(self, e: ErrorState, half: HalfAngle) -> NominalState {
        let dq = match e.turn_of() {
            Some(t) => Quaternion::of_turn(t.axis, half.sin, half.cos),
            None => Quaternion::unit(),
        };
        NominalState {
            q: dq.times(self.q).unit_of(),
            v: sum3(self.v, e.dv),
            p: sum3(self.p, e.dp),
            bg: sum3(self.bg, e.dbg),
            ba: sum3(self.ba, e.dba),
        }
    }
}

/// Adds errors to a state, where `half` belongs to the angle of their turn.
pub fn inject_error(st: &mut NominalState, e: &ErrorState, half: &HalfAngle)
    ensures
        *final(st) == old(st).injected(*e, *half),
{
    let dq: Quaternion = match e.turn() {
        Some(t) => Quaternion::from_axis_angle(t.axis, half.sin, half.cos),
        None => Quaternion::identity(),
    };
    st.q = quat_mul(dq, st.q).normalize();
    st.v = add_vectors(&st.v, &e.dv);
    st.p = add_vectors(&st.p, &e.dp);
    st.bg = add_vectors(&st.bg, &e.dbg);
    st.ba = add_vectors(&st.ba, &e.dba);
}

/// The rotation from the attitude `q_old` to that of `st`, and the length of its vector
/// part.
pub open spec fn rotation_since(q_old: Quaternion, st: NominalState) -> (Quaternion, Single) {
    let dq = st.q.times(q_old.conjugate()).unit_of();
    (dq, squared3([dq.x, dq.y, dq.z]).root())
}

/// The rotation from the attitude `q_old` to that of `st`, and the length of its vector
/// part.
pub fn error_rotation(q_old: &Quaternion, st: &NominalState) -> (r: (Quaternion, Single))
    ensures
        r == rotation_since(*q_old, *st),
{
    let inv = Quaternion {
        w: q_old.w,
        x: q_old.x.negate(),
        y: q_old.y.negate(),
        z: q_old.z.negate(),
    };
    let dq: Quaternion = quat_mul(st.q, inv).normalize();
    (dq, squared_length(&[dq.x, dq.y, dq.z]).sqrt())
}

/// The attitude error of a rotation whose vector part has the length `s`, where
/// `half_angle` is the arctangent of `s` over the scalar part, which counts as zero where
/// it is negative.
pub fn extract_error(dq: &Quaternion, s: Single, half_angle: Single) -> (e: ErrorState)
    ensures
        ({
            let two = Single::of_int(2);
            let k = two * half_angle / s;
            e == (ErrorState {
                dtheta: if Single::of_ratio(1, 1_000_000_000).less(s) {
                    [k * dq.x, k * dq.y, k * dq.z]
                } else {
                    [two * dq.x, two * dq.y, two * dq.z]
                },
                ..ErrorState::none()
            })
        }),
{
    let two: Single = Single::from_i32(2);
    let dtheta: [Single; 3] = if s > Single::ratio(1, 1_000_000_000) {
        let k: Single = two * half_angle / s;
        [k * dq.x, k * dq.y, k * dq.z]
    } else {
        [two * dq.x, two * dq.y, two * dq.z]
    };
    let e: ErrorState = ErrorState::zero();
    ErrorState { dtheta, ..e }
}

/// The rows of a measurement that sees three elements of the error state, from `at` on.
pub open spec fn picking(n: nat, at: int) -> Seq<Seq<Single>> {
    Seq::new(
        3,
        |a: int|
            Seq::new(
                n,
                |j: int|
                    if j == at + a {
                        Single::of_int(1)
                    } else {
                        Single::of_int(0)
                    },
            ),
    )
}

fn pick<const N: usize>(at: usize) -> (h: [[Single; N]; 3])
    requires
        at + 3 <= N,
    ensures
        super::linear::rows(h) == picking(N as nat, at as int),
{
    let zero: Single = Single::from_i32(0);
    let one: Single = Single::from_i32(1);
    let mut r0: [Single; N] = [zero; N];
    let mut r1: [Single; N] = [zero; N];
    let mut r2: [Single; N] = [zero; N];
    r0[at] = one;
    r1[at + 1] = one;
    r2[at + 2] = one;
    let h: [[Single; N]; 3] = [r0, r1, r2];
    proof {
        let want = picking(N as nat, at as int);
        assert(h[0]@ =~= want[0]);
        assert(h[1]@ =~= want[1]);
        assert(h[2]@ =~= want[2]);
        assert(super::linear::rows(h) =~= want);
    }
    h
}

/// A diagonal matrix of three rows.
pub open spec fn diagonal3(v: Single) -> Seq<Seq<Single>> {
    let z = Single::of_int(0);
    seq![seq![v, z, z], seq![z, v, z], seq![z, z, v]]
}

pub fn diag3(v: Single) -> (r: [[Single; 3]; 3])
    ensures
        super::linear::rows(r) == diagonal3(v),
{
    let z: Single = Single::from_i32(0);
    let r: [[Single; 3]; 3] = [[v, z, z], [z, v, z], [z, z, v]];
    proof {
        let want = diagonal3(v);
        assert(r[0]@ =~= want[0]);
        assert(r[1]@ =~= want[1]);
        assert(r[2]@ =~= want[2]);
        assert(super::linear::rows(r) =~= want);
    }
    r
}

/// What three measurements of elements from `at` on change: the covariance, and the
/// errors found, where they are taken.
pub open spec fn picked_covariance(p: Seq<Seq<Single>>, at: int, r: Single) -> Seq<Seq<Single>> {
    let h = picking(p.len(), at);
    super::linear::reduced3(p, super::linear::gain3(p, h, diagonal3(r)), h)
}

/// The errors that three measurements of elements from `at` on find.
pub open spec fn picked_errors(
    p: Seq<Seq<Single>>,
    at: int,
    r: Single,
    residual: Seq<Single>,
) -> ErrorState {
    let k = super::linear::gain3(p, picking(p.len(), at), diagonal3(r));
    ErrorState::of_inertial(
        Seq::new(p.len(), |i: int| super::linear::dot(k[i], residual)),
    )
}

/// Whether three measurements of elements from `at` on are taken.
pub open spec fn picked_judgement(
    p: Seq<Seq<Single>>,
    at: int,
    r: Single,
    residual: Seq<Single>,
    gate: Single,
) -> Result<Single, Refusal> {
    super::linear::judged3(p, picking(p.len(), at), residual, diagonal3(r), gate)
}

/// Measures three elements of the error state from `at` on, with the innovation
/// `residual` and the noise `r`. Returns how surprising that was and the errors found.
/// The gain is that of the covariance before.
pub fn measure_three<const N: usize>(
    p: &mut [[Single; N]; N],
    at: usize,
    residual: &[Single; 3],
    r: Single,
    gate: Single,
) -> (o: Result<(Single, ErrorState), Refusal>)
    requires
        N >= INERTIAL_LEN,
        at + 3 <= N,
    ensures
        ({
            let before = super::linear::rows(*old(p));
            let j = picked_judgement(before, at as int, r, residual@, gate);
            &&& o is Ok <==> j is Ok
            &&& o matches Err(e) ==> j == Err::<Single, Refusal>(e)
            &&& o matches Ok(x) ==> {
                &&& j == Ok::<Single, Refusal>(x.0)
                &&& x.1 == picked_errors(before, at as int, r, residual@)
                &&& super::linear::rows(*final(p)) == picked_covariance(before, at as int, r)
            }
        }),
        o is Err ==> *final(p) == *old(p),
{
    let zero: Single = Single::from_i32(0);
    let h: [[Single; N]; 3] = pick(at);
    let noise: [[Single; 3]; 3] = diag3(r);
    let k: [[Single; 3]; N] = vector_gain(p, &h, &noise);
    let ghost before = super::linear::rows(*p);
    let ghost want = Seq::new(
        N as nat,
        |i: int| super::linear::dot(super::linear::rows(k)[i], residual@),
    );
    let mut dx: [Single; N] = [zero; N];
    let mut i: usize = 0;
    while i < N
        invariant
            i <= N,
            zero == Single::of_int(0),
            want == Seq::new(
                N as nat,
                |n: int| super::linear::dot(super::linear::rows(k)[n], residual@),
            ),
            forall|n: int| 0 <= n < i ==> #[trigger] dx[n] == want[n],
        decreases N - i,
    {
        dx[i] = add_products(zero, &k[i], residual);
        i += 1;
    }
    assert(dx@ =~= want);
    let e: ErrorState = ErrorState::from_inertial(&dx);
    match update_vec3(p, &h, residual, &noise, gate) {
        Ok(sigma) => Ok((sigma, e)),
        Err(refusal) => Err(refusal),
    }
}

/// The row of a measurement of altitude.
pub open spec fn altitude_row(n: nat) -> Seq<Single> {
    Seq::new(
        n,
        |j: int|
            if j == I_POS + 2 {
                Single::of_int(-1)
            } else {
                Single::of_int(0)
            },
    )
}

/// The errors that a measurement of altitude finds.
pub open spec fn altitude_errors(p: Seq<Seq<Single>>, r: Single, residual: Single) -> ErrorState {
    let h = altitude_row(p.len());
    let s = super::linear::innovation_variance(p, h, r);
    let x = Seq::new(p.len(), |i: int| super::linear::seen(p, h)[i] / s * residual);
    let zero = Single::of_int(0);
    if zero.less(s) {
        ErrorState::of_inertial(x)
    } else {
        ErrorState::none()
    }
}

/// Measures the altitude: the innovation `residual`, the noise `r`. Returns how
/// surprising that was and the errors found.
pub fn measure_altitude<const N: usize>(
    p: &mut [[Single; N]; N],
    residual: Single,
    r: Single,
    gate: Single,
) -> (o: Result<(Single, ErrorState), Refusal>)
    requires
        N >= INERTIAL_LEN,
    ensures
        ({
            let before = super::linear::rows(*old(p));
            let h = altitude_row(N as nat);
            let j = super::linear::judged(before, h, residual, r, gate);
            &&& o is Ok <==> j is Ok
            &&& o matches Err(e) ==> j == Err::<Single, Refusal>(e)
            &&& o matches Ok(x) ==> {
                &&& j == Ok::<Single, Refusal>(x.0)
                &&& x.1 == altitude_errors(before, r, residual)
                &&& super::linear::rows(*final(p)) == super::linear::reduced(
                    before,
                    super::linear::gain(before, h, r),
                    h,
                )
            }
        }),
        o is Err ==> *final(p) == *old(p),
{
    let zero: Single = Single::from_i32(0);
    let mut h: [Single; N] = [zero; N];
    h[I_POS + 2] = Single::from_i32(-1);
    assert(h@ =~= altitude_row(N as nat));
    let ghost before = super::linear::rows(*p);
    let ph: [Single; N] = see(p, &h);
    let s: Single = add_products(r, &h, &ph);
    let ghost want = Seq::new(N as nat, |i: int| ph[i] / s * residual);
    let mut e: ErrorState = ErrorState::zero();
    if s > zero {
        let mut x: [Single; N] = [zero; N];
        let mut i: usize = 0;
        while i < N
            invariant
                i <= N,
                want == Seq::new(N as nat, |n: int| ph[n] / s * residual),
                forall|n: int| 0 <= n < i ==> #[trigger] x[n] == want[n],
            decreases N - i,
        {
            x[i] = ph[i] / s * residual;
            i += 1;
        }
        assert(x@ =~= want);
        e = ErrorState::from_inertial(&x);
    }
    proof {
        let hs = altitude_row(N as nat);
        assert(want =~= Seq::new(
            before.len(),
            |i: int|
                super::linear::seen(before, hs)[i] / super::linear::innovation_variance(
                    before,
                    hs,
                    r,
                ) * residual,
        ));
    }
    match update_scalar(p, &h, residual, r, gate) {
        Ok(sigma) => Ok((sigma, e)),
        Err(refusal) => Err(refusal),
    }
}

/// What is the same number is worth the same.
pub proof fn lemma_same_worth(x: Single, y: Single, n: int, k: nat)
    requires
        crate::single::exact::worth(x, n, k),
        y.same(x),
    ensures
        crate::single::exact::worth(y, n, k),
{
    crate::single::laws::lemma_same_is_finite(y, x);
}

/// Along every axis alike, velocity changes the way that specific force and gravity point:
/// where their sum points up or down the axis, the velocity along it does not change the
/// other way. The specific force is what the accelerometer shows in the new attitude.
pub proof fn law_force_drives_velocity(
    s: NominalState,
    imu: ImuDelta,
    g: [Single; 3],
    dt: Single,
    half: HalfAngle,
    i: int,
    up: bool,
)
    requires
        0 <= i < 3,
        s.v[i].finite(),
        dt.finite(),
        crate::single::signs::toward(true, dt),
        ({
            let n = s.predicted(imu, g, dt, half);
            let push = n.q.rotated(rate_of(imu.delta_vel, dt, s.ba)@)[i] + g[i];
            push.finite() && crate::single::signs::toward(up, push)
        }),
    ensures
        crate::single::signs::ahead(up, s.v[i], s.predicted(imu, g, dt, half).v[i]),
{
    let n = s.predicted(imu, g, dt, half);
    let push = n.q.rotated(rate_of(imu.delta_vel, dt, s.ba)@)[i] + g[i];
    crate::single::signs::law_product_points(up, push, dt);
    crate::single::signs::law_sum_moves(up, s.v[i], push * dt);
}

/// Along every axis alike, the position changes the way that the velocity points.
pub proof fn law_velocity_drives_position(
    s: NominalState,
    imu: ImuDelta,
    g: [Single; 3],
    dt: Single,
    half: HalfAngle,
    i: int,
    up: bool,
)
    requires
        0 <= i < 3,
        s.v[i].finite(),
        s.p[i].finite(),
        dt.finite(),
        crate::single::signs::toward(true, dt),
        crate::single::signs::toward(up, s.v[i]),
    ensures
        crate::single::signs::ahead(up, s.p[i], s.predicted(imu, g, dt, half).p[i]),
{
    crate::single::signs::law_product_points(up, s.v[i], dt);
    crate::single::signs::law_sum_moves(up, s.p[i], s.v[i] * dt);
}

/// The axes do not differ: with the same force and gravity, velocity and position along two
/// axes change alike.
pub proof fn law_axes_move_alike(
    s: NominalState,
    imu: ImuDelta,
    g: [Single; 3],
    dt: Single,
    half: HalfAngle,
    i: int,
    j: int,
)
    requires
        0 <= i < 3,
        0 <= j < 3,
        s.v[i] == s.v[j],
        s.p[i] == s.p[j],
        ({
            let f = s.predicted(imu, g, dt, half).q.rotated(
                rate_of(imu.delta_vel, dt, s.ba)@,
            );
            f[i] + g[i] == f[j] + g[j]
        }),
    ensures
        s.predicted(imu, g, dt, half).v[i] == s.predicted(imu, g, dt, half).v[j],
        s.predicted(imu, g, dt, half).p[i] == s.predicted(imu, g, dt, half).p[j],
{
}

/// Without rotation there is no turn.
proof fn lemma_no_turn(s: NominalState, delta_ang: [Single; 3], dt: Single)
    requires
        forall|j: int| 0 <= j < 3 ==> (#[trigger] delta_ang[j]).same(Single::of_int(0)),
        forall|j: int| 0 <= j < 3 ==> (#[trigger] s.bg[j]).same(Single::of_int(0)),
        dt.finite(),
        Single::of_int(0).less(dt),
    ensures
        s.turn_of(delta_ang, dt) is None,
{
    let z = Single::of_int(0);
    crate::single::arith::lemma_small_ints();
    let w = rate_of(delta_ang, dt, s.bg);
    assert forall|j: int| 0 <= j < 3 implies (#[trigger] w[j]).same(z) && (w[j] * w[j]).same(
        z,
    ) by {
        let a = delta_ang[j];
        assert(a.same(z) && s.bg[j].same(z));
        crate::single::laws::lemma_same_is_finite(a, z);
        crate::single::signs::law_quotient_points(true, a, dt);
        crate::single::signs::law_quotient_points(false, a, dt);
        crate::single::laws::lemma_nothing_more(a / dt, s.bg[j]);
        assert(w[j] == a / dt - s.bg[j]);
        crate::single::laws::lemma_same_is_finite(w[j], z);
        crate::single::laws::law_product_with_zero(w[j], w[j]);
    }
    let a = w[0] * w[0];
    let b = w[1] * w[1];
    let c = w[2] * w[2];
    assert(w[0].same(z) && w[1].same(z) && w[2].same(z));
    crate::single::laws::lemma_nothing_more(a, b);
    crate::single::laws::lemma_nothing_more(a + b, c);
    let t = Single { bits: NO_TURN_BITS };
    assert(t.value() >= 0);
}

/// Level flight without turning: over a time step the velocity gains what the accelerometer
/// shows beyond its error plus gravity, times the step, and the position what the velocity
/// was, times the step; here for all values of few bits, which leave no rounding. The values
/// are integers, times the unit of the time step for the velocity and twice for the position.
pub proof fn law_level_flight(
    s: NominalState,
    imu: ImuDelta,
    g: [Single; 3],
    dt: Single,
    half: HalfAngle,
    f: Seq<int>,
    b: Seq<int>,
    n: Seq<int>,
    v: Seq<int>,
    p: Seq<int>,
    d: int,
    k: nat,
    i: int,
)
    requires
        0 <= i < 3,
        k <= 30,
        0 < d <= 1024,
        s.q == Quaternion::unit(),
        crate::single::exact::worth(dt, d, k),
        forall|j: int|
            #![trigger imu.delta_vel[j]]
            0 <= j < 3 ==> {
                &&& imu.delta_ang[j].same(Single::of_int(0))
                &&& s.bg[j].same(Single::of_int(0))
                &&& crate::single::exact::worth(imu.delta_vel[j], f[j] * d, k)
                &&& crate::single::exact::worth(s.ba[j], b[j], 0)
                &&& crate::single::exact::worth(g[j], n[j], 0)
                &&& crate::single::exact::worth(s.v[j], v[j], k)
                &&& crate::single::exact::worth(s.p[j], p[j], 2 * k)
                &&& crate::vehicle::small(f[j], 1024)
                &&& crate::vehicle::small(b[j], 1024)
                &&& crate::vehicle::small(n[j], 1024)
                &&& crate::vehicle::small(v[j], 4096)
                &&& crate::vehicle::small(p[j], 0x80_0000)
            },
    ensures
        ({
            let r = s.predicted(imu, g, dt, half);
            &&& r.q == s.q
            &&& crate::single::exact::worth(r.v[i], v[i] + (f[i] - b[i] + n[i]) * d, k)
            &&& crate::single::exact::worth(r.p[i], p[i] + v[i] * d, 2 * k)
            &&& r.bg == s.bg
            &&& r.ba == s.ba
        }),
{
    let z = Single::of_int(0);
    let r = s.predicted(imu, g, dt, half);
    crate::single::exact::law_integer_worth(0);
    crate::single::exact::law_worth_finer_to(z, 0, 0, k);
    crate::single::exact::law_worth_order(z, dt, 0, d, k);
    assert(imu.delta_vel[0] == imu.delta_vel[0] && imu.delta_vel[1] == imu.delta_vel[1]
        && imu.delta_vel[2] == imu.delta_vel[2]);
    lemma_no_turn(s, imu.delta_ang, dt);
    let w = rate_of(imu.delta_vel, dt, s.ba);
    assert forall|j: int| 0 <= j < 3 implies crate::single::exact::worth(
        #[trigger] w@[j],
        f[j] - b[j],
        0,
    ) by {
        let x = imu.delta_vel[j];
        crate::single::exact::law_worth_quotient(x, dt, f[j], d, 0, k);
        crate::single::exact::law_worth_difference(x / dt, s.ba[j], f[j], b[j], 0);
        assert(w[j] == x / dt - s.ba[j]);
    }
    crate::vehicle::law_level_turns_no_vector(w@, i);
    let a = Quaternion::unit().rotated(w@)[i];
    assert(crate::single::exact::worth(w@[i], f[i] - b[i], 0));
    lemma_same_worth(w@[i], a, f[i] - b[i], 0);
    assert(imu.delta_vel[i] == imu.delta_vel[i]);
    crate::single::exact::law_worth_sum(a, g[i], f[i] - b[i], n[i], 0);
    crate::vehicle::lemma_small_product(f[i] - b[i] + n[i], d, 3072, 1024);
    crate::single::exact::law_worth_product(a + g[i], dt, f[i] - b[i] + n[i], d, 0, k);
    crate::single::exact::law_worth_sum(
        s.v[i],
        (a + g[i]) * dt,
        v[i],
        (f[i] - b[i] + n[i]) * d,
        k,
    );
    crate::vehicle::lemma_small_product(v[i], d, 4096, 1024);
    crate::single::exact::law_worth_product(s.v[i], dt, v[i], d, k, k);
    crate::single::exact::law_worth_sum(s.p[i], s.v[i] * dt, p[i], v[i] * d, 2 * k);
}

} // verus!
