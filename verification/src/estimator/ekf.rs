//! The extended Kalman filter of position, velocity, gyroscope errors and the vertical
//! accelerometer error, beside an attitude that is integrated and anchored to gravity
//! and to the magnetic field with fixed strength.
//!
//! The covariance is kept symmetric and its diagonal within bounds after every step.

use super::linear::{adjoint, determinant, matrix_product, predict_covariance};
use super::nominal::{basis_vector, diag3, squared_length, HalfAngle, Turn};
use crate::single::Single;
use crate::units::{Meter, MeterPerSecond, RadianPerSecond, Second};
use crate::vehicle::{
    quat_mul, rotate_vec_by_quat, rotate_vec_by_quat_inverse, AirspeedSample, ImuSample,
    PosSample, Quaternion, RtkSample, VehicleState, VioSample,
};
use vstd::prelude::*;

verus! {

/// The elements of the state: position, velocity, gyroscope errors, and the error of the
/// accelerometer downwards.
pub const N: usize = 10;

/// Values that replace those of the filter.
#[derive(Debug, Clone, Copy)]
pub struct EkfTuning {
    /// How fast gyroscope errors are learned; zero learns none.
    pub gyro_bias_k: Single,
    /// The horizontal acceleration at which gravity is not trusted; zero does not look,
    /// a negative one is not set.
    pub att_acc_gate: Single,
    /// As `att_acc_gate`, of the unsteadiness of the horizontal acceleration.
    pub att_acc_ac: Single,
    /// The strength of the anchor to gravity; a negative one is not set.
    pub att_alpha: Single,
    /// The noise of the accelerometer error; zero is not set.
    pub q_accel: Single,
    /// The noise of the velocity; zero is not set.
    pub q_vel: Single,
    /// The strength of the anchor to magnetic north; a negative one is not set.
    pub mag_alpha: Single,
    /// The strength of the anchor to the whole magnetic field; zero is none.
    pub mag3d_alpha: Single,
    /// The noise of measured velocities; zero is not set.
    pub r_vel: Single,
    /// The noise of measured positions; zero is not set.
    pub r_pos: Single,
    /// Whether accelerations are found from measured velocities: positive is yes.
    pub aw_gps: Single,
    /// The time constant of that; zero is not set.
    pub aw_tau: Single,
    /// The largest gain from altitude to vertical speed; zero is not set, negative is
    /// none.
    pub kvz_from_alt: Single,
}

impl EkfTuning {
    pub open spec fn unset() -> EkfTuning {
        let z = Single::of_int(0);
        let m = Single::of_int(-1);
        EkfTuning {
            gyro_bias_k: z,
            att_acc_gate: m,
            att_acc_ac: m,
            att_alpha: m,
            q_accel: z,
            q_vel: z,
            mag_alpha: m,
            mag3d_alpha: z,
            r_vel: z,
            r_pos: z,
            aw_gps: z,
            aw_tau: z,
            kvz_from_alt: z,
        }
    }

    /// Nothing replaced.
    pub fn none() -> (r: EkfTuning)
        ensures
            r == EkfTuning::unset(),
    {
        let z: Single = Single::from_i32(0);
        let m: Single = Single::from_i32(-1);
        EkfTuning {
            gyro_bias_k: z,
            att_acc_gate: m,
            att_acc_ac: m,
            att_alpha: m,
            q_accel: z,
            q_vel: z,
            mag_alpha: m,
            mag3d_alpha: z,
            r_vel: z,
            r_pos: z,
            aw_gps: z,
            aw_tau: z,
            kvz_from_alt: z,
        }
    }
}

/// The tuned value unless it is negative.
pub open spec fn unless_negative(own: Single, t: Single) -> Single {
    if Single::of_int(0).less_eq(t) {
        t
    } else {
        own
    }
}

fn pick_unless_negative(own: Single, t: Single) -> (r: Single)
    ensures
        r == unless_negative(own, t),
{
    if t >= Single::from_i32(0) {
        t
    } else {
        own
    }
}

/// The tuned value unless it is zero.
pub open spec fn unless_zero(own: Single, t: Single) -> Single {
    if t.same(Single::of_int(0)) {
        own
    } else {
        t
    }
}

fn pick_unless_zero(own: Single, t: Single) -> (r: Single)
    ensures
        r == unless_zero(own, t),
{
    if t == Single::from_i32(0) {
        own
    } else {
        t
    }
}

/// A millionth: the smallest variance.
pub open spec fn least() -> Single {
    Single::of_ratio(1, 1_000_000)
}

/// The variances at the start.
pub open spec fn first_variance(i: int) -> Single {
    if i < 6 {
        Single::of_int(1)
    } else if i < 9 {
        Single::of_ratio(1, 10000)
    } else {
        Single::of_ratio(5, 100)
    }
}

/// The covariance at the start.
pub open spec fn first_covariance() -> Seq<Seq<Single>> {
    Seq::new(
        10,
        |i: int|
            Seq::new(
                10,
                |j: int|
                    if i == j {
                        first_variance(i)
                    } else {
                        Single::of_int(0)
                    },
            ),
    )
}

fn initial_covariance() -> (p: [[Single; 10]; 10])
    ensures
        super::linear::rows(p) == first_covariance(),
{
    let zero: Single = Single::from_i32(0);
    let ghost want = first_covariance();
    let mut p: [[Single; 10]; 10] = [[zero; 10]; 10];
    let mut i: usize = 0;
    while i < 10
        invariant
            i <= 10,
            zero == Single::of_int(0),
            want == first_covariance(),
            forall|n: int| 0 <= n < i ==> (#[trigger] p[n])@ == want[n],
        decreases 10 - i,
    {
        let mut row: [Single; 10] = [zero; 10];
        row[i] = if i < 6 {
            Single::from_i32(1)
        } else if i < 9 {
            Single::ratio(1, 10000)
        } else {
            Single::ratio(5, 100)
        };
        assert(row@ =~= want[i as int]);
        p[i] = row;
        i += 1;
    }
    assert(super::linear::rows(p) =~= want);
    p
}

/// A covariance without elements that are not finite.
pub open spec fn cleaned(p: Seq<Seq<Single>>) -> Seq<Seq<Single>> {
    Seq::new(
        10,
        |i: int|
            Seq::new(
                10,
                |j: int|
                    if p[i][j].finite() {
                        p[i][j]
                    } else {
                        Single::of_int(0)
                    },
            ),
    )
}

fn clean(p: &[[Single; 10]; 10]) -> (r: [[Single; 10]; 10])
    ensures
        super::linear::rows(r) == cleaned(super::linear::rows(*p)),
{
    let zero: Single = Single::from_i32(0);
    let ghost want = cleaned(super::linear::rows(*p));
    let mut out: [[Single; 10]; 10] = *p;
    let mut i: usize = 0;
    while i < 10
        invariant
            i <= 10,
            zero == Single::of_int(0),
            want == cleaned(super::linear::rows(*p)),
            forall|n: int| 0 <= n < i ==> (#[trigger] out[n])@ == want[n],
        decreases 10 - i,
    {
        let mut row: [Single; 10] = p[i];
        let mut j: usize = 0;
        while j < 10
            invariant
                i < 10,
                j <= 10,
                zero == Single::of_int(0),
                want == cleaned(super::linear::rows(*p)),
                forall|n: int| 0 <= n < j ==> #[trigger] row[n] == want[i as int][n],
            decreases 10 - j,
        {
            row[j] = if p[i][j].is_finite() {
                p[i][j]
            } else {
                zero
            };
            j += 1;
        }
        assert(row@ =~= want[i as int]);
        out[i] = row;
        i += 1;
    }
    assert(super::linear::rows(out) =~= want);
    out
}

/// A variance within bounds: at least a millionth, and, where `top` says so, at most a
/// thousand; where `repair` says so, one that is not finite becomes the least.
pub open spec fn bounded_variance(d: Single, repair: bool, top: bool) -> Single {
    if (repair && !d.finite()) || d.less(least()) {
        least()
    } else if top && Single::of_int(1000).less(d) {
        Single::of_int(1000)
    } else {
        d
    }
}

/// The covariance with each element and its mirror image replaced by their mean, and the
/// variances within bounds.
pub open spec fn balanced(p: Seq<Seq<Single>>, repair: bool, top: bool) -> Seq<Seq<Single>> {
    let half = Single::of_ratio(5, 10);
    Seq::new(
        10,
        |i: int|
            Seq::new(
                10,
                |j: int|
                    if i == j {
                        bounded_variance(p[i][i], repair, top)
                    } else if i < j {
                        half * (p[i][j] + p[j][i])
                    } else {
                        half * (p[j][i] + p[i][j])
                    },
            ),
    )
}

fn balance(p: &[[Single; 10]; 10], repair: bool, top: bool) -> (r: [[Single; 10]; 10])
    ensures
        super::linear::rows(r) == balanced(super::linear::rows(*p), repair, top),
{
    let half: Single = Single::ratio(5, 10);
    let low: Single = Single::ratio(1, 1_000_000);
    let high: Single = Single::from_i32(1000);
    let ghost want = balanced(super::linear::rows(*p), repair, top);
    let mut out: [[Single; 10]; 10] = *p;
    let mut i: usize = 0;
    while i < 10
        invariant
            i <= 10,
            half == Single::of_ratio(5, 10),
            low == least(),
            high == Single::of_int(1000),
            want == balanced(super::linear::rows(*p), repair, top),
            forall|n: int| 0 <= n < i ==> (#[trigger] out[n])@ == want[n],
        decreases 10 - i,
    {
        let mut row: [Single; 10] = p[i];
        let mut j: usize = 0;
        while j < 10
            invariant
                i < 10,
                j <= 10,
                half == Single::of_ratio(5, 10),
                low == least(),
                high == Single::of_int(1000),
                want == balanced(super::linear::rows(*p), repair, top),
                forall|n: int| 0 <= n < j ==> #[trigger] row[n] == want[i as int][n],
            decreases 10 - j,
        {
            row[j] = if i == j {
                let d: Single = p[i][i];
                if (repair && !d.is_finite()) || d < low {
                    low
                } else if top && d > high {
                    high
                } else {
                    d
                }
            } else if i < j {
                half * (p[i][j] + p[j][i])
            } else {
                half * (p[j][i] + p[i][j])
            };
            j += 1;
        }
        assert(row@ =~= want[i as int]);
        out[i] = row;
        i += 1;
    }
    assert(super::linear::rows(out) =~= want);
    out
}

/// A balanced covariance is symmetric, bit for bit.
pub proof fn law_balanced_is_symmetric(
    p: Seq<Seq<Single>>,
    repair: bool,
    top: bool,
    i: int,
    j: int,
)
    requires
        0 <= i < 10,
        0 <= j < 10,
    ensures
        balanced(p, repair, top)[i][j] == balanced(p, repair, top)[j][i],
{
}

/// A balanced variance is never below the least, and with a top never above it, where it
/// is a number; with repair it always is one.
pub proof fn law_balanced_variances_bounded(p: Seq<Seq<Single>>, i: int)
    requires
        0 <= i < 10,
    ensures
        !balanced(p, true, true)[i][i].less(least()),
        !Single::of_int(1000).less(balanced(p, true, true)[i][i]),
        balanced(p, true, true)[i][i].finite(),
{
    crate::single::arith::lemma_millionth_and_thousand();
}

/// The transition: velocity moves position, the accelerometer error slows the vertical
/// velocity.
pub open spec fn transition(dt: Single) -> Seq<Seq<Single>> {
    Seq::new(
        10,
        |i: int|
            Seq::new(
                10,
                |j: int|
                    if i == j {
                        Single::of_int(1)
                    } else if i < 3 && j == i + 3 {
                        dt
                    } else if i == 5 && j == 9 {
                        dt.negated()
                    } else {
                        Single::of_int(0)
                    },
            ),
    )
}

fn transition_of(dt: Single) -> (f: [[Single; 10]; 10])
    ensures
        super::linear::rows(f) == transition(dt),
{
    let zero: Single = Single::from_i32(0);
    let one: Single = Single::from_i32(1);
    let ghost want = transition(dt);
    let mut f: [[Single; 10]; 10] = [[zero; 10]; 10];
    let mut i: usize = 0;
    while i < 10
        invariant
            i <= 10,
            zero == Single::of_int(0),
            one == Single::of_int(1),
            want == transition(dt),
            forall|n: int| 0 <= n < i ==> (#[trigger] f[n])@ == want[n],
        decreases 10 - i,
    {
        let mut row: [Single; 10] = [zero; 10];
        row[i] = one;
        if i < 3 {
            row[i + 3] = dt;
        } else if i == 5 {
            row[9] = dt.negate();
        }
        assert(row@ =~= want[i as int]);
        f[i] = row;
        i += 1;
    }
    assert(super::linear::rows(f) =~= want);
    f
}

/// The gain of three measurements of the state from `at` on with the noise `r`, before it
/// is limited. Where the innovations cannot be told apart it is zero.
pub open spec fn raw_gain(p: Seq<Seq<Single>>, at: int, r: Single) -> Seq<Seq<Single>> {
    let block = Seq::new(3, |i: int| Seq::new(3, |j: int| p[at + i][at + j]));
    let s = super::linear::plus(block, super::nominal::diagonal3(r));
    let det = super::linear::determinant3(s);
    let inv = if Single::of_ratio(1, 1_000_000_000).less(det.magnitude_of()) {
        Single::of_int(1) / det
    } else {
        Single::of_int(0)
    };
    super::linear::times(
        Seq::new(10, |i: int| Seq::new(3, |j: int| p[i][at + j])),
        super::linear::adjoint3(s, inv),
        3,
    )
}

/// An element of the gain within its limit.
pub open spec fn limited(k: Single) -> Single {
    k.clamped(Single::of_int(-2), Single::of_int(2))
}

fn limit_gain(k: Single) -> (r: Single)
    ensures
        r == limited(k),
{
    k.clamp(Single::from_i32(-2), Single::from_i32(2))
}

fn compute_gain(p: &[[Single; 10]; 10], at: usize, r: Single) -> (k: [[Single; 3]; 10])
    requires
        at == 0 || at == 3,
    ensures
        super::linear::rows(k) == raw_gain(super::linear::rows(*p), at as int, r),
{
    let zero: Single = Single::from_i32(0);
    let d: [[Single; 3]; 3] = diag3(r);
    let s: [[Single; 3]; 3] = [
        [
            p[at][at] + d[0][0],
            p[at][at + 1] + d[0][1],
            p[at][at + 2] + d[0][2],
        ],
        [
            p[at + 1][at] + d[1][0],
            p[at + 1][at + 1] + d[1][1],
            p[at + 1][at + 2] + d[1][2],
        ],
        [
            p[at + 2][at] + d[2][0],
            p[at + 2][at + 1] + d[2][1],
            p[at + 2][at + 2] + d[2][2],
        ],
    ];
    let mut pht: [[Single; 3]; 10] = [[zero; 3]; 10];
    let ghost cols = Seq::new(10, |i: int| Seq::new(3, |j: int| p[i][at + j]));
    let mut i: usize = 0;
    while i < 10
        invariant
            i <= 10,
            at <= 3,
            cols == Seq::new(10, |i: int| Seq::new(3, |j: int| p[i][at + j])),
            forall|n: int| 0 <= n < i ==> (#[trigger] pht[n])@ == cols[n],
        decreases 10 - i,
    {
        let row: [Single; 3] = [p[i][at], p[i][at + 1], p[i][at + 2]];
        assert(row@ =~= cols[i as int]);
        pht[i] = row;
        i += 1;
    }
    proof {
        let q = super::linear::rows(*p);
        let block = Seq::new(3, |i: int| Seq::new(3, |j: int| q[at + i][at + j]));
        let want = super::linear::plus(block, super::nominal::diagonal3(r));
        assert(super::linear::rows(d) == super::nominal::diagonal3(r));
        assert(forall|a: int, b: int|
            0 <= a < 3 && 0 <= b < 3 ==> #[trigger] super::nominal::diagonal3(r)[a][b]
                == super::linear::rows(d)[a][b]);
        assert(super::linear::rows(d)[0] == d[0]@);
        assert(super::linear::rows(d)[1] == d[1]@);
        assert(super::linear::rows(d)[2] == d[2]@);
        assert(s[0]@ =~= want[0]);
        assert(s[1]@ =~= want[1]);
        assert(s[2]@ =~= want[2]);
        assert(super::linear::rows(s) =~= want);
        assert(super::linear::rows(pht) =~= Seq::new(
            10,
            |i: int| Seq::new(3, |j: int| q[i][at + j]),
        )) by {
            let other = Seq::new(10, |i: int| Seq::new(3, |j: int| q[i][at + j]));
            assert forall|n: int| 0 <= n < 10 implies #[trigger] other[n] == pht[n]@ by {
                assert(other[n] =~= cols[n]);
            }
        }
    }
    let det: Single = determinant(&s);
    let inv: Single = if det.abs() > Single::ratio(1, 1_000_000_000) {
        Single::from_i32(1) / det
    } else {
        zero
    };
    matrix_product(&pht, &adjoint(&s, inv))
}

/// The gain of measured positions: limited, and without effect on the vertical velocity
/// and on the accelerometer error, which positions do not show.
pub open spec fn position_gain(p: Seq<Seq<Single>>, r: Single) -> Seq<Seq<Single>> {
    Seq::new(
        10,
        |i: int|
            Seq::new(
                3,
                |j: int|
                    if i == 5 || i == 9 {
                        Single::of_int(0)
                    } else {
                        limited(raw_gain(p, 0, r)[i][j])
                    },
            ),
    )
}

/// The gain of measured velocities: limited, and without effect of horizontal velocities
/// on the accelerometer error.
pub open spec fn velocity_gain(p: Seq<Seq<Single>>, r: Single) -> Seq<Seq<Single>> {
    Seq::new(
        10,
        |i: int|
            Seq::new(
                3,
                |j: int|
                    if i == 9 && j < 2 {
                        Single::of_int(0)
                    } else {
                        limited(raw_gain(p, 3, r)[i][j])
                    },
            ),
    )
}

/// The product `start - k[0] * c[0] - ...` of the first `n` elements.
pub open spec fn taken_off(start: Single, k: Seq<Single>, c: Seq<Single>, n: nat) -> Single
    decreases n,
{
    if n == 0 {
        start
    } else {
        taken_off(start, k, c, (n - 1) as nat) - k[n - 1] * c[n - 1]
    }
}

/// The sum `start + (r * a[0]) * b[0] + ...` of the first `n` elements.
pub open spec fn noise_added(start: Single, r: Single, a: Seq<Single>, b: Seq<Single>, n: nat) ->
    Single
    decreases n,
{
    if n == 0 {
        start
    } else {
        noise_added(start, r, a, b, (n - 1) as nat) + r * a[n - 1] * b[n - 1]
    }
}

/// The elements of column `j` from row `at` on, `m` of them.
pub open spec fn below(p: Seq<Seq<Single>>, at: int, j: int, m: nat) -> Seq<Single> {
    Seq::new(m, |l: int| p[at + l][j])
}

/// The covariance with the gain `k` of a measurement of the state from `at` on taken off
/// each column once.
pub open spec fn once_reduced(p: Seq<Seq<Single>>, k: Seq<Seq<Single>>, at: int, m: nat) -> Seq<
    Seq<Single>,
> {
    Seq::new(
        10,
        |i: int| Seq::new(10, |j: int| taken_off(p[i][j], k[i], below(p, at, j, m), m)),
    )
}

/// The elements of a row from column `at` on, `m` of them.
pub open spec fn beside(row: Seq<Single>, at: int, m: nat) -> Seq<Single> {
    Seq::new(m, |l: int| row[at + l])
}

/// The covariance once a measurement was taken with the gain `k` and the noise `r`: the
/// gain is taken off the columns and then off the rows, and the noise of the measurement
/// is added. With the gain `K`, the rows `H` of the measurement and `A = I - K H` this is
/// `A P A' + K r K'`.
pub open spec fn joseph(p: Seq<Seq<Single>>, k: Seq<Seq<Single>>, at: int, m: nat, r: Single) ->
    Seq<Seq<Single>> {
    let a = once_reduced(p, k, at, m);
    Seq::new(
        10,
        |i: int|
            Seq::new(
                10,
                |j: int|
                    noise_added(
                        taken_off(a[i][j], k[j], beside(a[i], at, m), m),
                        r,
                        k[i],
                        k[j],
                        m,
                    ),
            ),
    )
}

fn take_off<const M: usize>(
    start: Single,
    k: &[Single; M],
    p: &[[Single; 10]; 10],
    at: usize,
    j: usize,
) -> (r: Single)
    requires
        at + M <= 10,
        j < 10,
    ensures
        r == taken_off(
            start,
            k@,
            below(super::linear::rows(*p), at as int, j as int, M as nat),
            M as nat,
        ),
{
    let ghost c = below(super::linear::rows(*p), at as int, j as int, M as nat);
    let mut s: Single = start;
    let mut l: usize = 0;
    while l < M
        invariant
            l <= M,
            at + M <= 10,
            j < 10,
            c == below(super::linear::rows(*p), at as int, j as int, M as nat),
            s == taken_off(start, k@, c, l as nat),
        decreases M - l,
    {
        assert(c[l as int] == p[at + l][j as int]);
        s = s - k[l] * p[at + l][j];
        l += 1;
    }
    s
}

fn take_off_row<const M: usize>(
    start: Single,
    k: &[Single; M],
    row: &[Single; 10],
    at: usize,
) -> (r: Single)
    requires
        at + M <= 10,
    ensures
        r == taken_off(start, k@, beside(row@, at as int, M as nat), M as nat),
{
    let ghost c = beside(row@, at as int, M as nat);
    let mut s: Single = start;
    let mut l: usize = 0;
    while l < M
        invariant
            l <= M,
            at + M <= 10,
            c == beside(row@, at as int, M as nat),
            s == taken_off(start, k@, c, l as nat),
        decreases M - l,
    {
        assert(c[l as int] == row[at + l]);
        s = s - k[l] * row[at + l];
        l += 1;
    }
    s
}

fn add_noise<const M: usize>(start: Single, r: Single, a: &[Single; M], b: &[Single; M]) -> (x:
    Single)
    ensures
        x == noise_added(start, r, a@, b@, M as nat),
{
    let mut s: Single = start;
    let mut l: usize = 0;
    while l < M
        invariant
            l <= M,
            s == noise_added(start, r, a@, b@, l as nat),
        decreases M - l,
    {
        s = s + r * a[l] * b[l];
        l += 1;
    }
    s
}

fn reduce_once<const M: usize>(p: &[[Single; 10]; 10], k: &[[Single; M]; 10], at: usize) -> (a: [[
    Single; 10]; 10])
    requires
        at + M <= 10,
    ensures
        super::linear::rows(a) == once_reduced(
            super::linear::rows(*p),
            super::linear::rows(*k),
            at as int,
            M as nat,
        ),
{
    let ghost want = once_reduced(
        super::linear::rows(*p),
        super::linear::rows(*k),
        at as int,
        M as nat,
    );
    let mut out: [[Single; 10]; 10] = *p;
    let mut i: usize = 0;
    while i < 10
        invariant
            i <= 10,
            at + M <= 10,
            want == once_reduced(
                super::linear::rows(*p),
                super::linear::rows(*k),
                at as int,
                M as nat,
            ),
            forall|n: int| 0 <= n < i ==> (#[trigger] out[n])@ == want[n],
        decreases 10 - i,
    {
        let mut row: [Single; 10] = p[i];
        let mut j: usize = 0;
        while j < 10
            invariant
                i < 10,
                j <= 10,
                at + M <= 10,
                want == once_reduced(
                    super::linear::rows(*p),
                    super::linear::rows(*k),
                    at as int,
                    M as nat,
                ),
                forall|n: int| 0 <= n < j ==> #[trigger] row[n] == want[i as int][n],
            decreases 10 - j,
        {
            row[j] = take_off(p[i][j], &k[i], p, at, j);
            j += 1;
        }
        assert(row@ =~= want[i as int]);
        out[i] = row;
        i += 1;
    }
    assert(super::linear::rows(out) =~= want);
    out
}

fn joseph_update<const M: usize>(
    p: &[[Single; 10]; 10],
    k: &[[Single; M]; 10],
    at: usize,
    r: Single,
) -> (o: [[Single; 10]; 10])
    requires
        at + M <= 10,
    ensures
        super::linear::rows(o) == joseph(
            super::linear::rows(*p),
            super::linear::rows(*k),
            at as int,
            M as nat,
            r,
        ),
{
    let ghost want = joseph(
        super::linear::rows(*p),
        super::linear::rows(*k),
        at as int,
        M as nat,
        r,
    );
    let a: [[Single; 10]; 10] = reduce_once(p, k, at);
    let mut out: [[Single; 10]; 10] = a;
    let mut i: usize = 0;
    while i < 10
        invariant
            i <= 10,
            at + M <= 10,
            super::linear::rows(a) == once_reduced(
                super::linear::rows(*p),
                super::linear::rows(*k),
                at as int,
                M as nat,
            ),
            want == joseph(
                super::linear::rows(*p),
                super::linear::rows(*k),
                at as int,
                M as nat,
                r,
            ),
            forall|n: int| 0 <= n < i ==> (#[trigger] out[n])@ == want[n],
        decreases 10 - i,
    {
        let mut row: [Single; 10] = a[i];
        let mut j: usize = 0;
        while j < 10
            invariant
                i < 10,
                j <= 10,
                at + M <= 10,
                super::linear::rows(a) == once_reduced(
                    super::linear::rows(*p),
                    super::linear::rows(*k),
                    at as int,
                    M as nat,
                ),
                want == joseph(
                    super::linear::rows(*p),
                    super::linear::rows(*k),
                    at as int,
                    M as nat,
                    r,
                ),
                forall|n: int| 0 <= n < j ==> #[trigger] row[n] == want[i as int][n],
            decreases 10 - j,
        {
            let twice: Single = take_off_row(a[i][j], &k[j], &a[i], at);
            assert(super::linear::rows(a)[i as int][j as int] == a[i as int][j as int]);
            row[j] = add_noise(twice, r, &k[i], &k[j]);
            j += 1;
        }
        assert(row@ =~= want[i as int]);
        out[i] = row;
        i += 1;
    }
    assert(super::linear::rows(out) =~= want);
    out
}

/// The parameters of the filter, and what it keeps beside attitude, state and covariance.
#[derive(Debug, Clone, Copy)]
pub struct EkfSide {
    pub g_ref: Single,
    pub q_vel: Single,
    pub q_vel_z: Single,
    pub q_bias: Single,
    pub q_accel: Single,
    pub r_pos: Single,
    pub r_vel: Single,
    pub r_alt: Single,
    pub r_airspeed: Single,
    pub r_vio_pos: Single,
    pub r_vio_vel: Single,
    pub r_rtk: Single,
    pub att_alpha: Single,
    pub mag_alpha: Single,
    /// The mean of the horizontal acceleration.
    pub acc_h_mean: Single,
    /// The mean deviation from it.
    pub acc_h_dev: Single,
    pub last_dt: Single,
    /// The drag per squared airspeed; zero estimates no wind.
    pub drag_k: Single,
    pub wind_est: [Single; 2],
    /// The magnetic field of the earth with its dip; zeros use the heading alone.
    pub mag_ref3d: [Single; 3],
    /// The direction of magnetic north.
    pub mag_ref: [Single; 2],
    /// The magnetic field of the body.
    pub mag_hard_iron: [Single; 3],
    /// The acceleration of the vehicle, to be taken off the specific force.
    pub world_accel: [Single; 3],
    /// Whether that comes from a trusted source.
    pub world_accel_trusted: bool,
    pub prev_vel_obs: [Single; 3],
    /// The time since the last new velocity; negative before the first.
    pub vel_obs_dt: Single,
    pub airspeed_est: Single,
}

#[derive(Debug, Clone, Copy)]
pub struct EkfEstimator {
    pub att: Quaternion,
    pub x: [Single; 10],
    pub p: [[Single; 10]; 10],
    pub side: EkfSide,
}

/// The filter with state and covariance as sequences.
pub struct EkfModel {
    pub att: Quaternion,
    pub x: Seq<Single>,
    pub p: Seq<Seq<Single>>,
    pub side: EkfSide,
}

impl View for EkfEstimator {
    type V = EkfModel;

    open spec fn view(&self) -> EkfModel {
        EkfModel {
            att: self.att,
            x: self.x@,
            p: super::linear::rows(self.p),
            side: self.side,
        }
    }
}

/// A number held between zero and one.
pub open spec fn fraction(x: Single) -> Single {
    x.clamped(Single::of_int(0), Single::of_int(1))
}

fn as_fraction(x: Single) -> (r: Single)
    ensures
        r == fraction(x),
{
    x.clamp(Single::from_i32(0), Single::from_i32(1))
}

/// The length of a vector.
pub open spec fn length3(v: [Single; 3]) -> Single {
    super::nominal::squared3(v).root()
}

fn length(v: &[Single; 3]) -> (r: Single)
    ensures
        r == length3(*v),
{
    squared_length(v).sqrt()
}

/// How much the size of the specific force, as a share of gravity, speaks for showing
/// gravity: fully at one, not at all below a half and above two and a half.
pub open spec fn size_weight(ratio: Single) -> Single {
    let half = Single::of_ratio(5, 10);
    let top = Single::of_ratio(25, 10);
    fraction(
        if ratio.less(half) || top.less(ratio) {
            Single::of_int(0)
        } else if ratio.less(Single::of_int(1)) {
            (ratio - half) / half
        } else {
            (top - ratio) / Single::of_ratio(15, 10)
        },
    )
}

fn weigh_size(ratio: Single) -> (r: Single)
    ensures
        r == size_weight(ratio),
{
    let half: Single = Single::ratio(5, 10);
    let top: Single = Single::ratio(25, 10);
    as_fraction(
        if ratio < half || ratio > top {
            Single::from_i32(0)
        } else if ratio < Single::from_i32(1) {
            (ratio - half) / half
        } else {
            (top - ratio) / Single::ratio(15, 10)
        },
    )
}

/// How much the direction speaks for it, from the cosine of the angle to the estimated
/// gravity: not at all where the cosine is below 0.9, which is past 25.8 degrees.
pub open spec fn align_weight(cos: Single) -> Single {
    let edge = Single::of_ratio(90, 100);
    if cos.less(edge) {
        Single::of_int(0)
    } else {
        fraction((cos - edge) / Single::of_ratio(10, 100))
    }
}

fn weigh_alignment(cos: Single) -> (r: Single)
    ensures
        r == align_weight(cos),
{
    let edge: Single = Single::ratio(90, 100);
    if cos < edge {
        Single::from_i32(0)
    } else {
        as_fraction((cos - edge) / Single::ratio(10, 100))
    }
}

/// How much the rate of turn speaks for it.
pub open spec fn spin_weight(om: Single) -> Single {
    let edge = Single::of_ratio(6, 10);
    if om.less(Single::of_ratio(25, 100)) {
        Single::of_int(1)
    } else if om.less(edge) {
        (edge - om) / Single::of_ratio(35, 100)
    } else {
        Single::of_int(0)
    }
}

fn weigh_spin(om: Single) -> (r: Single)
    ensures
        r == spin_weight(om),
{
    let edge: Single = Single::ratio(6, 10);
    if om < Single::ratio(25, 100) {
        Single::from_i32(1)
    } else if om < edge {
        (edge - om) / Single::ratio(35, 100)
    } else {
        Single::from_i32(0)
    }
}

/// A weight that fades from a third of `full` to `full`; without a positive `full` it
/// does not fade.
pub open spec fn fading(x: Single, full: Single) -> Single {
    let start = full / Single::of_int(3);
    if full.less_eq(Single::of_int(0)) || x.less_eq(start) {
        Single::of_int(1)
    } else if full.less_eq(x) {
        Single::of_int(0)
    } else {
        (full - x) / (full - start)
    }
}

fn fade(x: Single, full: Single) -> (r: Single)
    ensures
        r == fading(x, full),
{
    let start: Single = full / Single::from_i32(3);
    if full <= Single::from_i32(0) || x <= start {
        Single::from_i32(1)
    } else if x >= full {
        Single::from_i32(0)
    } else {
        (full - x) / (full - start)
    }
}

/// The correction that anchors the attitude to gravity: a rotation vector in body axes,
/// and how much of it gyroscope errors are learned from.
#[derive(Debug, Clone, Copy)]
pub struct Anchor {
    pub acts: bool,
    pub vec: [Single; 3],
    pub learn: Single,
}

impl Anchor {
    pub open spec fn idle() -> Anchor {
        let z = Single::of_int(0);
        Anchor { acts: false, vec: [z, z, z], learn: z }
    }

    fn none() -> (r: Anchor)
        ensures
            r == Anchor::idle(),
    {
        let z: Single = Single::from_i32(0);
        Anchor { acts: false, vec: [z, z, z], learn: z }
    }

    pub open spec fn turn_of(self) -> Option<Turn> {
        let n = length3(self.vec);
        if self.acts && least().less(n) {
            Some(Turn { axis: [self.vec[0] / n, self.vec[1] / n, self.vec[2] / n], angle: n })
        } else {
            None
        }
    }

    /// The rotation of the correction.
    pub fn turn(&self) -> (r: Option<Turn>)
        ensures
            r == self.turn_of(),
    {
        let n: Single = length(&self.vec);
        if self.acts && n > Single::ratio(1, 1_000_000) {
            Some(Turn { axis: [self.vec[0] / n, self.vec[1] / n, self.vec[2] / n], angle: n })
        } else {
            None
        }
    }
}

/// Whether all readings are finite.
pub open spec fn usable(imu: ImuSample) -> bool {
    &&& imu.gyro[0].0.finite() && imu.gyro[1].0.finite() && imu.gyro[2].0.finite()
    &&& imu.accel[0].0.finite() && imu.accel[1].0.finite() && imu.accel[2].0.finite()
}

fn is_usable(imu: &ImuSample) -> (r: bool)
    ensures
        r == usable(*imu),
{
    imu.gyro[0].0.is_finite() && imu.gyro[1].0.is_finite() && imu.gyro[2].0.is_finite()
        && imu.accel[0].0.is_finite() && imu.accel[1].0.is_finite()
        && imu.accel[2].0.is_finite()
}

/// The force of the accelerometer.
pub open spec fn force_of(imu: ImuSample) -> [Single; 3] {
    [imu.accel[0].0, imu.accel[1].0, imu.accel[2].0]
}

/// The rates of the gyroscope.
pub open spec fn spin_of(imu: ImuSample) -> [Single; 3] {
    [imu.gyro[0].0, imu.gyro[1].0, imu.gyro[2].0]
}

impl EkfSide {
    /// With everything that was estimated or observed as at the start; the settings stay.
    pub open spec fn forgotten(self) -> EkfSide {
        let z = Single::of_int(0);
        EkfSide {
            acc_h_mean: z,
            acc_h_dev: z,
            last_dt: z,
            wind_est: [z, z],
            world_accel: [z, z, z],
            world_accel_trusted: false,
            prev_vel_obs: [z, z, z],
            vel_obs_dt: Single::of_int(-1),
            airspeed_est: z,
            ..self
        }
    }

    fn forget(&mut self)
        ensures
            *final(self) == old(self).forgotten(),
    {
        let z: Single = Single::from_i32(0);
        self.acc_h_mean = z;
        self.acc_h_dev = z;
        self.last_dt = z;
        self.wind_est = [z, z];
        self.world_accel = [z, z, z];
        self.world_accel_trusted = false;
        self.prev_vel_obs = [z, z, z];
        self.vel_obs_dt = Single::from_i32(-1);
        self.airspeed_est = z;
    }

    /// How far the acceleration of the vehicle is taken off the specific force: fully
    /// where it is trusted, otherwise only where it is large.
    pub open spec fn take_off_share(self) -> Single {
        if self.world_accel_trusted {
            Single::of_int(1)
        } else {
            fraction(
                (length3(self.world_accel) / self.g_ref - Single::of_ratio(5, 100))
                    / Single::of_ratio(15, 100),
            )
        }
    }

    /// The specific force in attitude `att` without the acceleration of the vehicle.
    pub open spec fn resting_force(self, att: Quaternion, f: [Single; 3]) -> [Single; 3] {
        let zero = Single::of_int(0);
        let w = self.world_accel;
        if w[0].same(zero) && w[1].same(zero) && w[2].same(zero) {
            f
        } else {
            let share = self.take_off_share();
            let b = att.conjugate().rotated(w@);
            [f[0] - share * b[0], f[1] - share * b[1], f[2] - share * b[2]]
        }
    }

    fn rest_force(&self, att: &Quaternion, f: &[Single; 3]) -> (r: [Single; 3])
        ensures
            r == self.resting_force(*att, *f),
    {
        let zero: Single = Single::from_i32(0);
        let w: [Single; 3] = self.world_accel;
        if w[0] == zero && w[1] == zero && w[2] == zero {
            return *f;
        }
        let share: Single = if self.world_accel_trusted {
            Single::from_i32(1)
        } else {
            as_fraction((length(&w) / self.g_ref - Single::ratio(5, 100)) / Single::ratio(15, 100))
        };
        let b: [Single; 3] = rotate_vec_by_quat_inverse(att, w);
        [f[0] - share * b[0], f[1] - share * b[1], f[2] - share * b[2]]
    }

    /// What anchoring to gravity does in attitude `att`: the means of the horizontal
    /// acceleration are updated, and the correction turns the estimated down towards
    /// against the specific force, as strongly as the force can be trusted.
    pub open spec fn anchored(self, att: Quaternion, imu: ImuSample, t: EkfTuning) -> (
        EkfSide,
        Anchor,
    ) {
        let alpha = unless_negative(self.att_alpha, t.att_alpha);
        let a = self.resting_force(att, force_of(imu));
        let an = length3(a);
        if !Single::of_int(0).less(alpha) || !Single::of_ratio(1, 1000).less(an) {
            (self, Anchor::idle())
        } else {
            let one = Single::of_int(1);
            let share = Single::of_ratio(2, 100);
            let d = att.conjugate().rotated(
                seq![Single::of_int(0), Single::of_int(0), self.g_ref],
            );
            let n = [a[0].negated() / an, a[1].negated() / an, a[2].negated() / an];
            let u = att.conjugate().rotated(super::nominal::basis(2));
            let cos = (u[0] * n[0] + u[1] * n[1] + u[2] * n[2]).clamped(Single::of_int(-1), one);
            let w = size_weight(an / self.g_ref);
            let w_align = align_weight(cos);
            let w_gyro = spin_weight(length3(spin_of(imu)));
            let f = att.rotated(a@);
            let h = (f[0] * f[0] + f[1] * f[1]).root();
            let mean = self.acc_h_mean + share * (h - self.acc_h_mean);
            let dev = self.acc_h_dev + share * ((h - mean).magnitude_of() - self.acc_h_dev);
            let w_acc = fading(h, unless_negative(Single::of_int(0), t.att_acc_gate)) * fading(
                dev,
                unless_negative(Single::of_int(0), t.att_acc_ac),
            );
            let k = alpha * Single::of_ratio(5, 10) * w * w_align * w_gyro * w_acc;
            (
                EkfSide { acc_h_mean: mean, acc_h_dev: dev, ..self },
                Anchor {
                    acts: true,
                    vec: [
                        (d[1] * (a[2] / an) - d[2] * (a[1] / an)) * k,
                        (d[2] * (a[0] / an) - d[0] * (a[2] / an)) * k,
                        (d[0] * (a[1] / an) - d[1] * (a[0] / an)) * k,
                    ],
                    learn: t.gyro_bias_k * w * w_align * w_gyro * w_acc,
                },
            )
        }
    }

    fn anchor(&mut self, att: &Quaternion, imu: &ImuSample, t: &EkfTuning) -> (r: Anchor)
        ensures
            (*final(self), r) == old(self).anchored(*att, *imu, *t),
    {
        let zero: Single = Single::from_i32(0);
        let alpha: Single = pick_unless_negative(self.att_alpha, t.att_alpha);
        let a: [Single; 3] = self.rest_force(
            att,
            &[imu.accel[0].0, imu.accel[1].0, imu.accel[2].0],
        );
        let an: Single = length(&a);
        if !(alpha > zero) || !(an > Single::ratio(1, 1000)) {
            return Anchor::none();
        }
        let share: Single = Single::ratio(2, 100);
        let down: [Single; 3] = [zero, zero, self.g_ref];
        assert(down@ =~= seq![Single::of_int(0), Single::of_int(0), self.g_ref]);
        let d: [Single; 3] = rotate_vec_by_quat_inverse(att, down);
        let n: [Single; 3] = [a[0].negate() / an, a[1].negate() / an, a[2].negate() / an];
        let u: [Single; 3] = rotate_vec_by_quat_inverse(att, basis_vector(2));
        let cos: Single = (u[0] * n[0] + u[1] * n[1] + u[2] * n[2]).clamp(
            Single::from_i32(-1),
            Single::from_i32(1),
        );
        let w: Single = weigh_size(an / self.g_ref);
        let w_align: Single = weigh_alignment(cos);
        let w_gyro: Single = weigh_spin(length(&[imu.gyro[0].0, imu.gyro[1].0, imu.gyro[2].0]));
        let f: [Single; 3] = rotate_vec_by_quat(att, a);
        let h: Single = (f[0] * f[0] + f[1] * f[1]).sqrt();
        self.acc_h_mean = self.acc_h_mean + share * (h - self.acc_h_mean);
        self.acc_h_dev = self.acc_h_dev + share * ((h - self.acc_h_mean).abs() - self.acc_h_dev);
        let w_inst: Single = fade(h, pick_unless_negative(zero, t.att_acc_gate));
        let w_ac: Single = fade(self.acc_h_dev, pick_unless_negative(zero, t.att_acc_ac));
        let w_acc: Single = w_inst * w_ac;
        let k: Single = alpha * Single::ratio(5, 10) * w * w_align * w_gyro * w_acc;
        Anchor {
            acts: true,
            vec: [
                (d[1] * (a[2] / an) - d[2] * (a[1] / an)) * k,
                (d[2] * (a[0] / an) - d[0] * (a[2] / an)) * k,
                (d[0] * (a[1] / an) - d[1] * (a[0] / an)) * k,
            ],
            learn: t.gyro_bias_k * w * w_align * w_gyro * w_acc,
        }
    }

    /// The wind after a step in attitude `att` with the velocity `vn`, `ve`: what the
    /// tilt says of the drag gives the airflow, and the rest of the velocity is wind. It
    /// is smoothed and held within thirty metres per second.
    pub open spec fn wind_after(self, att: Quaternion, vn: Single, ve: Single) -> [Single; 2] {
        let zero = Single::of_int(0);
        let small = Single::of_ratio(1, 1000);
        let share = Single::of_ratio(2, 100);
        if !zero.less(self.drag_k) {
            [zero, zero]
        } else {
            let up = att.rotated(super::nominal::basis(2));
            let hn = (up[0] * up[0] + up[1] * up[1]).root();
            let flow = (self.g_ref * (hn / up[2].magnitude_of()) / self.drag_k).larger(
                zero,
            ).root();
            let seen = small.less(hn) && small.less(up[2].magnitude_of());
            let wn = if seen {
                vn - up[0].negated() / hn * flow
            } else {
                zero
            };
            let we = if seen {
                ve - up[1].negated() / hn * flow
            } else {
                zero
            };
            let low = Single::of_int(-30);
            let high = Single::of_int(30);
            [
                (self.wind_est[0] + share * (wn - self.wind_est[0])).clamped(low, high),
                (self.wind_est[1] + share * (we - self.wind_est[1])).clamped(low, high),
            ]
        }
    }

    fn update_wind(&self, att: &Quaternion, vn: Single, ve: Single) -> (r: [Single; 2])
        ensures
            r == self.wind_after(*att, vn, ve),
    {
        let zero: Single = Single::from_i32(0);
        let small: Single = Single::ratio(1, 1000);
        let share: Single = Single::ratio(2, 100);
        if !(self.drag_k > zero) {
            return [zero, zero];
        }
        let up: [Single; 3] = rotate_vec_by_quat(att, basis_vector(2));
        let hn: Single = (up[0] * up[0] + up[1] * up[1]).sqrt();
        let (wn, we) = if hn > small && up[2].abs() > small {
            let tan: Single = hn / up[2].abs();
            let flow: Single = (self.g_ref * tan / self.drag_k).max(zero).sqrt();
            (vn - up[0].negate() / hn * flow, ve - up[1].negate() / hn * flow)
        } else {
            (zero, zero)
        };
        let low: Single = Single::from_i32(-30);
        let high: Single = Single::from_i32(30);
        [
            (self.wind_est[0] + share * (wn - self.wind_est[0])).clamp(low, high),
            (self.wind_est[1] + share * (we - self.wind_est[1])).clamp(low, high),
        ]
    }

    /// What a measured velocity tells of the acceleration of the vehicle: the first one
    /// is only kept; a changed one gives the acceleration since the last, smoothed.
    pub open spec fn accelerated(self, vel: [Single; 3], t: EkfTuning) -> EkfSide {
        let zero = Single::of_int(0);
        let p = self.prev_vel_obs;
        let fresh = least().less((vel[0] - p[0]).magnitude_of()) || least().less(
            (vel[1] - p[1]).magnitude_of(),
        ) || least().less((vel[2] - p[2]).magnitude_of());
        if !zero.less(t.aw_gps) {
            self
        } else if self.vel_obs_dt.less(zero) {
            EkfSide { prev_vel_obs: vel, vel_obs_dt: zero, ..self }
        } else if fresh && Single::of_ratio(1, 10000).less(self.vel_obs_dt) {
            let inv = Single::of_int(1) / self.vel_obs_dt;
            let tau = if zero.less(t.aw_tau) {
                t.aw_tau
            } else {
                Single::of_ratio(25, 100)
            };
            let share = fraction(self.vel_obs_dt / (tau + self.vel_obs_dt));
            let w = self.world_accel;
            EkfSide {
                world_accel: [
                    w[0] + share * ((vel[0] - p[0]) * inv - w[0]),
                    w[1] + share * ((vel[1] - p[1]) * inv - w[1]),
                    w[2] + share * ((vel[2] - p[2]) * inv - w[2]),
                ],
                world_accel_trusted: false,
                prev_vel_obs: vel,
                vel_obs_dt: zero,
                ..self
            }
        } else {
            self
        }
    }

    fn observe_velocity(&mut self, vel: &[Single; 3], t: &EkfTuning)
        ensures
            *final(self) == old(self).accelerated(*vel, *t),
    {
        let zero: Single = Single::from_i32(0);
        let tiny: Single = Single::ratio(1, 1_000_000);
        if !(t.aw_gps > zero) {
            return;
        }
        if self.vel_obs_dt < zero {
            self.prev_vel_obs = *vel;
            self.vel_obs_dt = zero;
            return;
        }
        let p: [Single; 3] = self.prev_vel_obs;
        let fresh: bool = (vel[0] - p[0]).abs() > tiny || (vel[1] - p[1]).abs() > tiny || (vel[2]
            - p[2]).abs() > tiny;
        if fresh && self.vel_obs_dt > Single::ratio(1, 10000) {
            let inv: Single = Single::from_i32(1) / self.vel_obs_dt;
            let tau: Single = if t.aw_tau > zero {
                t.aw_tau
            } else {
                Single::ratio(25, 100)
            };
            let share: Single = as_fraction(self.vel_obs_dt / (tau + self.vel_obs_dt));
            let w: [Single; 3] = self.world_accel;
            self.world_accel = [
                w[0] + share * ((vel[0] - p[0]) * inv - w[0]),
                w[1] + share * ((vel[1] - p[1]) * inv - w[1]),
                w[2] + share * ((vel[2] - p[2]) * inv - w[2]),
            ];
            self.world_accel_trusted = false;
            self.prev_vel_obs = *vel;
            self.vel_obs_dt = zero;
        }
    }
}

/// The state with the products of the gain `k` and the innovation `y` added.
pub open spec fn moved(x: Seq<Single>, k: Seq<Seq<Single>>, y: Seq<Single>) -> Seq<Single> {
    Seq::new(10, |i: int| x[i] + super::linear::dot(k[i], y))
}

/// The accelerometer error held within 0.3 metres per second squared.
pub open spec fn held_bias(b: Single) -> Single {
    b.clamped(Single::of_ratio(-3, 10), Single::of_ratio(3, 10))
}

fn hold_bias(b: Single) -> (r: Single)
    ensures
        r == held_bias(b),
{
    b.clamp(Single::ratio(-3, 10), Single::ratio(3, 10))
}

/// The noise of the elements in one step.
pub open spec fn step_noise(side: EkfSide, dt: Single, t: EkfTuning) -> Seq<Single> {
    let z = Single::of_int(0);
    let v = unless_zero(side.q_vel, t.q_vel) * dt;
    let b = side.q_bias * dt;
    seq![
        z,
        z,
        z,
        v,
        v,
        side.q_vel_z * dt,
        b,
        b,
        b,
        unless_zero(side.q_accel, t.q_accel) * dt,
    ]
}

/// A diagonal matrix.
pub open spec fn diagonal(d: Seq<Single>) -> Seq<Seq<Single>> {
    Seq::new(
        10,
        |i: int|
            Seq::new(
                10,
                |j: int|
                    if i == j {
                        d[i]
                    } else {
                        Single::of_int(0)
                    },
            ),
    )
}

fn diagonal_of(d: &[Single; 10]) -> (m: [[Single; 10]; 10])
    ensures
        super::linear::rows(m) == diagonal(d@),
{
    let zero: Single = Single::from_i32(0);
    let ghost want = diagonal(d@);
    let mut m: [[Single; 10]; 10] = [[zero; 10]; 10];
    let mut i: usize = 0;
    while i < 10
        invariant
            i <= 10,
            zero == Single::of_int(0),
            want == diagonal(d@),
            forall|n: int| 0 <= n < i ==> (#[trigger] m[n])@ == want[n],
        decreases 10 - i,
    {
        let mut row: [Single; 10] = [zero; 10];
        row[i] = d[i];
        assert(row@ =~= want[i as int]);
        m[i] = row;
        i += 1;
    }
    assert(super::linear::rows(m) =~= want);
    m
}

impl EkfModel {
    /// The state after a step with the specific force `imu`: position by velocity and
    /// half the acceleration, velocity by acceleration. The vertical acceleration is
    /// rid of gravity and of the accelerometer error.
    pub open spec fn state_after(self, imu: ImuSample, dt: Single) -> Seq<Single> {
        let half = Single::of_ratio(5, 10);
        let f = self.att.rotated(force_of(imu)@);
        let x = self.x;
        let az = f[2] + self.side.g_ref - x[9];
        seq![
            x[0] + x[3] * dt + half * f[0] * dt * dt,
            x[1] + x[4] * dt + half * f[1] * dt * dt,
            x[2] + x[5] * dt + half * az * dt * dt,
            x[3] + f[0] * dt,
            x[4] + f[1] * dt,
            x[5] + az * dt,
            x[6],
            x[7],
            x[8],
            x[9],
        ]
    }

    /// The covariance after a step.
    pub open spec fn covariance_after(self, dt: Single, t: EkfTuning) -> Seq<Seq<Single>> {
        balanced(
            super::linear::propagated(
                self.p,
                transition(dt),
                diagonal(step_noise(self.side, dt, t)),
            ),
            true,
            true,
        )
    }

    /// The filter before the anchor acts: times are kept, and, where the readings can be
    /// used, the attitude turns and the anchor is found.
    pub open spec fn begun(self, dt: Single, imu: ImuSample, t: EkfTuning) -> (
        EkfModel,
        Option<Anchor>,
    ) {
        let timed = EkfSide {
            last_dt: dt,
            vel_obs_dt: if Single::of_int(0).less_eq(self.side.vel_obs_dt) {
                self.side.vel_obs_dt + dt
            } else {
                self.side.vel_obs_dt
            },
            ..self.side
        };
        if !usable(imu) {
            (EkfModel { side: timed, ..self }, None)
        } else {
            let w = [
                imu.gyro[0].0 - self.x[6],
                imu.gyro[1].0 - self.x[7],
                imu.gyro[2].0 - self.x[8],
            ];
            let att = self.att.turned(w, dt);
            let (side, anchor) = timed.anchored(att, imu, t);
            (EkfModel { att, p: cleaned(self.p), side, ..self }, Some(anchor))
        }
    }

    /// The gyroscope error of an axis after learning from the anchor.
    pub open spec fn learned(b: Single, correction: Single, learn: Single, dt: Single) -> Single {
        let most = Single::of_ratio(5, 100);
        (b + learn * (correction.negated() * (Single::of_int(1) / dt) - b) * dt).clamped(
            most.negated(),
            most,
        )
    }

    /// The filter after the anchor has turned the attitude and taught the gyroscope
    /// errors.
    #[verifier::opaque]
    pub open spec fn anchored_by(self, a: Anchor, half: HalfAngle, dt: Single) -> EkfModel {
        EkfModel {
            att: match a.turn_of() {
                Some(turn) => self.att.times(
                    Quaternion::of_turn(turn.axis, half.sin, half.cos),
                ).unit_of(),
                None => self.att,
            },
            x: if Single::of_int(0).less(a.learn) {
                self.x.update(6, Self::learned(self.x[6], a.vec[0], a.learn, dt)).update(
                    7,
                    Self::learned(self.x[7], a.vec[1], a.learn, dt),
                ).update(8, Self::learned(self.x[8], a.vec[2], a.learn, dt))
            } else {
                self.x
            },
            ..self
        }
    }

    /// The filter after wind, state and covariance have advanced.
    #[verifier::opaque]
    pub open spec fn advanced(self, imu: ImuSample, dt: Single, t: EkfTuning) -> EkfModel {
        EkfModel {
            x: self.state_after(imu, dt),
            p: self.covariance_after(dt, t),
            side: EkfSide {
                wind_est: self.side.wind_after(self.att, self.x[3], self.x[4]),
                ..self.side
            },
            ..self
        }
    }

    /// The filter after a measured position with the noise `r`.
    #[verifier::opaque]
    pub open spec fn with_position(self, pos: [Single; 3], r: Single) -> EkfModel {
        let k = position_gain(self.p, r);
        let y = seq![pos[0] - self.x[0], pos[1] - self.x[1], pos[2] - self.x[2]];
        EkfModel {
            x: moved(self.x, k, y),
            p: balanced(joseph(self.p, k, 0, 3, r), true, true),
            ..self
        }
    }

    /// The filter after a measured velocity with the noise `r`. The accelerometer error
    /// moves by three tenths of what the gain says.
    #[verifier::opaque]
    pub open spec fn with_velocity(self, vel: [Single; 3], r: Single, t: EkfTuning) -> EkfModel {
        let k = velocity_gain(self.p, r);
        let y = seq![vel[0] - self.x[3], vel[1] - self.x[4], vel[2] - self.x[5]];
        let x = moved(self.x, k, y);
        let b = self.x[9] + super::linear::dot(k[9], y) * Single::of_ratio(3, 10);
        EkfModel {
            x: x.update(9, held_bias(b)),
            p: balanced(joseph(self.p, k, 3, 3, r), false, false),
            side: self.side.accelerated(vel, t),
            ..self
        }
    }

    /// The gain of a measured altitude: the share of the vertical velocity is held within
    /// a bound of its own, and the accelerometer error takes none.
    pub open spec fn altitude_gain(self, t: EkfTuning) -> Seq<Seq<Single>> {
        let zero = Single::of_int(0);
        let s = self.p[2][2] + self.side.r_alt;
        let most = if zero.less(t.kvz_from_alt) {
            t.kvz_from_alt
        } else if t.kvz_from_alt.less(zero) {
            zero
        } else {
            Single::of_ratio(1, 10)
        };
        Seq::new(
            10,
            |i: int|
                {
                    let k = self.p[i][2] / s;
                    seq![
                        if i == 9 {
                            zero
                        } else if i == 5 {
                            limited(k.clamped(most.negated(), most))
                        } else {
                            limited(k)
                        },
                    ]
                },
        )
    }

    /// Whether a measured altitude can be used.
    pub open spec fn altitude_usable(self, alt: Single) -> bool {
        let s = self.p[2][2] + self.side.r_alt;
        &&& alt.finite()
        &&& s.finite()
        &&& !s.magnitude_of().less(Single::of_ratio(1, 1_000_000_000))
        &&& (alt.negated() - self.x[2]).finite()
    }

    /// The filter after a measured altitude, upwards.
    #[verifier::opaque]
    pub open spec fn with_altitude(self, alt: Single, t: EkfTuning) -> EkfModel {
        if !self.altitude_usable(alt) {
            self
        } else {
            let k = self.altitude_gain(t);
            let y = alt.negated() - self.x[2];
            EkfModel {
                x: Seq::new(10, |i: int| self.x[i] + k[i][0] * y),
                p: balanced(joseph(self.p, k, 2, 1, self.side.r_alt), true, true),
                ..self
            }
        }
    }

    /// The sum of the speed's variances along its direction, where `h` is the direction.
    pub open spec fn speed_variance(self, hx: Single, hy: Single) -> Single {
        Single::of_int(0) + hx * self.p[3][3] * hx + hx * self.p[3][4] * hy + hy * self.p[4][3]
            * hx + hy * self.p[4][4] * hy
    }

    /// The filter after a measured airspeed: it moves the horizontal velocity along its
    /// direction. Near standstill the airspeed is only noted.
    #[verifier::opaque]
    pub open spec fn with_airspeed(self, v: Single) -> EkfModel {
        let vx = self.x[3];
        let vy = self.x[4];
        let vh2 = vx * vx + vy * vy;
        let vh = vh2.root();
        let hx = vx / vh;
        let hy = vy / vh;
        let s = self.speed_variance(hx, hy) + self.side.r_airspeed;
        if vh2.less(Single::of_ratio(1, 10000)) {
            EkfModel { side: EkfSide { airspeed_est: v, ..self.side }, ..self }
        } else if s.magnitude_of().less(Single::of_ratio(1, 1_000_000_000)) {
            self
        } else {
            let zero = Single::of_int(0);
            let y = v - vh;
            let k = Seq::new(
                10,
                |i: int|
                    if i == 3 || i == 4 {
                        (self.p[i][3] * hx + self.p[i][4] * hy) / s
                    } else {
                        zero
                    },
            );
            let x = Seq::new(10, |i: int| self.x[i] + k[i] * y);
            let p = Seq::new(
                10,
                |i: int|
                    Seq::new(
                        10,
                        |j: int|
                            self.p[i][j] - k[i] * (hx * self.p[3][j] + hy * self.p[4][j]),
                    ),
            );
            EkfModel {
                x,
                p: balanced(p, true, true),
                side: EkfSide {
                    airspeed_est: (x[3] * x[3] + x[4] * x[4]).root(),
                    ..self.side
                },
                ..self
            }
        }
    }

    /// The filter after the measurements that came with a step.
    pub open spec fn with_measurements(
        self,
        gps: Option<PosSample>,
        airspeed: Option<AirspeedSample>,
        t: EkfTuning,
    ) -> EkfModel {
        let a = match gps {
            Some(z) => {
                let b = self.with_position(
                    [z.pos[0].0, z.pos[1].0, z.pos[2].0],
                    unless_zero(self.side.r_pos, t.r_pos),
                );
                match z.vel {
                    Some(v) => b.with_velocity(
                        [v[0].0, v[1].0, b.x[5]],
                        unless_zero(b.side.r_vel, t.r_vel),
                        t,
                    ),
                    None => b,
                }
            },
            None => self,
        };
        let c = match airspeed {
            Some(s) => a.with_airspeed(s.speed.0),
            None => a,
        };
        EkfModel { x: c.x.update(9, held_bias(c.x[9])), ..c }
    }

    /// The rates of the gyroscope without its errors.
    pub open spec fn rates(self, imu: ImuSample) -> [Single; 3] {
        [
            imu.gyro[0].0 - self.x[6],
            imu.gyro[1].0 - self.x[7],
            imu.gyro[2].0 - self.x[8],
        ]
    }

    /// What is estimated, with the rates `omega`.
    pub open spec fn shown(self, omega: [Single; 3]) -> VehicleState {
        let z = Single::of_int(0);
        let x = self.x;
        VehicleState {
            time_boot_ms: 0,
            pos: [Meter(x[0]), Meter(x[1]), Meter(x[2])],
            vel: [MeterPerSecond(x[3]), MeterPerSecond(x[4]), MeterPerSecond(x[5])],
            att: self.att,
            omega: [
                RadianPerSecond(omega[0]),
                RadianPerSecond(omega[1]),
                RadianPerSecond(omega[2]),
            ],
            airspeed: MeterPerSecond(self.side.airspeed_est),
            accel_bias: [z, z, x[9]],
        }
    }
}

fn add_gain<const M: usize>(x: &[Single; 10], k: &[[Single; M]; 10], y: &[Single; M]) -> (r: [
    Single; 10])
    ensures
        r@ == moved(x@, super::linear::rows(*k), y@),
{
    let zero: Single = Single::from_i32(0);
    let ghost want = moved(x@, super::linear::rows(*k), y@);
    let mut r: [Single; 10] = *x;
    let mut i: usize = 0;
    while i < 10
        invariant
            i <= 10,
            zero == Single::of_int(0),
            want == moved(x@, super::linear::rows(*k), y@),
            forall|n: int| 0 <= n < i ==> #[trigger] r[n] == want[n],
        decreases 10 - i,
    {
        let c: Single = super::linear::add_products(zero, &k[i], y);
        r[i] = x[i] + c;
        i += 1;
    }
    assert(r@ =~= want);
    r
}

impl EkfEstimator {
    /// The parameters that are not given to `new`.
    pub open spec fn side_of(
        att_alpha: Single,
        q_vel: Single,
        q_vel_z: Single,
        q_bias: Single,
        q_accel: Single,
        r_pos: Single,
        r_vel: Single,
        r_alt: Single,
    ) -> EkfSide {
        let z = Single::of_int(0);
        EkfSide {
            g_ref: Single::of_ratio(981, 100),
            q_vel,
            q_vel_z,
            q_bias,
            q_accel,
            r_pos,
            r_vel,
            r_alt,
            r_airspeed: Single::of_ratio(75, 100),
            r_vio_pos: Single::of_ratio(25, 100),
            r_vio_vel: Single::of_ratio(4, 100),
            r_rtk: Single::of_ratio(25, 10000),
            att_alpha,
            mag_alpha: Single::of_ratio(5, 100),
            acc_h_mean: z,
            acc_h_dev: z,
            last_dt: z,
            drag_k: z,
            wind_est: [z, z],
            mag_ref3d: [z, z, z],
            mag_ref: [Single::of_int(1), z],
            mag_hard_iron: [z, z, z],
            world_accel: [z, z, z],
            world_accel_trusted: false,
            prev_vel_obs: [z, z, z],
            vel_obs_dt: Single::of_int(-1),
            airspeed_est: z,
        }
    }

    /// The filter at its start with the given parameters.
    pub open spec fn fresh(side: EkfSide) -> EkfModel {
        EkfModel {
            att: Quaternion::unit(),
            x: Seq::new(10, |i: int| Single::of_int(0)),
            p: first_covariance(),
            side,
        }
    }

    pub fn new(
        att_alpha: Single,
        q_vel: Single,
        q_vel_z: Single,
        q_bias: Single,
        q_accel: Single,
        r_pos: Single,
        r_vel: Single,
        r_alt: Single,
    ) -> (r: EkfEstimator)
        ensures
            r@ == EkfEstimator::fresh(
                EkfEstimator::side_of(
                    att_alpha,
                    q_vel,
                    q_vel_z,
                    q_bias,
                    q_accel,
                    r_pos,
                    r_vel,
                    r_alt,
                ),
            ),
    {
        let z: Single = Single::from_i32(0);
        let r = EkfEstimator {
            att: Quaternion::identity(),
            x: [z; 10],
            p: initial_covariance(),
            side: EkfSide {
                g_ref: Single::ratio(981, 100),
                q_vel,
                q_vel_z,
                q_bias,
                q_accel,
                r_pos,
                r_vel,
                r_alt,
                r_airspeed: Single::ratio(75, 100),
                r_vio_pos: Single::ratio(25, 100),
                r_vio_vel: Single::ratio(4, 100),
                r_rtk: Single::ratio(25, 10000),
                att_alpha,
                mag_alpha: Single::ratio(5, 100),
                acc_h_mean: z,
                acc_h_dev: z,
                last_dt: z,
                drag_k: z,
                wind_est: [z, z],
                mag_ref3d: [z, z, z],
                mag_ref: [Single::from_i32(1), z],
                mag_hard_iron: [z, z, z],
                world_accel: [z, z, z],
                world_accel_trusted: false,
                prev_vel_obs: [z, z, z],
                vel_obs_dt: Single::from_i32(-1),
                airspeed_est: z,
            },
        };
        assert(r.x@ =~= Seq::new(10, |i: int| Single::of_int(0)));
        r
    }

    /// With the same noise of the velocity in all directions, and the usual noise of
    /// measured velocities and altitudes.
    pub fn new_legacy(att_alpha: Single, q_vel: Single, q_bias: Single, r_pos: Single) -> (r:
        EkfEstimator)
        ensures
            r@ == EkfEstimator::fresh(
                EkfEstimator::side_of(
                    att_alpha,
                    q_vel,
                    q_vel,
                    q_bias,
                    Single::of_ratio(1, 10000),
                    r_pos,
                    Single::of_ratio(3, 10),
                    Single::of_ratio(3, 10),
                ),
            ),
    {
        EkfEstimator::new(
            att_alpha,
            q_vel,
            q_vel,
            q_bias,
            Single::ratio(1, 10000),
            r_pos,
            Single::ratio(3, 10),
            Single::ratio(3, 10),
        )
    }

    /// For an X quadrotor of 450 millimetres.
    pub fn default_quad() -> (r: EkfEstimator)
        ensures
            r@ == EkfEstimator::fresh(
                EkfEstimator::side_of(
                    Single::of_ratio(2, 100),
                    Single::of_ratio(5, 10),
                    Single::of_ratio(5, 100),
                    Single::of_ratio(1, 100_000),
                    Single::of_ratio(5, 10000),
                    Single::of_ratio(5, 10),
                    Single::of_ratio(3, 10),
                    Single::of_ratio(3, 10),
                ),
            ),
    {
        EkfEstimator::new(
            Single::ratio(2, 100),
            Single::ratio(5, 10),
            Single::ratio(5, 100),
            Single::ratio(1, 100_000),
            Single::ratio(5, 10000),
            Single::ratio(5, 10),
            Single::ratio(3, 10),
            Single::ratio(3, 10),
        )
    }

    /// The estimated errors of the gyroscope.
    pub fn gyro_bias(&self) -> (r: [Single; 3])
        ensures
            r == [self.x[6], self.x[7], self.x[8]],
    {
        [self.x[6], self.x[7], self.x[8]]
    }

    /// The estimated error of the accelerometer; only that downwards is estimated.
    pub fn accel_bias(&self) -> (r: [Single; 3])
        ensures
            r == [Single::of_int(0), Single::of_int(0), self.x[9]],
    {
        [Single::from_i32(0), Single::from_i32(0), self.x[9]]
    }

    /// The estimated attitude.
    pub fn att(&self) -> (r: Quaternion)
        ensures
            r == self.att,
    {
        self.att
    }

    /// The covariance.
    pub fn cov(&self) -> (r: &[[Single; 10]; 10])
        ensures
            *r == self.p,
    {
        &self.p
    }

    /// Sets the magnetic field of the earth with its dip; zeros use the heading alone.
    pub fn set_mag_ref3d(&mut self, b: [Single; 3])
        ensures
            final(self)@ == (EkfModel {
                side: EkfSide { mag_ref3d: b, ..old(self)@.side },
                ..old(self)@
            }),
    {
        self.side.mag_ref3d = b;
    }

    /// Sets the drag per squared airspeed; what is not positive and finite switches the
    /// wind off.
    pub fn set_drag_k(&mut self, k: Single)
        ensures
            final(self)@ == (EkfModel {
                side: EkfSide {
                    drag_k: if k.finite() && Single::of_int(0).less(k) {
                        k
                    } else {
                        Single::of_int(0)
                    },
                    ..old(self)@.side
                },
                ..old(self)@
            }),
    {
        let zero: Single = Single::from_i32(0);
        self.side.drag_k = if k.is_finite() && k > zero {
            k
        } else {
            zero
        };
    }

    /// The estimated wind, north and east.
    pub fn wind_estimate(&self) -> (r: [Single; 2])
        ensures
            r == self.side.wind_est,
    {
        self.side.wind_est
    }

    /// Sets the position where the filter starts, as known well.
    pub fn set_initial_position(&mut self, ned: [Single; 3])
        ensures
            final(self)@ == old(self)@.placed(ned),
    {
        let small: Single = Single::ratio(1, 100);
        self.x[0] = ned[0];
        self.x[1] = ned[1];
        self.x[2] = ned[2];
        let mut r0: [Single; 10] = self.p[0];
        let mut r1: [Single; 10] = self.p[1];
        let mut r2: [Single; 10] = self.p[2];
        r0[0] = small;
        r1[1] = small;
        r2[2] = small;
        self.p[0] = r0;
        self.p[1] = r1;
        self.p[2] = r2;
        assert(self@.p =~= Seq::new(
            10,
            |i: int|
                if i < 3 {
                    old(self)@.p[i].update(i, Single::of_ratio(1, 100))
                } else {
                    old(self)@.p[i]
                },
        ));
    }

    /// Sets the attitude where the filter starts.
    pub fn set_initial_attitude(&mut self, q: Quaternion)
        ensures
            final(self)@ == (EkfModel { att: q.unit_of(), ..old(self)@ }),
    {
        self.att = q.normalize();
    }

    /// Starts anew at rest at the origin, level; the settings stay.
    pub fn reset(&mut self)
        ensures
            final(self)@ == EkfEstimator::fresh(old(self)@.side.forgotten()),
    {
        let z: Single = Single::from_i32(0);
        self.side.forget();
        self.att = Quaternion::identity();
        self.x = [z; 10];
        self.p = initial_covariance();
        assert(self.x@ =~= Seq::new(10, |i: int| Single::of_int(0)));
    }

    /// Starts anew in the given attitude.
    pub fn reset_to(&mut self, att: Quaternion)
        ensures
            final(self)@ == (EkfModel { att, ..EkfEstimator::fresh(old(self)@.side.forgotten()) }),
    {
        self.reset();
        self.att = att;
    }

    /// Begins a step: turns the attitude by the gyroscope and finds the correction that
    /// anchors it to gravity. Readings that are not finite end the step here.
    pub fn begin_step(&mut self, dt: Second, imu: &ImuSample, t: &EkfTuning) -> (r: Option<Anchor>)
        ensures
            (final(self)@, r) == old(self)@.begun(dt.0, *imu, *t),
    {
        let dt: Single = dt.0;
        self.side.last_dt = dt;
        if self.side.vel_obs_dt >= Single::from_i32(0) {
            self.side.vel_obs_dt = self.side.vel_obs_dt + dt;
        }
        if !is_usable(imu) {
            return None;
        }
        self.p = clean(&self.p);
        let w: [Single; 3] = [
            imu.gyro[0].0 - self.x[6],
            imu.gyro[1].0 - self.x[7],
            imu.gyro[2].0 - self.x[8],
        ];
        self.att = self.att.integrate(w, dt);
        let att: Quaternion = self.att;
        Some(self.side.anchor(&att, imu, t))
    }

    fn learn(b: Single, correction: Single, learn: Single, dt: Single) -> (r: Single)
        ensures
            r == EkfModel::learned(b, correction, learn, dt),
    {
        let most: Single = Single::ratio(5, 100);
        (b + learn * (correction.negate() * (Single::from_i32(1) / dt) - b) * dt).clamp(
            most.negate(),
            most,
        )
    }

    fn apply_anchor(&mut self, a: &Anchor, half: &HalfAngle, dt: Single)
        ensures
            final(self)@ == old(self)@.anchored_by(*a, *half, dt),
    {
        proof {
            reveal(EkfModel::anchored_by);
        }
        if let Some(turn) = a.turn() {
            let dq: Quaternion = Quaternion::from_axis_angle(turn.axis, half.sin, half.cos);
            self.att = quat_mul(self.att, dq).normalize();
        }
        if a.learn > Single::from_i32(0) {
            self.x[6] = EkfEstimator::learn(self.x[6], a.vec[0], a.learn, dt);
            self.x[7] = EkfEstimator::learn(self.x[7], a.vec[1], a.learn, dt);
            self.x[8] = EkfEstimator::learn(self.x[8], a.vec[2], a.learn, dt);
        }
    }

    fn advance(&mut self, imu: &ImuSample, dt: Single, t: &EkfTuning)
        ensures
            final(self)@ == old(self)@.advanced(*imu, dt, *t),
    {
        proof {
            reveal(EkfModel::advanced);
        }
        let half: Single = Single::ratio(5, 10);
        let zero: Single = Single::from_i32(0);
        self.side.wind_est = self.side.update_wind(&self.att, self.x[3], self.x[4]);
        let force: [Single; 3] = [imu.accel[0].0, imu.accel[1].0, imu.accel[2].0];
        let f: [Single; 3] = rotate_vec_by_quat(&self.att, force);
        let x: [Single; 10] = self.x;
        let az: Single = f[2] + self.side.g_ref - x[9];
        self.x = [
            x[0] + x[3] * dt + half * f[0] * dt * dt,
            x[1] + x[4] * dt + half * f[1] * dt * dt,
            x[2] + x[5] * dt + half * az * dt * dt,
            x[3] + f[0] * dt,
            x[4] + f[1] * dt,
            x[5] + az * dt,
            x[6],
            x[7],
            x[8],
            x[9],
        ];
        assert(self.x@ =~= old(self)@.state_after(*imu, dt));
        let v: Single = pick_unless_zero(self.side.q_vel, t.q_vel) * dt;
        let b: Single = self.side.q_bias * dt;
        let d: [Single; 10] = [
            zero,
            zero,
            zero,
            v,
            v,
            self.side.q_vel_z * dt,
            b,
            b,
            b,
            pick_unless_zero(self.side.q_accel, t.q_accel) * dt,
        ];
        assert(d@ =~= step_noise(old(self)@.side, dt, *t));
        let moved: [[Single; 10]; 10] = predict_covariance(
            &self.p,
            &transition_of(dt),
            &diagonal_of(&d),
        );
        self.p = balance(&moved, true, true);
    }

    /// Takes a measured position with the noise `r`.
    pub fn update_pos_r(&mut self, pos: &[Single; 3], r: Single)
        ensures
            final(self)@ == old(self)@.with_position(*pos, r),
    {
        proof {
            reveal(EkfModel::with_position);
        }
        let zero: Single = Single::from_i32(0);
        let raw: [[Single; 3]; 10] = compute_gain(&self.p, 0, r);
        let ghost want = position_gain(super::linear::rows(self.p), r);
        let mut k: [[Single; 3]; 10] = raw;
        let mut i: usize = 0;
        while i < 10
            invariant
                i <= 10,
                zero == Single::of_int(0),
                super::linear::rows(raw) == raw_gain(super::linear::rows(self.p), 0, r),
                want == position_gain(super::linear::rows(self.p), r),
                forall|n: int| 0 <= n < i ==> (#[trigger] k[n])@ == want[n],
            decreases 10 - i,
        {
            let g: [Single; 3] = raw[i];
            assert(g@ == super::linear::rows(raw)[i as int]);
            let row: [Single; 3] = if i == 5 || i == 9 {
                [zero, zero, zero]
            } else {
                [limit_gain(g[0]), limit_gain(g[1]), limit_gain(g[2])]
            };
            assert(row@ =~= want[i as int]);
            k[i] = row;
            i += 1;
        }
        assert(super::linear::rows(k) =~= want);
        let y: [Single; 3] = [pos[0] - self.x[0], pos[1] - self.x[1], pos[2] - self.x[2]];
        assert(y@ =~= seq![y[0], y[1], y[2]]);
        self.x = add_gain(&self.x, &k, &y);
        let reduced: [[Single; 10]; 10] = joseph_update(&self.p, &k, 0, r);
        self.p = balance(&reduced, true, true);
    }

    /// Takes a measured position with the usual noise.
    pub fn update_pos(&mut self, z: &PosSample, t: &EkfTuning)
        ensures
            final(self)@ == old(self)@.with_position(
                [z.pos[0].0, z.pos[1].0, z.pos[2].0],
                unless_zero(old(self)@.side.r_pos, t.r_pos),
            ),
    {
        let r: Single = pick_unless_zero(self.side.r_pos, t.r_pos);
        self.update_pos_r(&[z.pos[0].0, z.pos[1].0, z.pos[2].0], r);
    }

    /// Takes a measured velocity with the noise `r`.
    pub fn update_vel_r(&mut self, vel: &[Single; 3], r: Single, t: &EkfTuning)
        ensures
            final(self)@ == old(self)@.with_velocity(*vel, r, *t),
    {
        proof {
            reveal(EkfModel::with_velocity);
        }
        let zero: Single = Single::from_i32(0);
        self.side.observe_velocity(vel, t);
        let raw: [[Single; 3]; 10] = compute_gain(&self.p, 3, r);
        let ghost want = velocity_gain(super::linear::rows(self.p), r);
        let mut k: [[Single; 3]; 10] = raw;
        let mut i: usize = 0;
        while i < 10
            invariant
                i <= 10,
                zero == Single::of_int(0),
                super::linear::rows(raw) == raw_gain(super::linear::rows(self.p), 3, r),
                want == velocity_gain(super::linear::rows(self.p), r),
                forall|n: int| 0 <= n < i ==> (#[trigger] k[n])@ == want[n],
            decreases 10 - i,
        {
            let g: [Single; 3] = raw[i];
            assert(g@ == super::linear::rows(raw)[i as int]);
            let row: [Single; 3] = if i == 9 {
                [zero, zero, limit_gain(g[2])]
            } else {
                [limit_gain(g[0]), limit_gain(g[1]), limit_gain(g[2])]
            };
            assert(row@ =~= want[i as int]);
            k[i] = row;
            i += 1;
        }
        assert(super::linear::rows(k) =~= want);
        let y: [Single; 3] = [vel[0] - self.x[3], vel[1] - self.x[4], vel[2] - self.x[5]];
        assert(y@ =~= seq![y[0], y[1], y[2]]);
        let bias: Single = self.x[9] + super::linear::add_products(zero, &k[9], &y)
            * Single::ratio(3, 10);
        self.x = add_gain(&self.x, &k, &y);
        self.x[9] = hold_bias(bias);
        let reduced: [[Single; 10]; 10] = joseph_update(&self.p, &k, 3, r);
        self.p = balance(&reduced, false, false);
        assert(super::linear::rows(k)[9] == k[9]@);
    }

    /// Takes the horizontal part of a measured velocity with the usual noise; the
    /// vertical part counts as estimated.
    pub fn update_vel(&mut self, vel: &[Single; 3], t: &EkfTuning)
        ensures
            final(self)@ == old(self)@.with_velocity(
                [vel[0], vel[1], old(self)@.x[5]],
                unless_zero(old(self)@.side.r_vel, t.r_vel),
                *t,
            ),
    {
        let r: Single = pick_unless_zero(self.side.r_vel, t.r_vel);
        let v: [Single; 3] = [vel[0], vel[1], self.x[5]];
        self.update_vel_r(&v, r, t);
    }

    /// Takes a measured altitude, upwards. One that is not finite, or cannot be weighed,
    /// changes nothing.
    pub fn update_alt(&mut self, alt: Single, t: &EkfTuning)
        ensures
            final(self)@ == old(self)@.with_altitude(alt, *t),
    {
        proof {
            reveal(EkfModel::with_altitude);
        }
        let zero: Single = Single::from_i32(0);
        if !alt.is_finite() {
            return;
        }
        let s: Single = self.p[2][2] + self.side.r_alt;
        if !s.is_finite() || s.abs() < Single::ratio(1, 1_000_000_000) {
            return;
        }
        let y: Single = alt.negate() - self.x[2];
        if !y.is_finite() {
            return;
        }
        let most: Single = if t.kvz_from_alt > zero {
            t.kvz_from_alt
        } else if t.kvz_from_alt < zero {
            zero
        } else {
            Single::ratio(1, 10)
        };
        let ghost before = self@;
        let ghost want = before.altitude_gain(*t);
        let mut k: [[Single; 1]; 10] = [[zero; 1]; 10];
        let mut x: [Single; 10] = self.x;
        let mut i: usize = 0;
        while i < 10
            invariant
                i <= 10,
                zero == Single::of_int(0),
                before == self@,
                s == self.p[2][2] + self.side.r_alt,
                y == alt.negated() - self.x[2],
                most == if zero.less(t.kvz_from_alt) {
                    t.kvz_from_alt
                } else if t.kvz_from_alt.less(zero) {
                    zero
                } else {
                    Single::of_ratio(1, 10)
                },
                want == before.altitude_gain(*t),
                forall|n: int| 0 <= n < i ==> (#[trigger] k[n])@ == want[n],
                forall|n: int|
                    0 <= n < i ==> #[trigger] x[n] == before.x[n] + want[n][0] * y,
            decreases 10 - i,
        {
            let g: Single = self.p[i][2] / s;
            let e: Single = if i == 9 {
                zero
            } else if i == 5 {
                limit_gain(g.clamp(most.negate(), most))
            } else {
                limit_gain(g)
            };
            let row: [Single; 1] = [e];
            assert(row@ =~= want[i as int]);
            k[i] = row;
            x[i] = self.x[i] + e * y;
            i += 1;
        }
        assert(super::linear::rows(k) =~= want);
        self.x = x;
        assert(self.x@ =~= Seq::new(10, |i: int| before.x[i] + want[i][0] * y));
        let reduced: [[Single; 10]; 10] = joseph_update(&self.p, &k, 2, self.side.r_alt);
        self.p = balance(&reduced, true, true);
    }

    /// Takes a measured airspeed.
    pub fn update_airspeed(&mut self, v_as: Single)
        ensures
            final(self)@ == old(self)@.with_airspeed(v_as),
    {
        proof {
            reveal(EkfModel::with_airspeed);
        }
        let zero: Single = Single::from_i32(0);
        let vx: Single = self.x[3];
        let vy: Single = self.x[4];
        let vh2: Single = vx * vx + vy * vy;
        if vh2 < Single::ratio(1, 10000) {
            self.side.airspeed_est = v_as;
            return;
        }
        let vh: Single = vh2.sqrt();
        let hx: Single = vx / vh;
        let hy: Single = vy / vh;
        let hph: Single = zero + hx * self.p[3][3] * hx + hx * self.p[3][4] * hy + hy
            * self.p[4][3] * hx + hy * self.p[4][4] * hy;
        let s: Single = hph + self.side.r_airspeed;
        if s.abs() < Single::ratio(1, 1_000_000_000) {
            return;
        }
        let k3: Single = (self.p[3][3] * hx + self.p[3][4] * hy) / s;
        let k4: Single = (self.p[4][3] * hx + self.p[4][4] * hy) / s;
        let y: Single = v_as - vh;
        let ghost before = self@;
        let ghost k = Seq::new(
            10,
            |i: int|
                if i == 3 || i == 4 {
                    (before.p[i][3] * hx + before.p[i][4] * hy) / s
                } else {
                    Single::of_int(0)
                },
        );
        let ghost want = Seq::new(
            10,
            |i: int|
                Seq::new(
                    10,
                    |j: int|
                        before.p[i][j] - k[i] * (hx * before.p[3][j] + hy * before.p[4][j]),
                ),
        );
        let mut x: [Single; 10] = self.x;
        let mut ap: [[Single; 10]; 10] = self.p;
        let mut i: usize = 0;
        while i < 10
            invariant
                i <= 10,
                zero == Single::of_int(0),
                before == self@,
                k3 == (before.p[3][3] * hx + before.p[3][4] * hy) / s,
                k4 == (before.p[4][3] * hx + before.p[4][4] * hy) / s,
                k == Seq::new(
                    10,
                    |i: int|
                        if i == 3 || i == 4 {
                            (before.p[i][3] * hx + before.p[i][4] * hy) / s
                        } else {
                            Single::of_int(0)
                        },
                ),
                want == Seq::new(
                    10,
                    |i: int|
                        Seq::new(
                            10,
                            |j: int|
                                before.p[i][j] - k[i] * (hx * before.p[3][j] + hy
                                    * before.p[4][j]),
                        ),
                ),
                forall|n: int| 0 <= n < i ==> (#[trigger] ap[n])@ == want[n],
                forall|n: int| 0 <= n < i ==> #[trigger] x[n] == before.x[n] + k[n] * y,
            decreases 10 - i,
        {
            let ki: Single = if i == 3 {
                k3
            } else if i == 4 {
                k4
            } else {
                zero
            };
            assert(ki == k[i as int]);
            x[i] = self.x[i] + ki * y;
            let mut row: [Single; 10] = self.p[i];
            let mut j: usize = 0;
            while j < 10
                invariant
                    i < 10,
                    j <= 10,
                    before == self@,
                    ki == k[i as int],
                    want == Seq::new(
                        10,
                        |i: int|
                            Seq::new(
                                10,
                                |j: int|
                                    before.p[i][j] - k[i] * (hx * before.p[3][j] + hy
                                        * before.p[4][j]),
                            ),
                    ),
                    forall|n: int| 0 <= n < j ==> #[trigger] row[n] == want[i as int][n],
                decreases 10 - j,
            {
                row[j] = self.p[i][j] - ki * (hx * self.p[3][j] + hy * self.p[4][j]);
                j += 1;
            }
            assert(row@ =~= want[i as int]);
            ap[i] = row;
            i += 1;
        }
        assert(super::linear::rows(ap) =~= want);
        assert(x@ =~= Seq::new(10, |i: int| before.x[i] + k[i] * y));
        self.x = x;
        self.p = balance(&ap, true, true);
        self.side.airspeed_est = (self.x[3] * self.x[3] + self.x[4] * self.x[4]).sqrt();
    }

    fn take_measurements(
        &mut self,
        gps: Option<PosSample>,
        airspeed: Option<AirspeedSample>,
        t: &EkfTuning,
    )
        ensures
            final(self)@ == old(self)@.with_measurements(gps, airspeed, *t),
    {
        if let Some(z) = gps {
            self.update_pos(&z, t);
            if let Some(v) = z.vel {
                self.update_vel(&[v[0].0, v[1].0, v[2].0], t);
            }
        }
        if let Some(s) = airspeed {
            self.update_airspeed(s.speed.0);
        }
        self.x[9] = hold_bias(self.x[9]);
    }

    /// Finishes a step that `begin_step` has begun with the anchor `a`, where `half`
    /// belongs to its turn: state and covariance advance, and the measurements that came
    /// with the step are taken.
    pub fn finish_step(
        &mut self,
        dt: Second,
        imu: &ImuSample,
        a: &Anchor,
        half: &HalfAngle,
        gps: Option<PosSample>,
        airspeed: Option<AirspeedSample>,
        t: &EkfTuning,
    ) -> (r: VehicleState)
        ensures
            final(self)@ == old(self)@.anchored_by(*a, *half, dt.0).advanced(
                *imu,
                dt.0,
                *t,
            ).with_measurements(gps, airspeed, *t),
            r == final(self)@.shown(final(self)@.rates(*imu)),
    {
        self.apply_anchor(a, half, dt.0);
        self.advance(imu, dt.0, t);
        self.take_measurements(gps, airspeed, t);
        let omega: [Single; 3] = [
            imu.gyro[0].0 - self.x[6],
            imu.gyro[1].0 - self.x[7],
            imu.gyro[2].0 - self.x[8],
        ];
        self.show(omega)
    }

    fn show(&self, omega: [Single; 3]) -> (r: VehicleState)
        ensures
            r == self@.shown(omega),
    {
        let z: Single = Single::from_i32(0);
        let x: [Single; 10] = self.x;
        VehicleState {
            time_boot_ms: 0,
            pos: [Meter(x[0]), Meter(x[1]), Meter(x[2])],
            vel: [MeterPerSecond(x[3]), MeterPerSecond(x[4]), MeterPerSecond(x[5])],
            att: self.att,
            omega: [
                RadianPerSecond(omega[0]),
                RadianPerSecond(omega[1]),
                RadianPerSecond(omega[2]),
            ],
            airspeed: MeterPerSecond(self.side.airspeed_est),
            accel_bias: [z, z, x[9]],
        }
    }

    /// What is estimated now; the rates are not kept.
    pub fn state(&self) -> (r: VehicleState)
        ensures
            r == self@.shown(
                [self.x[3] * Single::of_int(0), Single::of_int(0), Single::of_int(0)],
            ),
    {
        let z: Single = Single::from_i32(0);
        self.show([self.x[3] * z, z, z])
    }

    /// Takes what visual odometry gives.
    pub fn update_vio(&mut self, vio: Option<VioSample>, t: &EkfTuning)
        ensures
            final(self)@ == old(self)@.with_odometry(vio, *t),
    {
        if let Some(v) = vio {
            if let Some(p) = v.pos {
                let r: Single = self.side.r_vio_pos;
                self.update_pos_r(&[p[0].0, p[1].0, p[2].0], r);
            }
            if let Some(u) = v.vel {
                let r: Single = self.side.r_vio_vel;
                self.update_vel_r(&[u[0].0, u[1].0, u[2].0], r, t);
            }
        }
    }

    /// Takes a precise position.
    pub fn update_rtk(&mut self, rtk: Option<RtkSample>)
        ensures
            final(self)@ == old(self)@.with_precise(rtk),
    {
        if let Some(z) = rtk {
            let r: Single = self.side.r_rtk;
            self.update_pos_r(&[z.pos[0].0, z.pos[1].0, z.pos[2].0], r);
        }
    }

    /// Sets the direction of magnetic north, given the sine and the cosine of the
    /// declination, eastwards positive.
    pub fn set_mag_declination(&mut self, sin: Single, cos: Single)
        ensures
            final(self)@ == (EkfModel {
                side: EkfSide { mag_ref: [cos, sin], ..old(self)@.side },
                ..old(self)@
            }),
    {
        self.side.mag_ref = [cos, sin];
    }

    /// Sets the magnetic field of the body.
    pub fn set_mag_hard_iron(&mut self, hard_iron: [Single; 3])
        ensures
            final(self)@ == (EkfModel {
                side: EkfSide { mag_hard_iron: hard_iron, ..old(self)@.side },
                ..old(self)@
            }),
    {
        self.side.mag_hard_iron = hard_iron;
    }

    /// Sets the acceleration of the vehicle from a trusted source; one that is not finite
    /// counts as none.
    pub fn set_world_accel(&mut self, a_world: [Single; 3])
        ensures
            final(self)@ == (EkfModel {
                side: EkfSide {
                    world_accel: if a_world[0].finite() && a_world[1].finite()
                        && a_world[2].finite() {
                        a_world
                    } else {
                        [Single::of_int(0), Single::of_int(0), Single::of_int(0)]
                    },
                    world_accel_trusted: true,
                    ..old(self)@.side
                },
                ..old(self)@
            }),
    {
        self.side.world_accel = if a_world[0].is_finite() && a_world[1].is_finite()
            && a_world[2].is_finite() {
            a_world
        } else {
            let z: Single = Single::from_i32(0);
            [z, z, z]
        };
        self.side.world_accel_trusted = true;
    }
}

/// A measurement that is not finite changes nothing.
pub proof fn law_infinite_altitude_is_ignored(m: EkfModel, alt: Single, t: EkfTuning)
    requires
        !alt.finite(),
    ensures
        m.with_altitude(alt, t) == m,
{
    reveal(EkfModel::with_altitude);
}

/// Positions have no gain on the vertical velocity and on the accelerometer error.
pub proof fn law_position_gain_spares_vertical(p: Seq<Seq<Single>>, r: Single, j: int)
    requires
        0 <= j < 3,
    ensures
        position_gain(p, r)[5][j] == Single::of_int(0),
        position_gain(p, r)[9][j] == Single::of_int(0),
{
}

impl EkfModel {
    /// Placed at `ned`, as known well.
    pub open spec fn placed(self, ned: [Single; 3]) -> EkfModel {
        EkfModel {
            x: self.x.update(0, ned[0]).update(1, ned[1]).update(2, ned[2]),
            p: Seq::new(
                10,
                |i: int|
                    if i < 3 {
                        self.p[i].update(i, Single::of_ratio(1, 100))
                    } else {
                        self.p[i]
                    },
            ),
            ..self
        }
    }

    /// With what visual odometry gives: a position, then a velocity.
    pub open spec fn with_odometry(self, vio: Option<VioSample>, t: EkfTuning) -> EkfModel {
        match vio {
            Some(v) => {
                let a = match v.pos {
                    Some(p) => self.with_position(
                        [p[0].0, p[1].0, p[2].0],
                        self.side.r_vio_pos,
                    ),
                    None => self,
                };
                match v.vel {
                    Some(u) => a.with_velocity([u[0].0, u[1].0, u[2].0], a.side.r_vio_vel, t),
                    None => a,
                }
            },
            None => self,
        }
    }

    /// With a precise position.
    pub open spec fn with_precise(self, rtk: Option<RtkSample>) -> EkfModel {
        match rtk {
            Some(z) => self.with_position([z.pos[0].0, z.pos[1].0, z.pos[2].0], self.side.r_rtk),
            None => self,
        }
    }
}

/// What a measured magnetic field shows: the heading error as the arctangent of `y` over
/// `x`, and, where the whole field is used, the rotation towards the expected field.
#[derive(Debug, Clone, Copy)]
pub struct MagSight {
    pub y: Single,
    pub x: Single,
    pub tilt: Option<MagTilt>,
}

/// A rotation towards the expected field: about `axis`, whose length `s` is the sine of
/// the angle, with the cosine `c`.
#[derive(Debug, Clone, Copy)]
pub struct MagTilt {
    pub axis: [Single; 3],
    pub s: Single,
    pub c: Single,
}

impl EkfModel {
    /// The rotation from the field `m`, north-east-down, to the expected one.
    pub open spec fn tilt_to_field(self, m: Seq<Single>, t: EkfTuning) -> Option<MagTilt> {
        let zero = Single::of_int(0);
        let one = Single::of_int(1);
        let r = self.side.mag_ref3d;
        let none = r[0].same(zero) && r[1].same(zero) && r[2].same(zero);
        let rn = length3(r);
        let mn = length3([m[0], m[1], m[2]]);
        if !zero.less(t.mag3d_alpha) || none || !least().less(rn) || !least().less(mn) {
            None
        } else {
            let a = [m[0] / mn, m[1] / mn, m[2] / mn];
            let b = [r[0] / rn, r[1] / rn, r[2] / rn];
            let axis = [
                a[1] * b[2] - a[2] * b[1],
                a[2] * b[0] - a[0] * b[2],
                a[0] * b[1] - a[1] * b[0],
            ];
            Some(
                MagTilt {
                    axis,
                    s: length3(axis),
                    c: (a[0] * b[0] + a[1] * b[1] + a[2] * b[2]).clamped(Single::of_int(-1), one),
                },
            )
        }
    }

    /// What a measured magnetic field shows. Nothing where the anchor is off, nothing was
    /// measured, the field is not finite, or it has no horizontal part.
    pub open spec fn mag_sight(self, mag: Option<[Single; 3]>, t: EkfTuning) -> Option<MagSight> {
        let alpha = unless_negative(self.side.mag_alpha, t.mag_alpha);
        if alpha.less_eq(Single::of_int(0)) {
            None
        } else {
            match mag {
                None => None,
                Some(raw) => {
                    let h = self.side.mag_hard_iron;
                    let m = self.att.rotated(
                        [raw[0] - h[0], raw[1] - h[1], raw[2] - h[2]]@,
                    );
                    let flat = (m[0] * m[0] + m[1] * m[1]).root();
                    let rx = self.side.mag_ref[0];
                    let ry = self.side.mag_ref[1];
                    if !(raw[0].finite() && raw[1].finite() && raw[2].finite()) {
                        None
                    } else if flat.less(Single::of_ratio(1, 1000)) {
                        None
                    } else {
                        Some(
                            MagSight {
                                y: (m[0].negated() * ry + m[1] * rx).negated(),
                                x: m[0] * rx + m[1] * ry,
                                tilt: self.tilt_to_field(m, t),
                            },
                        )
                    }
                },
            }
        }
    }

    /// The filter after the rotation towards the expected field by the angle `ang`.
    pub open spec fn tilted(self, tilt: MagTilt, ang: Single, half: HalfAngle) -> EkfModel {
        let s = tilt.s;
        if Single::of_ratio(1, 1_000_000_000).less(s) && Single::of_int(0).less(
            ang.magnitude_of(),
        ) {
            EkfModel {
                att: Quaternion::of_turn(
                    [tilt.axis[0] / s, tilt.axis[1] / s, tilt.axis[2] / s],
                    half.sin,
                    half.cos,
                ).times(self.att).unit_of(),
                ..self
            }
        } else {
            self
        }
    }

    /// The filter after the heading was turned by the angle `corr`.
    pub open spec fn headed(self, corr: Single, half: HalfAngle, t: EkfTuning) -> EkfModel {
        let z = Single::of_int(0);
        let one = Single::of_int(1);
        let dt = self.side.last_dt;
        let most = Single::of_ratio(5, 100);
        EkfModel {
            att: Quaternion::of_turn([z, z, one], half.sin, half.cos).times(self.att).unit_of(),
            x: if z.less(t.gyro_bias_k) && least().less(dt) {
                self.x.update(
                    8,
                    (self.x[8] + t.gyro_bias_k * (corr.negated() * (one / dt) - self.x[8])
                        * dt).clamped(most.negated(), most),
                )
            } else {
                self.x
            },
            ..self
        }
    }
}

impl EkfEstimator {
    fn tilt_to(&self, m: &[Single; 3], t: &EkfTuning) -> (r: Option<MagTilt>)
        ensures
            r == self@.tilt_to_field(m@, *t),
    {
        let zero: Single = Single::from_i32(0);
        let tiny: Single = Single::ratio(1, 1_000_000);
        let r: [Single; 3] = self.side.mag_ref3d;
        if !(t.mag3d_alpha > zero) || (r[0] == zero && r[1] == zero && r[2] == zero) {
            return None;
        }
        let rn: Single = length(&r);
        let mn: Single = length(&[m[0], m[1], m[2]]);
        if !(rn > tiny) || !(mn > tiny) {
            return None;
        }
        let a: [Single; 3] = [m[0] / mn, m[1] / mn, m[2] / mn];
        let b: [Single; 3] = [r[0] / rn, r[1] / rn, r[2] / rn];
        let axis: [Single; 3] = [
            a[1] * b[2] - a[2] * b[1],
            a[2] * b[0] - a[0] * b[2],
            a[0] * b[1] - a[1] * b[0],
        ];
        Some(
            MagTilt {
                axis,
                s: length(&axis),
                c: (a[0] * b[0] + a[1] * b[1] + a[2] * b[2]).clamp(
                    Single::from_i32(-1),
                    Single::from_i32(1),
                ),
            },
        )
    }

    /// What a measured magnetic field shows, if anything.
    pub fn begin_mag(&self, mag: Option<[Single; 3]>, t: &EkfTuning) -> (r: Option<MagSight>)
        ensures
            r == self@.mag_sight(mag, *t),
    {
        let alpha: Single = pick_unless_negative(self.side.mag_alpha, t.mag_alpha);
        if alpha <= Single::from_i32(0) {
            return None;
        }
        let raw: [Single; 3] = match mag {
            Some(m) => m,
            None => {
                return None;
            },
        };
        if !(raw[0].is_finite() && raw[1].is_finite() && raw[2].is_finite()) {
            return None;
        }
        let h: [Single; 3] = self.side.mag_hard_iron;
        let m: [Single; 3] = rotate_vec_by_quat(
            &self.att,
            [raw[0] - h[0], raw[1] - h[1], raw[2] - h[2]],
        );
        let flat: Single = (m[0] * m[0] + m[1] * m[1]).sqrt();
        if flat < Single::ratio(1, 1000) {
            return None;
        }
        let rx: Single = self.side.mag_ref[0];
        let ry: Single = self.side.mag_ref[1];
        Some(
            MagSight {
                y: (m[0].negate() * ry + m[1] * rx).negate(),
                x: m[0] * rx + m[1] * ry,
                tilt: self.tilt_to(&m, t),
            },
        )
    }

    /// By how much to turn towards the expected field, where `angle` is the whole angle.
    pub(crate) fn tilt_angle(&self, angle: Single, t: &EkfTuning) -> (r: Single)
        ensures
            r == angle * t.mag3d_alpha * Single::of_ratio(5, 10) * self.side.last_dt
                * Single::of_int(250),
    {
        angle * t.mag3d_alpha * Single::ratio(5, 10) * self.side.last_dt * Single::from_i32(250)
    }

    /// Turns towards the expected field by the angle `ang`, to which `half` belongs.
    pub(crate) fn apply_tilt(&mut self, tilt: &MagTilt, ang: Single, half: &HalfAngle)
        ensures
            final(self)@ == old(self)@.tilted(*tilt, ang, *half),
    {
        let s: Single = tilt.s;
        if s > Single::ratio(1, 1_000_000_000) && ang.abs() > Single::from_i32(0) {
            let axis: [Single; 3] = [tilt.axis[0] / s, tilt.axis[1] / s, tilt.axis[2] / s];
            let dq: Quaternion = Quaternion::from_axis_angle(axis, half.sin, half.cos);
            self.att = quat_mul(dq, self.att).normalize();
        }
    }

    /// By how much to turn the heading, where `yaw_err` is the whole error.
    pub(crate) fn heading_angle(&self, yaw_err: Single, t: &EkfTuning) -> (r: Single)
        ensures
            r == yaw_err * (unless_negative(self.side.mag_alpha, t.mag_alpha) * Single::of_ratio(
                5,
                10,
            ) * Single::of_int(1)),
    {
        let alpha: Single = pick_unless_negative(self.side.mag_alpha, t.mag_alpha);
        yaw_err * (alpha * Single::ratio(5, 10) * Single::from_i32(1))
    }

    /// Turns the heading by the angle `corr`, to which `half` belongs, and learns the
    /// vertical gyroscope error from it.
    pub(crate) fn apply_heading(&mut self, corr: Single, half: &HalfAngle, t: &EkfTuning)
        ensures
            final(self)@ == old(self)@.headed(corr, *half, *t),
    {
        let z: Single = Single::from_i32(0);
        let one: Single = Single::from_i32(1);
        let dq: Quaternion = Quaternion::from_axis_angle([z, z, one], half.sin, half.cos);
        self.att = quat_mul(dq, self.att).normalize();
        let dt: Single = self.side.last_dt;
        if t.gyro_bias_k > z && dt > Single::ratio(1, 1_000_000) {
            let most: Single = Single::ratio(5, 100);
            let obs: Single = corr.negate() * (one / dt);
            self.x[8] = (self.x[8] + t.gyro_bias_k * (obs - self.x[8]) * dt).clamp(
                most.negate(),
                most,
            );
        }
    }
}

} // verus!
