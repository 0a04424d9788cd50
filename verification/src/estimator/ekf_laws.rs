//! What the filter with fixed anchors does with its readings: which way each moves the
//! estimate.

use super::ekf::{EkfModel, EkfTuning};
use crate::single::Single;
use crate::vehicle::{ImuSample, Quaternion};
use vstd::prelude::*;

verus! {

/// A gyroscope turns a level attitude that heads north about its own axis in the direction
/// in which it shows more than its error, while the other gyroscopes show their errors: the
/// component of the attitude along that axis points as the rate does. Without an error it
/// does so by a share of the rate at least, and by no more than half of the swept angle.
pub proof fn law_gyroscope_turns_attitude(
    m: EkfModel,
    dt: Single,
    imu: ImuSample,
    t: EkfTuning,
    i: int,
    up: bool,
    a: nat,
    b: nat,
)
    requires
        0 <= i < 3,
        m.att == Quaternion::unit(),
        super::ekf::usable(imu),
        m.x.len() == 10,
        crate::single::laws::within(imu.gyro[i].0, 9),
        crate::single::laws::within(m.x[6 + i], 9),
        crate::single::laws::within(dt, 0),
        crate::single::signs::toward(true, dt),
        crate::single::signs::ahead(up, m.x[6 + i], imu.gyro[i].0),
        forall|j: int|
            0 <= j < 3 && j != i ==> (#[trigger] imu.gyro[j]).0.same(m.x[6 + j]),
        a + b <= 100,
    ensures
        ({
            let r = m.begun(dt, imu, t).0.att;
            let rate = imu.gyro[i].0;
            let swept = Single::of_ratio(5, 10) * dt * rate;
            &&& Single::of_int(0).less_eq(r.w)
            &&& crate::single::signs::toward(up, r.part(i))
            &&& m.x[6 + i].same(Single::of_int(0)) ==> {
                &&& crate::single::signs::ahead(up, r.part(i), swept)
                &&& crate::single::laws::within(swept, 0) ==> crate::single::signs::ahead(
                    up,
                    swept / Single::of_int(2),
                    r.part(i),
                )
                &&& crate::single::signs::beyond(up, rate, a) && crate::single::signs::beyond(
                    true,
                    dt,
                    b,
                ) ==> crate::single::signs::beyond(up, r.part(i), a + b + 12)
            }
            &&& forall|j: int|
                0 <= j < 3 && j != i ==> (#[trigger] r.part(j)).same(Single::of_int(0))
        }),
{
    let z = Single::of_int(0);
    let w = [
        imu.gyro[0].0 - m.x[6],
        imu.gyro[1].0 - m.x[7],
        imu.gyro[2].0 - m.x[8],
    ];
    let rate = imu.gyro[i].0;
    crate::single::arith::lemma_small_ints();
    crate::single::laws::lemma_within_is_finite(rate, 9);
    crate::single::laws::lemma_within_is_finite(m.x[6 + i], 9);
    assert(w[i] == rate - m.x[6 + i]);
    crate::single::signs::law_difference_within(rate, m.x[6 + i], 9);
    crate::single::signs::law_difference_points(up, m.x[6 + i], rate);
    assert forall|j: int| 0 <= j < 3 && j != i implies (#[trigger] w[j]).same(z) by {
        let g = imu.gyro[j].0;
        assert(imu.gyro[j].0.same(m.x[6 + j]));
        crate::single::laws::lemma_same_is_finite(m.x[6 + j], g);
        assert(w[j] == g - m.x[6 + j]);
        crate::single::signs::law_difference_points(true, m.x[6 + j], g);
        crate::single::signs::law_difference_points(false, m.x[6 + j], g);
    }
    crate::vehicle::law_rate_turns_attitude(w, dt, i, up, a, b);
    if m.x[6 + i].same(z) {
        crate::single::laws::law_zero_takes_nothing(rate, m.x[6 + i]);
        let h = Single::of_ratio(5, 10) * dt;
        crate::single::laws::law_ratio_is_positive(5, 10);
        crate::single::laws::law_product_within(Single::of_ratio(5, 10), dt, 0, 0);
        crate::vehicle::lemma_same_product(h, w[i], rate);
        crate::single::laws::law_product_within(h, rate, 0, 9);
        crate::single::exact::law_integer_worth(2);
        crate::single::exact::law_integer_worth(0);
        crate::single::exact::law_worth_order(z, Single::of_int(2), 0, 2, 0);
        crate::vehicle::lemma_same_quotient(h * w[i], h * rate, Single::of_int(2));
        if crate::single::signs::beyond(up, rate, a) {
            vstd::arithmetic::power2::lemma_pow2_pos((149 - a) as nat);
            assert(crate::single::signs::beyond(up, w[i], a));
        }
    }
}

/// Level flight: over a time step the velocity gains what the accelerometer shows, with
/// gravity and the accelerometer error accounted for downwards, times the step, and the
/// position moves by the mean of the velocities before and after, times the step; here for
/// all values of few bits, which leave no rounding. The values are integers, times the unit of
/// the time step for velocities, and half of its square for positions.
pub proof fn law_level_flight(
    m: EkfModel,
    imu: ImuSample,
    dt: Single,
    f: [int; 3],
    g: int,
    b: int,
    v: [int; 3],
    p: [int; 3],
    d: int,
    k: nat,
    i: int,
)
    requires
        0 <= i < 3,
        k <= 30,
        0 <= d <= 128,
        m.att == Quaternion::unit(),
        m.x.len() == 10,
        crate::single::exact::worth(dt, d, k),
        crate::single::exact::worth(m.side.g_ref, g, 0) && crate::vehicle::small(g, 64),
        crate::single::exact::worth(m.x[9], b, 0) && crate::vehicle::small(b, 64),
        forall|j: int|
            #![trigger imu.accel[j]]
            0 <= j < 3 ==> {
                &&& crate::single::exact::worth(imu.accel[j].0, f[j], 0)
                &&& crate::single::exact::worth(m.x[3 + j], v[j], k)
                &&& crate::single::exact::worth(m.x[j], p[j], 2 * k + 1)
                &&& crate::vehicle::small(f[j], 64)
                &&& crate::vehicle::small(v[j], 4096)
                &&& crate::vehicle::small(p[j], 0x40_0000)
            },
    ensures
        ({
            let r = m.state_after(imu, dt);
            let a = if i == 2 {
                f[2] + g - b
            } else {
                f[i]
            };
            let w = v[i] + a * d;
            &&& crate::single::exact::worth(r[3 + i], w, k)
            &&& crate::single::exact::worth(r[i], p[i] + (v[i] + w) * d, 2 * k + 1)
            &&& r[6] == m.x[6] && r[7] == m.x[7] && r[8] == m.x[8] && r[9] == m.x[9]
        }),
{
    let half = Single::of_ratio(5, 10);
    let force = super::ekf::force_of(imu)@;
    let r = m.state_after(imu, dt);
    assert(imu.accel[0] == imu.accel[0] && imu.accel[1] == imu.accel[1] && imu.accel[2]
        == imu.accel[2] && imu.accel[i] == imu.accel[i]);
    assert forall|j: int| 0 <= j < 3 implies (#[trigger] force[j]).finite() by {
        assert(imu.accel[j] == imu.accel[j]);
    }
    crate::vehicle::law_level_turns_no_vector(force, i);
    let e = m.att.rotated(force)[i];
    crate::single::exact::law_worth_order(force[i], force[i], f[i], f[i], 0);
    super::nominal::lemma_same_worth(force[i], e, f[i], 0);
    let a = if i == 2 {
        f[2] + g - b
    } else {
        f[i]
    };
    let acc = if i == 2 {
        e + m.side.g_ref - m.x[9]
    } else {
        e
    };
    if i == 2 {
        crate::single::exact::law_worth_sum(e, m.side.g_ref, f[2], g, 0);
        crate::single::exact::law_worth_difference(e + m.side.g_ref, m.x[9], f[2] + g, b, 0);
    }
    let vel = m.x[3 + i];
    crate::single::exact::law_half_worth();
    crate::vehicle::lemma_small_product(a, d, 192, 128);
    crate::vehicle::lemma_small_product(v[i], d, 4096, 128);
    crate::vehicle::lemma_small_product(a * d, d, 24576, 128);
    crate::single::exact::law_worth_product(acc, dt, a, d, 0, k);
    crate::single::exact::law_worth_sum(vel, acc * dt, v[i], a * d, k);
    crate::single::exact::law_worth_product(half, acc, 1, a, 1, 0);
    crate::single::exact::law_worth_product(half * acc, dt, a, d, 1, k);
    crate::single::exact::law_worth_product(half * acc * dt, dt, a * d, d, 1 + k, k);
    crate::single::exact::law_worth_product(vel, dt, v[i], d, k, k);
    crate::single::exact::law_worth_finer(vel * dt, v[i] * d, 2 * k);
    crate::single::exact::law_worth_sum(m.x[i], vel * dt, p[i], 2 * (v[i] * d), 2 * k + 1);
    crate::single::exact::law_worth_sum(
        m.x[i] + vel * dt,
        half * acc * dt * dt,
        p[i] + 2 * (v[i] * d),
        a * d * d,
        2 * k + 1,
    );
    let w = v[i] + a * d;
    let u = a * d;
    assert((v[i] + (v[i] + u)) * d == 2 * (v[i] * d) + u * d) by (nonlinear_arith);
}

/// A power of two as a number.
pub proof fn lemma_gain_of(x: Single, s: Single, a: int, j: nat)
    requires
        crate::single::exact::worth(x, a, 0),
        crate::single::exact::worth(s, vstd::arithmetic::power2::pow2(j) as int, 0),
        crate::vehicle::small(a, 0x10_0000),
        j <= 20,
    ensures
        crate::single::exact::worth(x / s, a, j),
{
    let q = vstd::arithmetic::power2::pow2(j) as int;
    vstd::arithmetic::power2::lemma_pow2_pos(j);
    crate::single::exact::law_worth_finer_to(x, a, 0, j);
    crate::single::exact::law_worth_quotient(x, s, a, q, j, 0);
}

/// A gain between minus one and one is within its limit.
proof fn lemma_gain_unlimited(k: Single, a: int, j: nat)
    requires
        crate::single::exact::worth(k, a, j),
        crate::vehicle::small(a, vstd::arithmetic::power2::pow2(j) as int),
        j <= 20,
    ensures
        crate::single::exact::worth(super::ekf::limited(k), a, j),
{
    let q = vstd::arithmetic::power2::pow2(j) as int;
    vstd::arithmetic::power2::lemma_pow2_pos(j);
    crate::single::exact::law_integer_worth(2);
    crate::single::exact::law_integer_worth(-2);
    crate::single::exact::law_worth_finer_to(Single::of_int(2), 2, 0, j);
    crate::single::exact::law_worth_finer_to(Single::of_int(-2), -2, 0, j);
    crate::single::exact::law_worth_order(k, Single::of_int(-2), a, -2 * q, j);
    crate::single::exact::law_worth_order(Single::of_int(2), k, 2 * q, a, j);
}

/// A measured altitude and the estimate are weighed against each other by the variance of the
/// other: the new height is their weighted mean. Heights count downwards, altitudes upwards;
/// here for variances whose sum is a power of two and values of few bits, which leave no
/// rounding.
pub proof fn law_altitude_is_weighed(
    m: EkfModel,
    alt: Single,
    t: EkfTuning,
    h: int,
    x: int,
    a: int,
    b: int,
    j: nat,
)
    requires
        m.p[2][2].finite(),
        crate::single::exact::worth(m.p[2][2], a, 0),
        crate::single::exact::worth(m.side.r_alt, b, 0),
        0 <= a,
        0 <= b,
        a + b == vstd::arithmetic::power2::pow2(j),
        j <= 10,
        crate::single::exact::worth(alt, h, 0) && crate::vehicle::small(h, 4096),
        crate::single::exact::worth(m.x[2], x, 0) && crate::vehicle::small(x, 4096),
    ensures
        crate::single::exact::worth(m.with_altitude(alt, t).x[2], b * x + a * (-h), j),
{
    let q = vstd::arithmetic::power2::pow2(j) as int;
    let s = m.p[2][2] + m.side.r_alt;
    let thr = Single::of_ratio(1, 1_000_000_000);
    let one = Single::of_int(1);
    reveal(EkfModel::with_altitude);
    vstd::arithmetic::power2::lemma_pow2_pos(j);
    vstd::arithmetic::power2::lemma2_to64();
    if j < 10 {
        vstd::arithmetic::power2::lemma_pow2_strictly_increases(j, 10);
    }
    crate::single::exact::law_worth_sum(m.p[2][2], m.side.r_alt, a, b, 0);
    lemma_not_tiny(s, q);
    crate::single::exact::law_worth_negated(alt, h, 0);
    let y = alt.negated() - m.x[2];
    crate::single::exact::law_worth_difference(alt.negated(), m.x[2], -h, x, 0);
    assert(m.altitude_usable(alt));
    lemma_gain_of(m.p[2][2], s, a, j);
    lemma_gain_unlimited(m.p[2][2] / s, a, j);
    let k = super::ekf::limited(m.p[2][2] / s);
    crate::vehicle::lemma_small_product(a, -h - x, 1024, 8192);
    crate::vehicle::lemma_small_product(x, q, 4096, 1024);
    crate::single::exact::law_worth_product(k, y, a, -h - x, j, 0);
    crate::single::exact::law_worth_finer_to(m.x[2], x, 0, j);
    crate::single::exact::law_worth_sum(m.x[2], k * y, x * q, a * (-h - x), j);
    assert(x * q + a * (-h - x) == b * x + a * (-h)) by (nonlinear_arith)
        requires
            q == a + b,
    ;
    assert(m.with_altitude(alt, t).x[2] == m.x[2] + m.altitude_gain(t)[2][0] * y);
}

/// A number of one or more is not tiny.
proof fn lemma_not_tiny(s: Single, q: int)
    requires
        crate::single::exact::worth(s, q, 0),
        q >= 1,
    ensures
        !s.magnitude_of().less(Single::of_ratio(1, 1_000_000_000)),
        Single::of_ratio(1, 1_000_000_000).less(s.magnitude_of()),
        s.magnitude_of() == s,
{
    let p = vstd::arithmetic::power2::pow2(149);
    let thr = Single::of_ratio(1, 1_000_000_000);
    vstd::arithmetic::power2::lemma_pow2_pos(149);
    assert(q * p >= p && q * p > 0) by (nonlinear_arith)
        requires
            q >= 1,
            p > 0,
    ;
    assert(!s.negative());
    crate::single::laws::lemma_packed(false, s.field());
    crate::single::laws::law_ratio_is_positive(1, 1_000_000_000);
    lemma_billionth();
}

/// A billionth is below a half.
proof fn lemma_billionth()
    ensures
        Single::of_ratio(1, 1_000_000_000).magnitude() < vstd::arithmetic::power2::pow2(149),
        !Single::of_ratio(1, 1_000_000_000).negative(),
{
    let p = vstd::arithmetic::power2::pow2(148);
    vstd::arithmetic::power2::lemma_pow2_unfold(149);
    vstd::arithmetic::power2::lemma_pow2_pos(148);
    let f = crate::single::exact::lemma_field_of(1, 148);
    assert(1 * p == p);
    crate::single::rounding::lemma_nearest_exact(f);
    crate::single::rounding::lemma_nearest_keeps_order(
        1 * vstd::arithmetic::power2::pow2(149),
        1_000_000_000,
        p,
        1,
    );
    reveal(Single::of_ratio);
    let n = crate::single::rounding::nearest(
        1 * vstd::arithmetic::power2::pow2(149),
        1_000_000_000,
    );
    crate::single::laws::lemma_packed(false, n);
    crate::single::laws::lemma_field_order(n, f);
}

/// A number on a finer scale than needed.
pub proof fn lemma_worth_coarser(x: Single, n: int, i: nat, j: nat)
    requires
        crate::single::exact::worth(
            x,
            n * vstd::arithmetic::power2::pow2((j - i) as nat),
            j,
        ),
        i <= j,
    ensures
        crate::single::exact::worth(x, n, i),
{
    let p = vstd::arithmetic::power2::pow2((j - i) as nat) as int;
    let q = vstd::arithmetic::power2::pow2((149 - j) as nat) as int;
    vstd::arithmetic::power2::lemma_pow2_adds((j - i) as nat, (149 - j) as nat);
    assert(n * p * q == n * (p * q)) by (nonlinear_arith);
}

/// The squared spread of a measured height falls to the product of the variances of estimate
/// and measurement over their sum; here for variances whose sum is a power of two, which leave
/// no rounding.
pub proof fn law_altitude_makes_sure(
    m: EkfModel,
    alt: Single,
    t: EkfTuning,
    h: int,
    x: int,
    a: int,
    b: int,
    j: nat,
)
    requires
        crate::single::exact::worth(m.p[2][2], a, 0),
        crate::single::exact::worth(m.side.r_alt, b, 0),
        0 < a,
        0 < b,
        a + b == vstd::arithmetic::power2::pow2(j),
        j <= 8,
        crate::single::exact::worth(alt, h, 0) && crate::vehicle::small(h, 4096),
        crate::single::exact::worth(m.x[2], x, 0) && crate::vehicle::small(x, 4096),
    ensures
        crate::single::exact::worth(m.with_altitude(alt, t).p[2][2], a * b, j),
{
    let q = vstd::arithmetic::power2::pow2(j) as int;
    let s = m.p[2][2] + m.side.r_alt;
    let v = m.p[2][2];
    let r = m.side.r_alt;
    reveal(EkfModel::with_altitude);
    vstd::arithmetic::power2::lemma_pow2_pos(j);
    vstd::arithmetic::power2::lemma2_to64();
    if j < 8 {
        vstd::arithmetic::power2::lemma_pow2_strictly_increases(j, 8);
    }
    crate::single::exact::law_worth_sum(v, r, a, b, 0);
    lemma_not_tiny(s, q);
    crate::single::exact::law_worth_negated(alt, h, 0);
    crate::single::exact::law_worth_difference(alt.negated(), m.x[2], -h, x, 0);
    assert(m.altitude_usable(alt));
    lemma_gain_of(v, s, a, j);
    lemma_gain_unlimited(v / s, a, j);
    let g = m.altitude_gain(t);
    let k = super::ekf::limited(v / s);
    assert(g[2][0] == k);
    // Once taken off: what is left is the product over the sum.
    crate::vehicle::lemma_small_product(a, a, 256, 256);
    crate::vehicle::lemma_small_product(a, b, 256, 256);
    crate::vehicle::lemma_small_product(a, q, 256, 256);
    crate::single::exact::law_worth_product(k, v, a, a, j, 0);
    crate::single::exact::law_worth_finer_to(v, a, 0, j);
    crate::single::exact::law_worth_difference(v, k * v, a * q, a * a, j);
    assert(a * q - a * a == a * b) by (nonlinear_arith)
        requires
            q == a + b,
    ;
    let once = v - k * v;
    // Taken off again, with the noise of the measurement.
    let n = a * b;
    assert(n <= 0x4000) by (nonlinear_arith)
        requires
            n == a * b,
            a + b <= 256,
            0 < a,
            0 < b,
    ;
    assert(n >= 1) by (nonlinear_arith)
        requires
            n == a * b,
            0 < a,
            0 < b,
    ;
    assert(n <= 256 * q) by (nonlinear_arith)
        requires
            n == a * b,
            0 < a <= q,
            0 < b <= 256,
    ;
    crate::vehicle::lemma_small_product(a, n, 256, 0x4000);
    crate::vehicle::lemma_small_product(n, q, 0x4000, 256);
    crate::vehicle::lemma_small_product(n, b, 0x4000, 256);
    crate::vehicle::lemma_small_product(n, a, 0x4000, 256);
    crate::single::exact::law_worth_product(k, once, a, n, j, j);
    crate::single::exact::law_worth_finer_to(once, n, j, 2 * j);
    crate::single::exact::law_worth_difference(once, k * once, n * q, a * n, 2 * j);
    assert(n * q - a * n == n * b) by (nonlinear_arith)
        requires
            q == a + b,
    ;
    let twice = once - k * once;
    crate::single::exact::law_worth_product(r, k, b, a, 0, j);
    assert(b * a == n) by (nonlinear_arith)
        requires
            n == a * b,
    ;
    crate::single::exact::law_worth_product(r * k, k, n, a, j, j);
    crate::single::exact::law_worth_sum(twice, r * k * k, n * b, n * a, 2 * j);
    assert(n * b + n * a == n * q) by (nonlinear_arith)
        requires
            q == a + b,
    ;
    let sum = twice + r * k * k;
    lemma_worth_coarser(sum, n, j, 2 * j);
    let full = super::ekf::joseph(m.p, g, 2, 1, r);
    reveal_with_fuel(super::ekf::taken_off, 2);
    reveal_with_fuel(super::ekf::noise_added, 2);
    let a1 = super::ekf::once_reduced(m.p, g, 2, 1);
    assert(super::ekf::below(m.p, 2, 2, 1)[0] == v);
    assert(a1[2][2] == once);
    assert(super::ekf::beside(a1[2], 2, 1)[0] == once);
    assert(full[2][2] == sum);
    // It is within the bounds of a variance.
    lemma_ordinary_variance(sum, n, j);
}

/// A variance between 2^-8 and 2^8 is within bounds.
proof fn lemma_ordinary_variance(v: Single, n: int, j: nat)
    requires
        crate::single::exact::worth(v, n, j),
        1 <= n,
        n <= 256 * vstd::arithmetic::power2::pow2(j),
        j <= 8,
    ensures
        super::ekf::bounded_variance(v, true, true) == v,
{
    let q = vstd::arithmetic::power2::pow2(j) as int;
    let p = vstd::arithmetic::power2::pow2((149 - j) as nat) as int;
    vstd::arithmetic::power2::lemma2_to64();
    vstd::arithmetic::power2::lemma_pow2_pos(j);
    vstd::arithmetic::power2::lemma_pow2_pos((149 - j) as nat);
    crate::single::exact::law_integer_worth(1000);
    crate::single::exact::law_worth_finer_to(Single::of_int(1000), 1000, 0, j);
    crate::single::exact::law_worth_order(Single::of_int(1000), v, 1000 * q, n, j);
    lemma_millionth();
    if j < 8 {
        vstd::arithmetic::power2::lemma_pow2_strictly_increases(141, (149 - j) as nat);
    }
    assert(n * p >= p) by (nonlinear_arith)
        requires
            n >= 1,
            p > 0,
    ;
}

/// A millionth is below 2^-8.
proof fn lemma_millionth()
    ensures
        super::ekf::least().magnitude() <= vstd::arithmetic::power2::pow2(141),
        !super::ekf::least().negative(),
        !super::ekf::least().nan(),
{
    let p = vstd::arithmetic::power2::pow2(141);
    vstd::arithmetic::power2::lemma2_to64();
    vstd::arithmetic::power2::lemma_pow2_adds(8, 141);
    vstd::arithmetic::power2::lemma_pow2_pos(141);
    let f = crate::single::exact::lemma_field_of(1, 141);
    assert(1 * p == p);
    crate::single::rounding::lemma_nearest_exact(f);
    crate::single::rounding::lemma_nearest_keeps_order(
        1 * vstd::arithmetic::power2::pow2(149),
        1_000_000,
        p,
        1,
    );
    reveal(Single::of_ratio);
    let n = crate::single::rounding::nearest(1 * vstd::arithmetic::power2::pow2(149), 1_000_000);
    crate::single::laws::law_ratio_is_positive(1, 1_000_000);
    crate::single::laws::lemma_packed(false, n);
    crate::single::laws::lemma_field_order(n, f);
}

/// Whether three elements of the state from `at` on are known apart from all others, each
/// with the variance `a`.
pub open spec fn apart(p: Seq<Seq<Single>>, at: int, a: int) -> bool {
    forall|i: int, c: int|
        0 <= i < 10 && 0 <= c < 3 ==> crate::single::exact::worth(
            #[trigger] p[i][at + c],
            if i == at + c {
                a
            } else {
                0
            },
            0,
        )
}

/// The inverse of a multiple of the unit matrix.
pub proof fn lemma_inverse_apart(s: Seq<Seq<Single>>, j: nat)
    requires
        j <= 8,
        forall|i: int, c: int|
            0 <= i < 3 && 0 <= c < 3 ==> crate::single::exact::worth(
                #[trigger] s[i][c],
                if i == c {
                    vstd::arithmetic::power2::pow2(j) as int
                } else {
                    0
                },
                0,
            ),
    ensures
        ({
            let det = super::linear::determinant3(s);
            let adj = super::linear::adjoint3(s, Single::of_int(1) / det);
            &&& Single::of_ratio(1, 1_000_000_000).less(det.magnitude_of())
            &&& det.magnitude_of() == det
            &&& crate::single::exact::worth(
                det,
                vstd::arithmetic::power2::pow2(3 * j) as int,
                0,
            )
            &&& forall|i: int, c: int|
                0 <= i < 3 && 0 <= c < 3 ==> crate::single::exact::worth(
                    #[trigger] adj[i][c],
                    if i == c {
                        1
                    } else {
                        0
                    },
                    j,
                )
        }),
{
    let one = Single::of_int(1);
    let q = vstd::arithmetic::power2::pow2(j) as int;
    let qq = vstd::arithmetic::power2::pow2(2 * j) as int;
    let qqq = vstd::arithmetic::power2::pow2(3 * j) as int;
    vstd::arithmetic::power2::lemma2_to64();
    vstd::arithmetic::power2::lemma_pow2_pos(j);
    vstd::arithmetic::power2::lemma_pow2_pos(2 * j);
    vstd::arithmetic::power2::lemma_pow2_pos(3 * j);
    vstd::arithmetic::power2::lemma_pow2_adds(j, j);
    vstd::arithmetic::power2::lemma_pow2_adds(2 * j, j);
    if j < 8 {
        vstd::arithmetic::power2::lemma_pow2_strictly_increases(j, 8);
        vstd::arithmetic::power2::lemma_pow2_strictly_increases(2 * j, 16);
        vstd::arithmetic::power2::lemma_pow2_strictly_increases(3 * j, 24);
    }
    crate::single::exact::law_integer_worth(1);
    assert(crate::single::exact::worth(s[0][0], q, 0) && crate::single::exact::worth(s[0][1], 0, 0)
        && crate::single::exact::worth(s[0][2], 0, 0));
    assert(crate::single::exact::worth(s[1][0], 0, 0) && crate::single::exact::worth(s[1][1], q, 0)
        && crate::single::exact::worth(s[1][2], 0, 0));
    assert(crate::single::exact::worth(s[2][0], 0, 0) && crate::single::exact::worth(s[2][1], 0, 0)
        && crate::single::exact::worth(s[2][2], q, 0));
    let det = super::linear::determinant3(s);
    lemma_minor(s[1][1], s[2][2], s[1][2], s[2][1], q, q, 0, 0);
    lemma_minor(s[1][0], s[2][2], s[1][2], s[2][0], 0, q, 0, 0);
    lemma_minor(s[1][0], s[2][1], s[1][1], s[2][0], 0, 0, q, 0);
    let m0 = s[1][1] * s[2][2] - s[1][2] * s[2][1];
    let m1 = s[1][0] * s[2][2] - s[1][2] * s[2][0];
    let m2 = s[1][0] * s[2][1] - s[1][1] * s[2][0];
    assert(q * q == qq && qq * q == qqq && q * qq == qqq) by (nonlinear_arith)
        requires
            qq == q * q,
            qqq == qq * q,
    ;
    assert(q * 0 == 0 && 0 * q == 0 && 0 * qq == 0);
    crate::single::exact::law_worth_product(s[0][0], m0, q, qq, 0, 0);
    crate::single::exact::law_worth_product(s[0][1], m1, 0, 0, 0, 0);
    crate::single::exact::law_worth_product(s[0][2], m2, 0, 0, 0, 0);
    crate::single::exact::law_worth_difference(s[0][0] * m0, s[0][1] * m1, qqq, 0, 0);
    crate::single::exact::law_worth_sum(
        s[0][0] * m0 - s[0][1] * m1,
        s[0][2] * m2,
        qqq,
        0,
        0,
    );
    assert(crate::single::exact::worth(det, qqq, 0));
    lemma_not_tiny(det, qqq);
    let inv = one / det;
    crate::single::exact::law_worth_finer_to(one, 1, 0, 3 * j);
    assert(1 * qqq == qqq);
    crate::single::exact::law_worth_quotient(one, det, 1, qqq, 3 * j, 0);
    let adj = super::linear::adjoint3(s, inv);
    lemma_cofactor(s[1][1], s[2][2], s[1][2], s[2][1], inv, q, q, 0, 0, qq, j);
    lemma_cofactor(s[0][2], s[2][1], s[0][1], s[2][2], inv, 0, 0, 0, q, 0, j);
    lemma_cofactor(s[0][1], s[1][2], s[0][2], s[1][1], inv, 0, 0, 0, q, 0, j);
    lemma_cofactor(s[1][2], s[2][0], s[1][0], s[2][2], inv, 0, 0, 0, q, 0, j);
    lemma_cofactor(s[0][0], s[2][2], s[0][2], s[2][0], inv, q, q, 0, 0, qq, j);
    lemma_cofactor(s[0][2], s[1][0], s[0][0], s[1][2], inv, 0, 0, q, 0, 0, j);
    lemma_cofactor(s[1][0], s[2][1], s[1][1], s[2][0], inv, 0, 0, q, 0, 0, j);
    lemma_cofactor(s[0][1], s[2][0], s[0][0], s[2][1], inv, 0, 0, q, 0, 0, j);
    lemma_cofactor(s[0][0], s[1][1], s[0][1], s[1][0], inv, q, q, 0, 0, qq, j);
    assert forall|i: int, c: int| 0 <= i < 3 && 0 <= c < 3 implies crate::single::exact::worth(
        #[trigger] adj[i][c],
        if i == c {
            1
        } else {
            0
        },
        j,
    ) by {}
}

/// The gain of three measurements of what is known apart.
proof fn lemma_gain_apart(p: Seq<Seq<Single>>, at: int, r: Single, a: int, b: int, j: nat)
    requires
        at == 0 || at == 3,
        apart(p, at, a),
        crate::single::exact::worth(r, b, 0),
        0 <= a,
        0 <= b,
        a + b == vstd::arithmetic::power2::pow2(j),
        j <= 8,
    ensures
        forall|i: int, c: int|
            0 <= i < 10 && 0 <= c < 3 ==> crate::single::exact::worth(
                #[trigger] super::ekf::raw_gain(p, at, r)[i][c],
                if i == at + c {
                    a
                } else {
                    0
                },
                j,
            ),
{
    let z = Single::of_int(0);
    let one = Single::of_int(1);
    let q = vstd::arithmetic::power2::pow2(j) as int;
    vstd::arithmetic::power2::lemma2_to64();
    vstd::arithmetic::power2::lemma_pow2_pos(j);
    if j < 8 {
        vstd::arithmetic::power2::lemma_pow2_strictly_increases(j, 8);
    }
    crate::single::exact::law_integer_worth(0);
    crate::single::exact::law_integer_worth(1);
    let block = Seq::new(3, |i: int| Seq::new(3, |c: int| p[at + i][at + c]));
    let s = super::linear::plus(block, super::nominal::diagonal3(r));
    let d = super::nominal::diagonal3(r);
    assert forall|i: int, c: int| 0 <= i < 3 && 0 <= c < 3 implies crate::single::exact::worth(
        #[trigger] s[i][c],
        if i == c {
            q
        } else {
            0
        },
        0,
    ) by {
        assert(block[i][c] == p[at + i][at + c]);
        let m = if i == c {
            a
        } else {
            0
        };
        let n = if i == c {
            b
        } else {
            0
        };
        assert(crate::single::exact::worth(d[i][c], n, 0));
        crate::single::exact::law_worth_sum(block[i][c], d[i][c], m, n, 0);
    }
    lemma_inverse_apart(s, j);
    let det = super::linear::determinant3(s);
    let inv = one / det;
    let adj = super::linear::adjoint3(s, inv);
    let cols = Seq::new(10, |i: int| Seq::new(3, |c: int| p[i][at + c]));
    let raw = super::ekf::raw_gain(p, at, r);
    assert(raw == super::linear::times(cols, adj, 3));
    assert forall|i: int, c: int| 0 <= i < 10 && 0 <= c < 3 implies crate::single::exact::worth(
        #[trigger] raw[i][c],
        if i == at + c {
            a
        } else {
            0
        },
        j,
    ) by {
        let u = cols[i];
        let w = super::linear::column(adj, c);
        assert(raw[i][c] == super::linear::dot(u, w));
        assert(u[0] == p[i][at + 0] && u[1] == p[i][at + 1] && u[2] == p[i][at + 2]);
        assert(w[0] == adj[0][c] && w[1] == adj[1][c] && w[2] == adj[2][c]);
        let e = |n: int|
            if i == at + n {
                a
            } else {
                0
            };
        let f = |n: int|
            if n == c {
                1int
            } else {
                0
            };
        let (e0, e1, e2) = (e(0), e(1), e(2));
        let (f0, f1, f2) = (f(0), f(1), f(2));
        lemma_unit_product(e0, f0);
        lemma_unit_product(e1, f1);
        lemma_unit_product(e2, f2);
        lemma_dot3(u, w, [e0, e1, e2], [f0, f1, f2], 0, j);
    }
}

/// A product with one or zero.
pub proof fn lemma_unit_product(e: int, f: int)
    requires
        f == 0 || f == 1,
    ensures
        e * f == (if f == 1 {
            e
        } else {
            0
        }),
{
    assert(e * 0 == 0 && e * 1 == e);
}

/// A minor of whole numbers.
proof fn lemma_minor(
    x: Single,
    y: Single,
    u: Single,
    v: Single,
    k: int,
    l: int,
    m: int,
    n: int,
)
    requires
        crate::single::exact::worth(x, k, 0) && crate::vehicle::small(k, 256),
        crate::single::exact::worth(y, l, 0) && crate::vehicle::small(l, 256),
        crate::single::exact::worth(u, m, 0) && crate::vehicle::small(m, 256),
        crate::single::exact::worth(v, n, 0) && crate::vehicle::small(n, 256),
    ensures
        crate::single::exact::worth(x * y - u * v, k * l - m * n, 0),
{
    crate::vehicle::lemma_small_product(k, l, 256, 256);
    crate::vehicle::lemma_small_product(m, n, 256, 256);
    crate::single::exact::law_worth_product(x, y, k, l, 0, 0);
    crate::single::exact::law_worth_product(u, v, m, n, 0, 0);
    crate::single::exact::law_worth_difference(x * y, u * v, k * l, m * n, 0);
}

/// A minor over the determinant.
proof fn lemma_cofactor(
    x: Single,
    y: Single,
    u: Single,
    v: Single,
    inv: Single,
    k: int,
    l: int,
    m: int,
    n: int,
    total: int,
    j: nat,
)
    requires
        crate::single::exact::worth(x, k, 0) && crate::vehicle::small(k, 256),
        crate::single::exact::worth(y, l, 0) && crate::vehicle::small(l, 256),
        crate::single::exact::worth(u, m, 0) && crate::vehicle::small(m, 256),
        crate::single::exact::worth(v, n, 0) && crate::vehicle::small(n, 256),
        crate::single::exact::worth(inv, 1, 3 * j),
        j <= 8,
        total == k * l - m * n,
        total == 0 || total == vstd::arithmetic::power2::pow2(2 * j),
        crate::vehicle::small(total, 0x1_0000),
    ensures
        crate::single::exact::worth(
            (x * y - u * v) * inv,
            if total == 0 {
                0
            } else {
                1
            },
            j,
        ),
{
    lemma_minor(x, y, u, v, k, l, m, n);
    let d = x * y - u * v;
    crate::single::exact::law_worth_product(d, inv, total, 1, 0, 3 * j);
    let unit = if total == 0 {
        0int
    } else {
        1
    };
    let p = vstd::arithmetic::power2::pow2(2 * j) as int;
    assert(total * 1 == unit * p);
    lemma_worth_coarser(d * inv, unit, j, 3 * j);
}

/// The scalar product of three exact numbers each, of which at most one pair is not zero.
pub proof fn lemma_dot3(
    u: Seq<Single>,
    w: Seq<Single>,
    e: [int; 3],
    f: [int; 3],
    i: nat,
    j: nat,
)
    requires
        u.len() == 3,
        i + j <= 60,
        crate::single::exact::worth(u[0], e[0], i) && crate::single::exact::worth(w[0], f[0], j),
        crate::single::exact::worth(u[1], e[1], i) && crate::single::exact::worth(w[1], f[1], j),
        crate::single::exact::worth(u[2], e[2], i) && crate::single::exact::worth(w[2], f[2], j),
        crate::vehicle::small(e[0] * f[0], 0x40_0000),
        crate::vehicle::small(e[1] * f[1], 0x40_0000),
        crate::vehicle::small(e[2] * f[2], 0x40_0000),
    ensures
        crate::single::exact::worth(
            super::linear::dot(u, w),
            e[0] * f[0] + e[1] * f[1] + e[2] * f[2],
            i + j,
        ),
{
    let z = Single::of_int(0);
    reveal_with_fuel(super::linear::dot_from, 4);
    crate::single::exact::law_integer_worth(0);
    crate::single::exact::law_worth_finer_to(z, 0, 0, i + j);
    let (a, b, c) = (e[0] * f[0], e[1] * f[1], e[2] * f[2]);
    crate::single::exact::law_worth_product(u[0], w[0], e[0], f[0], i, j);
    crate::single::exact::law_worth_product(u[1], w[1], e[1], f[1], i, j);
    crate::single::exact::law_worth_product(u[2], w[2], e[2], f[2], i, j);
    crate::single::exact::law_worth_sum(z, u[0] * w[0], 0, a, i + j);
    crate::single::exact::law_worth_sum(z + u[0] * w[0], u[1] * w[1], a, b, i + j);
    crate::single::exact::law_worth_sum(
        z + u[0] * w[0] + u[1] * w[1],
        u[2] * w[2],
        a + b,
        c,
        i + j,
    );
}

/// A value moved by a share of what a measurement shows beyond it is their weighted mean.
pub proof fn lemma_weighed(x: Single, c: Single, n: int, y: int, a: int, b: int, j: nat)
    requires
        crate::single::exact::worth(x, n, 0),
        crate::single::exact::worth(c, a * (y - n), j),
        a + b == vstd::arithmetic::power2::pow2(j),
        0 <= a,
        0 <= b,
        j <= 8,
        crate::vehicle::small(n, 4096),
        crate::vehicle::small(y, 4096),
    ensures
        crate::single::exact::worth(x + c, b * n + a * y, j),
{
    let q = vstd::arithmetic::power2::pow2(j) as int;
    vstd::arithmetic::power2::lemma2_to64();
    if j < 8 {
        vstd::arithmetic::power2::lemma_pow2_strictly_increases(j, 8);
    }
    crate::vehicle::lemma_small_product(n, q, 4096, 256);
    crate::vehicle::lemma_small_product(a, y - n, 256, 8192);
    crate::single::exact::law_worth_finer_to(x, n, 0, j);
    crate::single::exact::law_worth_sum(x, c, n * q, a * (y - n), j);
    assert(n * q + a * (y - n) == b * n + a * y) by (nonlinear_arith)
        requires
            q == a + b,
    ;
}

/// A measured position and the estimate, known apart from the rest of the state, are weighed
/// against each other by the variance of the other: along every axis the new position is their
/// weighted mean; here for variances whose sum is a power of two and values of few bits, which
/// leave no rounding.
pub proof fn law_position_is_weighed(
    m: EkfModel,
    pos: [Single; 3],
    r: Single,
    x: [int; 3],
    y: [int; 3],
    a: int,
    b: int,
    j: nat,
    i: int,
)
    requires
        0 <= i < 3,
        m.x.len() == 10,
        apart(m.p, 0, a),
        crate::single::exact::worth(r, b, 0),
        0 <= a,
        0 <= b,
        a + b == vstd::arithmetic::power2::pow2(j),
        j <= 8,
        forall|c: int|
            #![trigger pos[c]]
            0 <= c < 3 ==> {
                &&& crate::single::exact::worth(m.x[c], x[c], 0)
                &&& crate::single::exact::worth(pos[c], y[c], 0)
                &&& crate::vehicle::small(x[c], 4096)
                &&& crate::vehicle::small(y[c], 4096)
            },
    ensures
        crate::single::exact::worth(m.with_position(pos, r).x[i], b * x[i] + a * y[i], j),
{
    reveal(EkfModel::with_position);
    lemma_gain_apart(m.p, 0, r, a, b, j);
    let k = super::ekf::position_gain(m.p, r);
    let d = seq![pos[0] - m.x[0], pos[1] - m.x[1], pos[2] - m.x[2]];
    lemma_fix_weighed(
        m,
        super::ekf::raw_gain(m.p, 0, r),
        k,
        d,
        pos,
        0,
        x,
        y,
        a,
        b,
        j,
        i,
    );
}

/// A row of the gain times what a measurement shows.
proof fn lemma_fix_weighed(
    m: EkfModel,
    raw: Seq<Seq<Single>>,
    k: Seq<Seq<Single>>,
    d: Seq<Single>,
    z: [Single; 3],
    at: int,
    x: [int; 3],
    y: [int; 3],
    a: int,
    b: int,
    j: nat,
    i: int,
)
    requires
        0 <= i < 3,
        at == 0 || at == 3,
        m.x.len() == 10,
        0 <= a,
        0 <= b,
        a + b == vstd::arithmetic::power2::pow2(j),
        j <= 8,
        forall|n: int, c: int|
            0 <= n < 10 && 0 <= c < 3 ==> crate::single::exact::worth(
                #[trigger] raw[n][c],
                if n == at + c {
                    a
                } else {
                    0
                },
                j,
            ),
        k[at + i].len() == 3,
        forall|c: int|
            0 <= c < 3 ==> #[trigger] k[at + i][c] == super::ekf::limited(raw[at + i][c]),
        d == seq![z[0] - m.x[at + 0], z[1] - m.x[at + 1], z[2] - m.x[at + 2]],
        forall|c: int|
            #![trigger z[c]]
            0 <= c < 3 ==> {
                &&& crate::single::exact::worth(m.x[at + c], x[c], 0)
                &&& crate::single::exact::worth(z[c], y[c], 0)
                &&& crate::vehicle::small(x[c], 4096)
                &&& crate::vehicle::small(y[c], 4096)
            },
    ensures
        crate::single::exact::worth(
            m.x[at + i] + super::linear::dot(k[at + i], d),
            b * x[i] + a * y[i],
            j,
        ),
{
    let row = k[at + i];
    vstd::arithmetic::power2::lemma2_to64();
    if j < 8 {
        vstd::arithmetic::power2::lemma_pow2_strictly_increases(j, 8);
    }
    let e = |c: int|
        if i == c {
            a
        } else {
            0
        };
    assert forall|c: int| 0 <= c < 3 implies crate::single::exact::worth(
        #[trigger] row[c],
        e(c),
        j,
    ) by {
        assert(crate::single::exact::worth(raw[at + i][c], e(c), j));
        lemma_gain_unlimited(raw[at + i][c], e(c), j);
    }
    assert forall|c: int| 0 <= c < 3 implies crate::single::exact::worth(
        #[trigger] d[c],
        y[c] - x[c],
        0,
    ) by {
        assert(z[c] == z[c]);
        crate::single::exact::law_worth_difference(z[c], m.x[at + c], y[c], x[c], 0);
    }
    assert(z[0] == z[0] && z[1] == z[1] && z[2] == z[2] && z[i] == z[i]);
    crate::vehicle::lemma_small_product(a, y[i] - x[i], 256, 8192);
    let (f0, f1, f2) = (y[0] - x[0], y[1] - x[1], y[2] - x[2]);
    assert(0 * f0 == 0 && 0 * f1 == 0 && 0 * f2 == 0);
    lemma_dot3(row, d, [e(0), e(1), e(2)], [f0, f1, f2], j, 0);
    lemma_weighed(m.x[at + i], super::linear::dot(row, d), x[i], y[i], a, b, j);
}

/// The same of a measured velocity.
pub proof fn law_velocity_is_weighed(
    m: EkfModel,
    vel: [Single; 3],
    r: Single,
    t: EkfTuning,
    x: [int; 3],
    y: [int; 3],
    a: int,
    b: int,
    j: nat,
    i: int,
)
    requires
        0 <= i < 3,
        m.x.len() == 10,
        apart(m.p, 3, a),
        crate::single::exact::worth(r, b, 0),
        0 <= a,
        0 <= b,
        a + b == vstd::arithmetic::power2::pow2(j),
        j <= 8,
        forall|c: int|
            #![trigger vel[c]]
            0 <= c < 3 ==> {
                &&& crate::single::exact::worth(m.x[3 + c], x[c], 0)
                &&& crate::single::exact::worth(vel[c], y[c], 0)
                &&& crate::vehicle::small(x[c], 4096)
                &&& crate::vehicle::small(y[c], 4096)
            },
    ensures
        crate::single::exact::worth(
            m.with_velocity(vel, r, t).x[3 + i],
            b * x[i] + a * y[i],
            j,
        ),
{
    reveal(EkfModel::with_velocity);
    lemma_gain_apart(m.p, 3, r, a, b, j);
    let k = super::ekf::velocity_gain(m.p, r);
    let d = seq![vel[0] - m.x[3], vel[1] - m.x[4], vel[2] - m.x[5]];
    lemma_fix_weighed(
        m,
        super::ekf::raw_gain(m.p, 3, r),
        k,
        d,
        vel,
        3,
        x,
        y,
        a,
        b,
        j,
        i,
    );
}

/// A measured airspeed and the estimated speed over the ground are weighed against each other
/// by the variance of the other, and the velocity keeps its direction; here for a vehicle that
/// moves along a ground axis, either way, for variances whose sum is a power of two and values
/// of few bits, which leave no rounding.
pub proof fn law_airspeed_is_weighed(
    m: EkfModel,
    z: Single,
    i: int,
    forward: bool,
    v: int,
    y: int,
    a: int,
    b: int,
    c: int,
    j: nat,
)
    requires
        i == 0 || i == 1,
        m.x.len() == 10,
        1 <= v <= 1024,
        crate::single::exact::worth(
            m.x[3 + i],
            if forward {
                v
            } else {
                -v
            },
            0,
        ),
        crate::single::exact::worth(m.x[4 - i], 0, 0),
        crate::single::exact::worth(m.p[3 + i][3 + i], a, 0),
        crate::single::exact::worth(m.p[3 + i][4 - i], c, 0),
        crate::single::exact::worth(m.p[4 - i][3 + i], c, 0),
        crate::single::exact::worth(m.p[4 - i][4 - i], a, 0),
        crate::vehicle::small(c, 256),
        crate::single::exact::worth(m.side.r_airspeed, b, 0),
        0 <= a,
        0 <= b,
        a + b == vstd::arithmetic::power2::pow2(j),
        j <= 8,
        crate::single::exact::worth(z, y, 0) && crate::vehicle::small(y, 1024),
    ensures
        crate::single::exact::worth(
            m.with_airspeed(z).x[3 + i],
            if forward {
                b * v + a * y
            } else {
                -(b * v + a * y)
            },
            j,
        ),
{
    let q = vstd::arithmetic::power2::pow2(j) as int;
    let e = if forward {
        1int
    } else {
        -1
    };
    let n = if forward {
        v
    } else {
        -v
    };
    assert(e * v == n) by (nonlinear_arith)
        requires
            (e == 1 && n == v) || (e == -1 && n == -v),
    ;
    reveal(EkfModel::with_airspeed);
    vstd::arithmetic::power2::lemma2_to64();
    vstd::arithmetic::power2::lemma_pow2_pos(j);
    if j < 8 {
        vstd::arithmetic::power2::lemma_pow2_strictly_increases(j, 8);
    }
    crate::single::exact::law_integer_worth(0);
    let (vx, vy) = (m.x[3], m.x[4]);
    let along = m.x[3 + i];
    let across = m.x[4 - i];
    assert(n * n == v * v) by (nonlinear_arith)
        requires
            n == v || n == -v,
    ;
    assert(v * v >= 1) by (nonlinear_arith)
        requires
            v >= 1,
    ;
    crate::rotation_laws::lemma_whole_product(along, along, n, n, 1024, 1024);
    crate::single::exact::law_worth_product(across, across, 0, 0, 0, 0);
    let vh2 = vx * vx + vy * vy;
    crate::single::exact::law_worth_sum(along * along, across * across, v * v, 0, 0);
    crate::single::exact::law_worth_sum(across * across, along * along, 0, v * v, 0);
    assert(crate::single::exact::worth(vh2, v * v, 0));
    let vh = vh2.root();
    crate::single::exact::law_worth_root(vh2, v, 0);
    lemma_not_standing(vh2, v * v);
    // The direction.
    let (hx, hy) = (vx / vh, vy / vh);
    let h = along / vh;
    let k = across / vh;
    assert(e * v == n && 0 * v == 0);
    crate::single::exact::law_worth_quotient(along, vh, e, v, 0, 0);
    crate::single::exact::law_worth_quotient(across, vh, 0, v, 0, 0);
    // The variance.
    let (px, py) = (m.p[3][3], m.p[4][4]);
    lemma_quadratic(hx, px, hx, if i == 0 {
        e
    } else {
        0
    }, a, if i == 0 {
        e
    } else {
        0
    });
    lemma_quadratic(hx, m.p[3][4], hy, if i == 0 {
        e
    } else {
        0
    }, c, if i == 0 {
        0
    } else {
        e
    });
    lemma_quadratic(hy, m.p[4][3], hx, if i == 0 {
        0
    } else {
        e
    }, c, if i == 0 {
        e
    } else {
        0
    });
    lemma_quadratic(hy, py, hy, if i == 0 {
        0
    } else {
        e
    }, a, if i == 0 {
        0
    } else {
        e
    });
    assert(e * a * e == a) by (nonlinear_arith)
        requires
            e == 1 || e == -1,
    ;
    assert(e * c * 0 == 0 && 0 * c * e == 0 && 0 * a * 0 == 0);
    let zero = Single::of_int(0);
    let t1 = hx * px * hx;
    let t2 = hx * m.p[3][4] * hy;
    let t3 = hy * m.p[4][3] * hx;
    let t4 = hy * py * hy;
    let (n1, n4) = if i == 0 {
        (a, 0int)
    } else {
        (0int, a)
    };
    crate::single::exact::law_worth_sum(zero, t1, 0, n1, 0);
    crate::single::exact::law_worth_sum(zero + t1, t2, n1, 0, 0);
    crate::single::exact::law_worth_sum(zero + t1 + t2, t3, n1, 0, 0);
    crate::single::exact::law_worth_sum(zero + t1 + t2 + t3, t4, n1, n4, 0);
    let s = m.speed_variance(hx, hy) + m.side.r_airspeed;
    crate::single::exact::law_worth_sum(m.speed_variance(hx, hy), m.side.r_airspeed, a, b, 0);
    lemma_not_tiny(s, q);
    // The gain and the step.
    let (pa, pc) = (m.p[3 + i][3 + i], m.p[3 + i][4 - i]);
    crate::rotation_laws::lemma_whole_product(pa, h, a, e, 256, 1);
    crate::rotation_laws::lemma_whole_product(pc, k, c, 0, 256, 1);
    assert(c * 0 == 0);
    crate::single::exact::law_worth_sum(pa * h, pc * k, a * e, 0, 0);
    crate::single::exact::law_worth_sum(pc * k, pa * h, 0, a * e, 0);
    let top = m.p[3 + i][3] * hx + m.p[3 + i][4] * hy;
    assert(crate::single::exact::worth(top, a * e, 0));
    lemma_gain_of(top, s, a * e, j);
    let g = top / s;
    crate::single::exact::law_worth_difference(z, vh, y, v, 0);
    crate::vehicle::lemma_small_product(a * e, y - v, 256, 2048);
    crate::single::exact::law_worth_product(g, z - vh, a * e, y - v, j, 0);
    crate::vehicle::lemma_small_product(n, q, 1024, 256);
    crate::single::exact::law_worth_finer_to(along, n, 0, j);
    crate::single::exact::law_worth_sum(along, g * (z - vh), n * q, a * e * (y - v), j);
    assert(n * q + a * e * (y - v) == e * (b * v + a * y)) by (nonlinear_arith)
        requires
            q == a + b,
            n == e * v,
    ;
    assert(m.with_airspeed(z).x[3 + i] == along + g * (z - vh));
}

/// A product of three whole numbers, the outer ones at most one.
proof fn lemma_quadratic(h: Single, p: Single, k: Single, e: int, a: int, f: int)
    requires
        crate::single::exact::worth(h, e, 0) && crate::vehicle::small(e, 1),
        crate::single::exact::worth(p, a, 0) && crate::vehicle::small(a, 256),
        crate::single::exact::worth(k, f, 0) && crate::vehicle::small(f, 1),
    ensures
        crate::single::exact::worth(h * p * k, e * a * f, 0),
{
    crate::rotation_laws::lemma_whole_product(h, p, e, a, 1, 256);
    crate::rotation_laws::lemma_whole_product(h * p, k, e * a, f, 256, 1);
}

/// A squared speed of one or more is not standing still.
proof fn lemma_not_standing(x: Single, n: int)
    requires
        crate::single::exact::worth(x, n, 0),
        n >= 1,
    ensures
        !x.less(Single::of_ratio(1, 10000)),
{
    let p = vstd::arithmetic::power2::pow2(149);
    vstd::arithmetic::power2::lemma2_to64();
    vstd::arithmetic::power2::lemma_pow2_pos(149);
    crate::single::laws::law_ratio_is_positive(1, 10000);
    assert(n * p >= p) by (nonlinear_arith)
        requires
            n >= 1,
            p >= 0,
    ;
}

/// The rate shown about each axis points where the gyroscope shows more than its error, and is
/// the whole difference.
pub proof fn law_rates_leave_errors_out(
    m: EkfModel,
    imu: ImuSample,
    i: int,
    up: bool,
    g: int,
    b: int,
    k: nat,
)
    requires
        0 <= i < 3,
        m.x.len() == 10,
        crate::single::exact::worth(imu.gyro[i].0, g, k),
        crate::single::exact::worth(m.x[6 + i], b, k),
        crate::vehicle::small(g, 0x40_0000),
        crate::vehicle::small(b, 0x40_0000),
        if up {
            b <= g
        } else {
            g <= b
        },
    ensures
        crate::single::exact::worth(m.rates(imu)[i], g - b, k),
        crate::single::signs::toward(up, m.shown(m.rates(imu)).omega[i].0),
{
    let r = m.rates(imu)[i];
    assert(r == imu.gyro[i].0 - m.x[6 + i]);
    crate::single::exact::law_worth_difference(imu.gyro[i].0, m.x[6 + i], g, b, k);
    crate::single::exact::law_integer_worth(0);
    crate::single::exact::law_worth_finer_to(Single::of_int(0), 0, 0, k);
    crate::single::exact::law_worth_order(Single::of_int(0), r, 0, g - b, k);
    crate::single::exact::law_worth_order(r, Single::of_int(0), g - b, 0, k);
    assert(0 * vstd::arithmetic::power2::pow2(k) == 0);
}

/// The transition says how errors grow over a step: an error of the velocity becomes one of
/// the position, and an error of the accelerometer one of the vertical velocity, as two steps
/// from states that differ by the error end apart; here in level attitude and for all integers
/// that leave no rounding. Positions count in halves; `x` and `y` are where the two steps end,
/// position and velocity.
pub proof fn law_transition_follows_errors(
    m: EkfModel,
    o: EkfModel,
    imu: ImuSample,
    dt: Single,
    f: [int; 3],
    g: int,
    b: int,
    v: [int; 3],
    p: [int; 3],
    d: int,
    i: int,
    dv: int,
    db: int,
    x: [int; 2],
    y: [int; 2],
)
    requires
        0 <= i < 3,
        0 <= d <= 128,
        m.att == Quaternion::unit(),
        o.att == m.att,
        o.side == m.side,
        m.x.len() == 10,
        o.x.len() == 10,
        crate::single::exact::worth(dt, d, 0),
        crate::single::exact::worth(m.side.g_ref, g, 0) && crate::vehicle::small(g, 64),
        crate::single::exact::worth(m.x[9], b, 0) && crate::vehicle::small(b, 32),
        crate::single::exact::worth(o.x[9], b + db, 0) && crate::vehicle::small(db, 32),
        forall|j: int|
            #![trigger imu.accel[j]]
            0 <= j < 3 ==> {
                &&& crate::single::exact::worth(imu.accel[j].0, f[j], 0)
                &&& crate::single::exact::worth(m.x[3 + j], v[j], 0)
                &&& crate::single::exact::worth(m.x[j], p[j], 1)
                &&& crate::single::exact::worth(o.x[3 + j], v[j] + dv, 0)
                &&& crate::single::exact::worth(o.x[j], p[j], 1)
                &&& crate::vehicle::small(f[j], 64)
                &&& crate::vehicle::small(v[j], 2048)
                &&& crate::vehicle::small(p[j], 0x40_0000)
            },
        crate::vehicle::small(dv, 2048),
        crate::single::exact::worth(m.state_after(imu, dt)[i], x[0], 1),
        crate::single::exact::worth(m.state_after(imu, dt)[3 + i], x[1], 0),
        crate::single::exact::worth(o.state_after(imu, dt)[i], y[0], 1),
        crate::single::exact::worth(o.state_after(imu, dt)[3 + i], y[1], 0),
    ensures
        ({
            let l = if i == 2 {
                -d
            } else {
                0
            };
            &&& crate::single::exact::worth(super::ekf::transition(dt)[i][3 + i], d, 0)
            &&& crate::single::exact::worth(super::ekf::transition(dt)[3 + i][9], l, 0)
            &&& y[1] - x[1] == dv + l * db
            &&& y[0] - x[0] == 2 * (d * dv) + d * (l * db)
        }),
{
    let v2 = [v[0] + dv, v[1] + dv, v[2] + dv];
    law_level_flight(m, imu, dt, f, g, b, v, p, d, 0, i);
    assert forall|j: int| #![trigger imu.accel[j]] 0 <= j < 3 implies {
        &&& crate::single::exact::worth(imu.accel[j].0, f[j], 0)
        &&& crate::single::exact::worth(o.x[3 + j], v2[j], 0)
        &&& crate::single::exact::worth(o.x[j], p[j], 1)
        &&& crate::vehicle::small(f[j], 64)
        &&& crate::vehicle::small(v2[j], 4096)
        &&& crate::vehicle::small(p[j], 0x40_0000)
    } by {}
    law_level_flight(o, imu, dt, f, g, b + db, v2, p, d, 0, i);
    crate::single::exact::law_integer_worth(0);
    crate::single::exact::law_worth_negated(dt, d, 0);
    let l = if i == 2 {
        -d
    } else {
        0
    };
    let a = if i == 2 {
        f[2] + g - b
    } else {
        f[i]
    };
    let c = if i == 2 {
        a - db
    } else {
        a
    };
    let (xv, yv) = (v[i] + a * d, v2[i] + c * d);
    let (xp, yp) = (p[i] + (v[i] + xv) * d, p[i] + (v2[i] + yv) * d);
    let (r, s) = (m.state_after(imu, dt), o.state_after(imu, dt));
    crate::single::exact::law_worth_order(r[i], r[i], x[0], xp, 1);
    crate::single::exact::law_worth_order(s[i], s[i], y[0], yp, 1);
    crate::single::exact::law_worth_order(r[3 + i], r[3 + i], x[1], xv, 0);
    crate::single::exact::law_worth_order(s[3 + i], s[3 + i], y[1], yv, 0);
    assert((a - db) * d == a * d - db * d) by (nonlinear_arith);
    assert((-d) * db == -(db * d)) by (nonlinear_arith);
    assert(0 * db == 0 && d * 0 == 0);
    let e = yv - xv;
    assert(e == dv + l * db);
    assert(yp - xp == (dv + e) * d) by (nonlinear_arith)
        requires
            yp - xp == (v2[i] + yv) * d - (v[i] + xv) * d,
            v2[i] == v[i] + dv,
            e == yv - xv,
    ;
    let w = l * db;
    assert((dv + (dv + w)) * d == 2 * (d * dv) + d * w) by (nonlinear_arith);
}

/// Off the diagonal a balanced covariance holds the mean of an element and its mirror image,
/// on the diagonal an ordinary variance as it is; here for all integers that leave no rounding.
pub proof fn law_balanced_is_mean(
    p: Seq<Seq<Single>>,
    repair: bool,
    top: bool,
    i: int,
    j: int,
    m: int,
    n: int,
)
    requires
        0 <= i < 10,
        0 <= j < 10,
        i != j,
        crate::single::exact::worth(p[i][j], m, 0) && crate::vehicle::small(m, 0x40_0000),
        crate::single::exact::worth(p[j][i], n, 0) && crate::vehicle::small(n, 0x40_0000),
    ensures
        crate::single::exact::worth(super::ekf::balanced(p, repair, top)[i][j], m + n, 1),
        forall|a: int|
            1 <= a <= 256 && #[trigger] crate::single::exact::worth(p[i][i], a, 0)
                ==> super::ekf::balanced(p, true, true)[i][i] == p[i][i],
{
    let half = Single::of_ratio(5, 10);
    crate::single::exact::law_half_worth();
    crate::single::exact::law_worth_sum(p[i][j], p[j][i], m, n, 0);
    crate::single::exact::law_worth_sum(p[j][i], p[i][j], n, m, 0);
    crate::single::exact::law_worth_product(half, p[i][j] + p[j][i], 1, m + n, 1, 0);
    crate::single::exact::law_worth_product(half, p[j][i] + p[i][j], 1, n + m, 1, 0);
    assert forall|a: int|
        1 <= a <= 256 && #[trigger] crate::single::exact::worth(
            p[i][i],
            a,
            0,
        ) implies super::ekf::balanced(p, true, true)[i][i] == p[i][i] by {
        vstd::arithmetic::power2::lemma2_to64();
        lemma_ordinary_variance(p[i][i], a, 0);
    }
}

/// The sum of the products of the first `k` integers.
spec fn whole_dot(m: Seq<int>, n: Seq<int>, k: nat) -> int
    decreases k,
{
    if k == 0 {
        0
    } else {
        whole_dot(m, n, (k - 1) as nat) + m[k - 1] * n[k - 1]
    }
}

/// The scalar product of whole numbers.
proof fn lemma_dot_whole(u: Seq<Single>, w: Seq<Single>, m: Seq<int>, n: Seq<int>, k: nat)
    requires
        k <= 10,
        u.len() == 10,
        forall|i: int| 0 <= i < 10 ==> crate::single::exact::worth(#[trigger] u[i], m[i], 0),
        forall|i: int| 0 <= i < 10 ==> crate::single::exact::worth(#[trigger] w[i], n[i], 0),
        forall|i: int| 0 <= i < 10 ==> crate::vehicle::small(#[trigger] m[i], 256),
        forall|i: int| 0 <= i < 10 ==> crate::vehicle::small(#[trigger] n[i], 4096),
    ensures
        crate::single::exact::worth(
            super::linear::dot_from(Single::of_int(0), u, w, k),
            whole_dot(m, n, k),
            0,
        ),
        crate::vehicle::small(whole_dot(m, n, k), 0x10_0000 * (k as int)),
    decreases k,
{
    crate::single::exact::law_integer_worth(0);
    if k > 0 {
        let j = (k - 1) as nat;
        lemma_dot_whole(u, w, m, n, j);
        assert(crate::single::exact::worth(u[k - 1], m[k - 1], 0) && crate::single::exact::worth(
            w[k - 1],
            n[k - 1],
            0,
        ));
        assert(crate::vehicle::small(m[k - 1], 256) && crate::vehicle::small(n[k - 1], 4096));
        crate::rotation_laws::lemma_whole_product(
            u[k - 1],
            w[k - 1],
            m[k - 1],
            n[k - 1],
            256,
            4096,
        );
        crate::single::exact::law_worth_sum(
            super::linear::dot_from(Single::of_int(0), u, w, j),
            u[k - 1] * w[k - 1],
            whole_dot(m, n, j),
            m[k - 1] * n[k - 1],
            0,
        );
    }
}

/// A row of the transition, in whole numbers.
spec fn whole_row(i: int, d: int) -> Seq<int> {
    Seq::new(
        10,
        |j: int|
            if i == j {
                1
            } else if i < 3 && j == i + 3 {
                d
            } else if i == 5 && j == 9 {
                -d
            } else {
                0
            },
    )
}

/// A column of a diagonal matrix, in whole numbers.
spec fn whole_column(v: Seq<int>, j: int) -> Seq<int> {
    Seq::new(
        10,
        |k: int|
            if k == j {
                v[k]
            } else {
                0
            },
    )
}

/// A product with one that is zero but at one place.
proof fn lemma_lone_product(m: Seq<int>, n: Seq<int>, at: int, k: nat)
    requires
        0 <= at < 10,
        k <= 10,
        forall|i: int| 0 <= i < 10 && i != at ==> #[trigger] n[i] == 0,
    ensures
        whole_dot(m, n, k) == (if at < k {
            m[at] * n[at]
        } else {
            0
        }),
    decreases k,
{
    if k > 0 {
        lemma_lone_product(m, n, at, (k - 1) as nat);
        if k - 1 != at {
            assert(n[k - 1] == 0);
            assert(m[k - 1] * 0 == 0);
        }
    }
}

/// Over a step what is not known of the velocity spreads to the position along the same axis:
/// its variance grows by that of the velocity times the squared step, and the two become
/// related by that of the velocity times the step, either way round; here for whole numbers
/// and elements that are not related before.
pub proof fn law_uncertainty_spreads(
    p: Seq<Seq<Single>>,
    noise: Seq<Seq<Single>>,
    dt: Single,
    v: Seq<int>,
    d: int,
    i: int,
)
    requires
        0 <= i < 3,
        p.len() == 10,
        noise.len() == 10,
        v.len() == 10,
        forall|k: int| 0 <= k < 10 ==> (#[trigger] p[k]).len() == 10,
        forall|k: int, l: int|
            0 <= k < 10 && 0 <= l < 10 ==> crate::single::exact::worth(
                #[trigger] p[k][l],
                if k == l {
                    v[k]
                } else {
                    0
                },
                0,
            ),
        forall|k: int, l: int|
            0 <= k < 10 && 0 <= l < 10 ==> crate::single::exact::worth(
                #[trigger] noise[k][l],
                0,
                0,
            ),
        forall|k: int| 0 <= k < 10 ==> 0 <= #[trigger] v[k] <= 64,
        crate::single::exact::worth(dt, d, 0),
        0 <= d <= 64,
    ensures
        ({
            let r = super::linear::propagated(p, super::ekf::transition(dt), noise);
            &&& crate::single::exact::worth(r[i][i], v[i] + d * (d * v[3 + i]), 0)
            &&& crate::single::exact::worth(r[i][3 + i], d * v[3 + i], 0)
            &&& crate::single::exact::worth(r[3 + i][i], d * v[3 + i], 0)
        }),
{
    let f = super::ekf::transition(dt);
    let fp = super::linear::times(f, p, 10);
    let g = super::linear::times_transposed(fp, f);
    let a = v[i];
    let b = v[3 + i];
    assert(0 <= v[i] <= 64 && 0 <= v[3 + i] <= 64);
    crate::single::exact::law_integer_worth(0);
    crate::single::exact::law_integer_worth(1);
    crate::single::exact::law_worth_negated(dt, d, 0);
    assert(p.len() == 10 && fp.len() == 10);
    // The first product.
    assert forall|k: int, l: int| 0 <= k < 10 && 0 <= l < 10 implies crate::single::exact::worth(
        #[trigger] fp[k][l],
        whole_row(k, d)[l] * v[l],
        0,
    ) by {
        let col = super::linear::column(p, l);
        assert forall|n: int| 0 <= n < 10 implies crate::single::exact::worth(
            #[trigger] col[n],
            whole_column(v, l)[n],
            0,
        ) by {
            assert(col[n] == p[n][l]);
        }
        assert forall|n: int| 0 <= n < 10 implies crate::vehicle::small(
            #[trigger] whole_column(v, l)[n],
            4096,
        ) by {
            assert(0 <= v[n] <= 64);
        }
        assert forall|n: int| 0 <= n < 10 implies crate::single::exact::worth(
            #[trigger] f[k][n],
            whole_row(k, d)[n],
            0,
        ) by {}
        lemma_dot_whole(f[k], col, whole_row(k, d), whole_column(v, l), 10);
        lemma_lone_product(whole_row(k, d), whole_column(v, l), l, 10);
        assert(fp[k][l] == super::linear::dot(f[k], col));
    }
    // The second.
    assert forall|k: int, l: int| 0 <= k < 10 && 0 <= l < 10 implies crate::single::exact::worth(
        #[trigger] g[k][l],
        whole_dot(Seq::new(10, |n: int| whole_row(k, d)[n] * v[n]), whole_row(l, d), 10),
        0,
    ) by {
        let m = Seq::new(10, |n: int| whole_row(k, d)[n] * v[n]);
        assert forall|n: int| 0 <= n < 10 implies crate::vehicle::small(#[trigger] m[n], 4096) by {
            assert(0 <= v[n] <= 64);
            crate::vehicle::lemma_small_product(whole_row(k, d)[n], v[n], 64, 64);
        }
        assert(fp[k].len() == 10);
        assert forall|n: int| 0 <= n < 10 implies crate::single::exact::worth(
            #[trigger] fp[k][n],
            m[n],
            0,
        ) by {}
        assert forall|n: int| 0 <= n < 10 implies crate::single::exact::worth(
            #[trigger] f[l][n],
            whole_row(l, d)[n],
            0,
        ) by {}
        lemma_dot_wide(fp[k], f[l], m, whole_row(l, d), 10);
        assert(g[k][l] == super::linear::dot(fp[k], f[l]));
    }
    let r = super::linear::propagated(p, f, noise);
    let mi = Seq::new(10, |n: int| whole_row(i, d)[n] * v[n]);
    let mj = Seq::new(10, |n: int| whole_row(3 + i, d)[n] * v[n]);
    assert(1 * a == a && 1 * b == b);
    let w = d * b;
    assert(w * d == d * w) by (nonlinear_arith);
    crate::vehicle::lemma_small_product(d, b, 64, 64);
    crate::vehicle::lemma_small_product(d, w, 64, 4096);
    assert forall|k: int| 0 <= k < 10 && k != i && k != 3 + i implies #[trigger] mi[k] == 0 by {
        assert(0 * v[k] == 0);
    }
    let (ri, rj) = (whole_row(i, d), whole_row(3 + i, d));
    assert forall|k: int| 0 <= k < 10 && k != i && k != 3 + i implies #[trigger] (mi[k] * ri[k])
        == 0 by {
        assert(mi[k] == 0);
    }
    assert forall|k: int| 0 <= k < 10 && k != i && k != 3 + i implies #[trigger] (mi[k] * rj[k])
        == 0 by {
        assert(mi[k] == 0);
        assert(0 * rj[k] == 0);
    }
    assert forall|k: int| 0 <= k < 10 && k != i && k != 3 + i implies #[trigger] (mj[k] * ri[k])
        == 0 by {
        assert(ri[k] == 0);
        assert(mj[k] * 0 == 0);
    }
    lemma_sparse(mi, ri, i, 3 + i);
    lemma_sparse(mi, rj, i, 3 + i);
    lemma_sparse(mj, ri, i, 3 + i);
    assert(mi[i] == a && mi[3 + i] == w && mj[3 + i] == b);
    assert(mj[i] == 0) by {
        assert(0 * a == 0);
    }
    assert(a * 1 == a && a * 0 == 0 && w * 1 == w && 0 * d == 0 && 0 * 1 == 0);
    assert(b * d == w) by (nonlinear_arith)
        requires
            w == d * b,
    ;
    assert(g.len() == 10 && g[i].len() == 10 && g[3 + i].len() == 10);
    crate::single::exact::law_worth_sum(g[i][i], noise[i][i], a + d * w, 0, 0);
    crate::single::exact::law_worth_sum(g[i][3 + i], noise[i][3 + i], w, 0, 0);
    crate::single::exact::law_worth_sum(g[3 + i][i], noise[3 + i][i], w, 0, 0);
}

/// Products that are zero but at two places.
proof fn lemma_sparse(m: Seq<int>, n: Seq<int>, i: int, j: int)
    requires
        0 <= i < j < 10,
        forall|k: int| 0 <= k < 10 && k != i && k != j ==> #[trigger] m[k] * n[k] == 0,
    ensures
        whole_dot(m, n, 10) == m[i] * n[i] + m[j] * n[j],
{
    reveal_with_fuel(whole_dot, 11);
    assert forall|k: int| 0 <= k < 10 && k != i && k != j implies #[trigger] m[k] * n[k] == 0 by {}
}

/// The scalar product with the wider numbers first.
proof fn lemma_dot_wide(u: Seq<Single>, w: Seq<Single>, m: Seq<int>, n: Seq<int>, k: nat)
    requires
        k <= 10,
        u.len() == 10,
        forall|i: int| 0 <= i < 10 ==> crate::single::exact::worth(#[trigger] u[i], m[i], 0),
        forall|i: int| 0 <= i < 10 ==> crate::single::exact::worth(#[trigger] w[i], n[i], 0),
        forall|i: int| 0 <= i < 10 ==> crate::vehicle::small(#[trigger] m[i], 4096),
        forall|i: int| 0 <= i < 10 ==> crate::vehicle::small(#[trigger] n[i], 256),
    ensures
        crate::single::exact::worth(
            super::linear::dot_from(Single::of_int(0), u, w, k),
            whole_dot(m, n, k),
            0,
        ),
        crate::vehicle::small(whole_dot(m, n, k), 0x10_0000 * (k as int)),
    decreases k,
{
    crate::single::exact::law_integer_worth(0);
    if k > 0 {
        let j = (k - 1) as nat;
        lemma_dot_wide(u, w, m, n, j);
        assert(crate::single::exact::worth(u[k - 1], m[k - 1], 0) && crate::single::exact::worth(
            w[k - 1],
            n[k - 1],
            0,
        ));
        assert(crate::vehicle::small(m[k - 1], 4096) && crate::vehicle::small(n[k - 1], 256));
        crate::rotation_laws::lemma_whole_product(
            u[k - 1],
            w[k - 1],
            m[k - 1],
            n[k - 1],
            4096,
            256,
        );
        crate::single::exact::law_worth_sum(
            super::linear::dot_from(Single::of_int(0), u, w, j),
            u[k - 1] * w[k - 1],
            whole_dot(m, n, j),
            m[k - 1] * n[k - 1],
            0,
        );
    }
}

/// A step is remembered, and the time since a velocity was last seen goes on by it, forwards;
/// before the first velocity no time is counted.
pub proof fn law_time_goes_on(m: EkfModel, dt: Single, imu: ImuSample, t: EkfTuning, a: int, d: int)
    requires
        crate::single::exact::worth(dt, d, 0) && 0 <= d <= 4096,
        crate::single::exact::worth(m.side.vel_obs_dt, a, 0) && crate::vehicle::small(a, 4096),
    ensures
        ({
            let s = m.begun(dt, imu, t).0.side;
            &&& s.last_dt == dt
            &&& crate::single::exact::worth(
                s.vel_obs_dt,
                if a >= 0 {
                    a + d
                } else {
                    a
                },
                0,
            )
        }),
{
    crate::single::exact::law_integer_worth(0);
    crate::single::exact::law_worth_order(Single::of_int(0), m.side.vel_obs_dt, 0, a, 0);
    crate::single::exact::law_worth_sum(m.side.vel_obs_dt, dt, a, d, 0);
}

} // verus!
