//! What the anchors of the filter with fixed strength do: which way gravity and the magnetic
//! field turn the attitude, and which way the gyroscope errors are learned.

use super::ekf::{Anchor, EkfModel, EkfSide, EkfTuning};
use super::nominal::HalfAngle;
use crate::single::Single;
use crate::vehicle::{ImuSample, Quaternion};
use vstd::prelude::*;

verus! {

/// Whether a number is between zero and sixteen.
spec fn share(x: Single) -> bool {
    crate::single::signs::toward(true, x) && crate::single::laws::within(x, 4)
}

proof fn lemma_fraction(x: Single)
    requires
        !x.nan(),
    ensures
        share(super::ekf::fraction(x)),
{
    crate::single::arith::lemma_small_ints();
    vstd::arithmetic::power2::lemma2_to64();
    crate::single::laws::law_integer_within(1, 0);
    crate::single::laws::lemma_one_magnitude();
    let f = super::ekf::fraction(x);
    crate::single::number::law_clamp_bounds(x, Single::of_int(0), Single::of_int(1));
    assert(crate::single::laws::within(f, 0));
    crate::single::signs::law_within_more(f, 0, 4);
}

/// A ratio of at least 2^-k.
proof fn lemma_ratio_beyond(num: nat, den: nat, k: nat)
    requires
        0 < num,
        0 < den,
        k <= 64,
        den <= num * vstd::arithmetic::power2::pow2(k),
    ensures
        crate::single::signs::beyond(true, Single::of_ratio(num as int, den), k),
{
    let p = vstd::arithmetic::power2::pow2(149);
    let q = vstd::arithmetic::power2::pow2((149 - k) as nat);
    let r = vstd::arithmetic::power2::pow2(k);
    vstd::arithmetic::power2::lemma_pow2_adds((149 - k) as nat, k);
    assert(q * den <= num * p) by (nonlinear_arith)
        requires
            den <= num * r,
            p == q * r,
            q >= 0,
    ;
    crate::single::signs::lemma_nearest_beyond(num * p, den, k);
    reveal(Single::of_ratio);
    crate::single::laws::lemma_packed(false, crate::single::rounding::nearest(num * p, den));
    vstd::arithmetic::power2::lemma_pow2_pos((149 - k) as nat);
}

/// Over what is at least a hundredth, what is of ordinary size stays so.
proof fn lemma_over(x: Single, c: Single)
    requires
        crate::single::laws::within(x, 40),
        crate::single::signs::beyond(true, c, 10),
        c.finite(),
    ensures
        crate::single::laws::within(x / c, 50),
        (x / c).finite(),
        Single::of_int(0).less(c),
{
    crate::single::signs::law_quotient_within(x, c, 40, 10);
    crate::single::signs::law_beyond_is_toward(true, c, 10);
}

/// A quarter to two and a half, as numbers.
proof fn lemma_ratios()
    ensures
        crate::single::laws::within(Single::of_ratio(5, 10), 40),
        crate::single::laws::within(Single::of_ratio(90, 100), 40),
        crate::single::laws::within(Single::of_ratio(6, 10), 0),
        crate::single::laws::within(Single::of_ratio(25, 10), 40),
        crate::single::signs::beyond(true, Single::of_ratio(5, 10), 10)
            && Single::of_ratio(5, 10).finite(),
        crate::single::signs::beyond(true, Single::of_ratio(15, 10), 10)
            && Single::of_ratio(15, 10).finite(),
        crate::single::signs::beyond(true, Single::of_ratio(10, 100), 10)
            && Single::of_ratio(10, 100).finite(),
        crate::single::signs::beyond(true, Single::of_ratio(35, 100), 2)
            && Single::of_ratio(35, 100).finite(),
        crate::single::signs::beyond(true, Single::of_ratio(1, 1000), 10),
        crate::single::laws::within(Single::of_ratio(25, 100), 0),
{
    vstd::arithmetic::power2::lemma2_to64();
    crate::single::laws::law_ratio_is_positive(5, 10);
    crate::single::laws::law_ratio_is_positive(90, 100);
    crate::single::laws::law_ratio_is_positive(6, 10);
    crate::single::laws::law_ratio_is_positive(10, 100);
    crate::single::laws::law_ratio_is_positive(35, 100);
    crate::single::laws::law_ratio_is_positive(25, 100);
    crate::single::signs::law_within_more(Single::of_ratio(5, 10), 0, 40);
    crate::single::signs::law_within_more(Single::of_ratio(90, 100), 0, 40);
    lemma_ratio_beyond(5, 10, 10);
    lemma_ratio_beyond(15, 10, 10);
    lemma_ratio_beyond(10, 100, 10);
    lemma_ratio_beyond(35, 100, 2);
    lemma_ratio_beyond(1, 1000, 10);
    lemma_ratio_within(25, 10, 2);
    lemma_ratio_within(15, 10, 2);
    crate::single::signs::law_within_more(Single::of_ratio(25, 10), 2, 40);
}

proof fn lemma_ratio_within(num: nat, den: nat, k: nat)
    requires
        0 < den,
        num <= den * vstd::arithmetic::power2::pow2(k),
        k <= 64,
    ensures
        crate::single::laws::within(Single::of_ratio(num as int, den), k),
        Single::of_ratio(num as int, den).finite(),
{
    let p = vstd::arithmetic::power2::pow2(149);
    let r = vstd::arithmetic::power2::pow2(k);
    vstd::arithmetic::power2::lemma_pow2_adds(149, k);
    assert(num * p <= (p * r) * den) by (nonlinear_arith)
        requires
            num <= den * r,
            p >= 0,
    ;
    crate::single::laws::lemma_nearest_within(num * p, den, k);
    reveal(Single::of_ratio);
    crate::single::laws::lemma_packed(false, crate::single::rounding::nearest(num * p, den));
    crate::single::laws::lemma_within_is_finite(Single::of_ratio(num as int, den), k);
}

/// The weights of the anchor are not negative.
proof fn lemma_weights(ratio: Single, cos: Single, om: Single)
    requires
        crate::single::laws::within(ratio, 39),
        crate::single::laws::within(cos, 39),
        crate::single::signs::toward(true, om) || om.nan(),
    ensures
        share(super::ekf::size_weight(ratio)),
        share(super::ekf::align_weight(cos)),
        share(super::ekf::spin_weight(om)),
{
    let half = Single::of_ratio(5, 10);
    let top = Single::of_ratio(25, 10);
    let edge = Single::of_ratio(90, 100);
    let slow = Single::of_ratio(6, 10);
    let zero = Single::of_int(0);
    lemma_ratios();
    vstd::arithmetic::power2::lemma2_to64();
    crate::single::arith::lemma_small_ints();
    crate::single::laws::law_integer_within(1, 0);
    crate::single::laws::law_integer_within(0, 0);
    crate::single::laws::lemma_one_magnitude();
    crate::single::signs::law_within_more(Single::of_int(1), 0, 4);
    crate::single::signs::law_within_more(zero, 0, 4);
    crate::single::laws::law_ratio_is_positive(5, 10);
    crate::single::laws::law_ratio_is_positive(90, 100);
    crate::single::signs::law_within_more(half, 0, 39);
    lemma_ratio_within(25, 10, 2);
    crate::single::signs::law_within_more(top, 2, 39);
    crate::single::signs::law_within_more(edge, 0, 39);
    crate::single::signs::law_difference_within(ratio, half, 39);
    crate::single::signs::law_difference_within(top, ratio, 39);
    crate::single::signs::law_difference_within(cos, edge, 39);
    lemma_over(ratio - half, half);
    lemma_over(top - ratio, Single::of_ratio(15, 10));
    lemma_over(cos - edge, Single::of_ratio(10, 100));
    lemma_fraction((ratio - half) / half);
    lemma_fraction((top - ratio) / Single::of_ratio(15, 10));
    lemma_fraction((cos - edge) / Single::of_ratio(10, 100));
    lemma_fraction(zero);
    if om.less(slow) && !om.less(Single::of_ratio(25, 100)) {
        crate::single::laws::lemma_within_is_finite(slow, 0);
        assert(crate::single::laws::within(om, 0));
        crate::single::laws::lemma_within_is_finite(om, 0);
        crate::single::signs::law_difference_points(true, om, slow);
        crate::single::signs::law_difference_within(slow, om, 0);
        let c = Single::of_ratio(35, 100);
        crate::single::signs::law_beyond_is_toward(true, c, 2);
        crate::single::signs::law_quotient_points(true, slow - om, c);
        crate::single::signs::law_quotient_within(slow - om, c, 1, 2);
        crate::single::signs::law_within_more((slow - om) / c, 3, 4);
    }
}

/// The length of a vector of ordinary size.
proof fn lemma_length(v: [Single; 3])
    requires
        crate::single::laws::within(v[0], 10),
        crate::single::laws::within(v[1], 10),
        crate::single::laws::within(v[2], 10),
    ensures
        crate::single::laws::within(super::ekf::length3(v), 11),
        crate::single::signs::toward(true, super::ekf::length3(v)),
{
    crate::single::arith::lemma_small_ints();
    lemma_square(v[0]);
    lemma_square(v[1]);
    lemma_square(v[2]);
    let (a, b, c) = (v[0] * v[0], v[1] * v[1], v[2] * v[2]);
    crate::single::laws::law_sum_within(a, b, 20);
    crate::single::signs::law_within_more(c, 20, 21);
    crate::single::laws::law_sum_within(a + b, c, 21);
    crate::single::signs::law_sum_points(true, a, b);
    crate::single::signs::law_sum_points(true, a + b, c);
    crate::single::root::law_root_within(a + b + c, 11);
}

proof fn lemma_square(x: Single)
    requires
        crate::single::laws::within(x, 10),
    ensures
        x.finite(),
        (x * x).finite(),
        crate::single::laws::within(x * x, 20),
        crate::single::signs::toward(true, x * x),
{
    crate::single::arith::lemma_small_ints();
    crate::single::laws::lemma_within_is_finite(x, 10);
    crate::single::laws::law_product_within(x, x, 10, 10);
    if crate::single::signs::toward(true, x) {
        crate::single::signs::law_product_points(true, x, x);
    } else {
        crate::single::signs::law_product_points_back(false, x, x);
    }
}

/// The specific force shows which way is up. Where it leans to the right of a level attitude,
/// the correction rolls the attitude to the left, and where it leans forwards, the correction
/// pitches the attitude up: the attitude turns so that up in it comes to lie along the force.
/// It does not turn about the vertical.
pub proof fn law_gravity_levels(
    side: EkfSide,
    imu: ImuSample,
    t: EkfTuning,
    forward: bool,
    right: bool,
)
    requires
        side.world_accel[0].same(Single::of_int(0)),
        side.world_accel[1].same(Single::of_int(0)),
        side.world_accel[2].same(Single::of_int(0)),
        crate::single::laws::within(imu.accel[0].0, 10),
        crate::single::laws::within(imu.accel[1].0, 10),
        crate::single::laws::within(imu.accel[2].0, 10),
        crate::single::laws::within(imu.gyro[0].0, 10),
        crate::single::laws::within(imu.gyro[1].0, 10),
        crate::single::laws::within(imu.gyro[2].0, 10),
        crate::single::laws::within(side.g_ref, 10),
        crate::single::signs::beyond(true, side.g_ref, 10),
        crate::single::laws::within(super::ekf::unless_negative(side.att_alpha, t.att_alpha), 10),
        t.att_acc_gate.less_eq(Single::of_int(0)),
        t.att_acc_ac.less_eq(Single::of_int(0)),
        crate::single::signs::toward(forward, imu.accel[0].0),
        crate::single::signs::toward(right, imu.accel[1].0),
    ensures
        ({
            let a = side.anchored(Quaternion::unit(), imu, t).1;
            &&& crate::single::signs::toward(!right, a.vec[0])
            &&& crate::single::signs::toward(forward, a.vec[1])
            &&& a.vec[2].same(Single::of_int(0))
        }),
{
    let zero = Single::of_int(0);
    let q = Quaternion::unit();
    let alpha = super::ekf::unless_negative(side.att_alpha, t.att_alpha);
    let a = side.resting_force(q, super::ekf::force_of(imu));
    let an = super::ekf::length3(a);
    vstd::arithmetic::power2::lemma2_to64();
    crate::single::arith::lemma_small_ints();
    crate::single::exact::law_integer_worth(0);
    assert(a == super::ekf::force_of(imu));
    lemma_length(a);
    lemma_length(super::ekf::spin_of(imu));
    if zero.less(alpha) && Single::of_ratio(1, 1000).less(an) {
        lemma_ratios();
        crate::single::laws::lemma_within_is_finite(an, 11);
        crate::single::signs::law_ahead_of_beyond(true, Single::of_ratio(1, 1000), an, 10);
        crate::single::signs::law_beyond_is_toward(true, an, 10);
        let g = side.g_ref;
        crate::single::laws::lemma_within_is_finite(g, 10);
        crate::single::signs::law_beyond_is_toward(true, g, 10);
        let down = seq![zero, zero, g];
        let d = q.conjugate().rotated(down);
        crate::rotation_laws::lemma_level_back(down, 0);
        crate::rotation_laws::lemma_level_back(down, 1);
        crate::rotation_laws::lemma_level_back(down, 2);
        assert(d[2].magnitude() == g.magnitude());
        let (x, y, z) = (a[0] / an, a[1] / an, a[2] / an);
        crate::single::signs::law_quotient_within(a[0], an, 10, 10);
        crate::single::signs::law_quotient_within(a[1], an, 10, 10);
        crate::single::signs::law_quotient_within(a[2], an, 10, 10);
        crate::single::laws::lemma_within_is_finite(a[0], 10);
        crate::single::laws::lemma_within_is_finite(a[1], 10);
        crate::single::laws::lemma_within_is_finite(a[2], 10);
        crate::single::signs::law_quotient_points(forward, a[0], an);
        crate::single::signs::law_quotient_points(right, a[1], an);
        // The weights.
        let ratio = an / g;
        crate::single::signs::law_quotient_within(an, g, 11, 10);
        crate::single::signs::law_within_more(ratio, 21, 39);
        let one = Single::of_int(1);
        let n = [a[0].negated() / an, a[1].negated() / an, a[2].negated() / an];
        let u = q.conjugate().rotated(super::nominal::basis(2));
        lemma_cosine(a, an, u);
        let cos = (u[0] * n[0] + u[1] * n[1] + u[2] * n[2]).clamped(Single::of_int(-1), one);
        lemma_weights(ratio, cos, super::ekf::length3(super::ekf::spin_of(imu)));
        let w = super::ekf::size_weight(ratio);
        let w_align = super::ekf::align_weight(cos);
        let w_gyro = super::ekf::spin_weight(super::ekf::length3(super::ekf::spin_of(imu)));
        let half = Single::of_ratio(5, 10);
        crate::single::laws::law_ratio_is_positive(5, 10);
        let f = q.rotated(a@);
        let h = (f[0] * f[0] + f[1] * f[1]).root();
        let s = Single::of_ratio(2, 100);
        let mean = side.acc_h_mean + s * (h - side.acc_h_mean);
        let dev = side.acc_h_dev + s * ((h - mean).magnitude_of() - side.acc_h_dev);
        let gate = super::ekf::unless_negative(zero, t.att_acc_gate);
        let ac = super::ekf::unless_negative(zero, t.att_acc_ac);
        assert(gate.less_eq(zero) && ac.less_eq(zero));
        assert(super::ekf::fading(h, gate) == one && super::ekf::fading(dev, ac) == one);
        let w_acc = super::ekf::fading(h, gate) * super::ekf::fading(dev, ac);
        crate::single::laws::lemma_one_magnitude();
        crate::single::laws::law_integer_within(1, 0);
        crate::single::laws::law_product_within(one, one, 0, 0);
        crate::single::signs::law_product_points(true, one, one);
        crate::single::signs::law_within_more(w_acc, 0, 4);
        crate::single::laws::lemma_within_is_finite(alpha, 10);
        crate::single::signs::law_within_more(half, 0, 4);
        lemma_times_share(alpha, half, 10);
        lemma_times_share(alpha * half, w, 14);
        lemma_times_share(alpha * half * w, w_align, 18);
        lemma_times_share(alpha * half * w * w_align, w_gyro, 22);
        lemma_times_share(alpha * half * w * w_align * w_gyro, w_acc, 26);
        let k = alpha * half * w * w_align * w_gyro * w_acc;
        crate::single::laws::lemma_within_is_finite(k, 30);
        // The correction.
        crate::single::laws::law_product_with_zero(z, d[1]);
        crate::single::laws::law_product_with_zero(z, d[0]);
        crate::single::laws::law_product_with_zero(x, d[1]);
        crate::single::laws::law_product_with_zero(y, d[0]);
        crate::single::laws::law_product_within(d[2], x, 10, 20);
        crate::single::laws::law_product_within(d[2], y, 10, 20);
        crate::single::signs::law_product_points(forward, x, d[2]);
        crate::single::signs::law_product_points(right, y, d[2]);
        let (px, py) = (d[2] * x, d[2] * y);
        crate::single::laws::lemma_add_nothing(px, px, d[0] * z);
        crate::single::signs::lemma_negated(py);
        crate::single::laws::lemma_add_nothing(py.negated(), py.negated(), d[1] * z);
        crate::single::signs::law_negated_points_back(right, py);
        crate::single::laws::law_sum_commutes(d[1] * z, py.negated());
        let vx = d[1] * z - d[2] * y;
        let vy = d[2] * x - d[0] * z;
        assert(vx.same(py.negated()));
        assert(crate::single::signs::toward(!right, vx));
        crate::single::signs::law_product_points(!right, vx, k);
        crate::single::signs::law_product_points(forward, vy, k);
        crate::single::laws::lemma_nothing_more(d[0] * y, d[1] * x);
        crate::single::laws::law_product_with_zero(k, d[0] * y - d[1] * x);
    }
}

proof fn lemma_times_share(a: Single, w: Single, k: nat)
    requires
        crate::single::laws::within(a, k),
        crate::single::signs::toward(true, a),
        crate::single::laws::within(w, 4),
        crate::single::signs::toward(true, w),
        k <= 30,
    ensures
        crate::single::laws::within(a * w, k + 4),
        crate::single::signs::toward(true, a * w),
{
    crate::single::laws::lemma_within_is_finite(a, k);
    crate::single::laws::lemma_within_is_finite(w, 4);
    crate::single::laws::law_product_within(a, w, k, 4);
    crate::single::signs::law_product_points(true, a, w);
}

/// The cosine of the angle to the estimated gravity is a number.
proof fn lemma_cosine(a: [Single; 3], an: Single, u: Seq<Single>)
    requires
        crate::single::laws::within(a[0], 10),
        crate::single::laws::within(a[1], 10),
        crate::single::laws::within(a[2], 10),
        crate::single::signs::beyond(true, an, 10),
        an.finite(),
        u == Quaternion::unit().conjugate().rotated(super::nominal::basis(2)),
    ensures
        ({
            let n = [a[0].negated() / an, a[1].negated() / an, a[2].negated() / an];
            crate::single::laws::within(
                (u[0] * n[0] + u[1] * n[1] + u[2] * n[2]).clamped(
                    Single::of_int(-1),
                    Single::of_int(1),
                ),
                39,
            )
        }),
{
    let b = super::nominal::basis(2);
    let n = [a[0].negated() / an, a[1].negated() / an, a[2].negated() / an];
    vstd::arithmetic::power2::lemma2_to64();
    crate::single::arith::lemma_small_ints();
    crate::single::laws::lemma_one_magnitude();
    crate::single::laws::law_integer_within(1, 0);
    crate::single::laws::law_integer_within(-1, 0);
    crate::single::laws::law_integer_within(0, 0);
    crate::rotation_laws::lemma_level_back(b, 0);
    crate::rotation_laws::lemma_level_back(b, 1);
    crate::rotation_laws::lemma_level_back(b, 2);
    assert(u[0].magnitude() == b[0].magnitude() && u[1].magnitude() == b[1].magnitude()
        && u[2].magnitude() == b[2].magnitude());
    crate::single::signs::lemma_negated(a[0]);
    crate::single::signs::lemma_negated(a[1]);
    crate::single::signs::lemma_negated(a[2]);
    crate::single::signs::law_quotient_within(a[0].negated(), an, 10, 10);
    crate::single::signs::law_quotient_within(a[1].negated(), an, 10, 10);
    crate::single::signs::law_quotient_within(a[2].negated(), an, 10, 10);
    crate::single::laws::law_product_within(u[0], n[0], 0, 20);
    crate::single::laws::law_product_within(u[1], n[1], 0, 20);
    crate::single::laws::law_product_within(u[2], n[2], 0, 20);
    let (p, q, r) = (u[0] * n[0], u[1] * n[1], u[2] * n[2]);
    crate::single::laws::law_sum_within(p, q, 20);
    crate::single::signs::law_within_more(r, 20, 21);
    crate::single::laws::law_sum_within(p + q, r, 21);
    let s = p + q + r;
    crate::single::signs::law_within_more(s, 22, 39);
    crate::single::signs::law_within_more(Single::of_int(1), 0, 39);
    crate::single::signs::law_within_more(Single::of_int(-1), 0, 39);
}

/// A correction means that the gyroscope has missed a rotation: the more it turns up an axis,
/// the less the gyroscope shows too much about it. The error stays within its bound.
pub proof fn law_correction_teaches(
    b: Single,
    less: Single,
    more: Single,
    learn: Single,
    dt: Single,
    up: bool,
)
    requires
        crate::single::laws::within(b, 10),
        crate::single::laws::within(less, 10),
        crate::single::laws::within(more, 10),
        crate::single::signs::ahead(up, less, more),
        crate::single::laws::within(learn, 10) && crate::single::signs::toward(true, learn),
        crate::single::laws::within(dt, 0) && crate::single::signs::beyond(true, dt, 20),
    ensures
        crate::single::signs::ahead(
            !up,
            EkfModel::learned(b, less, learn, dt),
            EkfModel::learned(b, more, learn, dt),
        ),
{
    let one = Single::of_int(1);
    let most = Single::of_ratio(5, 100);
    vstd::arithmetic::power2::lemma2_to64();
    crate::single::arith::lemma_small_ints();
    crate::single::laws::lemma_one_magnitude();
    crate::single::laws::law_integer_within(1, 0);
    crate::single::laws::law_ratio_is_positive(5, 100);
    crate::single::laws::lemma_within_is_finite(dt, 0);
    crate::single::laws::lemma_within_is_finite(b, 10);
    crate::single::laws::lemma_within_is_finite(learn, 10);
    crate::single::signs::law_beyond_is_toward(true, dt, 20);
    let inv = one / dt;
    crate::single::signs::law_quotient_within(one, dt, 0, 20);
    crate::single::signs::law_quotient_points(true, one, dt);
    crate::single::signs::lemma_negated(less);
    crate::single::signs::lemma_negated(more);
    crate::single::signs::law_negated_order(up, less, more);
    let (x, y) = (less.negated() * inv, more.negated() * inv);
    crate::single::laws::lemma_within_is_finite(less.negated(), 10);
    crate::single::laws::lemma_within_is_finite(more.negated(), 10);
    crate::single::signs::law_product_order(!up, less.negated(), more.negated(), inv);
    crate::single::laws::law_product_within(less.negated(), inv, 10, 20);
    crate::single::laws::law_product_within(more.negated(), inv, 10, 20);
    crate::single::signs::law_difference_order(!up, x, y, b);
    crate::single::signs::law_within_more(b, 10, 30);
    crate::single::signs::law_difference_within(x, b, 30);
    crate::single::signs::law_difference_within(y, b, 30);
    crate::single::signs::law_product_order(!up, x - b, y - b, learn);
    crate::single::laws::law_product_within(learn, x - b, 10, 31);
    crate::single::laws::law_product_within(learn, y - b, 10, 31);
    let (p, q) = (learn * (x - b), learn * (y - b));
    crate::single::signs::law_product_order(!up, p, q, dt);
    crate::single::laws::law_product_within(p, dt, 41, 0);
    crate::single::laws::law_product_within(q, dt, 41, 0);
    crate::single::signs::law_sum_order(!up, p * dt, q * dt, b);
    crate::single::signs::law_clamp_points(true, most, most);
    crate::single::signs::law_clamp_order(!up, b + p * dt, b + q * dt, most.negated(), most);
}

/// What the gyroscope errors come to when the anchor teaches them, and what it does to a level
/// attitude: the attitude turns as the correction does, about each axis.
pub proof fn law_anchor_turns_its_way(
    m: EkfModel,
    a: Anchor,
    half: HalfAngle,
    dt: Single,
    i: int,
    up: bool,
)
    requires
        0 <= i < 3,
        m.att == Quaternion::unit(),
        crate::single::laws::within(a.vec[0], 0),
        crate::single::laws::within(a.vec[1], 0),
        crate::single::laws::within(a.vec[2], 0),
        a.acts,
        crate::single::signs::beyond(true, super::ekf::length3(a.vec), 10),
        crate::single::laws::within(half.sin, 0) && crate::single::signs::toward(true, half.sin),
        crate::single::laws::within(half.cos, 0),
        crate::single::signs::toward(up, a.vec[i]),
    ensures
        crate::single::signs::toward(up, m.anchored_by(a, half, dt).att.part(i)),
{
    let n = super::ekf::length3(a.vec);
    reveal(EkfModel::anchored_by);
    crate::single::arith::lemma_small_ints();
    crate::single::signs::law_within_more(a.vec[0], 0, 10);
    crate::single::signs::law_within_more(a.vec[1], 0, 10);
    crate::single::signs::law_within_more(a.vec[2], 0, 10);
    lemma_length(a.vec);
    crate::single::laws::lemma_within_is_finite(n, 11);
    crate::single::signs::law_beyond_is_toward(true, n, 10);
    crate::single::laws::lemma_within_is_finite(a.vec[i], 10);
    if let Some(turn) = a.turn_of() {
        crate::single::signs::law_quotient_within(a.vec[0], n, 0, 10);
        crate::single::signs::law_quotient_within(a.vec[1], n, 0, 10);
        crate::single::signs::law_quotient_within(a.vec[2], n, 0, 10);
        crate::single::signs::law_quotient_points(up, a.vec[i], n);
        crate::single::signs::law_within_more(half.sin, 0, 10);
        crate::single::signs::law_within_more(half.cos, 0, 10);
        assert forall|j: int| 0 <= j < 3 implies crate::single::laws::within(
            #[trigger] turn.axis[j],
            10,
        ) by {
            assert(turn.axis[j] == a.vec[j] / n);
        }
        crate::rotation_laws::law_turn_goes_its_way(turn.axis, half.sin, half.cos, i, up);
    }
}

/// The heading error that a magnetic field shows is the angle from the field as seen to the
/// one expected: turning the field by it, to the right where it is positive, brings it along
/// the expected one, both lengths kept; here for a level attitude and all integers that leave
/// no rounding.
pub proof fn law_heading_error_turns_field(
    m: EkfModel,
    mag: [Single; 3],
    t: EkfTuning,
    n: [int; 3],
    r: [int; 2],
)
    requires
        m.att == Quaternion::unit(),
        forall|i: int|
            #![trigger mag[i]]
            0 <= i < 3 ==> {
                &&& crate::single::exact::worth(mag[i] - m.side.mag_hard_iron[i], n[i], 0)
                &&& crate::vehicle::small(n[i], 1024)
            },
        crate::single::exact::worth(m.side.mag_ref[0], r[0], 0),
        crate::single::exact::worth(m.side.mag_ref[1], r[1], 0),
        crate::vehicle::small(r[0], 1024),
        crate::vehicle::small(r[1], 1024),
    ensures
        m.mag_sight(Some(mag), t) matches Some(s) ==> {
            let x = n[0] * r[0] + n[1] * r[1];
            let y = n[0] * r[1] - n[1] * r[0];
            let size = n[0] * n[0] + n[1] * n[1];
            &&& crate::single::exact::worth(s.x, x, 0)
            &&& crate::single::exact::worth(s.y, y, 0)
            &&& n[0] * x - n[1] * y == size * r[0]
            &&& n[1] * x + n[0] * y == size * r[1]
        },
{
    let h = m.side.mag_hard_iron;
    let v = [mag[0] - h[0], mag[1] - h[1], mag[2] - h[2]]@;
    let f = m.att.rotated(v);
    assert(mag[0] == mag[0] && mag[1] == mag[1] && mag[2] == mag[2]);
    assert forall|j: int| 0 <= j < 3 implies (#[trigger] v[j]).finite() by {
        assert(mag[j] == mag[j]);
    }
    crate::vehicle::law_level_turns_no_vector(v, 0);
    crate::vehicle::law_level_turns_no_vector(v, 1);
    super::nominal::lemma_same_worth(v[0], f[0], n[0], 0);
    super::nominal::lemma_same_worth(v[1], f[1], n[1], 0);
    let (rx, ry) = (m.side.mag_ref[0], m.side.mag_ref[1]);
    let (a, b, c, d) = (n[0], n[1], r[0], r[1]);
    crate::single::exact::law_worth_negated(f[0], a, 0);
    crate::vehicle::lemma_small_product(-a, d, 1024, 1024);
    crate::vehicle::lemma_small_product(b, c, 1024, 1024);
    crate::vehicle::lemma_small_product(a, c, 1024, 1024);
    crate::vehicle::lemma_small_product(b, d, 1024, 1024);
    crate::single::exact::law_worth_product(f[0].negated(), ry, -a, d, 0, 0);
    crate::single::exact::law_worth_product(f[1], rx, b, c, 0, 0);
    crate::single::exact::law_worth_sum(f[0].negated() * ry, f[1] * rx, (-a) * d, b * c, 0);
    crate::single::exact::law_worth_negated(
        f[0].negated() * ry + f[1] * rx,
        (-a) * d + b * c,
        0,
    );
    assert((-a) * d == -(a * d)) by (nonlinear_arith);
    crate::single::exact::law_worth_product(f[0], rx, a, c, 0, 0);
    crate::single::exact::law_worth_product(f[1], ry, b, d, 0, 0);
    crate::single::exact::law_worth_sum(f[0] * rx, f[1] * ry, a * c, b * d, 0);
    lemma_turned_onto(a, b, c, d);
}

proof fn lemma_turned_onto(a: int, b: int, c: int, d: int)
    ensures
        a * (a * c + b * d) - b * (a * d - b * c) == (a * a + b * b) * c,
        b * (a * c + b * d) + a * (a * d - b * c) == (a * a + b * b) * d,
{
    assert(a * (a * c + b * d) == a * a * c + a * b * d) by (nonlinear_arith);
    assert(b * (a * d - b * c) == a * b * d - b * b * c) by (nonlinear_arith);
    assert((a * a + b * b) * c == a * a * c + b * b * c) by (nonlinear_arith);
    assert(b * (a * c + b * d) == a * b * c + b * b * d) by (nonlinear_arith);
    assert(a * (a * d - b * c) == a * a * d - a * b * c) by (nonlinear_arith);
    assert((a * a + b * b) * d == a * a * d + b * b * d) by (nonlinear_arith);
}

/// Turning the heading turns a level attitude about the vertical and in the direction of the
/// turn, and teaches the vertical gyroscope as a correction does: a turn to the right means
/// that it has missed one.
pub proof fn law_heading_turns_its_way(
    m: EkfModel,
    less: Single,
    more: Single,
    half: HalfAngle,
    t: EkfTuning,
    up: bool,
)
    requires
        m.att == Quaternion::unit(),
        m.x.len() == 10,
        crate::single::laws::within(half.sin, 0),
        crate::single::laws::within(half.cos, 0),
        crate::single::signs::toward(up, half.sin),
        crate::single::laws::within(m.x[8], 10),
        crate::single::laws::within(less, 10),
        crate::single::laws::within(more, 10),
        crate::single::signs::ahead(up, less, more),
        crate::single::laws::within(t.gyro_bias_k, 10),
        crate::single::laws::within(m.side.last_dt, 0),
        crate::single::signs::beyond(true, m.side.last_dt, 20),
    ensures
        crate::single::signs::toward(up, m.headed(more, half, t).att.z),
        crate::single::signs::ahead(
            !up,
            m.headed(less, half, t).x[8],
            m.headed(more, half, t).x[8],
        ),
{
    let z = Single::of_int(0);
    let one = Single::of_int(1);
    vstd::arithmetic::power2::lemma2_to64();
    crate::single::arith::lemma_small_ints();
    crate::single::laws::lemma_one_magnitude();
    crate::single::laws::law_integer_within(1, 0);
    crate::single::laws::law_integer_within(0, 0);
    crate::single::signs::law_within_more(one, 0, 10);
    crate::single::signs::law_within_more(z, 0, 10);
    crate::single::signs::law_within_more(half.sin, 0, 10);
    crate::single::signs::law_within_more(half.cos, 0, 10);
    let axis = [z, z, one];
    assert forall|j: int| 0 <= j < 3 implies crate::single::laws::within(
        #[trigger] axis[j],
        10,
    ) by {}
    crate::rotation_laws::law_turn_goes_either_way(axis, half.sin, half.cos, 2, up);
    if z.less(t.gyro_bias_k) {
        law_correction_teaches(m.x[8], less, more, t.gyro_bias_k, m.side.last_dt, up);
    }
}

/// How much gravity is trusted. A force nearer to gravity in size, a direction nearer to the
/// estimated one and a slower turn never make it less.
pub proof fn law_trust_grows_with_calm(less: Single, more: Single)
    requires
        crate::single::laws::within(less, 39),
        crate::single::laws::within(more, 39),
        less.less_eq(more),
    ensures
        more.less(Single::of_int(1)) ==> super::ekf::size_weight(less).less_eq(
            super::ekf::size_weight(more),
        ),
        Single::of_int(1).less_eq(less) ==> super::ekf::size_weight(more).less_eq(
            super::ekf::size_weight(less),
        ),
        super::ekf::align_weight(less).less_eq(super::ekf::align_weight(more)),
{
    let half = Single::of_ratio(5, 10);
    let top = Single::of_ratio(25, 10);
    let wide = Single::of_ratio(15, 10);
    let edge = Single::of_ratio(90, 100);
    let tenth = Single::of_ratio(10, 100);
    let (z, one) = (Single::of_int(0), Single::of_int(1));
    lemma_ratios();
    vstd::arithmetic::power2::lemma2_to64();
    crate::single::arith::lemma_small_ints();
    crate::single::laws::law_integer_within(1, 0);
    crate::single::laws::lemma_one_magnitude();
    crate::single::laws::law_ratio_is_positive(5, 10);
    crate::single::laws::law_ratio_is_positive(90, 100);
    crate::single::signs::law_within_more(half, 0, 39);
    crate::single::signs::law_within_more(edge, 0, 39);
    lemma_ratio_within(25, 10, 2);
    lemma_ratio_beyond(25, 10, 0);
    assert(one.less_eq(top));
    crate::single::signs::law_within_more(top, 2, 39);
    crate::single::laws::lemma_within_is_finite(top, 39);
    crate::single::signs::law_difference_within(less, half, 39);
    crate::single::signs::law_difference_within(more, half, 39);
    crate::single::signs::law_difference_within(top, less, 39);
    crate::single::signs::law_difference_within(top, more, 39);
    crate::single::signs::law_difference_within(less, edge, 39);
    crate::single::signs::law_difference_within(more, edge, 39);
    crate::single::signs::law_difference_order(true, less, more, half);
    crate::single::signs::law_difference_order(true, less, more, top);
    crate::single::signs::law_difference_order(true, less, more, edge);
    lemma_over(less - half, half);
    lemma_over(more - half, half);
    lemma_over(top - less, wide);
    lemma_over(top - more, wide);
    lemma_over(less - edge, tenth);
    lemma_over(more - edge, tenth);
    crate::single::signs::law_quotient_order(true, less - half, more - half, half);
    crate::single::signs::law_quotient_order(false, top - less, top - more, wide);
    crate::single::signs::law_quotient_order(true, less - edge, more - edge, tenth);
    crate::single::signs::law_clamp_order(
        true,
        (less - half) / half,
        (more - half) / half,
        z,
        one,
    );
    crate::single::signs::law_clamp_order(
        false,
        (top - less) / wide,
        (top - more) / wide,
        z,
        one,
    );
    crate::single::signs::law_clamp_order(
        true,
        (less - edge) / tenth,
        (more - edge) / tenth,
        z,
        one,
    );
    lemma_fraction(z);
    lemma_fraction((less - half) / half);
    lemma_fraction((more - half) / half);
    lemma_fraction((top - less) / wide);
    lemma_fraction((top - more) / wide);
    lemma_fraction((less - edge) / tenth);
    lemma_fraction((more - edge) / tenth);
    crate::single::number::law_clamp_bounds(z, z, one);
    assert(super::ekf::fraction(z).same(z));
}

/// What fades is between one and zero.
proof fn lemma_fading(x: Single, full: Single)
    requires
        crate::single::laws::within(x, 39),
        crate::single::laws::within(full, 39),
        Single::of_int(0).less(full),
        crate::single::signs::beyond(true, full - full / Single::of_int(3), 60),
        (full - full / Single::of_int(3)).finite(),
        (full / Single::of_int(3)).finite(),
    ensures
        crate::single::signs::toward(true, super::ekf::fading(x, full)),
        super::ekf::fading(x, full).less_eq(Single::of_int(1)),
{
    let start = full / Single::of_int(3);
    crate::single::arith::lemma_small_ints();
    crate::single::laws::lemma_one_magnitude();
    crate::single::laws::lemma_within_is_finite(x, 39);
    crate::single::laws::lemma_within_is_finite(full, 39);
    crate::single::signs::law_beyond_is_toward(true, full - start, 60);
    if !x.less_eq(start) && !full.less_eq(x) {
        crate::single::signs::law_difference_points(true, x, full);
        crate::single::signs::law_difference_within(full, x, 39);
        crate::single::signs::law_quotient_points(true, full - x, full - start);
        crate::single::signs::law_difference_order(true, start, x, full);
        crate::single::laws::lemma_packed(false, (full - x).field());
        crate::single::laws::law_quotient_at_most_one(full - x, full - start);
        let q = (full - x) / (full - start);
        crate::single::laws::lemma_packed(false, q.field());
    }
}

/// A faster turn and a larger disturbance never make gravity trusted more.
pub proof fn law_trust_fades(less: Single, more: Single, full: Single)
    requires
        crate::single::laws::within(less, 39),
        crate::single::laws::within(more, 39),
        crate::single::laws::within(full, 39),
        less.less_eq(more),
        Single::of_int(0).less(full) ==> crate::single::signs::beyond(
            true,
            full - full / Single::of_int(3),
            60,
        ),
        super::ekf::spin_weight(more).less_eq(Single::of_int(1)),
    ensures
        super::ekf::fading(more, full).less_eq(super::ekf::fading(less, full)),
        crate::single::signs::toward(true, less) ==> super::ekf::spin_weight(more).less_eq(
            super::ekf::spin_weight(less),
        ),
{
    let start = full / Single::of_int(3);
    let slow = Single::of_ratio(6, 10);
    let span = Single::of_ratio(35, 100);
    lemma_ratios();
    vstd::arithmetic::power2::lemma2_to64();
    crate::single::arith::lemma_small_ints();
    crate::single::laws::lemma_one_magnitude();
    crate::single::laws::law_ratio_is_positive(6, 10);
    crate::single::laws::lemma_within_is_finite(full, 39);
    crate::single::laws::lemma_within_is_finite(less, 39);
    crate::single::laws::lemma_within_is_finite(more, 39);
    crate::single::exact::law_integer_worth(3);
    crate::single::exact::law_integer_worth(0);
    let p = vstd::arithmetic::power2::pow2(149);
    vstd::arithmetic::power2::lemma_pow2_pos(149);
    assert(3 * p >= p);
    assert(crate::single::signs::beyond(true, Single::of_int(3), 0));
    crate::single::signs::law_quotient_within(full, Single::of_int(3), 39, 0);
    crate::single::signs::law_difference_within(full, start, 39);
    crate::single::signs::law_difference_within(full, less, 39);
    crate::single::signs::law_difference_within(full, more, 39);
    crate::single::signs::law_difference_order(true, less, more, full);
    if Single::of_int(0).less(full) {
        crate::single::signs::law_beyond_is_toward(true, full - start, 60);
        crate::single::signs::law_quotient_order(
            false,
            full - less,
            full - more,
            full - start,
        );
        lemma_fading(less, full);
        lemma_fading(more, full);
    }
    if crate::single::signs::toward(true, less) {
        crate::single::signs::law_difference_order(true, less, more, slow);
        crate::single::signs::law_within_more(slow, 0, 39);
        crate::single::signs::law_difference_within(slow, less, 39);
        crate::single::signs::law_difference_within(slow, more, 39);
        crate::single::signs::law_beyond_is_toward(true, span, 2);
        crate::single::signs::law_quotient_order(false, slow - less, slow - more, span);
        if less.less(slow) {
            crate::single::signs::law_difference_points(true, less, slow);
            crate::single::signs::law_quotient_points(true, slow - less, span);
        }
        lemma_weights(less, less, less);
    }
}

/// The acceleration of the vehicle is taken off the force that it feels: in level attitude,
/// along each axis, the more the vehicle accelerates up the axis, the less of the force is
/// left.
pub proof fn law_motion_is_taken_off(
    side: EkfSide,
    f: [Single; 3],
    i: int,
    up: bool,
)
    requires
        0 <= i < 3,
        side.world_accel_trusted,
        forall|j: int|
            0 <= j < 3 ==> crate::single::laws::within(#[trigger] side.world_accel[j], 20),
        f[i].finite(),
        crate::single::signs::toward(up, side.world_accel[i]),
    ensures
        crate::single::signs::ahead(
            !up,
            f[i],
            side.resting_force(Quaternion::unit(), f)[i],
        ),
{
    let w = side.world_accel;
    let one = Single::of_int(1);
    let q = Quaternion::unit();
    crate::single::arith::lemma_small_ints();
    crate::single::laws::lemma_one_magnitude();
    assert forall|j: int| 0 <= j < 3 implies (#[trigger] w@[j]).finite() by {
        assert(crate::single::laws::within(w[j], 20));
        crate::single::laws::lemma_within_is_finite(w[j], 20);
    }
    crate::rotation_laws::lemma_level_back(w@, i);
    let b = q.conjugate().rotated(w@)[i];
    assert(b.same(w[i]));
    crate::single::signs::law_product_points(up, b, one);
    crate::single::signs::law_sum_moves(up, f[i], one * b);
    crate::single::signs::law_sum_moves(up, f[i], Single::of_int(0));
}

/// A velocity that has grown more since the last one was seen shows no less acceleration
/// along this axis.
pub proof fn law_gained_speed_is_acceleration(
    side: EkfSide,
    slow: [Single; 3],
    fast: [Single; 3],
    t: EkfTuning,
    i: int,
    up: bool,
)
    requires
        0 <= i < 3,
        Single::of_int(0).less(t.aw_gps),
        crate::single::signs::beyond(true, side.vel_obs_dt, 13),
        crate::single::laws::within(side.vel_obs_dt, 10),
        Single::of_ratio(1, 10000).less(side.vel_obs_dt),
        crate::single::laws::within(t.aw_tau, 10),
        crate::single::laws::within(slow[i], 20),
        crate::single::laws::within(fast[i], 20),
        crate::single::laws::within(side.prev_vel_obs[i], 20),
        crate::single::laws::within(side.world_accel[i], 20),
        super::ekf::least().less((slow[i] - side.prev_vel_obs[i]).magnitude_of()),
        super::ekf::least().less((fast[i] - side.prev_vel_obs[i]).magnitude_of()),
        crate::single::signs::ahead(up, slow[i], fast[i]),
    ensures
        crate::single::signs::ahead(
            up,
            side.accelerated(slow, t).world_accel[i],
            side.accelerated(fast, t).world_accel[i],
        ),
{
    let z = Single::of_int(0);
    let one = Single::of_int(1);
    let d = side.vel_obs_dt;
    let p = side.prev_vel_obs[i];
    let w = side.world_accel[i];
    vstd::arithmetic::power2::lemma2_to64();
    crate::single::arith::lemma_small_ints();
    crate::single::laws::lemma_one_magnitude();
    crate::single::laws::law_integer_within(1, 0);
    crate::single::laws::lemma_within_is_finite(d, 10);
    crate::single::laws::lemma_within_is_finite(p, 20);
    crate::single::laws::lemma_within_is_finite(w, 20);
    crate::single::signs::law_beyond_is_toward(true, d, 13);
    let inv = one / d;
    crate::single::signs::law_quotient_within(one, d, 0, 13);
    crate::single::signs::law_quotient_points(true, one, d);
    let (a, b) = (slow[i] - p, fast[i] - p);
    crate::single::signs::law_difference_within(slow[i], p, 20);
    crate::single::signs::law_difference_within(fast[i], p, 20);
    crate::single::signs::law_difference_order(up, slow[i], fast[i], p);
    crate::single::signs::law_product_order(up, a, b, inv);
    crate::single::laws::law_product_within(a, inv, 21, 13);
    crate::single::laws::law_product_within(b, inv, 21, 13);
    crate::single::signs::law_within_more(w, 20, 34);
    crate::single::signs::law_difference_within(a * inv, w, 34);
    crate::single::signs::law_difference_within(b * inv, w, 34);
    crate::single::signs::law_difference_order(up, a * inv, b * inv, w);
    let quarter = Single::of_ratio(25, 100);
    crate::single::laws::law_ratio_is_positive(25, 100);
    let tau = if z.less(t.aw_tau) {
        t.aw_tau
    } else {
        quarter
    };
    crate::single::signs::law_within_more(quarter, 0, 10);
    crate::single::laws::law_sum_within(tau, d, 10);
    crate::single::laws::lemma_within_is_finite(tau, 10);
    crate::single::signs::law_sum_beyond(true, d, tau, 13);
    crate::single::signs::law_beyond_is_toward(true, tau + d, 13);
    crate::single::signs::law_quotient_within(d, tau + d, 10, 13);
    let share = super::ekf::fraction(d / (tau + d));
    lemma_fraction(d / (tau + d));
    crate::single::laws::lemma_within_is_finite(share, 4);
    crate::single::signs::law_product_order(up, a * inv - w, b * inv - w, share);
    crate::single::laws::law_product_within(share, a * inv - w, 4, 35);
    crate::single::laws::law_product_within(share, b * inv - w, 4, 35);
    crate::single::signs::law_sum_order(
        up,
        share * (a * inv - w),
        share * (b * inv - w),
        w,
    );
}

/// The rotation towards the expected field goes from the field as seen to the expected one:
/// its axis is their cross product, each brought to unit length, and so stands upright on
/// both.
pub proof fn law_field_turns_to_expected(m: EkfModel, f: Seq<Single>, t: EkfTuning, i: int)
    requires
        0 <= i < 3,
    ensures
        m.tilt_to_field(f, t) matches Some(s) ==> {
            let r = m.side.mag_ref3d;
            let seen = super::ekf::length3([f[0], f[1], f[2]]);
            let known = super::ekf::length3(r);
            let a = seq![f[0] / seen, f[1] / seen, f[2] / seen];
            let b = seq![r[0] / known, r[1] / known, r[2] / known];
            &&& s.axis[i] == super::eskf::cross(a, b)[i]
            &&& s.s == super::ekf::length3(s.axis)
        },
{
}

/// The wind is what the airflow that the lean shows leaves of the velocity: a faster vehicle
/// shows no less wind along the axis that it moves on, and one that leans shows more wind the
/// way that its lower axis leans than its velocity alone would.
pub proof fn law_wind_is_rest_of_speed(
    side: EkfSide,
    att: Quaternion,
    v: [Single; 2],
    w: [Single; 2],
    i: int,
    up: bool,
    lean: bool,
)
    requires
        i == 0 || i == 1,
        crate::single::laws::within(side.drag_k, 10) && crate::single::signs::beyond(
            true,
            side.drag_k,
            20,
        ),
        crate::single::laws::within(side.g_ref, 10) && crate::single::signs::toward(
            true,
            side.g_ref,
        ),
        crate::single::laws::within(side.wind_est[i], 10),
        crate::single::laws::within(v[i], 20),
        crate::single::laws::within(w[i], 20),
        crate::single::signs::ahead(up, v[i], w[i]),
        ({
            let u = att.rotated(super::nominal::basis(2));
            &&& crate::single::laws::within(u[0], 1)
            &&& crate::single::laws::within(u[1], 1)
            &&& crate::single::laws::within(u[2], 1)
            &&& crate::single::signs::toward(lean, u[i])
            &&& Single::of_ratio(1, 1000).less((u[0] * u[0] + u[1] * u[1]).root())
            &&& Single::of_ratio(1, 1000).less(u[2].magnitude_of())
        }),
    ensures
        crate::single::signs::ahead(
            up,
            side.wind_after(att, v[0], v[1])[i],
            side.wind_after(att, w[0], w[1])[i],
        ),
        crate::single::signs::ahead(
            lean,
            (side.wind_est[i] + Single::of_ratio(2, 100) * (v[i] - side.wind_est[i])).clamped(
                Single::of_int(-30),
                Single::of_int(30),
            ),
            side.wind_after(att, v[0], v[1])[i],
        ),
{
    let z = Single::of_int(0);
    let small = Single::of_ratio(1, 1000);
    let share = Single::of_ratio(2, 100);
    let (low, high) = (Single::of_int(-30), Single::of_int(30));
    let u = att.rotated(super::nominal::basis(2));
    let hn = (u[0] * u[0] + u[1] * u[1]).root();
    let m = u[2].magnitude_of();
    vstd::arithmetic::power2::lemma2_to64();
    crate::single::arith::lemma_small_ints();
    lemma_ratios();
    crate::single::laws::law_ratio_is_positive(2, 100);
    crate::single::exact::law_integer_worth(-30);
    crate::single::exact::law_integer_worth(30);
    crate::single::exact::law_worth_order(low, high, -30, 30, 0);
    // The length of the lean.
    crate::single::signs::law_within_more(u[0], 1, 10);
    crate::single::signs::law_within_more(u[1], 1, 10);
    lemma_square(u[0]);
    lemma_square(u[1]);
    crate::single::laws::law_product_within(u[0], u[0], 1, 1);
    crate::single::laws::law_product_within(u[1], u[1], 1, 1);
    crate::single::laws::law_sum_within(u[0] * u[0], u[1] * u[1], 2);
    crate::single::signs::law_sum_points(true, u[0] * u[0], u[1] * u[1]);
    crate::single::signs::law_within_more(u[0] * u[0] + u[1] * u[1], 3, 4);
    crate::single::root::law_root_within(u[0] * u[0] + u[1] * u[1], 2);
    crate::single::signs::law_ahead_of_beyond(true, small, hn, 10);
    crate::single::signs::law_beyond_is_toward(true, hn, 10);
    // The airflow.
    crate::single::laws::lemma_packed(false, u[2].field());
    crate::single::signs::law_ahead_of_beyond(true, small, m, 10);
    crate::single::laws::lemma_within_is_finite(u[2], 1);
    assert(m.finite() && m.magnitude() == u[2].magnitude());
    crate::single::signs::law_beyond_is_toward(true, m, 10);
    crate::single::signs::law_quotient_within(hn, m, 2, 10);
    let tan = hn / m;
    crate::single::laws::law_product_within(side.g_ref, tan, 10, 12);
    crate::single::laws::lemma_within_is_finite(side.drag_k, 10);
    crate::single::signs::law_beyond_is_toward(true, side.drag_k, 20);
    crate::single::signs::law_quotient_within(side.g_ref * tan, side.drag_k, 22, 20);
    let x = (side.g_ref * tan / side.drag_k).larger(z);
    crate::single::laws::law_integer_within(0, 0);
    crate::single::signs::law_within_more(z, 0, 42);
    assert(crate::single::laws::within(x, 42) && crate::single::signs::toward(true, x));
    crate::single::root::law_root_within(x, 21);
    let flow = x.root();
    // The part of the airflow along the axis.
    let n = u[i].negated();
    crate::single::signs::lemma_negated(u[i]);
    crate::single::signs::law_negated_points_back(lean, u[i]);
    crate::single::laws::lemma_within_is_finite(u[i], 1);
    crate::single::signs::law_quotient_within(n, hn, 1, 10);
    crate::single::signs::law_quotient_points(!lean, n, hn);
    let part = n / hn * flow;
    crate::single::laws::law_product_within(n / hn, flow, 11, 21);
    crate::single::signs::law_product_points(!lean, n / hn, flow);
    // The wind.
    crate::single::laws::lemma_within_is_finite(v[i], 20);
    crate::single::laws::lemma_within_is_finite(w[i], 20);
    crate::single::signs::law_difference_order(up, v[i], w[i], part);
    crate::single::signs::law_sum_moves(!lean, v[i], part);
    crate::single::signs::law_within_more(v[i], 20, 32);
    crate::single::signs::law_within_more(w[i], 20, 32);
    crate::single::signs::law_difference_within(v[i], part, 32);
    crate::single::signs::law_difference_within(w[i], part, 32);
    lemma_wind_eased(side.wind_est[i], v[i] - part, w[i] - part, up);
    crate::single::signs::law_within_more(v[i], 32, 33);
    lemma_wind_eased(side.wind_est[i], v[i], v[i] - part, lean);
}

/// A smoothed wind keeps the order of what it is smoothed from.
proof fn lemma_wind_eased(old: Single, a: Single, b: Single, up: bool)
    requires
        crate::single::laws::within(old, 10),
        crate::single::laws::within(a, 33),
        crate::single::laws::within(b, 33),
        crate::single::signs::ahead(up, a, b),
    ensures
        ({
            let s = Single::of_ratio(2, 100);
            let (low, high) = (Single::of_int(-30), Single::of_int(30));
            crate::single::signs::ahead(
                up,
                (old + s * (a - old)).clamped(low, high),
                (old + s * (b - old)).clamped(low, high),
            )
        }),
{
    let s = Single::of_ratio(2, 100);
    let (low, high) = (Single::of_int(-30), Single::of_int(30));
    crate::single::arith::lemma_small_ints();
    crate::single::laws::law_ratio_is_positive(2, 100);
    crate::single::exact::law_integer_worth(-30);
    crate::single::exact::law_integer_worth(30);
    crate::single::exact::law_worth_order(low, high, -30, 30, 0);
    crate::single::laws::lemma_within_is_finite(old, 10);
    crate::single::signs::law_within_more(old, 10, 33);
    crate::single::signs::law_difference_order(up, a, b, old);
    crate::single::signs::law_difference_within(a, old, 33);
    crate::single::signs::law_difference_within(b, old, 33);
    crate::single::signs::law_product_order(up, a - old, b - old, s);
    crate::single::laws::law_product_within(s, a - old, 0, 34);
    crate::single::laws::law_product_within(s, b - old, 0, 34);
    crate::single::signs::law_sum_order(up, s * (a - old), s * (b - old), old);
    crate::single::signs::law_clamp_order(
        up,
        old + s * (a - old),
        old + s * (b - old),
        low,
        high,
    );
}

} // verus!
