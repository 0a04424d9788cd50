//! What rotations do, seen from outside: about which axis and in which direction they turn.

use crate::single::Single;
use crate::vehicle::Quaternion;
use vstd::prelude::*;

verus! {

/// The product of two integers is exact.
pub proof fn lemma_whole_product(a: Single, b: Single, m: int, n: int, i: int, j: int)
    requires
        crate::single::exact::worth(a, m, 0),
        crate::single::exact::worth(b, n, 0),
        crate::vehicle::small(m, i),
        crate::vehicle::small(n, j),
        0 <= i,
        0 <= j,
        i * j <= 0x100_0000,
    ensures
        crate::single::exact::worth(a * b, m * n, 0),
        crate::vehicle::small(m * n, i * j),
{
    crate::vehicle::lemma_small_product(m, n, i, j);
    crate::single::exact::law_worth_product(a, b, m, n, 0, 0);
}

/// The double of a difference of two products of integers.
proof fn lemma_whole_double(
    a: Single,
    b: Single,
    c: Single,
    d: Single,
    k: int,
    l: int,
    m: int,
    n: int,
)
    requires
        crate::single::exact::worth(a, k, 0) && crate::single::exact::worth(b, l, 0),
        crate::single::exact::worth(c, m, 0) && crate::single::exact::worth(d, n, 0),
        crate::vehicle::small(k, 64) && crate::vehicle::small(l, 64),
        crate::vehicle::small(m, 64) && crate::vehicle::small(n, 64),
    ensures
        crate::single::exact::worth(Single::of_int(2) * (a * b - c * d), 2 * (k * l - m * n), 0),
        crate::vehicle::small(2 * (k * l - m * n), 0x4000),
{
    lemma_whole_product(a, b, k, l, 64, 64);
    lemma_whole_product(c, d, m, n, 64, 64);
    crate::single::exact::law_integer_worth(2);
    crate::single::exact::law_worth_difference(a * b, c * d, k * l, m * n, 0);
    lemma_whole_product(Single::of_int(2), a * b - c * d, 2, k * l - m * n, 2, 8192);
}

/// A component of a turned vector with integer components.
proof fn lemma_whole_component(
    v: Single,
    w: Single,
    t: Single,
    a: Single,
    p: Single,
    b: Single,
    q: Single,
    iv: int,
    iw: int,
    it: int,
    ia: int,
    ip: int,
    ib: int,
    iq: int,
)
    requires
        crate::single::exact::worth(v, iv, 0) && crate::vehicle::small(iv, 64),
        crate::single::exact::worth(w, iw, 0) && crate::vehicle::small(iw, 64),
        crate::single::exact::worth(a, ia, 0) && crate::vehicle::small(ia, 64),
        crate::single::exact::worth(b, ib, 0) && crate::vehicle::small(ib, 64),
        crate::single::exact::worth(t, it, 0) && crate::vehicle::small(it, 0x4000),
        crate::single::exact::worth(p, ip, 0) && crate::vehicle::small(ip, 0x4000),
        crate::single::exact::worth(q, iq, 0) && crate::vehicle::small(iq, 0x4000),
    ensures
        crate::single::exact::worth(
            v + w * t + (a * p - b * q),
            iv + iw * it + (ia * ip - ib * iq),
            0,
        ),
{
    lemma_whole_product(w, t, iw, it, 64, 0x4000);
    lemma_whole_product(a, p, ia, ip, 64, 0x4000);
    lemma_whole_product(b, q, ib, iq, 64, 0x4000);
    crate::single::exact::law_worth_sum(v, w * t, iv, iw * it, 0);
    crate::single::exact::law_worth_difference(a * p, b * q, ia * ip, ib * iq, 0);
    crate::single::exact::law_worth_sum(
        v + w * t,
        a * p - b * q,
        iv + iw * it,
        ia * ip - ib * iq,
        0,
    );
}

/// A vector with integer components, turned by a rotation with integer components.
pub proof fn lemma_rotated_whole(
    r: Quaternion,
    v: Seq<Single>,
    w: int,
    x: int,
    y: int,
    z: int,
    a: int,
    b: int,
    c: int,
)
    requires
        crate::vehicle::whole(r, w, x, y, z),
        crate::vehicle::small(w, 64) && crate::vehicle::small(x, 64),
        crate::vehicle::small(y, 64) && crate::vehicle::small(z, 64),
        crate::single::exact::worth(v[0], a, 0) && crate::vehicle::small(a, 64),
        crate::single::exact::worth(v[1], b, 0) && crate::vehicle::small(b, 64),
        crate::single::exact::worth(v[2], c, 0) && crate::vehicle::small(c, 64),
    ensures
        ({
            let tx = 2 * (y * c - z * b);
            let ty = 2 * (z * a - x * c);
            let tz = 2 * (x * b - y * a);
            &&& crate::single::exact::worth(r.rotated(v)[0], a + w * tx + (y * tz - z * ty), 0)
            &&& crate::single::exact::worth(r.rotated(v)[1], b + w * ty + (z * tx - x * tz), 0)
            &&& crate::single::exact::worth(r.rotated(v)[2], c + w * tz + (x * ty - y * tx), 0)
        }),
{
    let two = Single::of_int(2);
    let tx = two * (r.y * v[2] - r.z * v[1]);
    let ty = two * (r.z * v[0] - r.x * v[2]);
    let tz = two * (r.x * v[1] - r.y * v[0]);
    let (ix, iy, iz) = (2 * (y * c - z * b), 2 * (z * a - x * c), 2 * (x * b - y * a));
    lemma_whole_double(r.y, v[2], r.z, v[1], y, c, z, b);
    lemma_whole_double(r.z, v[0], r.x, v[2], z, a, x, c);
    lemma_whole_double(r.x, v[1], r.y, v[0], x, b, y, a);
    lemma_whole_component(v[0], r.w, tx, r.y, tz, r.z, ty, a, w, ix, y, iz, z, iy);
    lemma_whole_component(v[1], r.w, ty, r.z, tx, r.x, tz, b, w, iy, z, ix, x, iz);
    lemma_whole_component(v[2], r.w, tz, r.x, ty, r.y, tx, c, w, iz, x, iy, y, ix);
}

/// The axis after `i`.
pub open spec fn after(i: int) -> int {
    (i + 1) % 3
}

/// A rotation about one axis leaves what lies along it, and turns the next axis towards the
/// one after it. With `w` and `s` for the cosine and the sine of half the angle, `2 w s` is
/// the sine and `1 - 2 s s` the cosine of the angle; here for all integers that leave no
/// rounding.
pub proof fn law_turns_about_axis(
    r: Quaternion,
    v: Seq<Single>,
    w: int,
    s: int,
    n: [int; 3],
    i: int,
)
    requires
        0 <= i < 3,
        crate::vehicle::whole(
            r,
            w,
            if i == 0 {
                s
            } else {
                0
            },
            if i == 1 {
                s
            } else {
                0
            },
            if i == 2 {
                s
            } else {
                0
            },
        ),
        crate::vehicle::small(w, 64) && crate::vehicle::small(s, 64),
        forall|j: int| 0 <= j < 3 ==> crate::single::exact::worth(#[trigger] v[j], n[j], 0),
        forall|j: int| 0 <= j < 3 ==> crate::vehicle::small(#[trigger] n[j], 64),
    ensures
        ({
            let j = after(i);
            let k = after(j);
            let sin = 2 * w * s;
            let cos = 1 - 2 * s * s;
            &&& crate::single::exact::worth(r.rotated(v)[i], n[i], 0)
            &&& crate::single::exact::worth(r.rotated(v)[j], cos * n[j] - sin * n[k], 0)
            &&& crate::single::exact::worth(r.rotated(v)[k], sin * n[j] + cos * n[k], 0)
        }),
{
    assert(crate::single::exact::worth(v[0], n[0], 0) && crate::single::exact::worth(v[1], n[1], 0)
        && crate::single::exact::worth(v[2], n[2], 0));
    assert(crate::vehicle::small(n[0], 64) && crate::vehicle::small(n[1], 64)
        && crate::vehicle::small(n[2], 64));
    let x = if i == 0 {
        s
    } else {
        0
    };
    let y = if i == 1 {
        s
    } else {
        0
    };
    let z = if i == 2 {
        s
    } else {
        0
    };
    lemma_rotated_whole(r, v, w, x, y, z, n[0], n[1], n[2]);
    let b = n[after(i)];
    let c = n[after(after(i))];
    lemma_angle(w, s, b, c);
    assert(w * 0 == 0 && s * 0 == 0);
}

/// Double angles.
proof fn lemma_angle(w: int, s: int, b: int, c: int)
    ensures
        (1 - 2 * s * s) * b - 2 * w * s * c == b + w * (2 * (0 - s * c)) + (0 - s * (2 * (s * b))),
        2 * w * s * b + (1 - 2 * s * s) * c == c + w * (2 * (s * b - 0)) + (s * (2 * (0 - s * c))
            - 0),
{
    assert((1 - 2 * s * s) * b - 2 * w * s * c == b + w * (2 * (0 - s * c)) + (0 - s * (2 * (s
        * b)))) by (nonlinear_arith);
    assert(2 * w * s * b + (1 - 2 * s * s) * c == c + w * (2 * (s * b - 0)) + (s * (2 * (0 - s
        * c)) - 0)) by (nonlinear_arith);
}

/// Roll, pitch and yaw are made about the axes of the body, yaw first: the rotation is that
/// of yaw after that of pitch after that of roll; here for all integers that leave no
/// rounding.
pub proof fn law_angles_are_made_in_turn(
    sr: Single,
    cr: Single,
    sp: Single,
    cp: Single,
    sy: Single,
    cy: Single,
    n: [int; 6],
)
    requires
        crate::single::exact::worth(sr, n[0], 0) && crate::vehicle::small(n[0], 64),
        crate::single::exact::worth(cr, n[1], 0) && crate::vehicle::small(n[1], 64),
        crate::single::exact::worth(sp, n[2], 0) && crate::vehicle::small(n[2], 64),
        crate::single::exact::worth(cp, n[3], 0) && crate::vehicle::small(n[3], 64),
        crate::single::exact::worth(sy, n[4], 0) && crate::vehicle::small(n[4], 64),
        crate::single::exact::worth(cy, n[5], 0) && crate::vehicle::small(n[5], 64),
    ensures
        ({
            let z = Single::of_int(0);
            let one = Single::of_int(1);
            let roll = Quaternion::of_turn([one, z, z], sr, cr);
            let pitch = Quaternion::of_turn([z, one, z], sp, cp);
            let yaw = Quaternion::of_turn([z, z, one], sy, cy);
            Quaternion::of_half_angles(sr, cr, sp, cp, sy, cy).alike(
                yaw.times(pitch.times(roll)),
            )
        }),
{
    let z = Single::of_int(0);
    let one = Single::of_int(1);
    let roll = Quaternion::of_turn([one, z, z], sr, cr);
    let pitch = Quaternion::of_turn([z, one, z], sp, cp);
    let yaw = Quaternion::of_turn([z, z, one], sy, cy);
    let (a, b, c, d, e, f) = (n[0], n[1], n[2], n[3], n[4], n[5]);
    crate::single::exact::law_integer_worth(0);
    crate::single::exact::law_integer_worth(1);
    lemma_whole_product(one, sr, 1, a, 1, 64);
    lemma_whole_product(z, sr, 0, a, 0, 64);
    lemma_whole_product(one, sp, 1, c, 1, 64);
    lemma_whole_product(z, sp, 0, c, 0, 64);
    lemma_whole_product(one, sy, 1, e, 1, 64);
    lemma_whole_product(z, sy, 0, e, 0, 64);
    crate::vehicle::lemma_times_whole(pitch, roll, d, 0, c, 0, b, a, 0, 0, 64, 64);
    let q = pitch.times(roll);
    assert(crate::vehicle::whole(q, d * b, d * a, c * b, -(c * a)));
    crate::vehicle::lemma_small_product(d, b, 64, 64);
    crate::vehicle::lemma_small_product(d, a, 64, 64);
    crate::vehicle::lemma_small_product(c, b, 64, 64);
    crate::vehicle::lemma_small_product(c, a, 64, 64);
    let (p0, p1, p2, p3) = (d * b, d * a, c * b, -(c * a));
    crate::vehicle::lemma_times_whole(yaw, q, f, 0, 0, e, p0, p1, p2, p3, 64, 4096);
    let h = Quaternion::of_half_angles(sr, cr, sp, cp, sy, cy);
    let u = yaw.times(q);
    lemma_triples(cr, cp, cy, sr, sp, sy, b, d, f, a, c, e, true);
    lemma_triples(sr, cp, cy, cr, sp, sy, a, d, f, b, c, e, false);
    lemma_triples(cr, sp, cy, sr, cp, sy, b, c, f, a, d, e, true);
    lemma_triples(cr, cp, sy, sr, sp, cy, b, d, e, a, c, f, false);
    assert(b * d * f + a * c * e == f * p0 - e * p3) by (nonlinear_arith)
        requires
            p0 == d * b,
            p3 == -(c * a),
    ;
    assert(a * d * f - b * c * e == f * p1 - e * p2) by (nonlinear_arith)
        requires
            p1 == d * a,
            p2 == c * b,
    ;
    assert(b * c * f + a * d * e == f * p2 + e * p1) by (nonlinear_arith)
        requires
            p1 == d * a,
            p2 == c * b,
    ;
    assert(b * d * e - a * c * f == f * p3 + e * p0) by (nonlinear_arith)
        requires
            p0 == d * b,
            p3 == -(c * a),
    ;
    assert(0 * p0 == 0 && 0 * p1 == 0 && 0 * p2 == 0 && 0 * p3 == 0);
}

/// A sum or a difference of two products of three integers.
proof fn lemma_triples(
    x: Single,
    y: Single,
    z: Single,
    u: Single,
    v: Single,
    w: Single,
    a: int,
    b: int,
    c: int,
    d: int,
    e: int,
    f: int,
    plus: bool,
)
    requires
        crate::single::exact::worth(x, a, 0) && crate::vehicle::small(a, 64),
        crate::single::exact::worth(y, b, 0) && crate::vehicle::small(b, 64),
        crate::single::exact::worth(z, c, 0) && crate::vehicle::small(c, 64),
        crate::single::exact::worth(u, d, 0) && crate::vehicle::small(d, 64),
        crate::single::exact::worth(v, e, 0) && crate::vehicle::small(e, 64),
        crate::single::exact::worth(w, f, 0) && crate::vehicle::small(f, 64),
    ensures
        plus ==> crate::single::exact::worth(x * y * z + u * v * w, a * b * c + d * e * f, 0),
        !plus ==> crate::single::exact::worth(x * y * z - u * v * w, a * b * c - d * e * f, 0),
{
    lemma_whole_product(x, y, a, b, 64, 64);
    lemma_whole_product(x * y, z, a * b, c, 4096, 64);
    lemma_whole_product(u, v, d, e, 64, 64);
    lemma_whole_product(u * v, w, d * e, f, 4096, 64);
    if plus {
        crate::single::exact::law_worth_sum(x * y * z, u * v * w, a * b * c, d * e * f, 0);
    } else {
        crate::single::exact::law_worth_difference(
            x * y * z,
            u * v * w,
            a * b * c,
            d * e * f,
            0,
        );
    }
}

/// Squares of equal numbers are the same number.
proof fn lemma_same_square(a: Single, b: Single)
    requires
        a.same(b),
        a.finite(),
        b.finite(),
    ensures
        a * a == b * b,
{
    reveal(Single::product);
    assert(a.magnitude() == b.magnitude());
}

/// Rotations with equal components are the same rotation at unit length.
proof fn lemma_unit_alike(a: Quaternion, b: Quaternion)
    requires
        a.alike(b),
        crate::single::laws::within(a.w, 20) && crate::single::laws::within(b.w, 20),
        crate::single::laws::within(a.x, 20) && crate::single::laws::within(b.x, 20),
        crate::single::laws::within(a.y, 20) && crate::single::laws::within(b.y, 20),
        crate::single::laws::within(a.z, 20) && crate::single::laws::within(b.z, 20),
    ensures
        a.unit_of().alike(b.unit_of()),
{
    let n = a.squared().root();
    lemma_square(a.w);
    lemma_square(a.x);
    lemma_square(a.y);
    lemma_square(a.z);
    lemma_square(b.w);
    lemma_square(b.x);
    lemma_square(b.y);
    lemma_square(b.z);
    lemma_same_square(a.w, b.w);
    lemma_same_square(a.x, b.x);
    lemma_same_square(a.y, b.y);
    lemma_same_square(a.z, b.z);
    assert(a.squared() == b.squared());
    let (w, x, y, z) = (a.w * a.w, a.x * a.x, a.y * a.y, a.z * a.z);
    crate::single::laws::law_sum_within(w, x, 40);
    crate::single::signs::law_within_more(y, 40, 41);
    crate::single::laws::law_sum_within(w + x, y, 41);
    crate::single::signs::law_within_more(z, 40, 42);
    crate::single::laws::law_sum_within(w + x + y, z, 42);
    crate::single::signs::law_sum_points(true, w, x);
    crate::single::signs::law_sum_points(true, w + x, y);
    crate::single::signs::law_sum_points(true, w + x + y, z);
    crate::single::signs::law_within_more(a.squared(), 43, 44);
    crate::single::root::law_root_within(a.squared(), 22);
    crate::single::arith::lemma_small_ints();
    crate::single::laws::lemma_one_magnitude();
    if Single::of_int(0).less(n) {
        crate::vehicle::lemma_same_quotient(a.w, b.w, n);
        crate::vehicle::lemma_same_quotient(a.x, b.x, n);
        crate::vehicle::lemma_same_quotient(a.y, b.y, n);
        crate::vehicle::lemma_same_quotient(a.z, b.z, n);
    }
}

/// A square is not negative.
proof fn lemma_square(x: Single)
    requires
        crate::single::laws::within(x, 20),
    ensures
        x.finite(),
        (x * x).finite(),
        crate::single::laws::within(x * x, 40),
        crate::single::signs::toward(true, x * x),
{
    crate::single::arith::lemma_small_ints();
    crate::single::laws::lemma_within_is_finite(x, 20);
    crate::single::laws::law_product_within(x, x, 20, 20);
    if crate::single::signs::toward(true, x) {
        crate::single::signs::law_product_points(true, x, x);
    } else {
        crate::single::signs::law_product_points_back(false, x, x);
    }
}

/// Half of an even integer.
pub proof fn lemma_whole_half(x: Single, n: int)
    requires
        crate::single::exact::worth(x, 2 * n, 0),
        crate::vehicle::small(n, 64),
    ensures
        crate::single::exact::worth(Single::of_ratio(5, 10) * x, n, 0),
{
    let p = vstd::arithmetic::power2::pow2(148);
    crate::single::exact::law_half_worth();
    crate::single::exact::law_worth_product(Single::of_ratio(5, 10), x, 1, 2 * n, 1, 0);
    vstd::arithmetic::power2::lemma_pow2_unfold(149);
    assert((2 * n) * p == n * (2 * p)) by (nonlinear_arith);
}

/// An integer of ordinary size.
pub proof fn lemma_whole_within(x: Single, n: int)
    requires
        crate::single::exact::worth(x, n, 0),
        crate::vehicle::small(n, 0x10_0000),
    ensures
        crate::single::laws::within(x, 20),
{
    let p = vstd::arithmetic::power2::pow2(149);
    vstd::arithmetic::power2::lemma_pow2_adds(20, 149);
    vstd::arithmetic::power2::lemma2_to64();
    assert(-(0x10_0000 * p) <= n * p <= 0x10_0000 * p) by (nonlinear_arith)
        requires
            -0x10_0000 <= n <= 0x10_0000,
            p >= 0,
    ;
}

/// A change of a component: what it is, and a time times what three rates do to it.
proof fn lemma_changed(
    q: Single,
    h: Single,
    a: Single,
    u: Single,
    b: Single,
    v: Single,
    c: Single,
    w: Single,
    iq: int,
    n: int,
    ia: int,
    iu: int,
    ib: int,
    iv: int,
    ic: int,
    iw: int,
    way: int,
)
    requires
        crate::single::exact::worth(q, iq, 0) && crate::vehicle::small(iq, 32),
        crate::single::exact::worth(h, n, 0) && crate::vehicle::small(n, 32),
        crate::single::exact::worth(a, ia, 0) && crate::vehicle::small(ia, 32),
        crate::single::exact::worth(u, iu, 0) && crate::vehicle::small(iu, 32),
        crate::single::exact::worth(b, ib, 0) && crate::vehicle::small(ib, 32),
        crate::single::exact::worth(v, iv, 0) && crate::vehicle::small(iv, 32),
        crate::single::exact::worth(c, ic, 0) && crate::vehicle::small(ic, 32),
        crate::single::exact::worth(w, iw, 0) && crate::vehicle::small(iw, 32),
    ensures
        way == 0 ==> crate::single::exact::worth(
            q + h * ((a * u + b * v + c * w).negated()),
            iq + n * (-(ia * iu + ib * iv + ic * iw)),
            0,
        ),
        way == 1 ==> crate::single::exact::worth(
            q + h * (a * u + b * v - c * w),
            iq + n * (ia * iu + ib * iv - ic * iw),
            0,
        ),
        way == 2 ==> crate::single::exact::worth(
            q + h * (a * u - b * v + c * w),
            iq + n * (ia * iu - ib * iv + ic * iw),
            0,
        ),
        crate::vehicle::small(n * (-(ia * iu + ib * iv + ic * iw)), 0x18000),
        crate::vehicle::small(n * (ia * iu + ib * iv - ic * iw), 0x18000),
        crate::vehicle::small(n * (ia * iu - ib * iv + ic * iw), 0x18000),
{
    lemma_whole_product(a, u, ia, iu, 32, 32);
    lemma_whole_product(b, v, ib, iv, 32, 32);
    lemma_whole_product(c, w, ic, iw, 32, 32);
    let (p, r, s) = (ia * iu, ib * iv, ic * iw);
    crate::single::exact::law_worth_sum(a * u, b * v, p, r, 0);
    crate::single::exact::law_worth_difference(a * u, b * v, p, r, 0);
    crate::single::exact::law_worth_sum(a * u + b * v, c * w, p + r, s, 0);
    crate::single::exact::law_worth_negated(a * u + b * v + c * w, p + r + s, 0);
    crate::single::exact::law_worth_difference(a * u + b * v, c * w, p + r, s, 0);
    crate::single::exact::law_worth_sum(a * u - b * v, c * w, p - r, s, 0);
    let x = (a * u + b * v + c * w).negated();
    let y = a * u + b * v - c * w;
    let z = a * u - b * v + c * w;
    lemma_whole_product(h, x, n, -(p + r + s), 32, 3072);
    lemma_whole_product(h, y, n, p + r - s, 32, 3072);
    lemma_whole_product(h, z, n, p - r + s, 32, 3072);
    crate::single::exact::law_worth_sum(q, h * x, iq, n * (-(p + r + s)), 0);
    crate::single::exact::law_worth_sum(q, h * y, iq, n * (p + r - s), 0);
    crate::single::exact::law_worth_sum(q, h * z, iq, n * (p - r + s), 0);
}

/// Turning with body rates for a time is the small rotation that they sweep, made before the
/// attitude: half of the angle swept about each axis beside one. The attitude may be any;
/// here for all integers that leave no rounding, with `2 n` for the time.
pub proof fn law_rates_turn_the_body(
    q: Quaternion,
    rates: [Single; 3],
    dt: Single,
    d: Quaternion,
    a: [int; 4],
    w: [int; 3],
    n: int,
)
    requires
        crate::vehicle::whole(q, a[0], a[1], a[2], a[3]),
        forall|i: int| 0 <= i < 4 ==> crate::vehicle::small(#[trigger] a[i], 32),
        forall|i: int| 0 <= i < 3 ==> crate::single::exact::worth(#[trigger] rates[i], w[i], 0),
        forall|i: int| 0 <= i < 3 ==> crate::vehicle::small(#[trigger] w[i], 32),
        crate::single::exact::worth(dt, 2 * n, 0),
        crate::vehicle::small(n, 32),
        crate::vehicle::whole(d, 1, n * w[0], n * w[1], n * w[2]),
    ensures
        q.turned(rates, dt).alike(q.times(d).unit_of()),
{
    let h = Single::of_ratio(5, 10) * dt;
    lemma_whole_half(dt, n);
    let (aw, ax, ay, az) = (a[0], a[1], a[2], a[3]);
    let (u, v, r) = (w[0], w[1], w[2]);
    assert(crate::vehicle::small(aw, 32) && crate::vehicle::small(ax, 32) && crate::vehicle::small(
        ay,
        32,
    ) && crate::vehicle::small(az, 32));
    assert(crate::vehicle::small(u, 32) && crate::vehicle::small(v, 32) && crate::vehicle::small(
        r,
        32,
    ));
    let (s0, s1, s2) = (rates[0], rates[1], rates[2]);
    assert(crate::single::exact::worth(s0, u, 0) && crate::single::exact::worth(s1, v, 0)
        && crate::single::exact::worth(s2, r, 0));
    let t = Quaternion {
        w: q.w + h * ((q.x * s0 + q.y * s1 + q.z * s2).negated()),
        x: q.x + h * (q.w * s0 + q.y * s2 - q.z * s1),
        y: q.y + h * (q.w * s1 - q.x * s2 + q.z * s0),
        z: q.z + h * (q.w * s2 + q.x * s1 - q.y * s0),
    };
    lemma_changed(q.w, h, q.x, s0, q.y, s1, q.z, s2, aw, n, ax, u, ay, v, az, r, 0);
    lemma_changed(q.x, h, q.w, s0, q.y, s2, q.z, s1, ax, n, aw, u, ay, r, az, v, 1);
    lemma_changed(q.y, h, q.w, s1, q.x, s2, q.z, s0, ay, n, aw, v, ax, r, az, u, 2);
    lemma_changed(q.z, h, q.w, s2, q.x, s1, q.y, s0, az, n, aw, r, ax, v, ay, u, 1);
    let (i, j, k) = (n * u, n * v, n * r);
    crate::vehicle::lemma_small_product(n, u, 32, 32);
    crate::vehicle::lemma_small_product(n, v, 32, 32);
    crate::vehicle::lemma_small_product(n, r, 32, 32);
    crate::vehicle::lemma_times_whole(q, d, aw, ax, ay, az, 1, i, j, k, 32, 1024);
    lemma_taken_in(n, ax, u, ay, v, az, r);
    lemma_taken_in(n, aw, u, ay, r, az, v);
    lemma_taken_in(n, aw, v, ax, r, az, u);
    lemma_taken_in(n, aw, r, ax, v, ay, u);
    let e = q.times(d);
    assert(aw * 1 == aw && ax * 1 == ax && ay * 1 == ay && az * 1 == az);
    let m0 = aw - ax * i - ay * j - az * k;
    let m1 = aw * i + ax + ay * k - az * j;
    let m2 = aw * j - ax * k + ay + az * i;
    let m3 = aw * k + ax * j - ay * i + az;
    assert(crate::vehicle::whole(e, m0, m1, m2, m3));
    assert(crate::vehicle::whole(t, m0, m1, m2, m3));
    crate::single::exact::law_worth_order(t.w, e.w, m0, m0, 0);
    crate::single::exact::law_worth_order(t.x, e.x, m1, m1, 0);
    crate::single::exact::law_worth_order(t.y, e.y, m2, m2, 0);
    crate::single::exact::law_worth_order(t.z, e.z, m3, m3, 0);
    lemma_whole_within(t.w, m0);
    lemma_whole_within(t.x, m1);
    lemma_whole_within(t.y, m2);
    lemma_whole_within(t.z, m3);
    lemma_whole_within(e.w, m0);
    lemma_whole_within(e.x, m1);
    lemma_whole_within(e.y, m2);
    lemma_whole_within(e.z, m3);
    lemma_unit_alike(t, e);
}

/// A factor taken into three products.
proof fn lemma_taken_in(n: int, a: int, u: int, b: int, v: int, c: int, w: int)
    ensures
        n * (-(a * u + b * v + c * w)) == -(a * (n * u)) - b * (n * v) - c * (n * w),
        n * (a * u + b * v - c * w) == a * (n * u) + b * (n * v) - c * (n * w),
        n * (a * u - b * v + c * w) == a * (n * u) - b * (n * v) + c * (n * w),
{
    lemma_spread_over(n, a * u, b * v, c * w);
    lemma_spread_over(n, a * u, b * v, -(c * w));
    lemma_spread_over(n, a * u, -(b * v), c * w);
    lemma_moved_in(n, a, u);
    lemma_moved_in(n, b, v);
    lemma_moved_in(n, c, w);
}

proof fn lemma_moved_in(n: int, a: int, u: int)
    ensures
        n * (a * u) == a * (n * u),
        n * (-(a * u)) == -(a * (n * u)),
{
    assert(n * (a * u) == a * (n * u)) by (nonlinear_arith);
    assert(n * (-(a * u)) == -(n * (a * u))) by (nonlinear_arith);
}

proof fn lemma_spread_over(n: int, x: int, y: int, z: int)
    ensures
        n * (x + y + z) == n * x + n * y + n * z,
        n * (-(x + y + z)) == -(n * x) - n * y - n * z,
{
    assert(n * (x + y + z) == n * x + n * y + n * z) by (nonlinear_arith);
    assert(n * (-(x + y + z)) == -(n * x) - n * y - n * z) by (nonlinear_arith);
}

/// Bringing a rotation to unit length turns no component round.
pub proof fn lemma_unit_keeps_side(q: Quaternion, i: int, up: bool)
    requires
        0 <= i < 3,
        crate::single::laws::within(q.w, 20) && crate::single::laws::within(q.x, 20),
        crate::single::laws::within(q.y, 20) && crate::single::laws::within(q.z, 20),
        crate::single::signs::toward(up, q.part(i)),
    ensures
        crate::single::signs::toward(up, q.unit_of().part(i)),
{
    let n = q.squared().root();
    lemma_square(q.w);
    lemma_square(q.x);
    lemma_square(q.y);
    lemma_square(q.z);
    let (w, x, y, z) = (q.w * q.w, q.x * q.x, q.y * q.y, q.z * q.z);
    crate::single::laws::law_sum_within(w, x, 40);
    crate::single::signs::law_within_more(y, 40, 41);
    crate::single::laws::law_sum_within(w + x, y, 41);
    crate::single::signs::law_within_more(z, 40, 42);
    crate::single::laws::law_sum_within(w + x + y, z, 42);
    crate::single::signs::law_sum_points(true, w, x);
    crate::single::signs::law_sum_points(true, w + x, y);
    crate::single::signs::law_sum_points(true, w + x + y, z);
    crate::single::signs::law_within_more(q.squared(), 43, 44);
    crate::single::root::law_root_within(q.squared(), 22);
    crate::single::arith::lemma_small_ints();
    if Single::of_int(0).less(n) {
        crate::single::signs::law_quotient_points(up, q.part(i), n);
    }
}

/// A turn made before or after a level attitude that heads north turns it about its own axis:
/// in the direction of the axis where the sine of half the angle is not negative, and against
/// it where it is not positive.
pub proof fn law_turn_goes_either_way(axis: [Single; 3], s: Single, c: Single, i: int, up: bool)
    requires
        0 <= i < 3,
        forall|j: int| 0 <= j < 3 ==> crate::single::laws::within(#[trigger] axis[j], 10),
        crate::single::laws::within(s, 10),
        crate::single::laws::within(c, 10),
        crate::single::signs::toward(up, s),
        crate::single::signs::toward(true, axis[i]),
    ensures
        ({
            let d = Quaternion::of_turn(axis, s, c);
            let level = Quaternion::unit();
            &&& crate::single::signs::toward(up, d.times(level).unit_of().part(i))
            &&& crate::single::signs::toward(up, level.times(d).unit_of().part(i))
        }),
{
    crate::single::laws::lemma_within_is_finite(s, 10);
    crate::single::laws::lemma_within_is_finite(axis[i], 10);
    crate::single::signs::law_product_points(up, s, axis[i]);
    lemma_turn_side(axis, s, c, i, up);
}

/// The same where the sine is not negative and the axis points either way.
pub proof fn law_turn_goes_its_way(axis: [Single; 3], s: Single, c: Single, i: int, up: bool)
    requires
        0 <= i < 3,
        forall|j: int| 0 <= j < 3 ==> crate::single::laws::within(#[trigger] axis[j], 10),
        crate::single::laws::within(s, 10),
        crate::single::laws::within(c, 10),
        crate::single::signs::toward(up, axis[i]),
        crate::single::signs::toward(true, s),
    ensures
        ({
            let d = Quaternion::of_turn(axis, s, c);
            let level = Quaternion::unit();
            &&& crate::single::signs::toward(up, d.times(level).unit_of().part(i))
            &&& crate::single::signs::toward(up, level.times(d).unit_of().part(i))
        }),
{
    crate::single::laws::lemma_within_is_finite(s, 10);
    crate::single::laws::lemma_within_is_finite(axis[i], 10);
    crate::single::signs::law_product_points(up, axis[i], s);
    lemma_turn_side(axis, s, c, i, up);
}

proof fn lemma_turn_side(axis: [Single; 3], s: Single, c: Single, i: int, up: bool)
    requires
        0 <= i < 3,
        forall|j: int| 0 <= j < 3 ==> crate::single::laws::within(#[trigger] axis[j], 10),
        crate::single::laws::within(s, 10),
        crate::single::laws::within(c, 10),
        crate::single::signs::toward(up, axis[i] * s),
    ensures
        ({
            let d = Quaternion::of_turn(axis, s, c);
            let level = Quaternion::unit();
            &&& crate::single::signs::toward(up, d.times(level).unit_of().part(i))
            &&& crate::single::signs::toward(up, level.times(d).unit_of().part(i))
        }),
{
    let d = Quaternion::of_turn(axis, s, c);
    let level = Quaternion::unit();
    crate::single::laws::lemma_within_is_finite(c, 10);
    assert forall|j: int| 0 <= j < 3 implies crate::single::laws::within(
        #[trigger] d.part(j),
        20,
    ) by {
        crate::single::laws::law_product_within(axis[j], s, 10, 10);
    }
    crate::single::signs::law_within_more(c, 10, 20);
    assert(crate::single::laws::within(d.part(0), 20) && crate::single::laws::within(d.part(1), 20)
        && crate::single::laws::within(d.part(2), 20));
    crate::single::laws::lemma_within_is_finite(d.x, 20);
    crate::single::laws::lemma_within_is_finite(d.y, 20);
    crate::single::laws::lemma_within_is_finite(d.z, 20);
    crate::vehicle::law_no_rotation_is_neutral(d);
    lemma_alike_keeps(d, d.times(level), i, up);
    lemma_alike_keeps(d, level.times(d), i, up);
}

proof fn lemma_alike_keeps(d: Quaternion, e: Quaternion, i: int, up: bool)
    requires
        0 <= i < 3,
        e.alike(d),
        crate::single::laws::within(d.w, 20) && crate::single::laws::within(d.x, 20),
        crate::single::laws::within(d.y, 20) && crate::single::laws::within(d.z, 20),
        crate::single::signs::toward(up, d.part(i)),
    ensures
        crate::single::signs::toward(up, e.unit_of().part(i)),
{
    assert(e.w.magnitude() == d.w.magnitude());
    assert(e.x.magnitude() == d.x.magnitude());
    assert(e.y.magnitude() == d.y.magnitude());
    assert(e.z.magnitude() == d.z.magnitude());
    lemma_unit_keeps_side(e, i, up);
}

/// Whatever is level, heading north, turns no vector, forwards or backwards.
pub proof fn lemma_level_back(v: Seq<Single>, i: int)
    requires
        0 <= i < 3,
        forall|j: int| 0 <= j < 3 ==> (#[trigger] v[j]).finite(),
    ensures
        Quaternion::unit().conjugate().rotated(v)[i].same(v[i]),
        Quaternion::unit().conjugate().rotated(v)[i].finite(),
{
    let q = Quaternion::unit().conjugate();
    let one = Single::of_int(1);
    let two = Single::of_int(2);
    let zero = Single::of_int(0);
    let z = zero.negated();
    crate::single::arith::lemma_small_ints();
    crate::single::arith::lemma_two();
    crate::single::laws::lemma_one_magnitude();
    crate::single::signs::lemma_negated(zero);
    assert(z.same(zero) && z.finite());
    assert(q.w == one && q.x == z && q.y == z && q.z == z);
    let (a, b, c) = (v[0], v[1], v[2]);
    crate::single::laws::law_product_with_zero(a, z);
    crate::single::laws::law_product_with_zero(b, z);
    crate::single::laws::law_product_with_zero(c, z);
    let tx = two * (z * c - z * b);
    let ty = two * (z * a - z * c);
    let tz = two * (z * b - z * a);
    crate::single::laws::lemma_nothing_more(z * c, z * b);
    crate::single::laws::lemma_nothing_more(z * a, z * c);
    crate::single::laws::lemma_nothing_more(z * b, z * a);
    crate::single::laws::law_product_with_zero(two, z * c - z * b);
    crate::single::laws::law_product_with_zero(two, z * a - z * c);
    crate::single::laws::law_product_with_zero(two, z * b - z * a);
    assert forall|t: Single| t.same(zero) implies (#[trigger] (one * t)).same(zero) && (z * t).same(
        zero,
    ) by {
        crate::single::laws::law_product_with_zero(one, t);
        crate::single::laws::law_product_with_zero(z, t);
    }
    assert((one * tx).same(zero) && (one * ty).same(zero) && (one * tz).same(zero));
    crate::single::laws::lemma_nothing_more(z * tz, z * ty);
    crate::single::laws::lemma_nothing_more(z * tx, z * tz);
    crate::single::laws::lemma_nothing_more(z * ty, z * tx);
    crate::single::laws::lemma_add_nothing(a, a, one * tx);
    crate::single::laws::lemma_add_nothing(b, b, one * ty);
    crate::single::laws::lemma_add_nothing(c, c, one * tz);
    crate::single::laws::lemma_add_nothing(a + one * tx, a, z * tz - z * ty);
    crate::single::laws::lemma_add_nothing(b + one * ty, b, z * tx - z * tz);
    crate::single::laws::lemma_add_nothing(c + one * tz, c, z * ty - z * tx);
}

/// Without a turn a level attitude stays level.
pub proof fn lemma_level_stays(i: int, up: bool)
    requires
        0 <= i < 3,
    ensures
        crate::single::signs::toward(
            up,
            Quaternion::unit().times(Quaternion::unit()).unit_of().part(i),
        ),
{
    let q = Quaternion::unit();
    vstd::arithmetic::power2::lemma2_to64();
    crate::single::arith::lemma_small_ints();
    crate::single::laws::lemma_one_magnitude();
    crate::single::laws::law_integer_within(0, 0);
    crate::single::laws::law_integer_within(1, 0);
    crate::single::signs::law_within_more(Single::of_int(0), 0, 20);
    crate::single::signs::law_within_more(Single::of_int(1), 0, 20);
    crate::vehicle::law_no_rotation_is_neutral(q);
    lemma_alike_keeps(q, q.times(q), i, up);
}

/// Bringing a rotation to unit length divides all components by its length; here for integer
/// components whose length is a power of two, which leaves no rounding.
pub proof fn law_unit_length(q: Quaternion, w: int, x: int, y: int, z: int, j: nat)
    requires
        crate::vehicle::whole(q, w, x, y, z),
        crate::vehicle::small(w, 1024) && crate::vehicle::small(x, 1024),
        crate::vehicle::small(y, 1024) && crate::vehicle::small(z, 1024),
        j <= 10,
        w * w + x * x + y * y + z * z == vstd::arithmetic::power2::pow2(j)
            * vstd::arithmetic::power2::pow2(j),
    ensures
        crate::single::exact::worth(q.unit_of().w, w, j),
        crate::single::exact::worth(q.unit_of().x, x, j),
        crate::single::exact::worth(q.unit_of().y, y, j),
        crate::single::exact::worth(q.unit_of().z, z, j),
{
    let d = vstd::arithmetic::power2::pow2(j) as int;
    vstd::arithmetic::power2::lemma2_to64();
    vstd::arithmetic::power2::lemma_pow2_pos(j);
    if j < 10 {
        vstd::arithmetic::power2::lemma_pow2_strictly_increases(j, 10);
    }
    lemma_whole_square(q.w, w);
    lemma_whole_square(q.x, x);
    lemma_whole_square(q.y, y);
    lemma_whole_square(q.z, z);
    let (a, b, c) = (q.w * q.w, q.x * q.x, q.y * q.y);
    crate::single::exact::law_worth_sum(a, b, w * w, x * x, 0);
    crate::single::exact::law_worth_sum(a + b, c, w * w + x * x, y * y, 0);
    crate::single::exact::law_worth_sum(a + b + c, q.z * q.z, w * w + x * x + y * y, z * z, 0);
    crate::single::exact::law_worth_root(q.squared(), d, 0);
    let n = q.squared().root();
    crate::single::exact::law_integer_worth(0);
    crate::single::exact::law_worth_order(Single::of_int(0), n, 0, d, 0);
    crate::single::exact::law_worth_finer_to(q.w, w, 0, j);
    crate::single::exact::law_worth_finer_to(q.x, x, 0, j);
    crate::single::exact::law_worth_finer_to(q.y, y, 0, j);
    crate::single::exact::law_worth_finer_to(q.z, z, 0, j);
    crate::single::exact::law_worth_quotient(q.w, n, w, d, j, 0);
    crate::single::exact::law_worth_quotient(q.x, n, x, d, j, 0);
    crate::single::exact::law_worth_quotient(q.y, n, y, d, j, 0);
    crate::single::exact::law_worth_quotient(q.z, n, z, d, j, 0);
}

proof fn lemma_whole_square(x: Single, n: int)
    requires
        crate::single::exact::worth(x, n, 0),
        crate::vehicle::small(n, 1024),
    ensures
        crate::single::exact::worth(x * x, n * n, 0),
        crate::vehicle::small(n * n, 0x10_0000),
{
    lemma_whole_product(x, x, n, n, 1024, 1024);
}

} // verus!
