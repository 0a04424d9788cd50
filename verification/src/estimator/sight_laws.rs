//! What the error state filter expects to see of gravity and of the magnetic field, and how
//! that changes when the attitude is wrong.

use super::eskf::EskfTuning;
use crate::rotation_laws::law_turns_about_axis;
use crate::single::Single;
use crate::vehicle::Quaternion;
use vstd::prelude::*;

verus! {

/// The cross product with a unit vector, of whole numbers.
proof fn lemma_cross_basis(v: Seq<Single>, n: [int; 3], j: int)
    requires
        0 <= j < 3,
        forall|k: int| 0 <= k < 3 ==> crate::single::exact::worth(#[trigger] v[k], n[k], 0),
        forall|k: int| 0 <= k < 3 ==> crate::vehicle::small(#[trigger] n[k], 64),
    ensures
        ({
            let c = super::eskf::cross(v, super::nominal::basis(j));
            let k = crate::rotation_laws::after(j);
            let l = crate::rotation_laws::after(k);
            &&& crate::single::exact::worth(c[j], 0, 0)
            &&& crate::single::exact::worth(c[k], n[l], 0)
            &&& crate::single::exact::worth(c[l], -n[k], 0)
        }),
{
    let e = super::nominal::basis(j);
    crate::single::exact::law_integer_worth(0);
    crate::single::exact::law_integer_worth(1);
    assert(crate::single::exact::worth(v[0], n[0], 0) && crate::single::exact::worth(v[1], n[1], 0)
        && crate::single::exact::worth(v[2], n[2], 0));
    assert(crate::vehicle::small(n[0], 64) && crate::vehicle::small(n[1], 64)
        && crate::vehicle::small(n[2], 64));
    let (x, y, z) = (
        if j == 0 {
            1int
        } else {
            0
        },
        if j == 1 {
            1int
        } else {
            0
        },
        if j == 2 {
            1int
        } else {
            0
        },
    );
    assert(crate::single::exact::worth(e[0], x, 0) && crate::single::exact::worth(e[1], y, 0)
        && crate::single::exact::worth(e[2], z, 0));
    super::eskf_laws::law_cross_product(v, e, n[0], n[1], n[2], x, y, z);
    assert(n[0] * 0 == 0 && n[1] * 0 == 0 && n[2] * 0 == 0);
    assert(n[0] * 1 == n[0] && n[1] * 1 == n[1] && n[2] * 1 == n[2]);
}

/// The slope is how a fixed vector, seen from a level body, changes as the attitude is turned
/// about an axis: the component seen is the old one times the cosine of the turn and the slope
/// times its sine; along the axis it does not change. Here `w` and `s` are the cosine and the
/// sine of half the turn, and all numbers are integers that leave no rounding.
pub proof fn law_sight_follows_turn(
    v: Seq<Single>,
    d: Quaternion,
    w: int,
    s: int,
    n: [int; 3],
    j: int,
    i: int,
    slope: int,
)
    requires
        0 <= j < 3,
        0 <= i < 3,
        crate::vehicle::whole(
            d,
            w,
            if j == 0 {
                s
            } else {
                0
            },
            if j == 1 {
                s
            } else {
                0
            },
            if j == 2 {
                s
            } else {
                0
            },
        ),
        crate::vehicle::small(w, 64) && crate::vehicle::small(s, 64),
        forall|k: int| 0 <= k < 3 ==> crate::single::exact::worth(#[trigger] v[k], n[k], 0),
        forall|k: int| 0 <= k < 3 ==> crate::vehicle::small(#[trigger] n[k], 64),
        crate::single::exact::worth(
            super::eskf::sight_slope(Quaternion::unit(), v, i, j),
            slope,
            0,
        ),
    ensures
        ({
            let sin = 2 * w * s;
            let cos = 1 - 2 * s * s;
            let seen = d.conjugate().rotated(v)[i];
            &&& i == j ==> crate::single::exact::worth(seen, n[i], 0) && slope == 0
            &&& i != j ==> crate::single::exact::worth(seen, cos * n[i] + sin * slope, 0)
        }),
{
    let r = d.conjugate();
    let k = crate::rotation_laws::after(j);
    let l = crate::rotation_laws::after(k);
    crate::single::exact::law_worth_negated(d.x, if j == 0 {
        s
    } else {
        0
    }, 0);
    crate::single::exact::law_worth_negated(d.y, if j == 1 {
        s
    } else {
        0
    }, 0);
    crate::single::exact::law_worth_negated(d.z, if j == 2 {
        s
    } else {
        0
    }, 0);
    law_turns_about_axis(r, v, w, -s, n, j);
    assert(2 * w * (-s) == -(2 * w * s)) by (nonlinear_arith);
    assert(2 * (-s) * (-s) == 2 * s * s) by (nonlinear_arith);
    lemma_cross_basis(v, n, j);
    let c = super::eskf::cross(v, super::nominal::basis(j));
    assert(c[0].finite() && c[1].finite() && c[2].finite());
    assert forall|m: int| 0 <= m < 3 implies (#[trigger] c[m]).finite() by {}
    crate::rotation_laws::lemma_level_back(c, i);
    let seen = Quaternion::unit().conjugate().rotated(c)[i];
    let value = if i == j {
        0
    } else if i == k {
        n[l]
    } else {
        -n[k]
    };
    super::nominal::lemma_same_worth(c[i], seen, value, 0);
    lemma_one_worth(seen, value, slope);
    let (sin, cos) = (2 * w * s, 1 - 2 * s * s);
    assert((-sin) * n[k] == sin * (-n[k])) by (nonlinear_arith);
    assert((-sin) * n[l] == -(sin * n[l])) by (nonlinear_arith);
}

/// A number is worth one integer.
proof fn lemma_one_worth(x: Single, m: int, n: int)
    requires
        crate::single::exact::worth(x, m, 0),
        crate::single::exact::worth(x, n, 0),
    ensures
        m == n,
{
    crate::single::exact::law_worth_order(x, x, m, n, 0);
}

/// More of the earth's field or of the body's field along an axis shows as more of the field
/// along it, seen from a level body.
pub proof fn law_fields_add_up(
    weak: [Single; 3],
    strong: [Single; 3],
    own: [Single; 3],
    more: [Single; 3],
    i: int,
    up: bool,
)
    requires
        0 <= i < 3,
        forall|j: int| 0 <= j < 3 ==> crate::single::laws::within(#[trigger] weak[j], 20),
        forall|j: int| 0 <= j < 3 ==> crate::single::laws::within(#[trigger] strong[j], 20),
        crate::single::laws::within(own[i], 20),
        crate::single::laws::within(more[i], 20),
        crate::single::signs::ahead(up, weak[i], strong[i]),
        crate::single::signs::ahead(up, own[i], more[i]),
    ensures
        crate::single::signs::ahead(
            up,
            super::eskf::field_seen(Quaternion::unit(), weak, own)[i],
            super::eskf::field_seen(Quaternion::unit(), strong, more)[i],
        ),
{
    let q = Quaternion::unit();
    assert forall|j: int| 0 <= j < 3 implies (#[trigger] weak@[j]).finite() by {
        assert(crate::single::laws::within(weak[j], 20));
        crate::single::laws::lemma_within_is_finite(weak[j], 20);
    }
    assert forall|j: int| 0 <= j < 3 implies (#[trigger] strong@[j]).finite() by {
        assert(crate::single::laws::within(strong[j], 20));
        crate::single::laws::lemma_within_is_finite(strong[j], 20);
    }
    crate::rotation_laws::lemma_level_back(weak@, i);
    crate::rotation_laws::lemma_level_back(strong@, i);
    crate::single::laws::lemma_within_is_finite(own[i], 20);
    crate::single::laws::lemma_within_is_finite(more[i], 20);
    let a = q.conjugate().rotated(weak@)[i];
    let b = q.conjugate().rotated(strong@)[i];
    crate::single::signs::law_sum_order(up, a, b, own[i]);
    crate::single::signs::law_sum_order(up, own[i], more[i], b);
}

/// A level vehicle at rest sees its weight held: the direction of the force that it feels is
/// the one that the filter expects against gravity, straight up.
pub proof fn law_rest_shows_gravity(f: [Single; 3], g: [Single; 3], t: EskfTuning, n: int)
    requires
        1 <= n <= 2048,
        crate::single::exact::worth(g[0], 0, 0),
        crate::single::exact::worth(g[1], 0, 0),
        crate::single::exact::worth(g[2], n, 0),
        crate::single::exact::worth(f[0], 0, 0),
        crate::single::exact::worth(f[1], 0, 0),
        crate::single::exact::worth(f[2], -n, 0),
        !t.gravity_off(),
    ensures
        ({
            let seen = super::eskf::gravity_seen(Quaternion::unit(), g);
            let felt = super::eskf::direction_judged(Quaternion::unit(), f, g, t);
            &&& felt is Ok
            &&& crate::single::exact::worth(seen[0], 0, 0)
            &&& crate::single::exact::worth(seen[1], 0, 0)
            &&& crate::single::exact::worth(seen[2], -1, 0)
            &&& felt->Ok_0[0].same(seen[0])
            &&& felt->Ok_0[1].same(seen[1])
            &&& felt->Ok_0[2].same(seen[2])
        }),
{
    let q = Quaternion::unit();
    let gn = super::eskf::length3(g);
    let felt_n = super::eskf::length3(f);
    let zero = Single::of_int(0);
    crate::single::arith::lemma_small_ints();
    crate::single::exact::law_integer_worth(0);
    lemma_length_down(g, n);
    lemma_length_down(f, -n);
    lemma_not_small(gn, n);
    lemma_not_small(felt_n, n);
    // Expected.
    crate::single::exact::law_worth_negated(g[0], 0, 0);
    crate::single::exact::law_worth_negated(g[1], 0, 0);
    crate::single::exact::law_worth_negated(g[2], n, 0);
    assert(-1 * n == -n && 0 * n == 0);
    crate::single::exact::law_worth_quotient(g[0].negated(), gn, 0, n, 0, 0);
    crate::single::exact::law_worth_quotient(g[1].negated(), gn, 0, n, 0, 0);
    crate::single::exact::law_worth_quotient(g[2].negated(), gn, -1, n, 0, 0);
    let up = super::eskf::against(g, gn)@;
    assert forall|j: int| 0 <= j < 3 implies (#[trigger] up[j]).finite() by {}
    crate::rotation_laws::lemma_level_back(up, 0);
    crate::rotation_laws::lemma_level_back(up, 1);
    crate::rotation_laws::lemma_level_back(up, 2);
    let seen = super::eskf::gravity_seen(q, g);
    super::nominal::lemma_same_worth(up[0], seen[0], 0, 0);
    super::nominal::lemma_same_worth(up[1], seen[1], 0, 0);
    super::nominal::lemma_same_worth(up[2], seen[2], -1, 0);
    // Felt.
    assert forall|j: int| 0 <= j < 3 implies (#[trigger] f@[j]).finite() by {}
    crate::vehicle::law_level_turns_no_vector(f@, 0);
    crate::vehicle::law_level_turns_no_vector(f@, 1);
    crate::vehicle::law_level_turns_no_vector(f@, 2);
    let a = q.rotated(f@);
    super::nominal::lemma_same_worth(f[0], a[0], 0, 0);
    super::nominal::lemma_same_worth(f[1], a[1], 0, 0);
    super::nominal::lemma_same_worth(f[2], a[2], -n, 0);
    crate::single::exact::law_worth_sum(a[0], g[0], 0, 0, 0);
    crate::single::exact::law_worth_sum(a[1], g[1], 0, 0, 0);
    crate::single::exact::law_worth_sum(a[2], g[2], -n, n, 0);
    let sum = [a[0] + g[0], a[1] + g[1], a[2] + g[2]];
    lemma_length_down(sum, 0);
    let extra = super::eskf::length3(sum);
    let limit = Single::of_ratio(25, 100) * gn.larger(Single::of_ratio(1, 1_000_000));
    crate::single::laws::law_ratio_is_positive(25, 100);
    crate::single::exact::law_worth_order(zero, gn, 0, n, 0);
    crate::single::signs::law_product_points(true, gn, Single::of_ratio(25, 100));
    crate::single::exact::law_worth_order(extra, zero, 0, 0, 0);
    assert(gn.larger(Single::of_ratio(1, 1_000_000)) == gn);
    assert(!limit.less(extra));
    crate::single::exact::law_worth_quotient(f[0], felt_n, 0, n, 0, 0);
    crate::single::exact::law_worth_quotient(f[1], felt_n, 0, n, 0, 0);
    crate::single::exact::law_worth_quotient(f[2], felt_n, -1, n, 0, 0);
    crate::single::exact::law_worth_order(f[0] / felt_n, seen[0], 0, 0, 0);
    crate::single::exact::law_worth_order(f[1] / felt_n, seen[1], 0, 0, 0);
    crate::single::exact::law_worth_order(f[2] / felt_n, seen[2], -1, -1, 0);
}

/// The length of a vector that points up or down.
proof fn lemma_length_down(v: [Single; 3], n: int)
    requires
        crate::single::exact::worth(v[0], 0, 0),
        crate::single::exact::worth(v[1], 0, 0),
        crate::single::exact::worth(v[2], n, 0),
        crate::vehicle::small(n, 2048),
    ensures
        crate::single::exact::worth(
            super::eskf::length3(v),
            if n < 0 {
                -n
            } else {
                n
            },
            0,
        ),
{
    let m = if n < 0 {
        -n
    } else {
        n
    };
    crate::vehicle::lemma_small_product(n, n, 2048, 2048);
    crate::single::exact::law_worth_product(v[0], v[0], 0, 0, 0, 0);
    crate::single::exact::law_worth_product(v[1], v[1], 0, 0, 0, 0);
    crate::single::exact::law_worth_product(v[2], v[2], n, n, 0, 0);
    crate::single::exact::law_worth_sum(v[0] * v[0], v[1] * v[1], 0, 0, 0);
    crate::single::exact::law_worth_sum(v[0] * v[0] + v[1] * v[1], v[2] * v[2], 0, n * n, 0);
    assert(n * n == m * m) by (nonlinear_arith)
        requires
            m == n || m == -n,
    ;
    crate::single::exact::law_worth_root(super::nominal::squared3(v), m, 0);
}

/// A length of one or more is not small.
proof fn lemma_not_small(x: Single, n: int)
    requires
        crate::single::exact::worth(x, n, 0),
        n >= 1,
    ensures
        !x.less(Single::of_ratio(1, 1000)),
        !x.less(Single::of_ratio(1, 1_000_000)),
        !x.less_eq(Single::of_int(0)),
{
    let p = vstd::arithmetic::power2::pow2(149);
    vstd::arithmetic::power2::lemma2_to64();
    vstd::arithmetic::power2::lemma_pow2_pos(149);
    crate::single::arith::lemma_small_ints();
    crate::single::laws::law_ratio_is_positive(1, 1000);
    crate::single::laws::law_ratio_is_positive(1, 1_000_000);
    assert(n * p >= p) by (nonlinear_arith)
        requires
            n >= 1,
            p >= 0,
    ;
}

/// A vehicle at rest is levelled from the force that it feels: where the force leans to the
/// right the rotation rolls to the left, and where it leans forwards the rotation pitches up,
/// and it does not turn about the vertical.
pub proof fn law_rest_levels(f: [Single; 3], bg: [Single; 3], forward: bool, right: bool)
    requires
        crate::single::laws::within(f[0], 20),
        crate::single::laws::within(f[1], 20),
        crate::single::laws::within(f[2], 20),
        ({
            let n = super::eskf::length3(f);
            &&& n.finite()
            &&& crate::single::signs::beyond(true, n, 10)
            &&& super::eskf::leveling_of(f, bg).sin.finite()
            &&& crate::single::signs::beyond(true, super::eskf::leveling_of(f, bg).sin, 10)
        }),
        crate::single::signs::toward(forward, f[0]),
        crate::single::signs::toward(right, f[1]),
    ensures
        ({
            let r = super::eskf::leveling_of(f, bg);
            &&& crate::single::signs::toward(!right, r.axis[0])
            &&& crate::single::signs::toward(forward, r.axis[1])
            &&& r.axis[2].same(Single::of_int(0))
            &&& r.bg == bg
        }),
{
    let z = Single::of_int(0);
    let minus = Single::of_int(-1);
    let n = super::eskf::length3(f);
    let up = [f[0] / n, f[1] / n, f[2] / n];
    let down = [z, z, minus];
    let ax = super::eskf::cross(up@, down@);
    let r = super::eskf::leveling_of(f, bg);
    vstd::arithmetic::power2::lemma2_to64();
    crate::single::arith::lemma_small_ints();
    crate::single::exact::law_integer_worth(0);
    crate::single::exact::law_integer_worth(-1);
    crate::single::exact::law_worth_order(minus, z, -1, 0, 0);
    crate::single::laws::law_integer_within(-1, 0);
    crate::single::laws::lemma_within_is_finite(f[0], 20);
    crate::single::laws::lemma_within_is_finite(f[1], 20);
    crate::single::laws::lemma_within_is_finite(f[2], 20);
    crate::single::signs::law_beyond_is_toward(true, n, 10);
    crate::single::signs::law_quotient_within(f[0], n, 20, 10);
    crate::single::signs::law_quotient_within(f[1], n, 20, 10);
    crate::single::signs::law_quotient_within(f[2], n, 20, 10);
    crate::single::signs::law_quotient_points(forward, f[0], n);
    crate::single::signs::law_quotient_points(right, f[1], n);
    crate::single::laws::law_product_with_zero(up[0], z);
    crate::single::laws::law_product_with_zero(up[1], z);
    crate::single::laws::law_product_with_zero(up[2], z);
    crate::single::signs::law_product_points_back(right, up[1], minus);
    crate::single::signs::law_product_points_back(forward, up[0], minus);
    crate::single::laws::law_product_within(up[0], minus, 30, 0);
    crate::single::laws::law_product_within(up[1], minus, 30, 0);
    let (px, py) = (up[0] * minus, up[1] * minus);
    crate::single::laws::lemma_add_nothing(py, py, up[2] * z);
    crate::single::signs::lemma_negated(px);
    crate::single::laws::lemma_add_nothing(px.negated(), px.negated(), up[2] * z);
    crate::single::laws::law_sum_commutes(up[2] * z, px.negated());
    crate::single::signs::law_negated_points_back(!forward, px);
    crate::single::laws::lemma_nothing_more(up[0] * z, up[1] * z);
    assert(ax[0] == py - up[2] * z && ax[1] == up[2] * z - px && ax[2] == up[0] * z - up[1] * z);
    let s = super::eskf::length3([ax[0], ax[1], ax[2]]);
    if !n.less(Single::of_ratio(1, 1_000_000)) && !s.less(Single::of_ratio(1, 1_000_000_000)) {
        assert(r.sin == s);
        crate::single::signs::law_beyond_is_toward(true, s, 10);
        crate::single::laws::lemma_same_is_finite(ax[0], py);
        crate::single::laws::lemma_same_is_finite(ax[1], px.negated());
        crate::single::laws::lemma_same_is_finite(ax[2], z);
        crate::single::signs::law_quotient_points(!right, ax[0], s);
        crate::single::signs::law_quotient_points(forward, ax[1], s);
        crate::single::signs::law_quotient_points(true, ax[2], s);
        crate::single::signs::law_quotient_points(false, ax[2], s);
    } else {
        assert(r.sin == z);
        vstd::arithmetic::power2::lemma_pow2_pos(139);
    }
}

} // verus!
