//! What the error state filters do with measurements: estimate and measurement are weighed
//! against each other, and the errors found are added.

use super::eskf::Eskf;
use super::eskf_estimator::EskfEstimator;
use super::nominal::{ErrorState, HalfAngle, ImuDelta, NominalState, I_POS, I_VEL};
use crate::single::Single;
use crate::units::MeterPerSecond;
use crate::vehicle::{PosSample, Quaternion};
use vstd::prelude::*;

verus! {

/// A scalar product of which all products but one are zero.
proof fn lemma_one_product(start: Single, u: Seq<Single>, w: Seq<Single>, i: int, n: nat)
    requires
        0 <= i,
        start.finite(),
        (u[i] * w[i]).finite(),
        (start + u[i] * w[i]).finite(),
        forall|k: int|
            0 <= k < n && k != i ==> (#[trigger] u[k] * w[k]).same(Single::of_int(0)),
    ensures
        super::linear::dot_from(start, u, w, n).same(
            if i < n {
                start + u[i] * w[i]
            } else {
                start
            },
        ),
        super::linear::dot_from(start, u, w, n).finite(),
    decreases n,
{
    crate::single::arith::lemma_small_ints();
    if n > 0 {
        let m = (n - 1) as nat;
        lemma_one_product(start, u, w, i, m);
        let before = super::linear::dot_from(start, u, w, m);
        if m == i {
            crate::single::laws::law_same_sums(before, u[i] * w[i], start, u[i] * w[i]);
            crate::single::laws::lemma_same_is_finite(
                before + u[i] * w[i],
                start + u[i] * w[i],
            );
        } else {
            let want = if i < m {
                start + u[i] * w[i]
            } else {
                start
            };
            assert((u[m as int] * w[m as int]).same(Single::of_int(0)));
            crate::single::laws::lemma_add_nothing(before, want, u[m as int] * w[m as int]);
        }
    }
}

/// Whether all elements of a covariance are of ordinary size.
pub open spec fn tame(p: Seq<Seq<Single>>) -> bool {
    &&& p.len() == 21
    &&& forall|i: int| 0 <= i < 21 ==> (#[trigger] p[i]).len() == 21
    &&& forall|i: int, j: int|
        0 <= i < 21 && 0 <= j < 21 ==> crate::single::laws::within(#[trigger] p[i][j], 40)
}

/// What a measurement of altitude sees of a row of the covariance.
proof fn lemma_altitude_seen(p: Seq<Seq<Single>>, i: int)
    requires
        tame(p),
        0 <= i < 21,
    ensures
        super::linear::seen(p, super::nominal::altitude_row(21))[i].same(
            p[i][8] * Single::of_int(-1),
        ),
        super::linear::seen(p, super::nominal::altitude_row(21))[i].finite(),
{
    let h = super::nominal::altitude_row(21);
    let z = Single::of_int(0);
    let row = p[i];
    vstd::arithmetic::power2::lemma2_to64();
    crate::single::arith::lemma_small_ints();
    crate::single::laws::law_integer_within(-1, 0);
    crate::single::laws::law_integer_within(0, 0);
    assert(h[8] == Single::of_int(-1));
    assert forall|k: int| 0 <= k < 21 && k != 8 implies (#[trigger] row[k] * h[k]).same(z) by {
        assert(crate::single::laws::within(p[i][k], 40));
        crate::single::laws::lemma_within_is_finite(p[i][k], 40);
        crate::single::laws::law_product_with_zero(row[k], h[k]);
    }
    assert(crate::single::laws::within(p[i][8], 40));
    crate::single::laws::law_product_within(row[8], h[8], 40, 0);
    crate::single::laws::law_zero_is_neutral(row[8] * h[8]);
    crate::single::laws::law_sum_commutes(z, row[8] * h[8]);
    crate::single::laws::lemma_same_is_finite(z + row[8] * h[8], row[8] * h[8]);
    lemma_one_product(z, row, h, 8, 21);
    assert(super::linear::seen(p, h)[i] == super::linear::dot(row, h));
}

/// A measured altitude and the estimate are weighed against each other by the variance of the
/// other: once the errors found are added, the height is their weighted mean. Heights count
/// downwards, altitudes upwards; here for variances whose sum is a power of two and values of
/// few bits, which leave no rounding.
pub proof fn law_altitude_is_weighed(
    c: EskfEstimator,
    alt: Single,
    e: ErrorState,
    after: EskfEstimator,
    half: HalfAngle,
    h: int,
    x: int,
    a: int,
    b: int,
    j: nat,
)
    requires
        c.takes_altitude(alt, Some(e), after),
        tame(super::linear::rows(c.f.p)),
        crate::single::exact::worth(c.f.p[8][8], a, 0),
        crate::single::exact::worth(c.f.r_baro, b, 0),
        0 < a,
        0 <= b,
        a + b == vstd::arithmetic::power2::pow2(j),
        j <= 8,
        crate::single::exact::worth(alt, h, 0) && crate::vehicle::small(h, 2048),
        crate::single::exact::worth(c.f.st.p[2], x, 0) && crate::vehicle::small(x, 2048),
    ensures
        crate::single::exact::worth(after.f.corrected(e, half).st.p[2], b * x + a * (-h), j),
{
    let p = super::linear::rows(c.f.p);
    let row = super::nominal::altitude_row(21);
    let seen = super::linear::seen(p, row);
    let r = c.f.r_baro;
    let q = vstd::arithmetic::power2::pow2(j) as int;
    let z = Single::of_int(0);
    let minus = Single::of_int(-1);
    vstd::arithmetic::power2::lemma2_to64();
    vstd::arithmetic::power2::lemma_pow2_pos(j);
    if j < 8 {
        vstd::arithmetic::power2::lemma_pow2_strictly_increases(j, 8);
    }
    crate::single::arith::lemma_small_ints();
    crate::single::exact::law_integer_worth(0);
    crate::single::exact::law_integer_worth(-1);
    assert(p[8][8] == c.f.p[8][8]);
    assert(row[8] == minus);
    lemma_altitude_seen(p, 8);
    crate::single::exact::law_worth_product(p[8][8], minus, a, -1, 0, 0);
    super::nominal::lemma_same_worth(p[8][8] * minus, seen[8], -a, 0);
    assert forall|k: int| 0 <= k < 21 && k != 8 implies (#[trigger] row[k] * seen[k]).same(z) by {
        lemma_altitude_seen(p, k);
        crate::single::laws::law_product_with_zero(seen[k], row[k]);
    }
    crate::single::exact::law_worth_product(minus, seen[8], -1, -a, 0, 0);
    crate::single::exact::law_worth_sum(r, row[8] * seen[8], b, a, 0);
    lemma_one_product(r, row, seen, 8, 21);
    let s = super::linear::innovation_variance(p, row, r);
    super::nominal::lemma_same_worth(r + row[8] * seen[8], s, q, 0);
    crate::single::exact::law_worth_order(z, s, 0, q, 0);
    let residual = alt - c.f.st.p[2].negated();
    crate::single::exact::law_worth_negated(c.f.st.p[2], x, 0);
    crate::single::exact::law_worth_difference(alt, c.f.st.p[2].negated(), h, -x, 0);
    super::ekf_laws::lemma_gain_of(seen[8], s, -a, j);
    crate::vehicle::lemma_small_product(-a, h + x, 256, 4096);
    crate::single::exact::law_worth_product(seen[8] / s, residual, -a, h + x, j, 0);
    assert((-a) * (h + x) == a * (-h - x)) by (nonlinear_arith);
    let found = super::nominal::altitude_errors(p, r, residual);
    assert(found.dp[2] == seen[8] / s * residual);
    super::ekf_laws::lemma_weighed(c.f.st.p[2], found.dp[2], x, -h, a, b, j);
    assert(after.f.st == c.f.st);
}

/// Whether three elements of the error from `at` on are known apart from all others, each
/// with the variance `a`.
pub open spec fn apart(p: Seq<Seq<Single>>, at: int, a: int) -> bool {
    forall|i: int, k: int|
        0 <= i < 21 && 0 <= k < 3 ==> crate::single::exact::worth(
            #[trigger] p[i][at + k],
            if i == at + k {
                a
            } else {
                0
            },
            0,
        )
}

/// What a measurement of three elements sees of a row of the covariance.
proof fn lemma_picked(row: Seq<Single>, at: int, k: int, n: int)
    requires
        0 <= at <= 18,
        0 <= k < 3,
        row.len() == 21,
        forall|j: int| 0 <= j < 21 ==> (#[trigger] row[j]).finite(),
        crate::single::exact::worth(row[at + k], n, 0),
        crate::vehicle::small(n, 256),
    ensures
        crate::single::exact::worth(
            super::linear::dot(row, super::nominal::picking(21, at)[k]),
            n,
            0,
        ),
        crate::single::exact::worth(
            super::linear::dot(super::nominal::picking(21, at)[k], row),
            n,
            0,
        ),
{
    let h = super::nominal::picking(21, at)[k];
    let z = Single::of_int(0);
    let one = Single::of_int(1);
    let i = at + k;
    crate::single::arith::lemma_small_ints();
    crate::single::exact::law_integer_worth(0);
    crate::single::exact::law_integer_worth(1);
    assert(h.len() == 21);
    assert(h[i] == one);
    assert forall|j: int| 0 <= j < 21 && j != i implies (#[trigger] row[j] * h[j]).same(z)
        && (h[j] * row[j]).same(z) by {
        crate::single::laws::law_product_with_zero(row[j], h[j]);
    }
    assert forall|j: int| 0 <= j < 21 && j != i implies (#[trigger] h[j] * row[j]).same(z) by {
        assert((row[j] * h[j]).same(z));
    }
    crate::single::exact::law_worth_product(row[i], one, n, 1, 0, 0);
    crate::single::exact::law_worth_product(one, row[i], 1, n, 0, 0);
    crate::single::exact::law_worth_sum(z, row[i] * h[i], 0, n, 0);
    crate::single::exact::law_worth_sum(z, h[i] * row[i], 0, n, 0);
    lemma_one_product(z, row, h, i, 21);
    lemma_one_product(z, h, row, i, 21);
    super::nominal::lemma_same_worth(
        z + row[i] * h[i],
        super::linear::dot(row, h),
        n,
        0,
    );
    super::nominal::lemma_same_worth(
        z + h[i] * row[i],
        super::linear::dot(h, row),
        n,
        0,
    );
}

/// The gain of three measurements of what is known apart.
proof fn lemma_gain_apart(p: Seq<Seq<Single>>, at: int, r: Single, a: int, b: int, j: nat)
    requires
        0 <= at <= 18,
        tame(p),
        apart(p, at, a),
        crate::single::exact::worth(r, b, 0),
        0 < a,
        0 <= b,
        a + b == vstd::arithmetic::power2::pow2(j),
        j <= 8,
    ensures
        ({
            let k = super::linear::gain3(
                p,
                super::nominal::picking(21, at),
                super::nominal::diagonal3(r),
            );
            &&& forall|i: int| 0 <= i < 21 ==> (#[trigger] k[i]).len() == 3
            &&& forall|i: int, c: int|
                0 <= i < 21 && 0 <= c < 3 ==> crate::single::exact::worth(
                    #[trigger] k[i][c],
                    if i == at + c {
                        a
                    } else {
                        0
                    },
                    j,
                )
        }),
{
    let h = super::nominal::picking(21, at);
    let d = super::nominal::diagonal3(r);
    let seen = super::linear::times_transposed(p, h);
    let q = vstd::arithmetic::power2::pow2(j) as int;
    let one = Single::of_int(1);
    vstd::arithmetic::power2::lemma2_to64();
    vstd::arithmetic::power2::lemma_pow2_pos(j);
    if j < 8 {
        vstd::arithmetic::power2::lemma_pow2_strictly_increases(j, 8);
    }
    crate::single::exact::law_integer_worth(0);
    crate::single::exact::law_integer_worth(1);
    assert forall|i: int, c: int| 0 <= i < 21 && 0 <= c < 3 implies crate::single::exact::worth(
        #[trigger] seen[i][c],
        if i == at + c {
            a
        } else {
            0
        },
        0,
    ) by {
        let n = if i == at + c {
            a
        } else {
            0
        };
        let row = p[i];
        assert(crate::single::exact::worth(p[i][at + c], n, 0));
        assert forall|k: int| 0 <= k < 21 implies (#[trigger] row[k]).finite() by {
            assert(crate::single::laws::within(p[i][k], 40));
            crate::single::laws::lemma_within_is_finite(p[i][k], 40);
        }
        lemma_picked(row, at, c, n);
        assert(seen[i][c] == super::linear::dot(row, h[c]));
    }
    let both = super::linear::times(h, seen, 3);
    let s = super::linear::innovation_covariance(p, h, d);
    assert(s == super::linear::plus(d, both));
    assert forall|i: int, c: int| 0 <= i < 3 && 0 <= c < 3 implies crate::single::exact::worth(
        #[trigger] s[i][c],
        if i == c {
            q
        } else {
            0
        },
        0,
    ) by {
        let col = super::linear::column(seen, c);
        let n = if i == c {
            a
        } else {
            0
        };
        let m = if i == c {
            b
        } else {
            0
        };
        assert(col.len() == 21);
        assert forall|k: int| 0 <= k < 21 implies (#[trigger] col[k]).finite() by {
            assert(col[k] == seen[k][c]);
        }
        assert(col[at + i] == seen[at + i][c]);
        lemma_picked(col, at, i, n);
        assert(both[i][c] == super::linear::dot(h[i], col));
        assert(crate::single::exact::worth(d[i][c], m, 0));
        crate::single::exact::law_worth_sum(d[i][c], both[i][c], m, n, 0);
        assert(d[i].len() == 3);
        assert(s[i][c] == d[i][c] + both[i][c]);
    }
    super::ekf_laws::lemma_inverse_apart(s, j);
    let det = super::linear::determinant3(s);
    lemma_not_below(det, j);
    let adj = super::linear::adjoint3(s, one / det);
    assert(super::linear::inverse3(s) == Some(adj));
    let k = super::linear::gain3(p, h, d);
    assert(k == super::linear::times(seen, adj, 3));
    assert forall|i: int, c: int| 0 <= i < 21 && 0 <= c < 3 implies crate::single::exact::worth(
        #[trigger] k[i][c],
        if i == at + c {
            a
        } else {
            0
        },
        j,
    ) by {
        let u = seen[i];
        let w = super::linear::column(adj, c);
        assert(k[i][c] == super::linear::dot(u, w));
        assert(u[0] == seen[i][0] && u[1] == seen[i][1] && u[2] == seen[i][2]);
        assert(w[0] == adj[0][c] && w[1] == adj[1][c] && w[2] == adj[2][c]);
        let e = |n: int|
            if i == at + n {
                a
            } else {
                0
            };
        let f = |n: int|
            if n == c {
                1int
            } else {
                0
            };
        let (e0, e1, e2) = (e(0), e(1), e(2));
        let (f0, f1, f2) = (f(0), f(1), f(2));
        super::ekf_laws::lemma_unit_product(e0, f0);
        super::ekf_laws::lemma_unit_product(e1, f1);
        super::ekf_laws::lemma_unit_product(e2, f2);
        super::ekf_laws::lemma_dot3(u, w, [e0, e1, e2], [f0, f1, f2], 0, j);
    }
}

/// A determinant of one or more is large enough to divide by.
proof fn lemma_not_below(det: Single, j: nat)
    requires
        crate::single::exact::worth(det, vstd::arithmetic::power2::pow2(3 * j) as int, 0),
        det.magnitude_of() == det,
        j <= 8,
    ensures
        !det.magnitude_of().less(Single { bits: super::linear::TINY_DET_BITS }),
{
    let q = vstd::arithmetic::power2::pow2(3 * j) as int;
    let one = Single::of_int(1);
    crate::single::arith::lemma_small_ints();
    vstd::arithmetic::power2::lemma_pow2_pos(3 * j);
    crate::single::exact::law_integer_worth(1);
    crate::single::exact::law_worth_order(one, det, 1, q, 0);
    let t = Single { bits: super::linear::TINY_DET_BITS };
    crate::single::laws::lemma_field_order(t.field(), one.field());
}

/// A row of the gain times what a measurement shows, added.
proof fn lemma_fix_weighed(
    row: Seq<Single>,
    old: [Single; 3],
    meas: [Single; 3],
    x: [int; 3],
    y: [int; 3],
    a: int,
    b: int,
    j: nat,
    i: int,
)
    requires
        0 <= i < 3,
        row.len() == 3,
        0 <= a,
        0 <= b,
        a + b == vstd::arithmetic::power2::pow2(j),
        j <= 8,
        forall|c: int|
            0 <= c < 3 ==> crate::single::exact::worth(
                #[trigger] row[c],
                if i == c {
                    a
                } else {
                    0
                },
                j,
            ),
        forall|c: int|
            #![trigger meas[c]]
            0 <= c < 3 ==> {
                &&& crate::single::exact::worth(old[c], x[c], 0)
                &&& crate::single::exact::worth(meas[c], y[c], 0)
                &&& crate::vehicle::small(x[c], 4096)
                &&& crate::vehicle::small(y[c], 4096)
            },
    ensures
        crate::single::exact::worth(
            old[i] + super::linear::dot(row, super::nominal::difference3(meas, old)@),
            b * x[i] + a * y[i],
            j,
        ),
{
    let d = super::nominal::difference3(meas, old)@;
    vstd::arithmetic::power2::lemma2_to64();
    if j < 8 {
        vstd::arithmetic::power2::lemma_pow2_strictly_increases(j, 8);
    }
    assert(meas[0] == meas[0] && meas[1] == meas[1] && meas[2] == meas[2] && meas[i] == meas[i]);
    crate::single::exact::law_worth_difference(meas[0], old[0], y[0], x[0], 0);
    crate::single::exact::law_worth_difference(meas[1], old[1], y[1], x[1], 0);
    crate::single::exact::law_worth_difference(meas[2], old[2], y[2], x[2], 0);
    let (f0, f1, f2) = (y[0] - x[0], y[1] - x[1], y[2] - x[2]);
    let e = |c: int|
        if i == c {
            a
        } else {
            0
        };
    crate::vehicle::lemma_small_product(a, y[i] - x[i], 256, 8192);
    assert(0 * f0 == 0 && 0 * f1 == 0 && 0 * f2 == 0);
    let (e0, e1, e2) = (e(0), e(1), e(2));
    super::ekf_laws::lemma_dot3(row, d, [e0, e1, e2], [f0, f1, f2], j, 0);
    super::ekf_laws::lemma_weighed(
        old[i],
        super::linear::dot(row, d),
        x[i],
        y[i],
        a,
        b,
        j,
    );
}

/// A measured position and the estimate, known apart from the other errors, are weighed
/// against each other by the variance of the other: once the errors found are added, the
/// position along every axis is their weighted mean; here for variances whose sum is a power
/// of two and values of few bits, which leave no rounding.
pub proof fn law_position_is_weighed(
    c: EskfEstimator,
    s: PosSample,
    e: ErrorState,
    after: EskfEstimator,
    half: HalfAngle,
    x: [int; 3],
    y: [int; 3],
    a: int,
    b: int,
    j: nat,
    i: int,
)
    requires
        0 <= i < 3,
        c.takes_position(s, Some(e), after),
        tame(super::linear::rows(c.f.p)),
        apart(super::linear::rows(c.f.p), I_POS as int, a),
        crate::single::exact::worth(c.f.r_gps_p, b, 0),
        0 < a,
        0 <= b,
        a + b == vstd::arithmetic::power2::pow2(j),
        j <= 8,
        forall|k: int|
            #![trigger s.pos[k]]
            0 <= k < 3 ==> {
                &&& crate::single::exact::worth(c.f.st.p[k], x[k], 0)
                &&& crate::single::exact::worth(s.pos[k].0, y[k], 0)
                &&& crate::vehicle::small(x[k], 4096)
                &&& crate::vehicle::small(y[k], 4096)
            },
    ensures
        crate::single::exact::worth(
            after.f.corrected(e, half).st.p[i],
            b * x[i] + a * y[i],
            j,
        ),
{
    let p = super::linear::rows(c.f.p);
    let meas = [s.pos[0].0, s.pos[1].0, s.pos[2].0];
    lemma_gain_apart(p, I_POS as int, c.f.r_gps_p, a, b, j);
    let k = super::linear::gain3(
        p,
        super::nominal::picking(21, I_POS as int),
        super::nominal::diagonal3(c.f.r_gps_p),
    );
    assert forall|n: int| #![trigger meas[n]] 0 <= n < 3 implies {
        &&& crate::single::exact::worth(c.f.st.p[n], x[n], 0)
        &&& crate::single::exact::worth(meas[n], y[n], 0)
        &&& crate::vehicle::small(x[n], 4096)
        &&& crate::vehicle::small(y[n], 4096)
    } by {
        assert(s.pos[n] == s.pos[n]);
    }
    let row = k[6 + i];
    assert(k[6 + i][0] == row[0]);
    assert forall|n: int| 0 <= n < 3 implies crate::single::exact::worth(
        #[trigger] row[n],
        if i == n {
            a
        } else {
            0
        },
        j,
    ) by {
        assert(crate::single::exact::worth(
            k[6 + i][n],
            if 6 + i == I_POS + n {
                a
            } else {
                0
            },
            j,
        ));
    }
    lemma_fix_weighed(row, c.f.st.p, meas, x, y, a, b, j, i);
    assert(after.f.st == c.f.st);
    assert(e.dp[i] == super::linear::dot(
        k[6 + i],
        super::nominal::difference3(meas, c.f.st.p)@,
    ));
}

/// The same of a measured velocity.
pub proof fn law_velocity_is_weighed(
    c: EskfEstimator,
    v: [MeterPerSecond; 3],
    e: ErrorState,
    after: EskfEstimator,
    half: HalfAngle,
    x: [int; 3],
    y: [int; 3],
    a: int,
    b: int,
    j: nat,
    i: int,
)
    requires
        0 <= i < 3,
        c.takes_velocity(v, Some(e), after),
        tame(super::linear::rows(c.f.p)),
        apart(super::linear::rows(c.f.p), I_VEL as int, a),
        crate::single::exact::worth(c.f.r_gps_v, b, 0),
        0 < a,
        0 <= b,
        a + b == vstd::arithmetic::power2::pow2(j),
        j <= 8,
        forall|k: int|
            #![trigger v[k]]
            0 <= k < 3 ==> {
                &&& crate::single::exact::worth(c.f.st.v[k], x[k], 0)
                &&& crate::single::exact::worth(v[k].0, y[k], 0)
                &&& crate::vehicle::small(x[k], 4096)
                &&& crate::vehicle::small(y[k], 4096)
            },
    ensures
        crate::single::exact::worth(
            after.f.corrected(e, half).st.v[i],
            b * x[i] + a * y[i],
            j,
        ),
{
    let p = super::linear::rows(c.f.p);
    let meas = [v[0].0, v[1].0, v[2].0];
    lemma_gain_apart(p, I_VEL as int, c.f.r_gps_v, a, b, j);
    let k = super::linear::gain3(
        p,
        super::nominal::picking(21, I_VEL as int),
        super::nominal::diagonal3(c.f.r_gps_v),
    );
    assert forall|n: int| #![trigger meas[n]] 0 <= n < 3 implies {
        &&& crate::single::exact::worth(c.f.st.v[n], x[n], 0)
        &&& crate::single::exact::worth(meas[n], y[n], 0)
        &&& crate::vehicle::small(x[n], 4096)
        &&& crate::vehicle::small(y[n], 4096)
    } by {
        assert(v[n] == v[n]);
    }
    let row = k[3 + i];
    assert(k[3 + i][0] == row[0]);
    assert forall|n: int| 0 <= n < 3 implies crate::single::exact::worth(
        #[trigger] row[n],
        if i == n {
            a
        } else {
            0
        },
        j,
    ) by {
        assert(crate::single::exact::worth(
            k[3 + i][n],
            if 3 + i == I_VEL + n {
                a
            } else {
                0
            },
            j,
        ));
    }
    lemma_fix_weighed(row, c.f.st.v, meas, x, y, a, b, j, i);
    assert(after.f.st == c.f.st);
    assert(e.dv[i] == super::linear::dot(
        k[3 + i],
        super::nominal::difference3(meas, c.f.st.v)@,
    ));
}

/// The axis of a rotation points as its rates do, about each body axis.
proof fn lemma_axis_points(w: [Single; 3], i: int, up: bool)
    requires
        0 <= i < 3,
        forall|j: int| 0 <= j < 3 ==> crate::single::laws::within(#[trigger] w[j], 0),
        crate::single::signs::beyond(true, super::nominal::squared3(w).root(), 10),
        super::nominal::squared3(w).root().finite(),
        crate::single::signs::toward(up, w[i]),
    ensures
        super::nominal::axis_of(w) matches Some(axis) ==> {
            &&& forall|j: int| 0 <= j < 3 ==> crate::single::laws::within(#[trigger] axis[j], 10)
            &&& crate::single::signs::toward(up, axis[i])
        },
{
    let n = super::nominal::squared3(w).root();
    crate::single::signs::law_beyond_is_toward(true, n, 10);
    assert(crate::single::laws::within(w[0], 0) && crate::single::laws::within(w[1], 0)
        && crate::single::laws::within(w[2], 0) && crate::single::laws::within(w[i], 0));
    crate::single::laws::lemma_within_is_finite(w[i], 0);
    crate::single::signs::law_quotient_within(w[0], n, 0, 10);
    crate::single::signs::law_quotient_within(w[1], n, 0, 10);
    crate::single::signs::law_quotient_within(w[2], n, 0, 10);
    crate::single::signs::law_quotient_points(up, w[i], n);
    if let Some(axis) = super::nominal::axis_of(w) {
        assert forall|j: int| 0 <= j < 3 implies crate::single::laws::within(
            #[trigger] axis[j],
            10,
        ) by {
            assert(axis[j] == w[j] / n);
        }
    }
}

/// Over a step a level attitude that heads north turns about each axis in the direction in
/// which the gyroscope shows more than its error.
pub proof fn law_gyroscope_turns_attitude(
    s: NominalState,
    imu: ImuDelta,
    g: [Single; 3],
    dt: Single,
    half: HalfAngle,
    i: int,
    up: bool,
)
    requires
        0 <= i < 3,
        s.q == Quaternion::unit(),
        forall|j: int|
            0 <= j < 3 ==> crate::single::laws::within(
                #[trigger] imu.delta_ang[j] / dt - s.bg[j],
                0,
            ),
        (imu.delta_ang[i] / dt).finite(),
        s.bg[i].finite(),
        crate::single::signs::ahead(up, s.bg[i], imu.delta_ang[i] / dt),
        ({
            let n = super::nominal::squared3(
                super::nominal::rate_of(imu.delta_ang, dt, s.bg),
            ).root();
            n.finite() && crate::single::signs::beyond(true, n, 10)
        }),
        crate::single::laws::within(half.sin, 0) && crate::single::signs::toward(true, half.sin),
        crate::single::laws::within(half.cos, 0),
    ensures
        crate::single::signs::toward(up, s.predicted(imu, g, dt, half).q.part(i)),
{
    let w = super::nominal::rate_of(imu.delta_ang, dt, s.bg);
    crate::single::arith::lemma_small_ints();
    assert forall|j: int| 0 <= j < 3 implies crate::single::laws::within(#[trigger] w[j], 0) by {
        assert(w[j] == imu.delta_ang[j] / dt - s.bg[j]);
    }
    crate::single::signs::law_difference_points(up, s.bg[i], imu.delta_ang[i] / dt);
    lemma_axis_points(w, i, up);
    crate::single::signs::law_within_more(half.sin, 0, 10);
    crate::single::signs::law_within_more(half.cos, 0, 10);
    if let Some(axis) = super::nominal::axis_of(w) {
        crate::rotation_laws::law_turn_goes_its_way(axis, half.sin, half.cos, i, up);
    }
}

/// Errors that were found are added: what is found too small along an axis grows, whether
/// attitude, velocity, position, sensor errors or magnetic fields. The attitude is level and
/// heads north.
pub proof fn law_errors_are_added(c: Eskf, e: ErrorState, half: HalfAngle, i: int, up: bool)
    requires
        0 <= i < 3,
        !c.freeze_bias,
        c.st.q == Quaternion::unit(),
        c.st.v[i].finite() && c.st.p[i].finite() && c.st.bg[i].finite() && c.st.ba[i].finite(),
        c.mag_i[i].finite() && c.mag_b[i].finite(),
        forall|j: int| 0 <= j < 3 ==> crate::single::laws::within(#[trigger] e.dtheta[j], 0),
        super::nominal::squared3(e.dtheta).root().finite(),
        crate::single::signs::beyond(true, super::nominal::squared3(e.dtheta).root(), 10),
        crate::single::laws::within(half.sin, 0) && crate::single::signs::toward(true, half.sin),
        crate::single::laws::within(half.cos, 0),
        crate::single::signs::toward(up, e.dtheta[i]),
        crate::single::signs::toward(up, e.dv[i]),
        crate::single::signs::toward(up, e.dp[i]),
        crate::single::signs::toward(up, e.dbg[i]),
        crate::single::signs::toward(up, e.dba[i]),
        crate::single::signs::toward(up, e.d_mag_i[i]),
        crate::single::signs::toward(up, e.d_mag_b[i]),
    ensures
        ({
            let r = c.corrected(e, half);
            &&& crate::single::signs::toward(up, r.st.q.part(i))
            &&& crate::single::signs::ahead(up, c.st.v[i], r.st.v[i])
            &&& crate::single::signs::ahead(up, c.st.p[i], r.st.p[i])
            &&& crate::single::signs::ahead(up, c.st.bg[i], r.st.bg[i])
            &&& crate::single::signs::ahead(up, c.st.ba[i], r.st.ba[i])
            &&& crate::single::signs::ahead(up, c.mag_i[i], r.mag_i[i])
            &&& crate::single::signs::ahead(up, c.mag_b[i], r.mag_b[i])
        }),
{
    vstd::arithmetic::power2::lemma2_to64();
    crate::single::arith::lemma_small_ints();
    lemma_axis_points(e.dtheta, i, up);
    crate::single::signs::law_within_more(half.sin, 0, 10);
    crate::single::signs::law_within_more(half.cos, 0, 10);
    if let Some(axis) = super::nominal::axis_of(e.dtheta) {
        crate::rotation_laws::law_turn_goes_its_way(axis, half.sin, half.cos, i, up);
    } else {
        crate::rotation_laws::lemma_level_stays(i, up);
    }
    crate::single::signs::law_sum_moves(up, c.st.v[i], e.dv[i]);
    crate::single::signs::law_sum_moves(up, c.st.p[i], e.dp[i]);
    crate::single::signs::law_sum_moves(up, c.st.bg[i], e.dbg[i]);
    crate::single::signs::law_sum_moves(up, c.st.ba[i], e.dba[i]);
    crate::single::signs::law_sum_moves(up, c.mag_i[i], e.d_mag_i[i]);
    crate::single::signs::law_sum_moves(up, c.mag_b[i], e.d_mag_b[i]);
}

/// The cross product stands upright on both vectors, and exchanging the two turns it round;
/// here for all integers that leave no rounding.
pub proof fn law_cross_product(
    u: Seq<Single>,
    w: Seq<Single>,
    a: int,
    b: int,
    c: int,
    x: int,
    y: int,
    z: int,
)
    requires
        crate::single::exact::worth(u[0], a, 0) && crate::vehicle::small(a, 1024),
        crate::single::exact::worth(u[1], b, 0) && crate::vehicle::small(b, 1024),
        crate::single::exact::worth(u[2], c, 0) && crate::vehicle::small(c, 1024),
        crate::single::exact::worth(w[0], x, 0) && crate::vehicle::small(x, 1024),
        crate::single::exact::worth(w[1], y, 0) && crate::vehicle::small(y, 1024),
        crate::single::exact::worth(w[2], z, 0) && crate::vehicle::small(z, 1024),
    ensures
        ({
            let (k, l, m) = (b * z - c * y, c * x - a * z, a * y - b * x);
            &&& a * k + b * l + c * m == 0
            &&& x * k + y * l + z * m == 0
            &&& crate::single::exact::worth(super::eskf::cross(u, w)[0], k, 0)
            &&& crate::single::exact::worth(super::eskf::cross(u, w)[1], l, 0)
            &&& crate::single::exact::worth(super::eskf::cross(u, w)[2], m, 0)
            &&& crate::single::exact::worth(super::eskf::cross(w, u)[0], -k, 0)
            &&& crate::single::exact::worth(super::eskf::cross(w, u)[1], -l, 0)
            &&& crate::single::exact::worth(super::eskf::cross(w, u)[2], -m, 0)
        }),
{
    lemma_cross_part(u[1], w[2], u[2], w[1], b, z, c, y);
    lemma_cross_part(u[2], w[0], u[0], w[2], c, x, a, z);
    lemma_cross_part(u[0], w[1], u[1], w[0], a, y, b, x);
    lemma_cross_part(w[1], u[2], w[2], u[1], y, c, z, b);
    lemma_cross_part(w[2], u[0], w[0], u[2], z, a, x, c);
    lemma_cross_part(w[0], u[1], w[1], u[0], x, b, y, a);
    lemma_both_ways(b, z);
    lemma_both_ways(c, y);
    lemma_both_ways(c, x);
    lemma_both_ways(a, z);
    lemma_both_ways(a, y);
    lemma_both_ways(b, x);
    lemma_upright(a, b, c, x, y, z);
    lemma_upright(x, y, z, a, b, c);
}

/// The matrix that multiplies by a vector crosswise turns the axes as the cross product does:
/// the third part of the vector takes right to backwards and forward to right, and so on round.
pub proof fn law_crosswise_matrix(u: Seq<Single>, i: int)
    requires
        0 <= i < 3,
        forall|k: int| 0 <= k < 3 ==> (#[trigger] u[k]).finite(),
    ensures
        ({
            let j = (i + 1) % 3;
            let k = (i + 2) % 3;
            let e = super::nominal::basis(j);
            &&& super::nominal::cross_at(u, i, j).same(super::eskf::cross(u, e)[i])
            &&& super::nominal::cross_at(u, k, j).same(super::eskf::cross(u, e)[k])
            &&& super::nominal::cross_at(u, j, j).same(super::eskf::cross(u, e)[j])
        }),
{
    let j = (i + 1) % 3;
    let e = super::nominal::basis(j);
    let z = Single::of_int(0);
    let one = Single::of_int(1);
    crate::single::arith::lemma_small_ints();
    crate::single::laws::lemma_one_magnitude();
    assert forall|k: int| 0 <= k < 3 implies (u[k] * z).same(z) && (#[trigger] (u[k] * one)).same(
        u[k],
    ) && !(u[k] * z).nan() by {
        assert(u[k].finite());
        crate::single::laws::law_product_with_zero(u[k], z);
        crate::single::laws::law_one_is_neutral(u[k]);
    }
    assert(u[0].finite() && u[1].finite() && u[2].finite());
    assert((u[0] * one).same(u[0]) && (u[1] * one).same(u[1]) && (u[2] * one).same(u[2]));
    lemma_lone(u[0], u[1]);
    lemma_lone(u[0], u[2]);
    lemma_lone(u[1], u[0]);
    lemma_lone(u[1], u[2]);
    lemma_lone(u[2], u[0]);
    lemma_lone(u[2], u[1]);
    assert(e[0] == (if j == 0 {
        one
    } else {
        z
    }) && e[1] == (if j == 1 {
        one
    } else {
        z
    }) && e[2] == (if j == 2 {
        one
    } else {
        z
    }));
}

/// A difference of products with one and with zero.
proof fn lemma_lone(a: Single, b: Single)
    requires
        a.finite(),
        b.finite(),
    ensures
        (a * Single::of_int(1) - b * Single::of_int(0)).same(a),
        (b * Single::of_int(0) - a * Single::of_int(1)).same(a.negated()),
        (b * Single::of_int(0) - a * Single::of_int(0)).same(Single::of_int(0)),
{
    let z = Single::of_int(0);
    let p = a * Single::of_int(1);
    let q = b * z;
    crate::single::arith::lemma_small_ints();
    crate::single::laws::law_product_with_zero(b, z);
    crate::single::laws::law_product_with_zero(a, z);
    crate::single::laws::law_one_is_neutral(a);
    crate::single::laws::lemma_add_nothing(p, a, q);
    crate::single::laws::lemma_nothing_more(q, a * z);
    crate::single::signs::lemma_negated(a);
    crate::single::signs::lemma_negated(p);
    crate::single::laws::lemma_add_nothing(p.negated(), a.negated(), q);
    crate::single::laws::law_sum_commutes(q, p.negated());
}

proof fn lemma_upright(a: int, b: int, c: int, x: int, y: int, z: int)
    ensures
        a * (b * z - c * y) + b * (c * x - a * z) + c * (a * y - b * x) == 0,
        a * (y * c - z * b) + b * (z * a - x * c) + c * (x * b - y * a) == 0,
{
    assert(a * (b * z - c * y) == a * b * z - a * c * y) by (nonlinear_arith);
    assert(b * (c * x - a * z) == b * c * x - a * b * z) by (nonlinear_arith);
    assert(c * (a * y - b * x) == a * c * y - b * c * x) by (nonlinear_arith);
    assert(a * (y * c - z * b) == a * c * y - a * b * z) by (nonlinear_arith);
    assert(b * (z * a - x * c) == a * b * z - b * c * x) by (nonlinear_arith);
    assert(c * (x * b - y * a) == b * c * x - a * c * y) by (nonlinear_arith);
}

proof fn lemma_both_ways(a: int, b: int)
    ensures
        a * b == b * a,
{
    assert(a * b == b * a) by (nonlinear_arith);
}

proof fn lemma_cross_part(
    x: Single,
    y: Single,
    u: Single,
    v: Single,
    k: int,
    l: int,
    m: int,
    n: int,
)
    requires
        crate::single::exact::worth(x, k, 0) && crate::vehicle::small(k, 1024),
        crate::single::exact::worth(y, l, 0) && crate::vehicle::small(l, 1024),
        crate::single::exact::worth(u, m, 0) && crate::vehicle::small(m, 1024),
        crate::single::exact::worth(v, n, 0) && crate::vehicle::small(n, 1024),
    ensures
        crate::single::exact::worth(x * y - u * v, k * l - m * n, 0),
{
    crate::vehicle::lemma_small_product(k, l, 1024, 1024);
    crate::vehicle::lemma_small_product(m, n, 1024, 1024);
    crate::single::exact::law_worth_product(x, y, k, l, 0, 0);
    crate::single::exact::law_worth_product(u, v, m, n, 0, 0);
    crate::single::exact::law_worth_difference(x * y, u * v, k * l, m * n, 0);
}

/// The transition says how errors grow over a step: an error of the velocity becomes one of
/// the position, and an error of the accelerometer one of the velocity, as two steps from
/// states that differ by the error end apart; here in level attitude, without rotation, and
/// for all integers that leave no rounding.
pub proof fn law_transition_follows_errors(
    s: NominalState,
    t: NominalState,
    imu: ImuDelta,
    g: [Single; 3],
    dt: Single,
    half: HalfAngle,
    r: Seq<Seq<Single>>,
    a: Seq<Single>,
    f: Seq<int>,
    b: Seq<int>,
    n: Seq<int>,
    v: Seq<int>,
    p: Seq<int>,
    d: int,
    i: int,
    dv: int,
    db: int,
)
    requires
        0 <= i < 3,
        0 < d <= 1024,
        s.q == Quaternion::unit(),
        t == (NominalState { v: t.v, ba: t.ba, ..s }),
        r == super::nominal::rotation_of(s.q),
        crate::single::exact::worth(dt, d, 0),
        forall|j: int|
            #![trigger imu.delta_vel[j]]
            0 <= j < 3 ==> {
                &&& imu.delta_ang[j].same(Single::of_int(0))
                &&& s.bg[j].same(Single::of_int(0))
                &&& crate::single::exact::worth(imu.delta_vel[j], f[j] * d, 0)
                &&& crate::single::exact::worth(s.ba[j], b[j], 0)
                &&& crate::single::exact::worth(g[j], n[j], 0)
                &&& crate::single::exact::worth(s.v[j], v[j], 0)
                &&& crate::single::exact::worth(s.p[j], p[j], 0)
                &&& crate::vehicle::small(f[j], 1024)
                &&& crate::vehicle::small(b[j], 512)
                &&& crate::vehicle::small(n[j], 1024)
                &&& crate::vehicle::small(v[j], 2048)
                &&& crate::vehicle::small(p[j], 0x80_0000)
            },
        crate::vehicle::small(dv, 2048),
        crate::vehicle::small(db, 512),
        forall|j: int|
            #![trigger t.v[j]]
            0 <= j < 3 ==> {
                &&& crate::single::exact::worth(t.v[j], v[j] + dv, 0)
                &&& crate::single::exact::worth(t.ba[j], b[j] + db, 0)
            },
    ensures
        ({
            let x = s.predicted(imu, g, dt, half);
            let y = t.predicted(imu, g, dt, half);
            let pv = super::nominal::transition_at(6 + i, 3 + i, a, dt, r, a);
            let vb = super::nominal::transition_at(3 + i, 12 + i, a, dt, r, a);
            exists|k: int, l: int, xp: int, yp: int, xv: int, yv: int|
                {
                    &&& crate::single::exact::worth(pv, k, 0)
                    &&& crate::single::exact::worth(vb, l, 0)
                    &&& crate::single::exact::worth(x.p[i], xp, 0)
                    &&& crate::single::exact::worth(y.p[i], yp, 0)
                    &&& crate::single::exact::worth(x.v[i], xv, 0)
                    &&& crate::single::exact::worth(y.v[i], yv, 0)
                    &&& yp - xp == k * dv
                    &&& yv - xv == dv + l * db
                }
        }),
{
    let z = Single::of_int(0);
    let one = Single::of_int(1);
    let x = s.predicted(imu, g, dt, half);
    let y = t.predicted(imu, g, dt, half);
    let v2 = Seq::new(3, |j: int| v[j] + dv);
    let b2 = Seq::new(3, |j: int| b[j] + db);
    super::nominal::law_level_flight(s, imu, g, dt, half, f, b, n, v, p, d, 0, i);
    assert forall|j: int| #![trigger imu.delta_vel[j]] 0 <= j < 3 implies {
        &&& imu.delta_ang[j].same(Single::of_int(0))
        &&& t.bg[j].same(Single::of_int(0))
        &&& crate::single::exact::worth(imu.delta_vel[j], f[j] * d, 0)
        &&& crate::single::exact::worth(t.ba[j], b2[j], 0)
        &&& crate::single::exact::worth(g[j], n[j], 0)
        &&& crate::single::exact::worth(t.v[j], v2[j], 0)
        &&& crate::single::exact::worth(t.p[j], p[j], 0)
        &&& crate::vehicle::small(f[j], 1024)
        &&& crate::vehicle::small(b2[j], 1024)
        &&& crate::vehicle::small(n[j], 1024)
        &&& crate::vehicle::small(v2[j], 4096)
        &&& crate::vehicle::small(p[j], 0x80_0000)
    } by {
        assert(t.v[j] == t.v[j]);
    }
    super::nominal::law_level_flight(t, imu, g, dt, half, f, b2, n, v2, p, d, 0, i);
    let pv = super::nominal::transition_at(6 + i, 3 + i, a, dt, r, a);
    let vb = super::nominal::transition_at(3 + i, 12 + i, a, dt, r, a);
    crate::single::exact::law_integer_worth(0);
    crate::single::exact::law_integer_worth(1);
    crate::single::exact::law_worth_sum(z, dt, 0, d, 0);
    assert(pv == z + dt);
    let basis = super::nominal::basis(i);
    crate::single::arith::lemma_small_ints();
    crate::single::laws::lemma_one_magnitude();
    assert forall|j: int| 0 <= j < 3 implies (#[trigger] basis[j]).finite() by {}
    crate::vehicle::law_level_turns_no_vector(basis, i);
    let e = Quaternion::unit().rotated(basis)[i];
    super::nominal::lemma_same_worth(one, e, 1, 0);
    assert(r[i][i] == e);
    crate::single::exact::law_worth_negated(e, 1, 0);
    crate::single::exact::law_worth_product(e.negated(), dt, -1, d, 0, 0);
    crate::single::exact::law_worth_sum(z, e.negated() * dt, 0, -d, 0);
    assert(vb == z + e.negated() * dt);
    let (xp, yp) = (p[i] + v[i] * d, p[i] + v2[i] * d);
    let (xv, yv) = (
        v[i] + (f[i] - b[i] + n[i]) * d,
        v2[i] + (f[i] - b2[i] + n[i]) * d,
    );
    assert(yp - xp == d * dv) by (nonlinear_arith)
        requires
            xp == p[i] + v[i] * d,
            yp == p[i] + (v[i] + dv) * d,
    ;
    let m = f[i] - b[i] + n[i];
    assert((m - db) * d == m * d - db * d) by (nonlinear_arith);
    assert((-d) * db == -(db * d)) by (nonlinear_arith);
    assert(yv - xv == dv + (-d) * db);
    assert(crate::single::exact::worth(pv, d, 0) && crate::single::exact::worth(vb, -d, 0));
}

/// An error of the gyroscope turns the attitude the other way, by the error times the step
/// about the same axis and not about the others, as the filter turns the attitude by what the
/// gyroscope shows beyond its error.
pub proof fn law_gyroscope_error_turns_back(
    w: Seq<Single>,
    dt: Single,
    r: Seq<Seq<Single>>,
    a: Seq<Single>,
    i: int,
    j: int,
    d: int,
    k: nat,
)
    requires
        0 <= i < 3,
        0 <= j < 3,
        crate::single::exact::worth(dt, d, k),
        k <= 100,
        0 <= d <= 0x40_0000,
    ensures
        crate::single::exact::worth(
            super::nominal::transition_at(i, 9 + j, w, dt, r, a),
            if i == j {
                -d
            } else {
                0
            },
            k,
        ),
        crate::single::signs::toward(false, super::nominal::transition_at(i, 9 + j, w, dt, r, a)),
{
    let z = Single::of_int(0);
    crate::single::exact::law_integer_worth(0);
    crate::single::exact::law_worth_finer_to(z, 0, 0, k);
    assert(0 * vstd::arithmetic::power2::pow2(k) == 0);
    crate::single::exact::law_worth_negated(dt, d, k);
    crate::single::exact::law_worth_sum(z, dt.negated(), 0, -d, k);
    let x = super::nominal::transition_at(i, 9 + j, w, dt, r, a);
    let n = if i == j {
        -d
    } else {
        0
    };
    assert(crate::single::exact::worth(x, n, k));
    crate::single::exact::law_worth_order(x, z, n, 0, k);
}

/// A difference of which all products but one are zero.
proof fn lemma_one_taken(start: Single, k: Single, h: Seq<Single>, c: Seq<Single>, i: int, n: nat)
    requires
        0 <= i,
        start.finite(),
        (k * h[i] * c[i]).finite(),
        (start - k * h[i] * c[i]).finite(),
        forall|m: int|
            0 <= m < n && m != i ==> (#[trigger] (k * h[m] * c[m])).same(Single::of_int(0)),
    ensures
        super::linear::less_from(start, k, h, c, n).same(
            if i < n {
                start - k * h[i] * c[i]
            } else {
                start
            },
        ),
        super::linear::less_from(start, k, h, c, n).finite(),
    decreases n,
{
    crate::single::arith::lemma_small_ints();
    if n > 0 {
        let m = (n - 1) as nat;
        lemma_one_taken(start, k, h, c, i, m);
        let before = super::linear::less_from(start, k, h, c, m);
        let p = k * h[m as int] * c[m as int];
        if m == i {
            crate::single::signs::lemma_negated(p);
            crate::single::laws::law_same_sums(before, p.negated(), start, p.negated());
            crate::single::laws::lemma_same_is_finite(before - p, start - p);
        } else {
            let want = if i < m {
                start - k * h[i] * c[i]
            } else {
                start
            };
            assert(p.same(Single::of_int(0)));
            crate::single::laws::lemma_add_nothing(before, want, p);
        }
    }
}

/// The squared spread of a measured height falls to the product of the variances of estimate
/// and measurement over their sum; here for variances whose sum is a power of two, which leave
/// no rounding.
pub proof fn law_altitude_makes_sure(
    c: EskfEstimator,
    alt: Single,
    e: ErrorState,
    after: EskfEstimator,
    a: int,
    b: int,
    j: nat,
)
    requires
        c.takes_altitude(alt, Some(e), after),
        tame(super::linear::rows(c.f.p)),
        crate::single::exact::worth(c.f.p[8][8], a, 0),
        crate::single::exact::worth(c.f.r_baro, b, 0),
        0 < a,
        0 <= b,
        a + b == vstd::arithmetic::power2::pow2(j),
        j <= 8,
    ensures
        crate::single::exact::worth(after.f.p[8][8], a * b, j),
{
    let p = super::linear::rows(c.f.p);
    let row = super::nominal::altitude_row(21);
    let seen = super::linear::seen(p, row);
    let r = c.f.r_baro;
    let q = vstd::arithmetic::power2::pow2(j) as int;
    let z = Single::of_int(0);
    let minus = Single::of_int(-1);
    vstd::arithmetic::power2::lemma2_to64();
    vstd::arithmetic::power2::lemma_pow2_pos(j);
    if j < 8 {
        vstd::arithmetic::power2::lemma_pow2_strictly_increases(j, 8);
    }
    crate::single::arith::lemma_small_ints();
    crate::single::exact::law_integer_worth(0);
    crate::single::exact::law_integer_worth(-1);
    assert(p[8][8] == c.f.p[8][8]);
    assert(row[8] == minus);
    lemma_altitude_seen(p, 8);
    crate::single::exact::law_worth_product(p[8][8], minus, a, -1, 0, 0);
    super::nominal::lemma_same_worth(p[8][8] * minus, seen[8], -a, 0);
    assert forall|k: int| 0 <= k < 21 && k != 8 implies (#[trigger] row[k] * seen[k]).same(z) by {
        lemma_altitude_seen(p, k);
        crate::single::laws::law_product_with_zero(seen[k], row[k]);
    }
    crate::single::exact::law_worth_product(minus, seen[8], -1, -a, 0, 0);
    crate::single::exact::law_worth_sum(r, row[8] * seen[8], b, a, 0);
    lemma_one_product(r, row, seen, 8, 21);
    let s = super::linear::innovation_variance(p, row, r);
    super::nominal::lemma_same_worth(r + row[8] * seen[8], s, q, 0);
    super::ekf_laws::lemma_gain_of(seen[8], s, -a, j);
    let gain = super::linear::gain(p, row, r);
    let g = gain[8];
    assert(g == seen[8] / s);
    let col = super::linear::column(p, 8);
    assert(col[8] == p[8][8]);
    assert forall|m: int| 0 <= m < 21 && m != 8 implies (#[trigger] (g * row[m] * col[m])).same(
        z,
    ) by {
        assert(crate::single::laws::within(p[m][8], 40));
        crate::single::laws::lemma_within_is_finite(p[m][8], 40);
        crate::single::laws::law_product_with_zero(g, row[m]);
        crate::single::laws::law_product_with_zero(col[m], g * row[m]);
    }
    crate::single::exact::law_worth_product(g, minus, -a, -1, j, 0);
    crate::vehicle::lemma_small_product(a, a, 256, 256);
    crate::single::exact::law_worth_product(g * minus, col[8], a, a, j, 0);
    crate::vehicle::lemma_small_product(a, q, 256, 256);
    crate::single::exact::law_worth_finer_to(p[8][8], a, 0, j);
    let t = g * row[8] * col[8];
    assert(a * q - a * a == a * b) by (nonlinear_arith)
        requires
            q == a + b,
    ;
    crate::vehicle::lemma_small_product(a, b, 256, 256);
    crate::single::exact::law_worth_difference(p[8][8], t, a * q, a * a, j);
    lemma_one_taken(p[8][8], g, row, col, 8, 21);
    let out = super::linear::reduced(p, gain, row);
    assert(out[8][8] == super::linear::less_from(p[8][8], g, row, col, 21));
    super::nominal::lemma_same_worth(p[8][8] - t, out[8][8], a * b, j);
    assert(super::linear::rows(after.f.p)[8][8] == after.f.p[8][8]);
}

/// The rotation since a level attitude is the one that the new attitude stands for: about each
/// axis it points as the new attitude does; here for all integers that leave no rounding.
pub proof fn law_rotation_since_level(st: NominalState, w: int, x: [int; 3], i: int, up: bool)
    requires
        0 <= i < 3,
        crate::vehicle::whole(st.q, w, x[0], x[1], x[2]),
        crate::vehicle::small(w, 1024),
        crate::vehicle::small(x[0], 1024),
        crate::vehicle::small(x[1], 1024),
        crate::vehicle::small(x[2], 1024),
        if up {
            x[i] >= 0
        } else {
            x[i] <= 0
        },
    ensures
        crate::single::signs::toward(
            up,
            super::nominal::rotation_since(Quaternion::unit(), st).0.part(i),
        ),
{
    let c = Quaternion::unit().conjugate();
    let z = Single::of_int(0);
    crate::single::exact::law_integer_worth(0);
    crate::single::exact::law_integer_worth(1);
    crate::single::exact::law_worth_negated(z, 0, 0);
    crate::vehicle::lemma_times_whole(st.q, c, w, x[0], x[1], x[2], 1, 0, 0, 0, 1024, 1);
    let e = st.q.times(c);
    assert(crate::vehicle::whole(e, w, x[0], x[1], x[2]));
    crate::rotation_laws::lemma_whole_within(e.w, w);
    crate::rotation_laws::lemma_whole_within(e.x, x[0]);
    crate::rotation_laws::lemma_whole_within(e.y, x[1]);
    crate::rotation_laws::lemma_whole_within(e.z, x[2]);
    crate::single::exact::law_worth_order(z, e.part(i), 0, x[i], 0);
    crate::single::exact::law_worth_order(e.part(i), z, x[i], 0, 0);
    crate::rotation_laws::lemma_unit_keeps_side(e, i, up);
}

} // verus!
