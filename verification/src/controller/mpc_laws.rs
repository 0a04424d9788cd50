//! What the predictive controller does with errors: moving away from where it is to be, it
//! brakes.

use super::mpc::{AxisMpc2, AxisTask, MpcController, MAX_STEPS};
use super::trait_def::Setpoint;
use crate::single::Single;
use crate::vehicle::VehicleState;
use vstd::prelude::*;

verus! {

/// Position and speed after `k` steps with the same acceleration `b`.
pub open spec fn rolled(x: Single, v: Single, b: Single, dt: Single, k: nat) -> (Single, Single)
    decreases k,
{
    if k == 0 {
        (x, v)
    } else {
        let (y, w) = rolled(x, v, b, dt, (k - 1) as nat);
        (y + dt * w + Single::of_ratio(5, 10) * dt * dt * b, w + dt * b)
    }
}

/// The strongest acceleration against a movement that goes up, or down.
pub open spec fn full_brake(a: AxisMpc2, up: bool) -> Single {
    if up {
        a.umax.negated()
    } else {
        a.umax
    }
}

/// Whether weights, limits and task are of ordinary size, and the weights are not negative.
pub open spec fn ordinary(a: AxisMpc2, t: AxisTask) -> bool {
    &&& a.n <= MAX_STEPS
    &&& crate::single::signs::capped(a.q_pos, 64, 0) && crate::single::signs::toward(true, a.q_pos)
    &&& crate::single::signs::capped(a.q_vel, 64, 0) && crate::single::signs::toward(true, a.q_vel)
    &&& crate::single::signs::capped(a.umax, 128, 0) && crate::single::signs::toward(true, a.umax)
    &&& crate::single::signs::toward(true, a.r) && a.r.less_eq(Single::of_int(1))
    &&& crate::single::signs::toward(true, t.dt) && t.dt.less_eq(Single::of_int(1))
    &&& crate::single::signs::capped(t.x0, 16384, 0)
    &&& crate::single::signs::capped(t.xr, 16384, 0)
    &&& crate::single::signs::capped(t.v0, 1024, 0)
    &&& crate::single::signs::capped(t.vr, 1024, 0)
}

/// Whether even the strongest braking over all steps leaves the vehicle beyond the wanted
/// position and above the wanted speed, in the direction `up`.
pub open spec fn overshoots(a: AxisMpc2, t: AxisTask, up: bool) -> bool {
    forall|k: nat|
        k <= a.n ==> {
            let s = #[trigger] rolled(t.x0, t.v0, full_brake(a, up), t.dt, k);
            crate::single::signs::ahead(up, t.xr, s.0) && crate::single::signs::ahead(
                up,
                t.vr,
                s.1,
            )
        }
}

/// Whether the accelerations are within the limit and point against `up`.
spec fn braking(a: AxisMpc2, u: Seq<Single>, up: bool) -> bool {
    &&& u.len() == MAX_STEPS
    &&& forall|k: int|
        0 <= k < a.n ==> {
            &&& crate::single::signs::toward(!up, #[trigger] u[k])
            &&& crate::single::signs::ahead(up, full_brake(a, up), u[k])
            &&& crate::single::signs::capped(u[k], 128, 0)
        }
}

/// What a number of at most one is.
proof fn lemma_at_most_one(x: Single)
    requires
        crate::single::signs::toward(true, x),
        x.less_eq(Single::of_int(1)),
    ensures
        crate::single::signs::capped(x, 1, 0),
        x.finite(),
{
    crate::single::arith::lemma_small_ints();
    crate::single::laws::lemma_one_magnitude();
    let p = vstd::arithmetic::power2::pow2(149);
    assert(1 * p == p);
    crate::single::signs::lemma_capped_is_finite(x, 1, 0);
}

/// Half of the squared time step.
proof fn lemma_half_square(dt: Single)
    requires
        crate::single::signs::toward(true, dt),
        dt.less_eq(Single::of_int(1)),
    ensures
        crate::single::signs::toward(true, Single::of_ratio(5, 10) * dt * dt),
        crate::single::signs::capped(Single::of_ratio(5, 10) * dt * dt, 1, 0),
        (Single::of_ratio(5, 10) * dt * dt).finite(),
{
    let half = Single::of_ratio(5, 10);
    lemma_at_most_one(dt);
    crate::single::laws::law_ratio_is_positive(5, 10);
    let p = vstd::arithmetic::power2::pow2(149);
    assert(1 * p == p);
    assert(crate::single::signs::capped(half, 1, 0));
    crate::single::signs::law_product_points(true, half, dt);
    crate::single::signs::law_product_capped(half, dt, 1, 1, 0, 0);
    crate::single::signs::law_product_points(true, half * dt, dt);
    crate::single::signs::law_product_capped(half * dt, dt, 1, 1, 0, 0);
}

/// However it brakes, the vehicle stays ahead of where the strongest braking would bring it.
proof fn lemma_ahead_of_brake(a: AxisMpc2, t: AxisTask, u: Seq<Single>, up: bool, k: nat)
    requires
        ordinary(a, t),
        braking(a, u, up),
        k <= a.n,
    ensures
        ({
            let (x, v) = super::mpc::predicted(t, u, k);
            let (y, w) = rolled(t.x0, t.v0, full_brake(a, up), t.dt, k);
            &&& crate::single::signs::ahead(up, y, x)
            &&& crate::single::signs::ahead(up, w, v)
            &&& crate::single::signs::capped(v, (1024 + 128 * k) as nat, 0)
            &&& crate::single::signs::capped(w, (1024 + 128 * k) as nat, 0)
            &&& crate::single::signs::capped(x, (16384 + 6000 * k) as nat, 0)
            &&& crate::single::signs::capped(y, (16384 + 6000 * k) as nat, 0)
        }),
    decreases k,
{
    let b = full_brake(a, up);
    crate::single::arith::lemma_small_ints();
    if k > 0 {
        let j = (k - 1) as nat;
        lemma_ahead_of_brake(a, t, u, up, j);
        let (x, v) = super::mpc::predicted(t, u, j);
        let (y, w) = rolled(t.x0, t.v0, b, t.dt, j);
        let c = u[j as int];
        assert(crate::single::signs::ahead(up, b, c));
        crate::single::signs::lemma_negated(a.umax);
        assert(crate::single::signs::capped(b, 128, 0));
        crate::single::signs::lemma_capped_is_finite(b, 128, 0);
        crate::single::signs::lemma_capped_is_finite(c, 128, 0);
        let dt = t.dt;
        let hs = Single::of_ratio(5, 10) * dt * dt;
        lemma_at_most_one(dt);
        lemma_half_square(dt);
        let cv = (1024 + 128 * j) as nat;
        let cx = (16384 + 6000 * j) as nat;
        crate::single::signs::lemma_capped_is_finite(v, cv, 0);
        crate::single::signs::lemma_capped_is_finite(w, cv, 0);
        crate::single::signs::lemma_capped_is_finite(x, cx, 0);
        crate::single::signs::lemma_capped_is_finite(y, cx, 0);
        assert(1 * 128 == 128 && 1 * cv == cv) by (nonlinear_arith);
        crate::single::signs::law_product_capped(dt, c, 1, 128, 0, 0);
        crate::single::signs::law_product_capped(dt, b, 1, 128, 0, 0);
        crate::single::signs::law_product_capped(hs, c, 1, 128, 0, 0);
        crate::single::signs::law_product_capped(hs, b, 1, 128, 0, 0);
        crate::single::signs::law_product_capped(dt, v, 1, cv, 0, 0);
        crate::single::signs::law_product_capped(dt, w, 1, cv, 0, 0);
        crate::single::signs::law_sum_capped(v, dt * c, cv, 128, 0);
        crate::single::signs::law_sum_capped(w, dt * b, cv, 128, 0);
        crate::single::signs::law_sum_capped(x, dt * v, cx, cv, 0);
        crate::single::signs::law_sum_capped(y, dt * w, cx, cv, 0);
        crate::single::signs::law_sum_capped(x + dt * v, hs * c, cx + cv, 128, 0);
        crate::single::signs::law_sum_capped(y + dt * w, hs * b, cx + cv, 128, 0);
        crate::single::signs::lemma_capped_more(
            x + dt * v + hs * c,
            cx + cv + 128,
            cx + 6000,
            0,
        );
        crate::single::signs::lemma_capped_more(
            y + dt * w + hs * b,
            cx + cv + 128,
            cx + 6000,
            0,
        );
        crate::single::signs::law_product_order(up, b, c, dt);
        crate::single::signs::law_product_order(up, b, c, hs);
        crate::single::signs::law_product_order(up, w, v, dt);
        crate::single::signs::law_sum_order(up, dt * b, dt * c, w);
        crate::single::signs::law_sum_order(up, w, v, dt * c);
        crate::single::signs::law_sum_order(up, dt * w, dt * v, y);
        crate::single::signs::law_sum_order(up, y, x, dt * v);
        crate::single::signs::law_sum_order(up, hs * b, hs * c, y + dt * w);
        crate::single::signs::law_sum_order(up, y + dt * w, x + dt * v, hs * c);
        assert(super::mpc::half_square(dt) == hs);
    }
}

/// While the vehicle is beyond what is wanted, every position and speed ahead only adds to
/// the cost.
proof fn lemma_cost_grows(a: AxisMpc2, t: AxisTask, u: Seq<Single>, up: bool, k: nat)
    requires
        ordinary(a, t),
        overshoots(a, t, up),
        braking(a, u, up),
        k <= a.n,
    ensures
        ({
            let (lx, lv) = a.sensitivity(t, u, k);
            &&& crate::single::signs::toward(up, lx)
            &&& crate::single::signs::toward(up, lv)
            &&& crate::single::signs::capped(lx, (a.n - k) as nat, 24)
            &&& crate::single::signs::capped(lv, ((a.n - k) * 34) as nat, 24)
        }),
    decreases a.n - k,
{
    crate::single::arith::lemma_small_ints();
    if k < a.n {
        lemma_cost_grows(a, t, u, up, k + 1);
        lemma_ahead_of_brake(a, t, u, up, k);
        let (lx, lv) = a.sensitivity(t, u, k + 1);
        let (x, v) = super::mpc::predicted(t, u, k);
        let s = rolled(t.x0, t.v0, full_brake(a, up), t.dt, k);
        assert(crate::single::signs::ahead(up, t.xr, s.0) && crate::single::signs::ahead(
            up,
            t.vr,
            s.1,
        ));
        lemma_at_most_one(t.dt);
        crate::single::signs::lemma_capped_more(v, (1024 + 128 * k) as nat, 5120, 0);
        crate::single::signs::lemma_capped_more(x, (16384 + 6000 * k) as nat, 208384, 0);
        crate::single::signs::lemma_capped_is_finite(v, 5120, 0);
        crate::single::signs::lemma_capped_is_finite(x, 208384, 0);
        crate::single::signs::lemma_capped_is_finite(t.xr, 16384, 0);
        crate::single::signs::lemma_capped_is_finite(t.vr, 1024, 0);
        crate::single::signs::lemma_capped_is_finite(a.q_pos, 64, 0);
        crate::single::signs::lemma_capped_is_finite(a.q_vel, 64, 0);
        crate::single::signs::law_sum_capped(x, t.xr, 208384, 16384, 0);
        crate::single::signs::law_sum_capped(v, t.vr, 5120, 1024, 0);
        crate::single::signs::law_product_capped(a.q_pos, x - t.xr, 64, 224768, 0, 0);
        crate::single::signs::law_product_capped(a.q_vel, v - t.vr, 64, 6144, 0, 0);
        crate::single::signs::lemma_capped_coarse(a.q_pos * (x - t.xr), 14385152);
        crate::single::signs::lemma_capped_coarse(a.q_vel * (v - t.vr), 393216);
        crate::single::signs::law_difference_points(up, t.xr, x);
        crate::single::signs::law_difference_points(up, t.vr, v);
        crate::single::signs::law_product_points(up, x - t.xr, a.q_pos);
        crate::single::signs::law_product_points(up, v - t.vr, a.q_vel);
        let n1 = (a.n - k - 1) as nat;
        let nv = ((a.n - k - 1) * 34) as nat;
        crate::single::signs::lemma_capped_is_finite(lx, n1, 24);
        crate::single::signs::lemma_capped_is_finite(lv, nv, 24);
        crate::single::signs::law_sum_points(up, a.q_pos * (x - t.xr), lx);
        crate::single::signs::law_sum_capped(a.q_pos * (x - t.xr), lx, 1, n1, 24);
        crate::single::signs::law_sum_points(up, a.q_vel * (v - t.vr), lv);
        crate::single::signs::law_sum_capped(a.q_vel * (v - t.vr), lv, 1, nv, 24);
        crate::single::signs::law_product_points(up, lx, t.dt);
        assert(1 * n1 == n1) by (nonlinear_arith);
        crate::single::signs::law_product_capped(t.dt, lx, 1, n1, 0, 24);
        let p = a.q_vel * (v - t.vr) + lv;
        crate::single::signs::law_sum_points(up, p, t.dt * lx);
        crate::single::signs::law_sum_capped(p, t.dt * lx, 1 + nv, n1, 24);
        crate::single::signs::lemma_capped_more(p + t.dt * lx, 1 + nv + n1, nv + 34, 24);
    } else {
        let q = vstd::arithmetic::power2::pow2(173);
        assert(0 * q == 0);
    }
}

/// One step of descent keeps braking, and leaves at least half of each acceleration.
proof fn lemma_improved_brakes(a: AxisMpc2, t: AxisTask, u: Seq<Single>, up: bool, c: nat)
    requires
        c < 120,
        ordinary(a, t),
        overshoots(a, t, up),
        braking(a, u, up),
    ensures
        braking(a, a.improved(t, u), up),
        forall|k: int|
            0 <= k < a.n && crate::single::signs::beyond(!up, u[k], c)
                && crate::single::signs::beyond(true, a.umax, (c + 1) as nat)
                ==> crate::single::signs::beyond(
                !up,
                #[trigger] a.improved(t, u)[k],
                (c + 1) as nat,
            ),
{
    let w = a.improved(t, u);
    let half = Single::of_ratio(5, 10);
    let one = Single::of_int(1);
    vstd::arithmetic::power2::lemma2_to64();
    crate::single::arith::lemma_small_ints();
    crate::single::laws::law_ratio_is_positive(5, 10);
    crate::single::laws::lemma_one_magnitude();
    lemma_at_most_one(t.dt);
    lemma_at_most_one(a.r);
    lemma_half_square(t.dt);
    crate::single::signs::lemma_negated(a.umax);
    let p = vstd::arithmetic::power2::pow2(149);
    assert(1 * p == p);
    assert(half.less_eq(one)) by {
        crate::single::exact::law_half_worth();
        crate::single::exact::law_integer_worth(1);
        crate::single::exact::law_worth_finer(one, 1, 0);
        crate::single::exact::law_worth_order(half, one, 1, 2, 1);
    }
    assert forall|k: int| 0 <= k < a.n implies {
        let x = u[k];
        let g = a.slope(t, u, k as nat);
        &&& (half * g).finite()
        &&& crate::single::signs::ahead(up, half * x, half * g)
        &&& crate::single::signs::ahead(up, x, half * g)
        &&& crate::single::signs::capped(x - half * g, 0x100_0000, 24)
        &&& #[trigger] w[k] == a.held(x - half * g)
    } by {
        let x = u[k];
        let hs = super::mpc::half_square(t.dt);
        assert(hs == half * t.dt * t.dt);
        let (lx, lv) = a.sensitivity(t, u, (k + 1) as nat);
        lemma_cost_grows(a, t, u, up, (k + 1) as nat);
        crate::single::signs::lemma_capped_is_finite(x, 128, 0);
        let n1 = (a.n - k - 1) as nat;
        let nv = ((a.n - k - 1) * 34) as nat;
        crate::single::signs::lemma_capped_is_finite(lx, n1, 24);
        crate::single::signs::lemma_capped_is_finite(lv, nv, 24);
        assert(1 * n1 == n1 && 1 * nv == nv && 1 * 128 == 128) by (nonlinear_arith);
        crate::single::signs::law_product_capped(a.r, x, 1, 128, 0, 0);
        crate::single::signs::lemma_capped_coarse(a.r * x, 128);
        crate::single::signs::law_product_capped(hs, lx, 1, n1, 0, 24);
        crate::single::signs::law_product_capped(t.dt, lv, 1, nv, 0, 24);
        crate::single::signs::law_product_points(up, lx, hs);
        crate::single::signs::law_product_points(up, lv, t.dt);
        let q = a.r * x + hs * lx;
        crate::single::signs::law_sum_capped(a.r * x, hs * lx, 1, n1, 24);
        crate::single::signs::law_sum_capped(q, t.dt * lv, 1 + n1, nv, 24);
        let g = q + t.dt * lv;
        assert(g == a.slope(t, u, k as nat));
        crate::single::signs::law_sum_moves(up, a.r * x, hs * lx);
        crate::single::signs::law_sum_moves(up, q, t.dt * lv);
        assert(crate::single::signs::ahead(up, a.r * x, g));
        // The weight of the effort takes no more than the acceleration itself.
        crate::single::signs::law_factor_order(!up, x, a.r, one);
        crate::single::laws::law_one_is_neutral(x);
        crate::single::laws::law_product_commutes(x, one);
        assert(crate::single::signs::ahead(up, x, a.r * x));
        crate::single::signs::lemma_capped_is_finite(g, 1 + n1 + nv, 24);
        crate::single::signs::law_product_order(up, a.r * x, g, half);
        crate::single::signs::law_product_order(up, x, a.r * x, half);
        assert(crate::single::signs::ahead(up, half * x, half * g));
        crate::single::signs::law_factor_order(!up, x, half, one);
        assert(crate::single::signs::ahead(up, x, half * x));
        crate::single::signs::law_product_capped(half, g, 1, 1 + n1 + nv, 0, 24);
        assert(1 * (1 + n1 + nv) == 1 + n1 + nv) by (nonlinear_arith);
        crate::single::signs::lemma_capped_coarse(x, 128);
        crate::single::signs::law_sum_capped(x, half * g, 1, 1 + n1 + nv, 24);
        crate::single::signs::lemma_capped_more(
            x - half * g,
            1 + (1 + n1 + nv),
            0x100_0000,
            24,
        );
    }
    assert forall|k: int| 0 <= k < a.n implies {
        &&& crate::single::signs::toward(!up, #[trigger] w[k])
        &&& crate::single::signs::ahead(up, full_brake(a, up), w[k])
        &&& crate::single::signs::capped(w[k], 128, 0)
    } by {
        let x = u[k];
        let g = a.slope(t, u, k as nat);
        assert(w[k] == a.held(x - half * g));
        crate::single::signs::lemma_capped_is_finite(x, 128, 0);
        crate::single::signs::law_difference_points(up, x, half * g);
        crate::single::signs::law_clamp_points(!up, x - half * g, a.umax);
        crate::single::number::law_clamp_bounds(x - half * g, a.umax.negated(), a.umax);
        crate::single::signs::lemma_clamp_capped(x - half * g, a.umax, 128, 0);
    }
    assert forall|k: int|
        0 <= k < a.n && crate::single::signs::beyond(!up, u[k], c)
            && crate::single::signs::beyond(
            true,
            a.umax,
            (c + 1) as nat,
        ) implies crate::single::signs::beyond(!up, #[trigger] w[k], (c + 1) as nat) by {
        let x = u[k];
        let g = a.slope(t, u, k as nat);
        assert(w[k] == a.held(x - half * g));
        crate::single::signs::lemma_capped_is_finite(x, 128, 0);
        assert(crate::single::signs::capped(x, 1, 20)) by {
            let s = vstd::arithmetic::power2::pow2(169);
            vstd::arithmetic::power2::lemma_pow2_adds(20, 149);
            crate::single::signs::lemma_capped_more(x, 128, 0x10_0000, 0);
            assert(1 * s == s);
        }
        crate::single::signs::law_half_is_left(!up, x, c);
        crate::single::signs::law_difference_order(up, half * x, half * g, x);
        crate::single::signs::law_ahead_of_beyond(
            !up,
            x - half * x,
            x - half * g,
            (c + 1) as nat,
        );
        crate::single::signs::law_clamp_beyond(!up, x - half * g, a.umax, (c + 1) as nat);
    }
}

/// The first guess brakes.
proof fn lemma_guess_brakes(a: AxisMpc2, t: AxisTask, up: bool, c: nat)
    requires
        ordinary(a, t),
        crate::single::signs::ahead(up, t.xr, t.x0),
        crate::single::signs::ahead(up, t.vr, t.v0),
        c < 100,
    ensures
        braking(a, a.guessed(t), up),
        crate::single::signs::beyond(up, t.v0 - t.vr, c) && crate::single::signs::beyond(
            true,
            a.umax,
            (c + 1) as nat,
        ) ==> forall|k: int|
            0 <= k < a.n ==> crate::single::signs::beyond(
                !up,
                #[trigger] a.guessed(t)[k],
                (c + 1) as nat,
            ),
{
    let p4 = Single::of_ratio(4, 10);
    let p8 = Single::of_ratio(8, 10);
    let p = vstd::arithmetic::power2::pow2(149);
    crate::single::arith::lemma_small_ints();
    assert(1 * p == p);
    crate::single::laws::law_ratio_is_positive(4, 10);
    crate::single::laws::law_ratio_is_positive(8, 10);
    assert(crate::single::signs::capped(p4, 1, 0) && crate::single::signs::capped(p8, 1, 0));
    crate::single::signs::lemma_capped_is_finite(t.x0, 16384, 0);
    crate::single::signs::lemma_capped_is_finite(t.xr, 16384, 0);
    crate::single::signs::lemma_capped_is_finite(t.v0, 1024, 0);
    crate::single::signs::lemma_capped_is_finite(t.vr, 1024, 0);
    crate::single::signs::law_sum_capped(t.xr, t.x0, 16384, 16384, 0);
    crate::single::signs::law_sum_capped(t.vr, t.v0, 1024, 1024, 0);
    let dx = t.xr - t.x0;
    let dv = t.vr - t.v0;
    crate::single::signs::law_difference_points(up, t.xr, t.x0);
    crate::single::signs::law_difference_points(up, t.vr, t.v0);
    crate::single::signs::law_product_points(!up, dx, p4);
    crate::single::signs::law_product_points(!up, dv, p8);
    crate::single::signs::law_product_capped(p4, dx, 1, 32768, 0, 0);
    crate::single::signs::law_product_capped(p8, dv, 1, 2048, 0, 0);
    crate::single::signs::law_sum_points(!up, p4 * dx, p8 * dv);
    crate::single::signs::law_sum_capped(p4 * dx, p8 * dv, 32768, 2048, 0);
    let g = p4 * dx + p8 * dv;
    crate::single::signs::lemma_negated(a.umax);
    crate::single::signs::law_clamp_points(!up, g, a.umax);
    crate::single::number::law_clamp_bounds(g, a.umax.negated(), a.umax);
    crate::single::signs::lemma_clamp_capped(g, a.umax, 128, 0);
    assert(a.guessed(t).len() == MAX_STEPS);
    if crate::single::signs::beyond(up, t.v0 - t.vr, c) && crate::single::signs::beyond(
        true,
        a.umax,
        (c + 1) as nat,
    ) {
        lemma_difference_turned(t.v0, t.vr);
        vstd::arithmetic::power2::lemma_pow2_pos((149 - c) as nat);
        assert(crate::single::signs::beyond(!up, dv, c));
        lemma_four_fifths();
        crate::single::signs::law_product_beyond(!up, dv, p8, c, 1);
        crate::single::signs::law_sum_beyond(!up, p8 * dv, p4 * dx, (c + 1) as nat);
        crate::single::signs::law_clamp_beyond(!up, g, a.umax, (c + 1) as nat);
    }
}

/// Four fifths are more than a half.
proof fn lemma_four_fifths()
    ensures
        crate::single::signs::beyond(true, Single::of_ratio(8, 10), 1),
{
    let p = vstd::arithmetic::power2::pow2(149);
    vstd::arithmetic::power2::lemma_pow2_unfold(149);
    crate::single::signs::lemma_nearest_beyond(8 * p, 10, 1);
    reveal(Single::of_ratio);
    crate::single::laws::lemma_packed(false, crate::single::rounding::nearest(8 * p, 10));
}

/// A difference the other way round has the same size and points the other way.
proof fn lemma_difference_turned(a: Single, b: Single)
    requires
        a.finite(),
        b.finite(),
    ensures
        (b - a).value() == -(a - b).value(),
        (b - a).magnitude() == (a - b).magnitude(),
{
    crate::single::signs::lemma_negated(a);
    crate::single::signs::lemma_negated(b);
    crate::single::laws::lemma_sum_value(a, b.negated());
    crate::single::laws::lemma_sum_value(b, a.negated());
    crate::single::laws::lemma_rounded_negated(a.value() - b.value());
}

/// At or beyond the wanted position, and faster than wanted away from it by so much that even
/// full braking over all steps would not overshoot back, the vehicle brakes: every planned
/// acceleration points against the movement, however often the plan is improved. It really
/// does so where the speed error is not too small to see. The other way it is the same.
pub proof fn law_brakes_when_leaving(
    a: AxisMpc2,
    t: AxisTask,
    iters: nat,
    k: int,
    up: bool,
    c: nat,
)
    requires
        0 <= k < a.n,
        ordinary(a, t),
        overshoots(a, t, up),
        c + iters < 100,
    ensures
        ({
            let u = a.descended(t, a.guessed(t), iters);
            &&& crate::single::signs::toward(!up, u[k])
            &&& crate::single::signs::beyond(up, t.v0 - t.vr, c) && crate::single::signs::beyond(
                true,
                a.umax,
                c + 1,
            ) ==> crate::single::signs::beyond(!up, u[k], c + 1 + iters)
        }),
{
    lemma_descent_brakes(a, t, iters, k, up, c);
}

proof fn lemma_descent_brakes(
    a: AxisMpc2,
    t: AxisTask,
    iters: nat,
    k: int,
    up: bool,
    c: nat,
)
    requires
        0 <= k < a.n,
        ordinary(a, t),
        overshoots(a, t, up),
        c + iters < 100,
    ensures
        braking(a, a.descended(t, a.guessed(t), iters), up),
        crate::single::signs::beyond(up, t.v0 - t.vr, c) && crate::single::signs::beyond(
            true,
            a.umax,
            c + 1,
        ) ==> crate::single::signs::beyond(
            !up,
            a.descended(t, a.guessed(t), iters)[k],
            c + 1 + iters,
        ),
    decreases iters,
{
    if iters == 0 {
        let s = rolled(t.x0, t.v0, full_brake(a, up), t.dt, 0);
        assert(crate::single::signs::ahead(up, t.xr, s.0));
        lemma_guess_brakes(a, t, up, c);
    } else {
        let j = (iters - 1) as nat;
        lemma_descent_brakes(a, t, j, k, up, c);
        let u = a.descended(t, a.guessed(t), j);
        lemma_improved_brakes(a, t, u, up, c + 1 + j);
        if crate::single::signs::beyond(up, t.v0 - t.vr, c) && crate::single::signs::beyond(
            true,
            a.umax,
            c + 1,
        ) {
            let e = c + 1 + j;
            vstd::arithmetic::power2::lemma_pow2_strictly_increases(
                (149 - (e + 1)) as nat,
                (149 - c) as nat,
            );
            if e + 1 > c + 1 {
                vstd::arithmetic::power2::lemma_pow2_strictly_increases(
                    (149 - (e + 1)) as nat,
                    (149 - (c + 1)) as nat,
                );
            }
            assert(crate::single::signs::beyond(true, a.umax, (e + 1) as nat));
            assert(crate::single::signs::beyond(!up, a.improved(t, u)[k], (e + 1) as nat));
        }
    }
}

/// The same for the whole controller, along each axis: estimated to be at or beyond the wanted
/// position and leaving it too fast to overshoot back, the vehicle is accelerated back.
pub proof fn law_controller_brakes(
    c: MpcController,
    a: AxisMpc2,
    sp: Setpoint,
    est: VehicleState,
    dt: Single,
    i: int,
    up: bool,
    s: nat,
)
    requires
        0 <= i < 3,
        a == (if i == 0 {
            c.mx
        } else if i == 1 {
            c.my
        } else {
            c.mz
        }),
        0 < a.n,
        s + c.iters < 100,
        ({
            let t = AxisTask {
                x0: est.pos[i].0,
                v0: est.vel[i].0,
                xr: sp.pos[i].0,
                vr: sp.vel[i].0,
                dt,
            };
            ordinary(a, t) && overshoots(a, t, up)
        }),
    ensures
        ({
            let u = c.solved(a, MpcController::task(sp, est, dt, i))[0];
            &&& crate::single::signs::toward(!up, u)
            &&& crate::single::signs::beyond(up, est.vel[i].0 - sp.vel[i].0, s)
                && crate::single::signs::beyond(true, a.umax, s + 1)
                ==> crate::single::signs::beyond(!up, u, s + 1 + c.iters as nat)
        }),
{
    let t = MpcController::task(sp, est, dt, i);
    law_brakes_when_leaving(a, t, c.iters as nat, 0, up, s);
}

/// Twice the cost of the accelerations `u0` and `u1` from position `x0` and speed `v0`: the
/// squared errors of positions and speeds after one and after two steps and the square of the
/// first acceleration, each with its weight. Over a step of the length `d` an acceleration
/// moves the vehicle by `s` times itself.
pub open spec fn twice_cost(
    w: [int; 3],
    x0: int,
    v0: int,
    xr: int,
    vr: int,
    d: int,
    s: int,
    u0: int,
    u1: int,
) -> int {
    let x1 = x0 + d * v0 + s * u0;
    let v1 = v0 + d * u0;
    let x2 = x1 + d * v1 + s * u1;
    let v2 = v1 + d * u1;
    w[0] * ((x1 - xr) * (x1 - xr) + (x2 - xr) * (x2 - xr)) + w[1] * ((v1 - vr) * (v1 - vr) + (v2
        - vr) * (v2 - vr)) + w[2] * (u0 * u0)
}

proof fn lemma_square_apart(a: int, h: int)
    ensures
        (a + h) * (a + h) - (a - h) * (a - h) == 4 * (a * h),
{
    assert((a + h) * (a + h) == a * a + 2 * (a * h) + h * h) by (nonlinear_arith);
    assert((a - h) * (a - h) == a * a - 2 * (a * h) + h * h) by (nonlinear_arith);
}

proof fn lemma_weight_apart(w: int, a: int, b: int, c: int, e: int)
    requires
        a - b == 4 * c,
    ensures
        w * (a + e) - w * (b + e) == 4 * (w * c),
        w * a - w * b == 4 * (w * c),
{
    assert(w * (a + e) == w * a + w * e) by (nonlinear_arith);
    assert(w * (b + e) == w * b + w * e) by (nonlinear_arith);
    assert(w * a - w * b == w * (a - b)) by (nonlinear_arith);
    assert(w * (4 * c) == 4 * (w * c)) by (nonlinear_arith);
}

/// How the cost differs between a little more and a little less of the first acceleration.
proof fn lemma_cost_apart(
    w: [int; 3],
    x0: int,
    v0: int,
    xr: int,
    vr: int,
    d: int,
    s: int,
    u0: int,
    u1: int,
)
    requires
        d * d == 2 * s,
    ensures
        ({
            let x1 = x0 + d * v0 + s * u0;
            let v1 = v0 + d * u0;
            let x2 = x1 + d * v1 + s * u1;
            let v2 = v1 + d * u1;
            let lx2 = w[0] * (x2 - xr);
            let lv2 = w[1] * (v2 - vr);
            let lx1 = w[0] * (x1 - xr) + lx2;
            let lv1 = w[1] * (v1 - vr) + lv2 + d * lx2;
            twice_cost(w, x0, v0, xr, vr, d, s, u0 + 1, u1) - twice_cost(
                w,
                x0,
                v0,
                xr,
                vr,
                d,
                s,
                u0 - 1,
                u1,
            ) == 4 * (w[2] * u0 + s * lx1 + d * lv1)
        }),
{
    let x1 = x0 + d * v0 + s * u0;
    let v1 = v0 + d * u0;
    let x2 = x1 + d * v1 + s * u1;
    let v2 = v1 + d * u1;
    let (a, b) = (x1 - xr, x2 - xr);
    let (f, g) = (v1 - vr, v2 - vr);
    assert(s * (u0 + 1) == s * u0 + s && s * (u0 - 1) == s * u0 - s) by (nonlinear_arith);
    assert(d * (u0 + 1) == d * u0 + d && d * (u0 - 1) == d * u0 - d) by (nonlinear_arith);
    assert(d * (v1 + d) == d * v1 + d * d && d * (v1 - d) == d * v1 - d * d) by (nonlinear_arith);
    let m = s + d * d;
    lemma_square_apart(a, s);
    lemma_square_apart(b, m);
    lemma_square_apart(f, d);
    lemma_square_apart(g, d);
    lemma_square_apart(u0, 1);
    let (p, q) = (w[0], w[1]);
    let pos_up = (a + s) * (a + s) + (b + m) * (b + m);
    let pos_down = (a - s) * (a - s) + (b - m) * (b - m);
    let vel_up = (f + d) * (f + d) + (g + d) * (g + d);
    let vel_down = (f - d) * (f - d) + (g - d) * (g - d);
    lemma_weight_apart(p, pos_up, pos_down, a * s + b * m, 0);
    lemma_weight_apart(q, vel_up, vel_down, f * d + g * d, 0);
    lemma_weight_apart(w[2], (u0 + 1) * (u0 + 1), (u0 - 1) * (u0 - 1), u0 * 1, 0);
    assert(twice_cost(w, x0, v0, xr, vr, d, s, u0 + 1, u1) == p * pos_up + q * vel_up + w[2] * ((u0
        + 1) * (u0 + 1)));
    assert(twice_cost(w, x0, v0, xr, vr, d, s, u0 - 1, u1) == p * pos_down + q * vel_down + w[2]
        * ((u0 - 1) * (u0 - 1)));
    lemma_slope_sum(p, a, b, s, d);
    let lx2 = p * b;
    assert(q * (f * d + g * d) == d * (q * f) + d * (q * g)) by (nonlinear_arith);
    let (qf, qg) = (q * f, q * g);
    assert(d * (qf + qg + d * lx2) == d * qf + d * qg + d * (d * lx2)) by (nonlinear_arith);
}

/// The shares of the positions in the slope.
proof fn lemma_slope_sum(p: int, a: int, b: int, s: int, d: int)
    ensures
        p * (a * s + b * (s + d * d)) == s * (p * a + p * b) + d * (d * (p * b)),
{
    let e = d * d;
    assert(p * (a * s + b * (s + e)) == p * (a * s) + p * (b * s) + p * (b * e))
        by (nonlinear_arith);
    assert(p * (a * s) == s * (p * a)) by (nonlinear_arith);
    assert(p * (b * s) == s * (p * b)) by (nonlinear_arith);
    let pb = p * b;
    assert(p * (b * e) == pb * e) by (nonlinear_arith)
        requires
            pb == p * b,
    ;
    assert(pb * e == d * (d * pb)) by (nonlinear_arith)
        requires
            e == d * d,
    ;
    assert(s * (p * a + pb) == s * (p * a) + s * pb) by (nonlinear_arith);
}

/// The descent goes down the cost: over three steps, the slope of the first acceleration is
/// how the cost grows with it, which is found here from a little more and a little less of it;
/// for all integers that leave no rounding, with `2 h` for the time step.
pub proof fn law_slope_is_of_cost(
    a: AxisMpc2,
    t: AxisTask,
    u: Seq<Single>,
    w: [int; 3],
    x0: int,
    v0: int,
    xr: int,
    vr: int,
    h: int,
    u0: int,
    u1: int,
)
    requires
        a.n == 3,
        u.len() >= 3,
        crate::single::exact::worth(a.q_pos, w[0], 0) && crate::vehicle::small(w[0], 4),
        crate::single::exact::worth(a.q_vel, w[1], 0) && crate::vehicle::small(w[1], 4),
        crate::single::exact::worth(a.r, w[2], 0) && crate::vehicle::small(w[2], 4),
        crate::single::exact::worth(t.x0, x0, 0) && crate::vehicle::small(x0, 64),
        crate::single::exact::worth(t.v0, v0, 0) && crate::vehicle::small(v0, 64),
        crate::single::exact::worth(t.xr, xr, 0) && crate::vehicle::small(xr, 64),
        crate::single::exact::worth(t.vr, vr, 0) && crate::vehicle::small(vr, 64),
        crate::single::exact::worth(t.dt, 2 * h, 0) && crate::vehicle::small(h, 4),
        crate::single::exact::worth(u[0], u0, 0) && crate::vehicle::small(u0, 8),
        crate::single::exact::worth(u[1], u1, 0) && crate::vehicle::small(u1, 8),
    ensures
        exists|g: int|
            #[trigger] crate::single::exact::worth(a.slope(t, u, 0), g, 0) && 4 * g == twice_cost(
                w,
                x0,
                v0,
                xr,
                vr,
                2 * h,
                2 * h * h,
                u0 + 1,
                u1,
            ) - twice_cost(w, x0, v0, xr, vr, 2 * h, 2 * h * h, u0 - 1, u1),
{
    let d = 2 * h;
    let s = 2 * h * h;
    let (p, q) = (w[0], w[1]);
    let hs = super::mpc::half_square(t.dt);
    let half = Single::of_ratio(5, 10);
    crate::rotation_laws::lemma_whole_half(t.dt, h);
    crate::rotation_laws::lemma_whole_product(half * t.dt, t.dt, h, d, 4, 8);
    assert(h * d == s && d * d == 2 * s) by (nonlinear_arith)
        requires
            d == 2 * h,
            s == 2 * h * h,
    ;
    // The positions and speeds.
    let x1 = x0 + d * v0 + s * u0;
    let v1 = v0 + d * u0;
    let x2 = x1 + d * v1 + s * u1;
    let v2 = v1 + d * u1;
    lemma_step_whole(t.x0, t.v0, u[0], t.dt, hs, x0, v0, u0, d, s, 64, 64);
    let y1 = t.x0 + t.dt * t.v0 + hs * u[0];
    let z1 = t.v0 + t.dt * u[0];
    lemma_step_whole(y1, z1, u[1], t.dt, hs, x1, v1, u1, d, s, 832, 128);
    let y2 = y1 + t.dt * z1 + hs * u[1];
    let z2 = z1 + t.dt * u[1];
    reveal_with_fuel(super::mpc::predicted, 3);
    assert(super::mpc::predicted(t, u, 1) == (y1, z1));
    assert(super::mpc::predicted(t, u, 2) == (y2, z2));
    // The sensitivities.
    let zero = Single::of_int(0);
    crate::single::exact::law_integer_worth(0);
    let lx2 = p * (x2 - xr);
    let lv2 = q * (v2 - vr);
    crate::single::exact::law_worth_difference(y2, t.xr, x2, xr, 0);
    crate::single::exact::law_worth_difference(z2, t.vr, v2, vr, 0);
    crate::single::exact::law_worth_difference(y1, t.xr, x1, xr, 0);
    crate::single::exact::law_worth_difference(z1, t.vr, v1, vr, 0);
    crate::rotation_laws::lemma_whole_product(a.q_pos, y2 - t.xr, p, x2 - xr, 4, 3000);
    crate::rotation_laws::lemma_whole_product(a.q_vel, z2 - t.vr, q, v2 - vr, 4, 256);
    crate::rotation_laws::lemma_whole_product(a.q_pos, y1 - t.xr, p, x1 - xr, 4, 1000);
    crate::rotation_laws::lemma_whole_product(a.q_vel, z1 - t.vr, q, v1 - vr, 4, 256);
    let mx2 = a.q_pos * (y2 - t.xr) + zero;
    let mv2 = a.q_vel * (z2 - t.vr) + zero + t.dt * zero;
    crate::single::exact::law_worth_sum(a.q_pos * (y2 - t.xr), zero, lx2, 0, 0);
    crate::single::exact::law_worth_sum(a.q_vel * (z2 - t.vr), zero, lv2, 0, 0);
    crate::single::exact::law_worth_product(t.dt, zero, d, 0, 0, 0);
    crate::single::exact::law_worth_sum(
        a.q_vel * (z2 - t.vr) + zero,
        t.dt * zero,
        lv2,
        0,
        0,
    );
    let lx1 = p * (x1 - xr) + lx2;
    let lv1 = q * (v1 - vr) + lv2 + d * lx2;
    let mx1 = a.q_pos * (y1 - t.xr) + mx2;
    let mv1 = a.q_vel * (z1 - t.vr) + mv2 + t.dt * mx2;
    crate::single::exact::law_worth_sum(a.q_pos * (y1 - t.xr), mx2, p * (x1 - xr), lx2, 0);
    crate::single::exact::law_worth_sum(a.q_vel * (z1 - t.vr), mv2, q * (v1 - vr), lv2, 0);
    crate::rotation_laws::lemma_whole_product(t.dt, mx2, d, lx2, 8, 12000);
    crate::single::exact::law_worth_sum(
        a.q_vel * (z1 - t.vr) + mv2,
        t.dt * mx2,
        q * (v1 - vr) + lv2,
        d * lx2,
        0,
    );
    assert(a.sensitivity(t, u, 3) == (zero, zero));
    assert(a.sensitivity(t, u, 2) == (mx2, mv2));
    assert(a.sensitivity(t, u, 1) == (mx1, mv1));
    // The slope.
    crate::rotation_laws::lemma_whole_product(a.r, u[0], w[2], u0, 4, 8);
    crate::rotation_laws::lemma_whole_product(hs, mx1, s, lx1, 32, 16000);
    crate::rotation_laws::lemma_whole_product(t.dt, mv1, d, lv1, 8, 98048);
    crate::single::exact::law_worth_sum(a.r * u[0], hs * mx1, w[2] * u0, s * lx1, 0);
    crate::single::exact::law_worth_sum(
        a.r * u[0] + hs * mx1,
        t.dt * mv1,
        w[2] * u0 + s * lx1,
        d * lv1,
        0,
    );
    lemma_cost_apart(w, x0, v0, xr, vr, d, s, u0, u1);
    let g = w[2] * u0 + s * lx1 + d * lv1;
    assert(crate::single::exact::worth(a.slope(t, u, 0), g, 0));
}

/// A step with whole numbers.
proof fn lemma_step_whole(
    x: Single,
    v: Single,
    u: Single,
    dt: Single,
    hs: Single,
    ix: int,
    iv: int,
    iu: int,
    d: int,
    s: int,
    bx: int,
    bv: int,
)
    requires
        crate::single::exact::worth(x, ix, 0) && crate::vehicle::small(ix, bx),
        crate::single::exact::worth(v, iv, 0) && crate::vehicle::small(iv, bv),
        crate::single::exact::worth(u, iu, 0) && crate::vehicle::small(iu, 8),
        crate::single::exact::worth(dt, d, 0) && crate::vehicle::small(d, 8),
        crate::single::exact::worth(hs, s, 0) && crate::vehicle::small(s, 32),
        0 <= bx <= 1000,
        0 <= bv <= 1000,
    ensures
        crate::single::exact::worth(x + dt * v + hs * u, ix + d * iv + s * iu, 0),
        crate::single::exact::worth(v + dt * u, iv + d * iu, 0),
        crate::vehicle::small(ix + d * iv + s * iu, bx + 8 * bv + 256),
        crate::vehicle::small(iv + d * iu, bv + 64),
{
    crate::rotation_laws::lemma_whole_product(dt, v, d, iv, 8, bv);
    crate::rotation_laws::lemma_whole_product(hs, u, s, iu, 32, 8);
    crate::rotation_laws::lemma_whole_product(dt, u, d, iu, 8, 8);
    crate::single::exact::law_worth_sum(x, dt * v, ix, d * iv, 0);
    crate::single::exact::law_worth_sum(x + dt * v, hs * u, ix + d * iv, s * iu, 0);
    crate::single::exact::law_worth_sum(v, dt * u, iv, d * iu, 0);
}

} // verus!
