//! What the cascade does with errors: it flies towards the wanted position and against a
//! speed that is too high, along both ground axes and vertically alike.

use super::attitude::AxisFilter;
use super::pid::{PidController, TiltDemand, Tuning};
use super::trait_def::Setpoint;
use crate::single::Single;
use crate::units::MeterPerSecond;
use crate::vehicle::VehicleState;
use vstd::prelude::*;

verus! {

/// Whether a gain or a limit is not negative and of ordinary size.
pub open spec fn ordinary(x: Single) -> bool {
    crate::single::laws::within(x, 20) && crate::single::signs::toward(true, x)
}

/// Whether the gains and limits of a controller are ordinary, and gravity is not too small
/// to divide by.
pub open spec fn well_tuned(c: PidController, t: Tuning, dt: Single) -> bool {
    &&& ordinary(c.kp_xy)
    &&& ordinary(c.kv_xy)
    &&& ordinary(c.kp_z)
    &&& ordinary(c.kv_z)
    &&& ordinary(c.ki_z)
    &&& ordinary(c.vmax_xy)
    &&& ordinary(c.vmax_z)
    &&& ordinary(c.gravity)
    &&& crate::single::signs::beyond(true, c.gravity, 10)
    &&& ordinary(super::pid::tuned(c.tilt_max, t.tilt_max))
    &&& ordinary(super::pid::tuned(c.ki_xy, t.ki_xy))
    &&& ordinary(super::pid::tuned(Single::of_int(2), t.i_xy_max))
    &&& ordinary(dt)
}

/// Whether a smoothing filter hands on what it gets: it is off or has seen nothing.
pub open spec fn open_filter(f: AxisFilter) -> bool {
    !f.on() || !f.init
}

/// The tilt along ground axis `i`.
pub open spec fn tilt_along(d: TiltDemand, i: int) -> Single {
    if i == 0 {
        d.tilt_n
    } else {
        d.tilt_e
    }
}

/// What is added to a speed to bring it to a bound never turns it round.
proof fn lemma_bound_keeps_side(pre: Single, bound: Single, imax: Single, up: bool)
    requires
        crate::single::laws::within(pre, 42),
        crate::single::laws::within(bound, 20),
        ordinary(imax),
        crate::single::signs::toward(up, pre),
        crate::single::signs::toward(up, bound),
    ensures
        ({
            let j = (bound - pre).clamped(imax.negated(), imax);
            &&& crate::single::laws::within(j, 20)
            &&& crate::single::signs::toward(up, pre + j)
            &&& crate::single::signs::ahead(up, pre, bound) ==> crate::single::signs::toward(up, j)
        }),
{
    let z = Single::of_int(0);
    crate::single::arith::lemma_small_ints();
    crate::single::laws::lemma_within_is_finite(pre, 42);
    crate::single::laws::lemma_within_is_finite(bound, 20);
    crate::single::signs::law_within_more(bound, 20, 42);
    crate::single::signs::law_difference_within(bound, pre, 42);
    let j = (bound - pre).clamped(imax.negated(), imax);
    crate::single::signs::law_clamp_within(bound - pre, imax, 20);
    crate::single::laws::lemma_within_is_finite(j, 20);
    crate::single::signs::lemma_negated(pre);
    crate::single::signs::lemma_negated(imax);
    let n = z - pre;
    crate::single::signs::law_difference_order(up, z, bound, pre);
    crate::single::laws::law_sum_commutes(z, pre.negated());
    crate::single::laws::law_zero_is_neutral(pre.negated());
    assert(n.same(pre.negated()));
    assert(crate::single::signs::ahead(up, pre.negated(), bound - pre));
    crate::single::signs::law_difference_points(true, pre, pre);
    crate::single::signs::law_difference_points(false, pre, pre);
    if crate::single::signs::toward(up, j) {
        crate::single::signs::law_sum_points(up, pre, j);
    } else {
        assert(crate::single::signs::ahead(up, bound - pre, j));
        assert(crate::single::signs::ahead(up, pre.negated(), j));
        crate::single::signs::law_sum_order(up, pre.negated(), j, pre);
    }
    if crate::single::signs::ahead(up, pre, bound) {
        crate::single::signs::law_difference_points(up, pre, bound);
        crate::single::signs::law_clamp_points(up, bound - pre, imax);
    }
}

/// The wanted speed points as the error does: what the error asks for at once, `pre`, and
/// what its integral adds.
pub proof fn lemma_speed_points(
    i: Single,
    more: Single,
    pre: Single,
    vmax: Single,
    imax: Single,
    up: bool,
    k: nat,
)
    requires
        i.same(Single::of_int(0)),
        crate::single::laws::within(more, 61),
        crate::single::laws::within(pre, 42),
        ordinary(vmax),
        ordinary(imax),
        crate::single::signs::toward(up, more),
        crate::single::signs::toward(up, pre),
        k <= 149,
    ensures
        ({
            let w = super::attitude::wound(i, more, pre, vmax, imax);
            let v = (pre + w).clamped(vmax.negated(), vmax);
            &&& crate::single::laws::within(v, 20)
            &&& crate::single::signs::toward(up, v)
            &&& crate::single::signs::beyond(up, pre, k) && crate::single::signs::beyond(
                true,
                vmax,
                k,
            ) && pre.magnitude_of().less_eq(vmax) ==> crate::single::signs::beyond(up, v, k)
        }),
{
    let z = Single::of_int(0);
    crate::single::arith::lemma_small_ints();
    crate::single::laws::lemma_within_is_finite(more, 61);
    crate::single::laws::lemma_within_is_finite(pre, 42);
    crate::single::laws::lemma_within_is_finite(vmax, 20);
    crate::single::signs::lemma_negated(vmax);
    crate::single::signs::law_clamp_points(true, vmax, vmax);
    crate::single::laws::lemma_add_nothing(more, more, i);
    let tent = (i + more).clamped(imax.negated(), imax);
    crate::single::signs::law_clamp_points(up, i + more, imax);
    crate::single::signs::law_clamp_within(i + more, imax, 20);
    crate::single::signs::law_within_more(tent, 20, 42);
    crate::single::laws::law_sum_within(pre, tent, 42);
    crate::single::signs::law_sum_points(up, pre, tent);
    let w = super::attitude::wound(i, more, pre, vmax, imax);
    let bound = if up {
        vmax
    } else {
        vmax.negated()
    };
    crate::single::signs::law_negated_points_back(true, vmax);
    lemma_bound_keeps_side(pre, bound, imax, up);
    assert(w == tent || w == (bound - pre).clamped(imax.negated(), imax));
    crate::single::signs::law_within_more(w, 20, 42);
    crate::single::laws::law_sum_within(pre, w, 42);
    assert(crate::single::signs::toward(up, pre + w));
    crate::single::signs::law_clamp_points(up, pre + w, vmax);
    crate::single::signs::law_clamp_within(pre + w, vmax, 20);
    if crate::single::signs::beyond(up, pre, k) && crate::single::signs::beyond(true, vmax, k)
        && pre.magnitude_of().less_eq(vmax) {
        crate::single::laws::lemma_packed(false, pre.field());
        assert(crate::single::signs::ahead(up, pre, bound));
        assert(crate::single::signs::toward(up, w));
        crate::single::signs::law_sum_beyond(up, pre, w, k);
        crate::single::signs::law_clamp_beyond(up, pre + w, vmax, k);
    }
}

/// From a wanted speed of a vehicle at rest to the acceleration.
pub proof fn lemma_acceleration_points(
    kv: Single,
    des: Single,
    v: Single,
    a: Single,
    up: bool,
    k: nat,
)
    requires
        ordinary(kv),
        crate::single::laws::within(des, 20),
        crate::single::signs::toward(up, des),
        v.same(Single::of_int(0)),
        a.same(Single::of_int(0)),
        k + 10 <= 149,
    ensures
        ({
            let acc = kv * (des - v) + a;
            &&& crate::single::laws::within(acc, 40)
            &&& crate::single::signs::toward(up, acc)
            &&& crate::single::signs::beyond(up, des, k) && crate::single::signs::beyond(
                true,
                kv,
                10,
            ) ==> crate::single::signs::beyond(up, acc, k + 10)
        }),
{
    crate::single::arith::lemma_small_ints();
    crate::single::laws::lemma_within_is_finite(kv, 20);
    crate::single::laws::lemma_within_is_finite(des, 20);
    crate::single::laws::lemma_add_nothing(des, des, v);
    let d = des - v;
    assert(crate::single::laws::within(d, 20)) by {
        assert(d.magnitude() == des.magnitude());
    }
    crate::single::laws::law_product_within(kv, d, 20, 20);
    crate::single::signs::law_product_points(up, d, kv);
    let p = kv * d;
    crate::single::laws::lemma_add_nothing(p, p, a);
    let acc = p + a;
    assert(acc.magnitude() == p.magnitude());
    if crate::single::signs::beyond(up, des, k) && crate::single::signs::beyond(true, kv, 10) {
        vstd::arithmetic::power2::lemma_pow2_pos((149 - k) as nat);
        assert(crate::single::signs::beyond(up, d, k));
        crate::single::signs::law_product_beyond(up, d, kv, k, 10);
        crate::single::signs::law_ahead_of_beyond(up, p, acc, k + 10);
    }
}

/// From an acceleration to the tilt.
pub proof fn lemma_tilt_points(acc: Single, g: Single, limit: Single, up: bool, k: nat)
    requires
        crate::single::laws::within(acc, 42),
        crate::single::signs::toward(up, acc),
        ordinary(g),
        crate::single::signs::beyond(true, g, 10),
        ordinary(limit),
        k + 20 <= 149,
    ensures
        ({
            let tilt = (acc / g).clamped(limit.negated(), limit);
            &&& crate::single::signs::toward(up, tilt)
            &&& crate::single::signs::beyond(up, acc, k) && crate::single::signs::beyond(
                true,
                limit,
                k + 20,
            ) ==> crate::single::signs::beyond(up, tilt, k + 20)
        }),
{
    crate::single::laws::lemma_within_is_finite(acc, 42);
    crate::single::laws::lemma_within_is_finite(g, 20);
    crate::single::signs::law_beyond_is_toward(true, g, 10);
    crate::single::signs::law_quotient_points(up, acc, g);
    crate::single::signs::law_clamp_points(up, acc / g, limit);
    if crate::single::signs::beyond(up, acc, k) && crate::single::signs::beyond(
        true,
        limit,
        k + 20,
    ) {
        crate::single::signs::law_quotient_beyond(up, acc, g, k, 20);
        crate::single::signs::law_clamp_beyond(up, acc / g, limit, k + 20);
    }
}

/// What a position error asks for at once and through its integral.
pub proof fn lemma_error_points(
    kp: Single,
    ki: Single,
    dt: Single,
    want: Single,
    have: Single,
    speed: Single,
    up: bool,
)
    requires
        ordinary(kp),
        ordinary(ki),
        ordinary(dt),
        crate::single::laws::within(want, 20),
        crate::single::laws::within(have, 20),
        speed.same(Single::of_int(0)),
        crate::single::signs::ahead(up, have, want),
    ensures
        ({
            let e = want - have;
            let pre = kp * e + speed;
            let more = ki * e * dt;
            &&& crate::single::laws::within(pre, 42)
            &&& crate::single::signs::toward(up, pre)
            &&& crate::single::laws::within(more, 61)
            &&& crate::single::signs::toward(up, more)
            &&& crate::single::signs::beyond(up, e, 20) && crate::single::signs::beyond(
                true,
                kp,
                10,
            ) ==> crate::single::signs::beyond(up, pre, 30)
        }),
{
    let e = want - have;
    crate::single::arith::lemma_small_ints();
    crate::single::laws::lemma_within_is_finite(want, 20);
    crate::single::laws::lemma_within_is_finite(have, 20);
    crate::single::laws::lemma_within_is_finite(kp, 20);
    crate::single::laws::lemma_within_is_finite(ki, 20);
    crate::single::laws::lemma_within_is_finite(dt, 20);
    crate::single::signs::law_difference_within(want, have, 20);
    crate::single::signs::law_difference_points(up, have, want);
    crate::single::laws::law_product_within(kp, e, 20, 21);
    crate::single::signs::law_product_points(up, e, kp);
    crate::single::laws::lemma_add_nothing(kp * e, kp * e, speed);
    let pre = kp * e + speed;
    assert(pre.magnitude() == (kp * e).magnitude());
    crate::single::signs::law_within_more(pre, 41, 42);
    crate::single::laws::law_product_within(ki, e, 20, 21);
    crate::single::signs::law_product_points(up, e, ki);
    crate::single::laws::law_product_within(ki * e, dt, 41, 20);
    crate::single::signs::law_product_points(up, ki * e, dt);
    if crate::single::signs::beyond(up, e, 20) && crate::single::signs::beyond(true, kp, 10) {
        crate::single::signs::law_product_beyond(up, e, kp, 20, 10);
        crate::single::signs::law_ahead_of_beyond(up, kp * e, pre, 30);
    }
}

/// A vehicle at rest leans towards where it is to be, along both ground axes alike: the tilt
/// along an axis points as the position error along it, and really does so where the error
/// is not too small to see and the speed that it asks for is within the limit.
pub proof fn law_leans_towards_target(
    c: PidController,
    dt: Single,
    sp: Setpoint,
    est: VehicleState,
    t: Tuning,
    i: int,
    up: bool,
)
    requires
        i == 0 || i == 1,
        well_tuned(c, t, dt),
        !c.rate_mode_xy,
        open_filter(c.adjusted(t).north),
        open_filter(c.adjusted(t).east),
        c.i_xy[i].same(Single::of_int(0)),
        crate::single::laws::within(sp.pos[i].0, 20),
        crate::single::laws::within(est.pos[i].0, 20),
        est.vel[i].0.same(Single::of_int(0)),
        sp.vel[i].0.same(Single::of_int(0)),
        sp.acc[i].0.same(Single::of_int(0)),
        crate::single::signs::ahead(up, est.pos[i].0, sp.pos[i].0),
    ensures
        ({
            let d = c.outer(dt, sp, est, t).1;
            let e = sp.pos[i].0 - est.pos[i].0;
            &&& crate::single::signs::toward(up, tilt_along(d, i))
            &&& crate::single::signs::beyond(up, e, 20) && crate::single::signs::beyond(
                true,
                c.kp_xy,
                10,
            ) && crate::single::signs::beyond(true, c.kv_xy, 10) && crate::single::signs::beyond(
                true,
                c.vmax_xy,
                30,
            ) && crate::single::signs::beyond(
                true,
                super::pid::tuned(c.tilt_max, t.tilt_max),
                60,
            ) && (c.kp_xy * e).magnitude_of().less_eq(c.vmax_xy) ==> crate::single::signs::beyond(
                up,
                tilt_along(d, i),
                60,
            )
        }),
{
    let b = c.adjusted(t);
    let e = sp.pos[i].0 - est.pos[i].0;
    let imax = super::pid::tuned(Single::of_int(2), t.i_xy_max);
    let limit = super::pid::tuned(c.tilt_max, t.tilt_max);
    let pre = b.kp_xy * e + sp.vel[i].0;
    lemma_error_points(
        b.kp_xy,
        b.ki_xy,
        dt,
        sp.pos[i].0,
        est.pos[i].0,
        sp.vel[i].0,
        up,
    );
    let more = b.ki_xy * e * dt;
    lemma_speed_points(b.i_xy[i], more, pre, b.vmax_xy, imax, up, 30);
    let w = super::attitude::wound(b.i_xy[i], more, pre, b.vmax_xy, imax);
    let v = (pre + w).clamped(b.vmax_xy.negated(), b.vmax_xy);
    lemma_acceleration_points(b.kv_xy, v, est.vel[i].0, sp.acc[i].0, up, 30);
    let acc = b.kv_xy * (v - est.vel[i].0) + sp.acc[i].0;
    crate::single::signs::law_within_more(acc, 40, 42);
    lemma_tilt_points(acc, b.gravity, limit, up, 40);
    let tilt = (acc / b.gravity).clamped(limit.negated(), limit);
    assert(tilt_along(c.outer(dt, sp, est, t).1, i) == tilt);
    crate::single::arith::lemma_small_ints();
    crate::single::laws::lemma_within_is_finite(pre, 42);
    crate::single::laws::lemma_within_is_finite(sp.pos[i].0, 20);
    crate::single::laws::lemma_within_is_finite(est.pos[i].0, 20);
    crate::single::signs::law_difference_within(sp.pos[i].0, est.pos[i].0, 20);
    crate::single::laws::law_product_within(b.kp_xy, e, 20, 21);
    crate::single::laws::lemma_add_nothing(b.kp_xy * e, b.kp_xy * e, sp.vel[i].0);
    crate::single::laws::lemma_packed(false, pre.field());
    crate::single::laws::lemma_packed(false, (b.kp_xy * e).field());
}

/// A vehicle at rest accelerates towards the height where it is to be.
pub proof fn law_climbs_towards_target(
    c: PidController,
    dt: Single,
    sp: Setpoint,
    est: VehicleState,
    t: Tuning,
    up: bool,
)
    requires
        well_tuned(c, t, dt),
        open_filter(c.vertical),
        c.iz.same(Single::of_int(0)),
        crate::single::laws::within(sp.pos[2].0, 20),
        crate::single::laws::within(est.pos[2].0, 20),
        est.vel[2].0.same(Single::of_int(0)),
        sp.vel[2].0.same(Single::of_int(0)),
        sp.acc[2].0.same(Single::of_int(0)),
        crate::single::signs::ahead(up, est.pos[2].0, sp.pos[2].0),
    ensures
        ({
            let d = c.outer(dt, sp, est, t).1;
            let e = sp.pos[2].0 - est.pos[2].0;
            &&& crate::single::signs::toward(up, d.acc_d)
            &&& crate::single::signs::beyond(up, e, 20) && crate::single::signs::beyond(
                true,
                c.kp_z,
                10,
            ) && crate::single::signs::beyond(true, c.kv_z, 10) && crate::single::signs::beyond(
                true,
                c.vmax_z,
                30,
            ) && (c.kp_z * e).magnitude_of().less_eq(c.vmax_z) ==> crate::single::signs::beyond(
                up,
                d.acc_d,
                40,
            )
        }),
{
    let b = c.adjusted(t);
    let e = sp.pos[2].0 - est.pos[2].0;
    let two = Single::of_int(2);
    vstd::arithmetic::power2::lemma2_to64();
    crate::single::laws::law_integer_within(2, 1);
    crate::single::signs::law_within_more(two, 1, 20);
    crate::single::exact::law_integer_worth(2);
    crate::single::exact::law_integer_worth(0);
    crate::single::exact::law_worth_order(Single::of_int(0), two, 0, 2, 0);
    let pre = b.kp_z * e + sp.vel[2].0;
    lemma_error_points(b.kp_z, b.ki_z, dt, sp.pos[2].0, est.pos[2].0, sp.vel[2].0, up);
    let more = b.ki_z * e * dt;
    lemma_speed_points(b.iz, more, pre, b.vmax_z, two, up, 30);
    let w = super::attitude::wound(b.iz, more, pre, b.vmax_z, two);
    let v = (pre + w).clamped(b.vmax_z.negated(), b.vmax_z);
    lemma_acceleration_points(b.kv_z, v, est.vel[2].0, sp.acc[2].0, up, 30);
    crate::single::arith::lemma_small_ints();
    crate::single::laws::lemma_within_is_finite(pre, 42);
    crate::single::signs::law_difference_within(sp.pos[2].0, est.pos[2].0, 20);
    crate::single::laws::law_product_within(b.kp_z, e, 20, 21);
    crate::single::laws::lemma_add_nothing(b.kp_z * e, b.kp_z * e, sp.vel[2].0);
    crate::single::laws::lemma_packed(false, pre.field());
    crate::single::laws::lemma_packed(false, (b.kp_z * e).field());
}

/// Whatever is of ordinary size, the speed that is asked for is a number.
proof fn lemma_speed_is_number(
    kp: Single,
    ki: Single,
    dt: Single,
    want: Single,
    have: Single,
    speed: Single,
    i: Single,
    vmax: Single,
    imax: Single,
)
    requires
        ordinary(kp),
        ordinary(ki),
        ordinary(dt),
        ordinary(vmax),
        ordinary(imax),
        crate::single::laws::within(want, 20),
        crate::single::laws::within(have, 20),
        crate::single::laws::within(speed, 20),
        crate::single::laws::within(i, 20),
    ensures
        ({
            let e = want - have;
            let pre = kp * e + speed;
            !(pre + super::attitude::wound(i, ki * e * dt, pre, vmax, imax)).nan()
        }),
{
    let e = want - have;
    let pre = kp * e + speed;
    let more = ki * e * dt;
    crate::single::signs::lemma_negated(vmax);
    crate::single::signs::law_difference_within(want, have, 20);
    crate::single::laws::law_product_within(kp, e, 20, 21);
    crate::single::signs::law_within_more(speed, 20, 41);
    crate::single::laws::law_sum_within(kp * e, speed, 41);
    crate::single::laws::law_product_within(ki, e, 20, 21);
    crate::single::laws::law_product_within(ki * e, dt, 41, 20);
    crate::single::signs::law_within_more(i, 20, 61);
    crate::single::laws::law_sum_within(i, more, 61);
    crate::single::signs::law_clamp_within(i + more, imax, 20);
    crate::single::signs::law_within_more(vmax, 20, 42);
    crate::single::signs::law_difference_within(vmax, pre, 42);
    crate::single::signs::law_difference_within(vmax.negated(), pre, 42);
    crate::single::signs::law_clamp_within(vmax - pre, imax, 20);
    crate::single::signs::law_clamp_within(vmax.negated() - pre, imax, 20);
    let w = super::attitude::wound(i, more, pre, vmax, imax);
    crate::single::signs::law_within_more(w, 20, 42);
    crate::single::laws::law_sum_within(pre, w, 42);
}

/// A state that moves along axis `i` with another speed.
pub open spec fn at_speed(est: VehicleState, i: int, v: Single) -> VehicleState {
    VehicleState {
        vel: [
            if i == 0 {
                MeterPerSecond(v)
            } else {
                est.vel[0]
            },
            if i == 1 {
                MeterPerSecond(v)
            } else {
                est.vel[1]
            },
            if i == 2 {
                MeterPerSecond(v)
            } else {
                est.vel[2]
            },
        ],
        ..est
    }
}

/// Moving faster along an axis lowers what is asked for along it: the tilt along a ground
/// axis, or the acceleration downwards. What is asked for along the other axes stays.
pub proof fn law_speed_is_damped(
    c: PidController,
    dt: Single,
    sp: Setpoint,
    est: VehicleState,
    t: Tuning,
    i: int,
    slow: Single,
    fast: Single,
    up: bool,
)
    requires
        0 <= i < 3,
        well_tuned(c, t, dt),
        open_filter(c.adjusted(t).north),
        open_filter(c.adjusted(t).east),
        open_filter(c.vertical),
        crate::single::laws::within(slow, 20),
        crate::single::laws::within(fast, 20),
        crate::single::signs::ahead(up, slow, fast),
        crate::single::laws::within(sp.acc[i].0, 20),
        crate::single::laws::within(sp.vel[i].0, 20),
        crate::single::laws::within(sp.pos[i].0, 20),
        crate::single::laws::within(est.pos[i].0, 20),
        crate::single::laws::within(
            if i == 2 {
                c.iz
            } else {
                c.i_xy[i]
            },
            20,
        ),
    ensures
        ({
            let a = c.outer(dt, sp, at_speed(est, i, slow), t).1;
            let b = c.outer(dt, sp, at_speed(est, i, fast), t).1;
            &&& i < 2 ==> crate::single::signs::ahead(!up, tilt_along(a, i), tilt_along(b, i))
            &&& i == 2 ==> crate::single::signs::ahead(!up, a.acc_d, b.acc_d)
            &&& i != 0 ==> a.tilt_n == b.tilt_n
            &&& i != 1 ==> a.tilt_e == b.tilt_e
            &&& i != 2 ==> a.acc_d == b.acc_d
        }),
{
    let x = at_speed(est, i, slow);
    let y = at_speed(est, i, fast);
    let b = c.adjusted(t);
    let limit = super::pid::tuned(c.tilt_max, t.tilt_max);
    crate::single::laws::lemma_within_is_finite(slow, 20);
    crate::single::laws::lemma_within_is_finite(fast, 20);
    crate::single::laws::lemma_within_is_finite(sp.acc[i].0, 20);
    let v = if i == 2 {
        c.outer(dt, sp, x, t).0.debug.des_vz
    } else {
        wanted_along(c, dt, sp, est, t, i)
    };
    let vmax = if i == 2 {
        c.vmax_z
    } else {
        c.vmax_xy
    };
    let kv = if i == 2 {
        c.kv_z
    } else {
        c.kv_xy
    };
    crate::single::arith::lemma_small_ints();
    crate::single::signs::lemma_negated(vmax);
    let two = Single::of_int(2);
    vstd::arithmetic::power2::lemma2_to64();
    crate::single::laws::law_integer_within(2, 1);
    crate::single::signs::law_within_more(two, 1, 20);
    crate::single::exact::law_integer_worth(2);
    crate::single::exact::law_integer_worth(0);
    crate::single::exact::law_worth_order(Single::of_int(0), two, 0, 2, 0);
    if i == 2 {
        lemma_speed_is_number(b.kp_z, b.ki_z, dt, sp.pos[2].0, est.pos[2].0, sp.vel[2].0, b.iz, vmax, two);
    } else {
        let imax = super::pid::tuned(two, t.i_xy_max);
        lemma_speed_is_number(
            b.kp_xy,
            b.ki_xy,
            dt,
            sp.pos[i].0,
            est.pos[i].0,
            sp.vel[i].0,
            b.i_xy[i],
            vmax,
            imax,
        );
    }
    assert(!v.nan());
    assert(crate::single::laws::within(v, 20));
    crate::single::laws::lemma_within_is_finite(v, 20);
    crate::single::laws::lemma_within_is_finite(kv, 20);
    crate::single::signs::law_difference_within(v, slow, 20);
    crate::single::signs::law_difference_within(v, fast, 20);
    crate::single::signs::law_difference_order(up, slow, fast, v);
    crate::single::laws::law_product_within(kv, v - slow, 20, 21);
    crate::single::laws::law_product_within(kv, v - fast, 20, 21);
    crate::single::signs::law_product_order(!up, v - slow, v - fast, kv);
    let a = sp.acc[i].0;
    crate::single::signs::law_within_more(a, 20, 41);
    crate::single::laws::law_sum_within(kv * (v - slow), a, 41);
    crate::single::laws::law_sum_within(kv * (v - fast), a, 41);
    crate::single::signs::law_sum_order(!up, kv * (v - slow), kv * (v - fast), a);
    if i < 2 {
        let p = kv * (v - slow) + a;
        let q = kv * (v - fast) + a;
        crate::single::laws::lemma_within_is_finite(c.gravity, 20);
        crate::single::signs::law_beyond_is_toward(true, c.gravity, 10);
        crate::single::signs::law_quotient_order(!up, p, q, c.gravity);
        crate::single::signs::law_clamp_points(true, limit, limit);
        crate::single::signs::law_clamp_order(
            !up,
            p / c.gravity,
            q / c.gravity,
            limit.negated(),
            limit,
        );
    }
}

/// The speed that the position loop wants along ground axis `i`.
spec fn wanted_along(
    c: PidController,
    dt: Single,
    sp: Setpoint,
    est: VehicleState,
    t: Tuning,
    i: int,
) -> Single {
    let b = c.adjusted(t);
    let e = sp.pos[i].0 - est.pos[i].0;
    let pre = b.kp_xy * e + sp.vel[i].0;
    let imax = super::pid::tuned(Single::of_int(2), t.i_xy_max);
    b.ground_speed(sp.vel[i].0, pre, b.ground_integral(b.i_xy[i], e, dt, pre, imax))
}

/// North and east exchanged in a setpoint.
pub open spec fn exchanged_setpoint(sp: Setpoint) -> Setpoint {
    Setpoint {
        pos: [sp.pos[1], sp.pos[0], sp.pos[2]],
        vel: [sp.vel[1], sp.vel[0], sp.vel[2]],
        acc: [sp.acc[1], sp.acc[0], sp.acc[2]],
        ..sp
    }
}

/// North and east exchanged in an estimate.
pub open spec fn exchanged_state(est: VehicleState) -> VehicleState {
    VehicleState {
        pos: [est.pos[1], est.pos[0], est.pos[2]],
        vel: [est.vel[1], est.vel[0], est.vel[2]],
        ..est
    }
}

/// North and east exchanged in a controller.
pub open spec fn exchanged(c: PidController) -> PidController {
    PidController { north: c.east, east: c.north, i_xy: [c.i_xy[1], c.i_xy[0]], ..c }
}

/// North and east are treated alike: exchanging them in everything that goes in exchanges
/// them in what comes out, and nothing else changes.
pub proof fn law_ground_axes_alike(
    c: PidController,
    dt: Single,
    sp: Setpoint,
    est: VehicleState,
    t: Tuning,
)
    ensures
        ({
            let a = c.outer(dt, sp, est, t);
            let b = exchanged(c).outer(dt, exchanged_setpoint(sp), exchanged_state(est), t);
            &&& b.1.tilt_n == a.1.tilt_e
            &&& b.1.tilt_e == a.1.tilt_n
            &&& b.1.size == a.1.size
            &&& b.1.acc_d == a.1.acc_d
            &&& b.0.i_xy[0] == a.0.i_xy[1]
            &&& b.0.i_xy[1] == a.0.i_xy[0]
            &&& b.0.iz == a.0.iz
        }),
{
    let a = c.outer(dt, sp, est, t).1;
    crate::single::laws::law_sum_commutes(a.tilt_n * a.tilt_n, a.tilt_e * a.tilt_e);
}

/// The angles lean the vehicle where it is told to lean, whatever its heading: turned back by
/// the heading, what leans forwards by negative pitch and to the right by positive roll leans
/// to the north and to the east; here for all integers that leave no rounding.
pub proof fn law_heading_does_not_matter(
    c: PidController,
    d: TiltDemand,
    cos_tilt: Single,
    sy: Single,
    cy: Single,
    n: int,
    e: int,
    s: int,
    k: int,
)
    requires
        crate::single::exact::worth(d.tilt_n, n, 0) && crate::vehicle::small(n, 1024),
        crate::single::exact::worth(d.tilt_e, e, 0) && crate::vehicle::small(e, 1024),
        crate::single::exact::worth(sy, s, 0) && crate::vehicle::small(s, 1024),
        crate::single::exact::worth(cy, k, 0) && crate::vehicle::small(k, 1024),
    ensures
        ({
            let a = c.angles_of(d, cos_tilt, sy, cy);
            let right = e * k - n * s;
            let forward = n * k + e * s;
            &&& crate::single::exact::worth(a.roll.0, right, 0)
            &&& crate::single::exact::worth(a.pitch.0, -forward, 0)
            &&& forward * k - right * s == (s * s + k * k) * n
            &&& forward * s + right * k == (s * s + k * k) * e
        }),
{
    crate::single::exact::law_worth_negated(d.tilt_n, n, 0);
    crate::rotation_laws::lemma_whole_product(d.tilt_n.negated(), sy, -n, s, 1024, 1024);
    crate::rotation_laws::lemma_whole_product(d.tilt_e, cy, e, k, 1024, 1024);
    crate::rotation_laws::lemma_whole_product(d.tilt_n, cy, n, k, 1024, 1024);
    crate::rotation_laws::lemma_whole_product(d.tilt_e, sy, e, s, 1024, 1024);
    crate::single::exact::law_worth_sum(
        d.tilt_n.negated() * sy,
        d.tilt_e * cy,
        (-n) * s,
        e * k,
        0,
    );
    crate::single::exact::law_worth_sum(d.tilt_n * cy, d.tilt_e * sy, n * k, e * s, 0);
    crate::single::exact::law_worth_negated(
        d.tilt_n * cy + d.tilt_e * sy,
        n * k + e * s,
        0,
    );
    lemma_turned_back(n, e, s, k);
    assert((-n) * s == -(n * s)) by (nonlinear_arith);
}

proof fn lemma_turned_back(n: int, e: int, s: int, k: int)
    ensures
        (n * k + e * s) * k - (e * k - n * s) * s == (s * s + k * k) * n,
        (n * k + e * s) * s + (e * k - n * s) * k == (s * s + k * k) * e,
{
    assert((n * k + e * s) * k == k * k * n + e * s * k) by (nonlinear_arith);
    assert((e * k - n * s) * s == e * s * k - s * s * n) by (nonlinear_arith);
    assert((s * s + k * k) * n == s * s * n + k * k * n) by (nonlinear_arith);
    assert((n * k + e * s) * s == n * s * k + s * s * e) by (nonlinear_arith);
    assert((e * k - n * s) * k == k * k * e - n * s * k) by (nonlinear_arith);
    assert((s * s + k * k) * e == s * s * e + k * k * e) by (nonlinear_arith);
}

/// The acceleration that stops a movement where no speed is wanted.
pub proof fn lemma_stopping(
    kv: Single,
    des: Single,
    v: Single,
    acc: Single,
    up: bool,
    k: nat,
)
    requires
        ordinary(kv),
        des.same(Single::of_int(0)),
        crate::single::laws::within(v, 20),
        crate::single::signs::toward(up, v),
        acc.same(Single::of_int(0)),
        k + 10 <= 149,
    ensures
        ({
            let a = kv * (des - v) + acc;
            &&& crate::single::laws::within(a, 42)
            &&& crate::single::signs::toward(!up, a)
            &&& crate::single::signs::beyond(up, v, k) && crate::single::signs::beyond(
                true,
                kv,
                10,
            ) ==> crate::single::signs::beyond(!up, a, k + 10)
        }),
{
    crate::single::arith::lemma_small_ints();
    crate::single::laws::lemma_within_is_finite(kv, 20);
    crate::single::laws::lemma_within_is_finite(v, 20);
    crate::single::signs::lemma_negated(v);
    crate::single::signs::law_negated_points_back(up, v);
    let n = v.negated();
    crate::single::laws::lemma_add_nothing(n, n, des);
    crate::single::laws::law_sum_commutes(des, n);
    let d = des - v;
    assert(d.same(n));
    assert(crate::single::laws::within(d, 20)) by {
        assert(d.magnitude() == v.magnitude());
    }
    crate::single::laws::law_product_within(kv, d, 20, 20);
    crate::single::signs::law_product_points(!up, d, kv);
    let p = kv * d;
    crate::single::laws::lemma_add_nothing(p, p, acc);
    let a = p + acc;
    assert(a.magnitude() == p.magnitude());
    crate::single::signs::law_within_more(a, 40, 42);
    if crate::single::signs::beyond(up, v, k) && crate::single::signs::beyond(true, kv, 10) {
        vstd::arithmetic::power2::lemma_pow2_pos((149 - k) as nat);
        assert(crate::single::signs::beyond(!up, d, k));
        crate::single::signs::law_product_beyond(!up, d, kv, k, 10);
        crate::single::signs::law_ahead_of_beyond(!up, p, a, k + 10);
    }
}

/// No error asks for no speed.
pub proof fn lemma_no_speed(
    kp: Single,
    ki: Single,
    dt: Single,
    at: Single,
    speed: Single,
    i: Single,
    vmax: Single,
    imax: Single,
)
    requires
        ordinary(kp),
        ordinary(ki),
        ordinary(dt),
        ordinary(vmax),
        ordinary(imax),
        crate::single::laws::within(at, 20),
        speed.same(Single::of_int(0)),
        i.same(Single::of_int(0)),
    ensures
        ({
            let e = at - at;
            let pre = kp * e + speed;
            (pre + super::attitude::wound(i, ki * e * dt, pre, vmax, imax)).clamped(
                vmax.negated(),
                vmax,
            ).same(Single::of_int(0))
        }),
{
    let e = at - at;
    let pre = kp * e + speed;
    crate::single::arith::lemma_small_ints();
    lemma_error_points(kp, ki, dt, at, at, speed, true);
    lemma_error_points(kp, ki, dt, at, at, speed, false);
    lemma_speed_points(i, ki * e * dt, pre, vmax, imax, true, 0);
    lemma_speed_points(i, ki * e * dt, pre, vmax, imax, false, 0);
}

/// A vehicle that drifts over the place where it is to be leans against the drift, along both
/// ground axes alike, and really does so where the drift is not too small to see.
pub proof fn law_leans_against_drift(
    c: PidController,
    dt: Single,
    sp: Setpoint,
    est: VehicleState,
    t: Tuning,
    i: int,
    up: bool,
)
    requires
        i == 0 || i == 1,
        well_tuned(c, t, dt),
        !c.rate_mode_xy,
        open_filter(c.adjusted(t).north),
        open_filter(c.adjusted(t).east),
        c.i_xy[i].same(Single::of_int(0)),
        sp.pos[i] == est.pos[i],
        crate::single::laws::within(sp.pos[i].0, 20),
        crate::single::laws::within(est.vel[i].0, 20),
        crate::single::signs::toward(up, est.vel[i].0),
        sp.vel[i].0.same(Single::of_int(0)),
        sp.acc[i].0.same(Single::of_int(0)),
    ensures
        ({
            let d = c.outer(dt, sp, est, t).1;
            &&& crate::single::signs::toward(!up, tilt_along(d, i))
            &&& crate::single::signs::beyond(up, est.vel[i].0, 20) && crate::single::signs::beyond(
                true,
                c.kv_xy,
                10,
            ) && crate::single::signs::beyond(
                true,
                super::pid::tuned(c.tilt_max, t.tilt_max),
                50,
            ) ==> crate::single::signs::beyond(!up, tilt_along(d, i), 50)
        }),
{
    let b = c.adjusted(t);
    let e = sp.pos[i].0 - est.pos[i].0;
    let imax = super::pid::tuned(Single::of_int(2), t.i_xy_max);
    let limit = super::pid::tuned(c.tilt_max, t.tilt_max);
    let pre = b.kp_xy * e + sp.vel[i].0;
    let more = b.ki_xy * e * dt;
    lemma_no_speed(
        b.kp_xy,
        b.ki_xy,
        dt,
        sp.pos[i].0,
        sp.vel[i].0,
        b.i_xy[i],
        b.vmax_xy,
        imax,
    );
    let w = super::attitude::wound(b.i_xy[i], more, pre, b.vmax_xy, imax);
    let v = (pre + w).clamped(b.vmax_xy.negated(), b.vmax_xy);
    lemma_stopping(b.kv_xy, v, est.vel[i].0, sp.acc[i].0, up, 20);
    let acc = b.kv_xy * (v - est.vel[i].0) + sp.acc[i].0;
    lemma_tilt_points(acc, b.gravity, limit, !up, 30);
    let tilt = (acc / b.gravity).clamped(limit.negated(), limit);
    assert(tilt_along(c.outer(dt, sp, est, t).1, i) == tilt);
}

/// A vehicle that climbs or sinks through the height where it is to be accelerates against
/// that.
pub proof fn law_climb_is_stopped(
    c: PidController,
    dt: Single,
    sp: Setpoint,
    est: VehicleState,
    t: Tuning,
    up: bool,
)
    requires
        well_tuned(c, t, dt),
        open_filter(c.vertical),
        c.iz.same(Single::of_int(0)),
        sp.pos[2] == est.pos[2],
        crate::single::laws::within(sp.pos[2].0, 20),
        crate::single::laws::within(est.vel[2].0, 20),
        crate::single::signs::toward(up, est.vel[2].0),
        sp.vel[2].0.same(Single::of_int(0)),
        sp.acc[2].0.same(Single::of_int(0)),
    ensures
        ({
            let d = c.outer(dt, sp, est, t).1;
            &&& crate::single::signs::toward(!up, d.acc_d)
            &&& crate::single::signs::beyond(up, est.vel[2].0, 20) && crate::single::signs::beyond(
                true,
                c.kv_z,
                10,
            ) ==> crate::single::signs::beyond(!up, d.acc_d, 30)
        }),
{
    let b = c.adjusted(t);
    let e = sp.pos[2].0 - est.pos[2].0;
    let two = Single::of_int(2);
    vstd::arithmetic::power2::lemma2_to64();
    crate::single::laws::law_integer_within(2, 1);
    crate::single::signs::law_within_more(two, 1, 20);
    crate::single::exact::law_integer_worth(2);
    crate::single::exact::law_integer_worth(0);
    crate::single::exact::law_worth_order(Single::of_int(0), two, 0, 2, 0);
    let pre = b.kp_z * e + sp.vel[2].0;
    let more = b.ki_z * e * dt;
    lemma_no_speed(b.kp_z, b.ki_z, dt, sp.pos[2].0, sp.vel[2].0, b.iz, b.vmax_z, two);
    let w = super::attitude::wound(b.iz, more, pre, b.vmax_z, two);
    let v = (pre + w).clamped(b.vmax_z.negated(), b.vmax_z);
    lemma_stopping(b.kv_z, v, est.vel[2].0, sp.acc[2].0, up, 20);
}

/// What an error adds to an integral that was empty.
pub proof fn lemma_adds_up(
    ki: Single,
    dt: Single,
    want: Single,
    have: Single,
    i: Single,
    pre: Single,
    vmax: Single,
    imax: Single,
    up: bool,
)
    requires
        ordinary(ki),
        ordinary(dt),
        ordinary(imax),
        crate::single::laws::within(want, 20),
        crate::single::laws::within(have, 20),
        i.same(Single::of_int(0)),
        crate::single::signs::beyond(up, want - have, 20),
        crate::single::signs::beyond(true, ki, 10),
        crate::single::signs::beyond(true, dt, 10),
        crate::single::signs::beyond(true, imax, 40),
        ({
            let tent = (i + ki * (want - have) * dt).clamped(imax.negated(), imax);
            !vmax.less(pre + tent) && !(pre + tent).less(vmax.negated())
        }),
    ensures
        crate::single::signs::beyond(
            up,
            super::attitude::wound(i, ki * (want - have) * dt, pre, vmax, imax),
            40,
        ),
{
    let e = want - have;
    let more = ki * e * dt;
    crate::single::arith::lemma_small_ints();
    crate::single::laws::lemma_within_is_finite(ki, 20);
    crate::single::laws::lemma_within_is_finite(dt, 20);
    crate::single::signs::law_difference_within(want, have, 20);
    crate::single::laws::law_product_within(ki, e, 20, 21);
    crate::single::laws::law_product_within(ki * e, dt, 41, 20);
    crate::single::signs::law_product_beyond(up, e, ki, 20, 10);
    crate::single::signs::law_product_beyond(up, ki * e, dt, 30, 10);
    crate::single::laws::lemma_add_nothing(more, more, i);
    crate::single::signs::law_ahead_of_beyond(up, more, i + more, 40);
    crate::single::signs::law_clamp_beyond(up, i + more, imax, 40);
}

/// An error that lasts adds up: the integral of an axis, where it was empty, points as the
/// position error along it after a step, over the ground and vertically alike, while the
/// speed that is asked for is within its limit.
pub proof fn law_error_adds_up(
    c: PidController,
    dt: Single,
    sp: Setpoint,
    est: VehicleState,
    t: Tuning,
    i: int,
    up: bool,
)
    requires
        0 <= i < 3,
        well_tuned(c, t, dt),
        !c.rate_mode_xy,
        open_filter(c.adjusted(t).north),
        open_filter(c.adjusted(t).east),
        open_filter(c.vertical),
        crate::single::laws::within(sp.pos[i].0, 20),
        crate::single::laws::within(est.pos[i].0, 20),
        crate::single::signs::beyond(up, sp.pos[i].0 - est.pos[i].0, 20),
        crate::single::signs::beyond(true, dt, 10),
        ({
            let old = if i == 2 {
                c.iz
            } else {
                c.i_xy[i]
            };
            let kp = if i == 2 {
                c.kp_z
            } else {
                c.kp_xy
            };
            let ki = if i == 2 {
                c.ki_z
            } else {
                super::pid::tuned(c.ki_xy, t.ki_xy)
            };
            let vmax = if i == 2 {
                c.vmax_z
            } else {
                c.vmax_xy
            };
            let imax = if i == 2 {
                Single::of_int(2)
            } else {
                super::pid::tuned(Single::of_int(2), t.i_xy_max)
            };
            let e = sp.pos[i].0 - est.pos[i].0;
            let speed = kp * e + sp.vel[i].0 + (old + ki * e * dt).clamped(imax.negated(), imax);
            &&& old.same(Single::of_int(0))
            &&& crate::single::signs::beyond(true, ki, 10)
            &&& crate::single::signs::beyond(true, imax, 40)
            &&& !vmax.less(speed)
            &&& !speed.less(vmax.negated())
        }),
    ensures
        crate::single::signs::beyond(
            up,
            if i == 2 {
                c.outer(dt, sp, est, t).0.iz
            } else {
                c.outer(dt, sp, est, t).0.i_xy[i]
            },
            40,
        ),
{
    let b = c.adjusted(t);
    let e = sp.pos[i].0 - est.pos[i].0;
    let two = Single::of_int(2);
    vstd::arithmetic::power2::lemma2_to64();
    crate::single::laws::law_integer_within(2, 1);
    crate::single::signs::law_within_more(two, 1, 20);
    crate::single::exact::law_integer_worth(2);
    crate::single::exact::law_integer_worth(0);
    crate::single::exact::law_worth_order(Single::of_int(0), two, 0, 2, 0);
    if i == 2 {
        lemma_adds_up(
            b.ki_z,
            dt,
            sp.pos[2].0,
            est.pos[2].0,
            b.iz,
            b.kp_z * e + sp.vel[2].0,
            b.vmax_z,
            two,
            up,
        );
    } else {
        let imax = super::pid::tuned(two, t.i_xy_max);
        lemma_adds_up(
            b.ki_xy,
            dt,
            sp.pos[i].0,
            est.pos[i].0,
            b.i_xy[i],
            b.kp_xy * e + sp.vel[i].0,
            b.vmax_xy,
            imax,
            up,
        );
    }
}

} // verus!
