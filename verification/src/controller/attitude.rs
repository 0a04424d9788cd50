//! What all control laws of a multirotor share: the attitude loop, the mixer, the
//! smoothing of estimates, the integral with its limits, and the thrust of a tilted
//! vehicle.

use crate::single::Single;
use crate::vehicle::{quat_conj, quat_mul, ActuatorCmd, Quaternion};
use vstd::prelude::*;

verus! {

/// The wanted body rates, and the attitude error that they answer.
#[derive(Debug, Clone, Copy)]
pub struct AttitudeOut {
    pub rates: [Single; 3],
    pub err: [Single; 3],
}

/// The rotation that is missing to the wanted attitude, as a vector in body axes.
pub open spec fn attitude_error(att: Quaternion, wanted: Quaternion) -> (Single, Single, Single) {
    let e = att.conjugate().times(wanted);
    let side = if e.w.less(Single::of_int(0)) {
        Single::of_int(-2)
    } else {
        Single::of_int(2)
    };
    (side * e.x, side * e.y, side * e.z)
}

/// The rates that answer an attitude error: in proportion to it, and damped.
pub open spec fn attitude_answer(
    att: Quaternion,
    wanted: Quaternion,
    kp: Single,
    kd: Single,
    omega: [Single; 3],
) -> AttitudeOut {
    let e = attitude_error(att, wanted);
    AttitudeOut {
        rates: [kp * e.0 - kd * omega[0], kp * e.1 - kd * omega[1], kp * e.2 - kd * omega[2]],
        err: [e.0, e.1, e.2],
    }
}

/// The attitude loop: from the error of the attitude to the wanted body rates.
pub fn attitude_rates(
    est_att: Quaternion,
    q_des: Quaternion,
    att_kp: Single,
    att_kd: Single,
    omega: [Single; 3],
) -> (r: AttitudeOut)
    ensures
        r == attitude_answer(est_att, q_des, att_kp, att_kd, omega),
{
    let q_err: Quaternion = quat_mul(quat_conj(est_att), q_des);
    let sgn: Single = if q_err.w < Single::from_i32(0) {
        Single::from_i32(-2)
    } else {
        Single::from_i32(2)
    };
    let ex_b: Single = sgn * q_err.x;
    let ey_b: Single = sgn * q_err.y;
    let ez_b: Single = sgn * q_err.z;
    AttitudeOut {
        rates: [
            att_kp * ex_b - att_kd * omega[0],
            att_kp * ey_b - att_kd * omega[1],
            att_kp * ez_b - att_kd * omega[2],
        ],
        err: [ex_b, ey_b, ez_b],
    }
}

/// The throttles of an X quadrotor: front right, rear left, front left, rear right.
pub open spec fn mixed(thrust: Single, p: Single, q: Single, r: Single) -> [Single; 4] {
    let half = Single::of_ratio(5, 10);
    [
        thrust + half * (p + q + r),
        thrust + half * (p.negated() - q + r),
        thrust + half * (p.negated() + q - r),
        thrust + half * (p - q - r),
    ]
}

/// The mixer: from thrust and body rates to the throttles of the four motors, not
/// limited.
pub fn x4_mix(des_thrust: Single, pqr: [Single; 3]) -> (r: [Single; 4])
    ensures
        r == mixed(des_thrust, pqr[0], pqr[1], pqr[2]),
{
    let half: Single = Single::ratio(5, 10);
    let p: Single = pqr[0];
    let q: Single = pqr[1];
    let r: Single = pqr[2];
    [
        des_thrust + half * (p + q + r),
        des_thrust + half * (p.negate() - q + r),
        des_thrust + half * (p.negate() + q - r),
        des_thrust + half * (p - q - r),
    ]
}

/// A throttle held between nothing and full.
pub open spec fn throttle(m: Single) -> Single {
    m.clamped(Single::of_int(0), Single::of_int(1))
}

/// The motor command with every throttle limited.
pub open spec fn limited(m: [Single; 4]) -> ActuatorCmd {
    ActuatorCmd { motor: [throttle(m[0]), throttle(m[1]), throttle(m[2]), throttle(m[3])] }
}

/// Limits every throttle.
pub fn limit(m: [Single; 4]) -> (r: ActuatorCmd)
    ensures
        r == limited(m),
{
    let zero: Single = Single::from_i32(0);
    let one: Single = Single::from_i32(1);
    ActuatorCmd {
        motor: [
            m[0].clamp(zero, one),
            m[1].clamp(zero, one),
            m[2].clamp(zero, one),
            m[3].clamp(zero, one),
        ],
    }
}

/// Whether every throttle is a number between nothing and full.
pub open spec fn bounded(cmd: ActuatorCmd) -> bool {
    forall|i: int|
        0 <= i < 4 ==> Single::of_int(0).less_eq(#[trigger] cmd.motor[i]) && cmd.motor[i].less_eq(
            Single::of_int(1),
        )
}

/// Whatever comes out of the mixer, as long as it is numbers, the command is within
/// bounds.
pub proof fn law_limited_is_bounded(m: [Single; 4])
    requires
        !m[0].nan(),
        !m[1].nan(),
        !m[2].nan(),
        !m[3].nan(),
    ensures
        bounded(limited(m)),
{
    crate::single::arith::lemma_small_ints();
    let cmd = limited(m);
    assert forall|i: int| 0 <= i < 4 implies Single::of_int(0).less_eq(#[trigger] cmd.motor[i])
        && cmd.motor[i].less_eq(Single::of_int(1)) by {
        crate::single::number::law_clamp_bounds(m[i], Single::of_int(0), Single::of_int(1));
        assert(cmd.motor[i] == throttle(m[i]));
    }
}

/// The share that a new value has in an average with time constant `tau`.
pub open spec fn share(dt: Single, tau: Single) -> Single {
    (dt / (tau + dt)).clamped(Single::of_int(0), Single::of_int(1))
}

pub fn smoothing_share(dt: Single, tau: Single) -> (r: Single)
    ensures
        r == share(dt, tau),
{
    (dt / (tau + dt)).clamp(Single::from_i32(0), Single::from_i32(1))
}

/// The average `prev` with the new value `x` in it.
pub open spec fn eased(prev: Single, x: Single, a: Single) -> Single {
    prev + a * (x - prev)
}

pub fn ease(prev: Single, x: Single, a: Single) -> (r: Single)
    ensures
        r == eased(prev, x, a),
{
    prev + a * (x - prev)
}

/// Position and velocity along one axis, smoothed. The first values are taken as they
/// are; with a time constant of zero all are.
#[derive(Debug, Clone, Copy)]
pub struct AxisFilter {
    pub tau: Single,
    pub pos: Single,
    pub vel: Single,
    pub init: bool,
}

impl AxisFilter {
    pub open spec fn idle(tau: Single) -> AxisFilter {
        AxisFilter { tau, pos: Single::of_int(0), vel: Single::of_int(0), init: false }
    }

    pub fn new(tau: Single) -> (r: AxisFilter)
        ensures
            r == AxisFilter::idle(tau),
    {
        AxisFilter { tau, pos: Single::from_i32(0), vel: Single::from_i32(0), init: false }
    }

    /// Whether there is anything to smooth.
    pub open spec fn on(self) -> bool {
        Single::of_int(0).less(self.tau)
    }

    pub open spec fn next(self, pos: Single, vel: Single, dt: Single) -> AxisFilter {
        if !self.on() {
            self
        } else if !self.init {
            AxisFilter { pos, vel, init: true, ..self }
        } else {
            AxisFilter {
                pos: eased(self.pos, pos, share(dt, self.tau)),
                vel: eased(self.vel, vel, share(dt, self.tau)),
                ..self
            }
        }
    }

    /// What the filter gives for the new values: position and velocity.
    pub open spec fn output(self, pos: Single, vel: Single, dt: Single) -> (Single, Single) {
        if self.on() {
            (self.next(pos, vel, dt).pos, self.next(pos, vel, dt).vel)
        } else {
            (pos, vel)
        }
    }

    pub fn update(&mut self, pos: Single, vel: Single, dt: Single) -> (r: (Single, Single))
        ensures
            *final(self) == old(self).next(pos, vel, dt),
            r == old(self).output(pos, vel, dt),
    {
        if self.tau > Single::from_i32(0) {
            let a: Single = smoothing_share(dt, self.tau);
            if !self.init {
                self.pos = pos;
                self.vel = vel;
                self.init = true;
            } else {
                self.pos = ease(self.pos, pos, a);
                self.vel = ease(self.vel, vel, a);
            }
            (self.pos, self.vel)
        } else {
            (pos, vel)
        }
    }

    pub fn reset(&mut self)
        ensures
            *final(self) == AxisFilter::idle(old(self).tau),
    {
        *self = AxisFilter::new(self.tau);
    }
}

/// The integral of an axis after one more contribution. It is held within `imax`.
/// Where the speed `pre` plus the integral would go beyond `vmax`, the integral is set
/// to what just reaches it, so that it does not wind up.
pub open spec fn wound(
    i: Single,
    more: Single,
    pre: Single,
    vmax: Single,
    imax: Single,
) -> Single {
    let tent = (i + more).clamped(imax.negated(), imax);
    if vmax.less(pre + tent) {
        (vmax - pre).clamped(imax.negated(), imax)
    } else if (pre + tent).less(vmax.negated()) {
        (vmax.negated() - pre).clamped(imax.negated(), imax)
    } else {
        tent
    }
}

pub fn wind(i: Single, more: Single, pre: Single, vmax: Single, imax: Single) -> (r: Single)
    ensures
        r == wound(i, more, pre, vmax, imax),
{
    let low: Single = imax.negate();
    let tent: Single = (i + more).clamp(low, imax);
    let reach: Single = pre + tent;
    if reach > vmax {
        (vmax - pre).clamp(low, imax)
    } else if reach < vmax.negate() {
        (vmax.negate() - pre).clamp(low, imax)
    } else {
        tent
    }
}

/// The integral stays within its limit, whatever the error, as long as it is a
/// number.
pub proof fn law_integral_bounded(
    i: Single,
    more: Single,
    pre: Single,
    vmax: Single,
    imax: Single,
)
    requires
        imax.negated().less_eq(imax),
        !wound(i, more, pre, vmax, imax).nan(),
    ensures
        imax.negated().less_eq(wound(i, more, pre, vmax, imax)),
        wound(i, more, pre, vmax, imax).less_eq(imax),
{
    let low = imax.negated();
    let tent = (i + more).clamped(low, imax);
    if !(i + more).nan() {
        crate::single::number::law_clamp_bounds(i + more, low, imax);
    }
    if !(vmax - pre).nan() {
        crate::single::number::law_clamp_bounds(vmax - pre, low, imax);
    }
    if !(vmax.negated() - pre).nan() {
        crate::single::number::law_clamp_bounds(vmax.negated() - pre, low, imax);
    }
}

/// The size of a tilt to the north and to the east.
pub open spec fn tilt_size(n: Single, e: Single) -> Single {
    (n * n + e * e).root()
}

/// The share of the thrust that holds the vehicle up when it is tilted, where `cos` is
/// the cosine of the tilt; at least a fifth.
pub open spec fn lift_share(tilt: Single, cos: Single) -> Single {
    if tilt.less(Single::of_ratio(155, 100)) {
        cos.larger(Single::of_ratio(2, 10))
    } else {
        Single::of_ratio(2, 10)
    }
}

/// The thrust that accelerates the tilted vehicle downwards by `acc_d`, at least a
/// tenth and at most full.
pub open spec fn tilted_thrust(
    hover: Single,
    acc_d: Single,
    g: Single,
    tilt: Single,
    cos: Single,
) -> Single {
    ((hover - acc_d / g) / lift_share(tilt, cos)).clamped(
        Single::of_ratio(1, 10),
        Single::of_int(1),
    )
}

pub fn thrust_when_tilted(
    hover: Single,
    acc_d: Single,
    g: Single,
    tilt: Single,
    cos: Single,
) -> (r: Single)
    ensures
        r == tilted_thrust(hover, acc_d, g, tilt, cos),
{
    let fifth: Single = Single::ratio(2, 10);
    let lift: Single = if tilt < Single::ratio(155, 100) {
        cos.max(fifth)
    } else {
        fifth
    };
    ((hover - acc_d / g) / lift).clamp(Single::ratio(1, 10), Single::from_i32(1))
}

/// The thrust is never below a tenth, so that the attitude stays under control, and
/// never above full.
pub proof fn law_thrust_bounded(hover: Single, acc_d: Single, g: Single, tilt: Single, cos: Single)
    requires
        !tilted_thrust(hover, acc_d, g, tilt, cos).nan(),
    ensures
        Single::of_ratio(1, 10).less_eq(tilted_thrust(hover, acc_d, g, tilt, cos)),
        tilted_thrust(hover, acc_d, g, tilt, cos).less_eq(Single::of_int(1)),
{
    let tenth = Single::of_ratio(1, 10);
    let one = Single::of_int(1);
    vstd::arithmetic::power2::lemma2_to64();
    crate::single::laws::law_ratio_is_positive(1, 10);
    crate::single::laws::law_integer_within(1, 0);
    crate::single::laws::lemma_one_magnitude();
    let x = (hover - acc_d / g) / lift_share(tilt, cos);
    if !x.nan() {
        crate::single::number::law_clamp_bounds(x, tenth, one);
    }
}

/// The wanted rate turns the vehicle back: about each body axis it points against the
/// deviation from a level wanted attitude, and by a share of it at least. An attitude is
/// also the one with all components turned round, which a negative first component tells.
pub proof fn law_rates_turn_back(
    att: Quaternion,
    kp: Single,
    kd: Single,
    omega: [Single; 3],
    i: int,
    up: bool,
    a: nat,
    b: nat,
)
    requires
        0 <= i < 3,
        crate::single::laws::within(att.w, 1),
        crate::single::laws::within(att.x, 1),
        crate::single::laws::within(att.y, 1),
        crate::single::laws::within(att.z, 1),
        crate::single::laws::within(kp, 100),
        crate::single::signs::toward(true, kp),
        kd.finite(),
        omega[0].same(Single::of_int(0)),
        omega[1].same(Single::of_int(0)),
        omega[2].same(Single::of_int(0)),
        crate::single::signs::toward(up, att.part(i)),
        a + b <= 149,
    ensures
        ({
            let r = attitude_answer(att, Quaternion::unit(), kp, kd, omega);
            let back = if att.w.less(Single::of_int(0)) {
                up
            } else {
                !up
            };
            &&& crate::single::signs::toward(back, r.rates[i])
            &&& crate::single::signs::toward(back, r.err[i])
            &&& crate::single::signs::beyond(up, att.part(i), a) && crate::single::signs::beyond(
                true,
                kp,
                b,
            ) ==> crate::single::signs::beyond(back, r.rates[i], a + b)
        }),
{
    let z = Single::of_int(0);
    let two = Single::of_int(2);
    let minus = Single::of_int(-2);
    let x = att.part(i);
    let c = att.conjugate();
    let e = c.times(Quaternion::unit());
    let r = attitude_answer(att, Quaternion::unit(), kp, kd, omega);
    let flip = att.w.less(z);
    let back = if flip {
        up
    } else {
        !up
    };
    vstd::arithmetic::power2::lemma2_to64();
    crate::single::arith::lemma_small_ints();
    crate::single::laws::lemma_within_is_finite(att.w, 1);
    crate::single::laws::lemma_within_is_finite(att.x, 1);
    crate::single::laws::lemma_within_is_finite(att.y, 1);
    crate::single::laws::lemma_within_is_finite(att.z, 1);
    crate::single::laws::lemma_within_is_finite(kp, 100);
    crate::single::signs::lemma_negated(att.x);
    crate::single::signs::lemma_negated(att.y);
    crate::single::signs::lemma_negated(att.z);
    crate::vehicle::law_no_rotation_is_neutral(c);
    let side = if flip {
        minus
    } else {
        two
    };
    let ei = e.part(i);
    assert(ei.same(x.negated()));
    crate::single::laws::lemma_same_is_finite(ei, x.negated());
    assert(crate::single::laws::within(ei, 1)) by {
        assert(ei.magnitude() == x.magnitude());
    }
    assert(e.w.less(z) == flip);
    crate::single::laws::law_integer_within(2, 1);
    crate::single::laws::law_integer_within(-2, 1);
    crate::single::exact::law_integer_worth(2);
    crate::single::exact::law_integer_worth(-2);
    crate::single::exact::law_integer_worth(0);
    crate::single::exact::law_worth_order(z, two, 0, 2, 0);
    crate::single::exact::law_worth_order(minus, z, -2, 0, 0);
    let err = side * ei;
    assert(crate::single::signs::toward(!up, ei));
    if flip {
        crate::single::signs::law_product_points_back(!up, ei, minus);
    } else {
        crate::single::signs::law_product_points(!up, ei, two);
    }
    assert(r.err[i] == err);
    crate::single::laws::law_product_within(side, ei, 1, 1);
    crate::single::signs::law_product_points(back, err, kp);
    crate::single::laws::law_product_within(kp, err, 100, 2);
    let w = omega[i];
    assert(w.same(z));
    crate::single::laws::law_product_with_zero(kd, w);
    crate::single::laws::lemma_add_nothing(kp * err, kp * err, kd * w);
    assert(r.rates[i] == kp * err - kd * w);
    if crate::single::signs::beyond(up, x, a) && crate::single::signs::beyond(true, kp, b) {
        vstd::arithmetic::power2::lemma_pow2_pos((149 - a) as nat);
        assert(crate::single::signs::beyond(!up, ei, a));
        lemma_doubled_beyond(!up, ei, flip, a);
        crate::single::signs::law_product_beyond(back, err, kp, a, b);
        crate::single::signs::law_ahead_of_beyond(back, kp * err, r.rates[i], a + b);
    }
}

/// Twice what points somewhere by a known amount, with the sign turned or not.
proof fn lemma_doubled_beyond(up: bool, x: Single, flip: bool, a: nat)
    requires
        crate::single::signs::beyond(up, x, a),
        x.finite(),
    ensures
        flip ==> crate::single::signs::beyond(!up, Single::of_int(-2) * x, a),
        !flip ==> crate::single::signs::beyond(up, Single::of_int(2) * x, a),
{
    let two = Single::of_int(2);
    let minus = Single::of_int(-2);
    vstd::arithmetic::power2::lemma2_to64();
    crate::single::arith::lemma_small_ints();
    crate::single::exact::law_integer_worth(2);
    crate::single::exact::law_integer_worth(-2);
    assert(two.value() == 2 * vstd::arithmetic::power2::pow2(149));
    assert(minus.value() == -2 * vstd::arithmetic::power2::pow2(149));
    vstd::arithmetic::power2::lemma_pow2_pos(149);
    crate::single::signs::lemma_negated(two);
    assert(crate::single::signs::beyond(true, two, 0));
    crate::single::signs::law_product_beyond(up, x, two, a, 0);
    assert(minus.negated().magnitude() == two.magnitude());
    crate::single::signs::lemma_negated(minus);
    assert(crate::single::signs::beyond(true, minus.negated(), 0));
    crate::single::signs::law_product_beyond(up, x, minus.negated(), a, 0);
    crate::single::signs::law_product_negated(x, minus.negated());
    crate::single::signs::lemma_negated(x * minus.negated());
    crate::single::laws::law_product_commutes(x, minus);
    crate::single::laws::law_product_commutes(x, two);
}

/// The attitude error is the rotation that is missing, in body axes: where the wanted
/// attitude is the estimated one after a rotation `d` of the body, the error points as `d`
/// does, twice its vector times the squared length of the attitude; here for all integer
/// components that leave no rounding.
pub proof fn law_error_is_missing_rotation(
    att: Quaternion,
    d: Quaternion,
    aw: int,
    ax: int,
    ay: int,
    az: int,
    dw: int,
    dx: int,
    dy: int,
    dz: int,
)
    requires
        crate::vehicle::whole(att, aw, ax, ay, az),
        crate::vehicle::whole(d, dw, dx, dy, dz),
        crate::vehicle::small(aw, 32) && crate::vehicle::small(ax, 32) && crate::vehicle::small(
            ay,
            32,
        ) && crate::vehicle::small(az, 32),
        0 <= dw <= 32,
        crate::vehicle::small(dx, 32) && crate::vehicle::small(dy, 32) && crate::vehicle::small(
            dz,
            32,
        ),
    ensures
        ({
            let s = aw * aw + ax * ax + ay * ay + az * az;
            let e = attitude_error(att, att.times(d));
            &&& crate::single::exact::worth(e.0, 2 * (s * dx), 0)
            &&& crate::single::exact::worth(e.1, 2 * (s * dy), 0)
            &&& crate::single::exact::worth(e.2, 2 * (s * dz), 0)
        }),
{
    crate::vehicle::law_opposite_undoes(att, d, aw, ax, ay, az, dw, dx, dy, dz);
    let s = aw * aw + ax * ax + ay * ay + az * az;
    let e = att.conjugate().times(att.times(d));
    crate::vehicle::lemma_small_product(aw, aw, 32, 32);
    crate::vehicle::lemma_small_product(ax, ax, 32, 32);
    crate::vehicle::lemma_small_product(ay, ay, 32, 32);
    crate::vehicle::lemma_small_product(az, az, 32, 32);
    crate::vehicle::lemma_small_product(s, dx, 4096, 32);
    crate::vehicle::lemma_small_product(s, dy, 4096, 32);
    crate::vehicle::lemma_small_product(s, dz, 4096, 32);
    assert(s * dw >= 0) by (nonlinear_arith)
        requires
            s == aw * aw + ax * ax + ay * ay + az * az,
            dw >= 0,
    ;
    crate::single::exact::law_integer_worth(0);
    crate::single::exact::law_worth_order(e.w, Single::of_int(0), s * dw, 0, 0);
    crate::single::exact::law_integer_worth(2);
    crate::single::exact::law_worth_product(Single::of_int(2), e.x, 2, s * dx, 0, 0);
    crate::single::exact::law_worth_product(Single::of_int(2), e.y, 2, s * dy, 0, 0);
    crate::single::exact::law_worth_product(Single::of_int(2), e.z, 2, s * dz, 0, 0);
}

/// Turning is damped: a larger measured rate about an axis gives a wanted rate about it that
/// is not larger. The error does not depend on the rates.
pub proof fn law_rates_are_damped(
    att: Quaternion,
    wanted: Quaternion,
    kp: Single,
    kd: Single,
    slow: [Single; 3],
    fast: [Single; 3],
    i: int,
    up: bool,
)
    requires
        0 <= i < 3,
        crate::single::signs::ahead(up, slow[i], fast[i]),
        slow[i].finite(),
        fast[i].finite(),
        kd.finite(),
        crate::single::signs::toward(true, kd),
        (kp * attitude_answer(att, wanted, kp, kd, slow).err[i]).finite(),
    ensures
        crate::single::signs::ahead(
            !up,
            attitude_answer(att, wanted, kp, kd, slow).rates[i],
            attitude_answer(att, wanted, kp, kd, fast).rates[i],
        ),
        attitude_answer(att, wanted, kp, kd, slow).err == attitude_answer(
            att,
            wanted,
            kp,
            kd,
            fast,
        ).err,
{
    let x = kp * attitude_answer(att, wanted, kp, kd, slow).err[i];
    crate::single::signs::law_product_order(up, slow[i], fast[i], kd);
    crate::single::signs::law_difference_order(up, kd * slow[i], kd * fast[i], x);
}

/// Which motors a demand speeds up: more thrust all of them, more roll to the right the
/// first and the last, more pitch the first and the third, more yaw the first two.
pub open spec fn sped_up(by: int, motor: int) -> bool {
    if by == 0 {
        true
    } else if by == 1 {
        motor == 0 || motor == 3
    } else if by == 2 {
        motor == 0 || motor == 2
    } else {
        motor == 0 || motor == 1
    }
}

/// A demand with the value `by` replaced: thrust, roll, pitch or yaw.
pub open spec fn demand(d: [Single; 4], by: int, x: Single) -> [Single; 4] {
    [
        if by == 0 {
            x
        } else {
            d[0]
        },
        if by == 1 {
            x
        } else {
            d[1]
        },
        if by == 2 {
            x
        } else {
            d[2]
        },
        if by == 3 {
            x
        } else {
            d[3]
        },
    ]
}

/// Asking for more of one thing speeds up the motors that give it and slows down the others,
/// before and after the throttles are limited.
pub proof fn law_motors_answer_demand(
    d: [Single; 4],
    by: int,
    less: Single,
    more: Single,
    motor: int,
    up: bool,
)
    requires
        0 <= by < 4,
        0 <= motor < 4,
        crate::single::laws::within(d[0], 100),
        crate::single::laws::within(d[1], 100),
        crate::single::laws::within(d[2], 100),
        crate::single::laws::within(d[3], 100),
        crate::single::laws::within(less, 100),
        crate::single::laws::within(more, 100),
        crate::single::signs::ahead(up, less, more),
    ensures
        ({
            let a = demand(d, by, less);
            let b = demand(d, by, more);
            let x = mixed(a[0], a[1], a[2], a[3]);
            let y = mixed(b[0], b[1], b[2], b[3]);
            let way = if sped_up(by, motor) {
                up
            } else {
                !up
            };
            &&& crate::single::signs::ahead(way, x[motor], y[motor])
            &&& crate::single::signs::ahead(
                way,
                limited(x).motor[motor],
                limited(y).motor[motor],
            )
        }),
{
    let a = demand(d, by, less);
    let b = demand(d, by, more);
    let x = mixed(a[0], a[1], a[2], a[3]);
    let y = mixed(b[0], b[1], b[2], b[3]);
    let way = if sped_up(by, motor) {
        up
    } else {
        !up
    };
    crate::single::arith::lemma_small_ints();
    crate::single::laws::law_ratio_is_positive(5, 10);
    let half = Single::of_ratio(5, 10);
    lemma_mix_size(a);
    lemma_mix_size(b);
    crate::single::signs::law_negated_order(up, less, more);
    lemma_mix_order(a, b, by, motor, up);
    let sa = turn_share(a, motor);
    let sb = turn_share(b, motor);
    if by != 0 {
        crate::single::signs::law_product_order(way, sa, sb, half);
        crate::single::laws::lemma_within_is_finite(a[0], 100);
        crate::single::signs::law_sum_order(way, half * sa, half * sb, a[0]);
    } else {
        crate::single::signs::law_sum_order(up, a[0], b[0], half * sa);
    }
    crate::single::signs::law_clamp_order(
        way,
        x[motor],
        y[motor],
        Single::of_int(0),
        Single::of_int(1),
    );
}

/// What the turns add to a motor, before it is halved.
spec fn turn_share(d: [Single; 4], motor: int) -> Single {
    let p = d[1];
    let q = d[2];
    let r = d[3];
    if motor == 0 {
        p + q + r
    } else if motor == 1 {
        p.negated() - q + r
    } else if motor == 2 {
        p.negated() + q - r
    } else {
        p - q - r
    }
}

proof fn lemma_mix_size(d: [Single; 4])
    requires
        crate::single::laws::within(d[0], 100),
        crate::single::laws::within(d[1], 100),
        crate::single::laws::within(d[2], 100),
        crate::single::laws::within(d[3], 100),
    ensures
        forall|m: int|
            0 <= m < 4 ==> {
                &&& (#[trigger] turn_share(d, m)).finite()
                &&& (Single::of_ratio(5, 10) * turn_share(d, m)).finite()
                &&& mixed(d[0], d[1], d[2], d[3])[m] == d[0] + Single::of_ratio(5, 10)
                    * turn_share(d, m)
            },
{
    crate::single::laws::law_ratio_is_positive(5, 10);
    let half = Single::of_ratio(5, 10);
    let p = d[1];
    let q = d[2];
    let r = d[3];
    let n = p.negated();
    crate::single::signs::lemma_negated(p);
    crate::single::laws::law_sum_within(p, q, 100);
    crate::single::signs::law_difference_within(p, q, 100);
    crate::single::laws::law_sum_within(n, q, 100);
    crate::single::signs::law_difference_within(n, q, 100);
    crate::single::signs::law_within_more(r, 100, 101);
    crate::single::laws::law_sum_within(p + q, r, 101);
    crate::single::laws::law_sum_within(n - q, r, 101);
    crate::single::signs::law_difference_within(n + q, r, 101);
    crate::single::signs::law_difference_within(p - q, r, 101);
    assert forall|m: int| 0 <= m < 4 implies {
        &&& (#[trigger] turn_share(d, m)).finite()
        &&& (half * turn_share(d, m)).finite()
        &&& mixed(d[0], d[1], d[2], d[3])[m] == d[0] + half * turn_share(d, m)
    } by {
        crate::single::laws::law_product_within(half, turn_share(d, m), 0, 102);
    }
}

proof fn lemma_mix_order(a: [Single; 4], b: [Single; 4], by: int, motor: int, up: bool)
    requires
        0 <= by < 4,
        0 <= motor < 4,
        forall|j: int| 1 <= j < 4 ==> crate::single::laws::within(#[trigger] a[j], 100),
        forall|j: int| 1 <= j < 4 ==> crate::single::laws::within(#[trigger] b[j], 100),
        forall|j: int| 0 <= j < 4 && j != by ==> #[trigger] a[j] == b[j],
        crate::single::signs::ahead(up, a[by], b[by]),
    ensures
        by == 0 ==> turn_share(a, motor) == turn_share(b, motor),
        by != 0 ==> crate::single::signs::ahead(
            if sped_up(by, motor) {
                up
            } else {
                !up
            },
            turn_share(a, motor),
            turn_share(b, motor),
        ),
{
    assert(a[0] == b[0] || by == 0);
    assert(a[1] == b[1] || by == 1);
    assert(a[2] == b[2] || by == 2);
    assert(a[3] == b[3] || by == 3);
    let p = a[1];
    let q = a[2];
    let r = a[3];
    crate::single::laws::lemma_within_is_finite(p, 100);
    crate::single::laws::lemma_within_is_finite(q, 100);
    crate::single::laws::lemma_within_is_finite(r, 100);
    crate::single::signs::lemma_negated(p);
    crate::single::signs::lemma_negated(r);
    let n = p.negated();
    crate::single::laws::law_sum_within(p, q, 100);
    crate::single::signs::law_difference_within(p, q, 100);
    crate::single::laws::law_sum_within(n, q, 100);
    crate::single::signs::law_difference_within(n, q, 100);
    if by == 1 {
        let y = b[1];
        crate::single::signs::law_negated_order(up, p, y);
        let m = y.negated();
        crate::single::signs::law_sum_order(up, p, y, q);
        crate::single::signs::law_sum_order(!up, n, m, q);
        crate::single::signs::law_difference_order(up, p, y, q);
        crate::single::signs::law_difference_order(!up, n, m, q);
        crate::single::signs::law_sum_order(up, p + q, y + q, r);
        crate::single::signs::law_sum_order(!up, n - q, m - q, r);
        crate::single::signs::law_difference_order(!up, n + q, m + q, r);
        crate::single::signs::law_difference_order(up, p - q, y - q, r);
    } else if by == 2 {
        let y = b[2];
        crate::single::signs::law_sum_order(up, q, y, p);
        crate::single::signs::law_sum_order(up, q, y, n);
        crate::single::signs::law_difference_order(up, q, y, p);
        crate::single::signs::law_difference_order(up, q, y, n);
        crate::single::signs::law_sum_order(up, p + q, p + y, r);
        crate::single::signs::law_sum_order(!up, n - q, n - y, r);
        crate::single::signs::law_difference_order(up, n + q, n + y, r);
        crate::single::signs::law_difference_order(!up, p - q, p - y, r);
    } else if by == 3 {
        let y = b[3];
        crate::single::signs::law_sum_order(up, r, y, p + q);
        crate::single::signs::law_sum_order(up, r, y, n - q);
        crate::single::signs::law_difference_order(up, r, y, n + q);
        crate::single::signs::law_difference_order(up, r, y, p - q);
    }
}

/// More downward acceleration asks for no more thrust, a tilted vehicle included.
pub proof fn law_climbing_needs_thrust(
    hover: Single,
    lower: Single,
    higher: Single,
    g: Single,
    tilt: Single,
    cos: Single,
    up: bool,
)
    requires
        crate::single::signs::ahead(up, lower, higher),
        crate::single::laws::within(lower, 60),
        crate::single::laws::within(higher, 60),
        crate::single::laws::within(hover, 60),
        crate::single::signs::beyond(true, g, 20),
        g.finite(),
        cos.finite(),
    ensures
        crate::single::signs::ahead(
            !up,
            tilted_thrust(hover, lower, g, tilt, cos),
            tilted_thrust(hover, higher, g, tilt, cos),
        ),
{
    let a = lower / g;
    let b = higher / g;
    let lift = lift_share(tilt, cos);
    let fifth = Single::of_ratio(2, 10);
    let zero = Single::of_int(0);
    vstd::arithmetic::power2::lemma2_to64();
    crate::single::arith::lemma_small_ints();
    crate::single::laws::lemma_within_is_finite(lower, 60);
    crate::single::laws::lemma_within_is_finite(higher, 60);
    crate::single::laws::lemma_within_is_finite(hover, 60);
    crate::single::signs::law_beyond_is_toward(true, g, 20);
    crate::single::signs::law_quotient_order(up, lower, higher, g);
    crate::single::signs::law_quotient_within(lower, g, 60, 20);
    crate::single::signs::law_quotient_within(higher, g, 60, 20);
    crate::single::signs::law_within_more(hover, 60, 80);
    crate::single::signs::law_difference_within(hover, a, 80);
    crate::single::signs::law_difference_within(hover, b, 80);
    crate::single::signs::law_difference_order(up, a, b, hover);
    lemma_fifth();
    assert(zero.less(lift) && lift.finite());
    crate::single::signs::law_quotient_order(!up, hover - a, hover - b, lift);
    crate::single::laws::law_ratio_is_positive(1, 10);
    crate::single::laws::law_integer_within(1, 0);
    crate::single::laws::lemma_one_magnitude();
    crate::single::signs::law_clamp_order(
        !up,
        (hover - a) / lift,
        (hover - b) / lift,
        Single::of_ratio(1, 10),
        Single::of_int(1),
    );
}

/// A fifth is positive.
proof fn lemma_fifth()
    ensures
        Single::of_int(0).less(Single::of_ratio(2, 10)),
        Single::of_ratio(2, 10).finite(),
{
    crate::single::arith::lemma_small_ints();
    crate::single::laws::law_ratio_is_positive(2, 10);
    let f = crate::single::exact::lemma_field_of(1, 146);
    let p = vstd::arithmetic::power2::pow2(146);
    vstd::arithmetic::power2::lemma2_to64();
    vstd::arithmetic::power2::lemma_pow2_adds(3, 146);
    vstd::arithmetic::power2::lemma_pow2_pos(146);
    crate::single::rounding::lemma_nearest_exact(f);
    assert(1 * p == p);
    crate::single::rounding::lemma_nearest_keeps_order(
        p,
        1,
        2 * vstd::arithmetic::power2::pow2(149),
        10,
    );
    reveal(Single::of_ratio);
    let n = crate::single::rounding::nearest(2 * vstd::arithmetic::power2::pow2(149), 10);
    crate::single::laws::lemma_packed(false, n);
    crate::single::laws::lemma_field_order(f, n);
}

/// An average moves towards the new value, never away from it.
pub proof fn law_average_follows(prev: Single, x: Single, a: Single, up: bool)
    requires
        crate::single::signs::ahead(up, prev, x),
        crate::single::laws::within(prev, 100),
        crate::single::laws::within(x, 100),
        crate::single::signs::toward(true, a),
        a.finite(),
    ensures
        crate::single::signs::ahead(up, prev, eased(prev, x, a)),
{
    crate::single::laws::lemma_within_is_finite(prev, 100);
    crate::single::laws::lemma_within_is_finite(x, 100);
    crate::single::signs::law_difference_points(up, prev, x);
    crate::single::signs::law_difference_within(x, prev, 100);
    crate::single::signs::law_product_points(up, x - prev, a);
    crate::single::signs::law_sum_moves(up, prev, a * (x - prev));
}

/// With nothing of the new value the average stays, with all of it the average is the new
/// value.
pub proof fn law_average_reaches(prev: Single, x: Single, m: int, n: int, k: nat)
    requires
        crate::single::exact::worth(prev, m, k),
        crate::single::exact::worth(x, n, k),
        crate::vehicle::small(m, 0x40_0000),
        crate::vehicle::small(n, 0x40_0000),
    ensures
        eased(prev, x, Single::of_int(0)).same(prev),
        eased(prev, x, Single::of_int(1)).same(x),
{
    crate::single::exact::law_integer_worth(0);
    crate::single::exact::law_integer_worth(1);
    crate::single::exact::law_worth_difference(x, prev, n, m, k);
    crate::single::exact::law_worth_product(Single::of_int(0), x - prev, 0, n - m, 0, k);
    crate::single::exact::law_worth_product(Single::of_int(1), x - prev, 1, n - m, 0, k);
    crate::single::exact::law_worth_sum(prev, Single::of_int(0) * (x - prev), m, 0, k);
    crate::single::exact::law_worth_sum(prev, Single::of_int(1) * (x - prev), m, n - m, k);
    crate::single::exact::law_worth_order(eased(prev, x, Single::of_int(0)), prev, m, m, k);
    crate::single::exact::law_worth_order(eased(prev, x, Single::of_int(1)), x, n, n, k);
}

/// The share of a new value is its time over the time constant and its time together; here for
/// times that leave no rounding.
pub proof fn law_share_is_of_time(dt: Single, tau: Single, a: int, b: int, j: nat)
    requires
        crate::single::exact::worth(dt, a, 0),
        crate::single::exact::worth(tau, b, 0),
        0 <= a,
        0 <= b,
        a + b == vstd::arithmetic::power2::pow2(j),
        j <= 20,
    ensures
        crate::single::exact::worth(share(dt, tau), a, j),
{
    let q = vstd::arithmetic::power2::pow2(j) as int;
    let z = Single::of_int(0);
    let one = Single::of_int(1);
    vstd::arithmetic::power2::lemma2_to64();
    vstd::arithmetic::power2::lemma_pow2_pos(j);
    if j < 20 {
        vstd::arithmetic::power2::lemma_pow2_strictly_increases(j, 20);
    }
    crate::single::exact::law_integer_worth(0);
    crate::single::exact::law_integer_worth(1);
    crate::single::exact::law_worth_sum(tau, dt, b, a, 0);
    crate::single::exact::law_worth_finer_to(dt, a, 0, j);
    crate::single::exact::law_worth_quotient(dt, tau + dt, a, q, j, 0);
    crate::single::exact::law_worth_finer_to(z, 0, 0, j);
    crate::single::exact::law_worth_finer_to(one, 1, 0, j);
    let s = dt / (tau + dt);
    assert(0 * q == 0 && 1 * q == q);
    crate::single::exact::law_worth_order(s, z, a, 0, j);
    crate::single::exact::law_worth_order(one, s, q, a, j);
}

/// The size of a tilt is the long side of the right-angled triangle over its parts; here for
/// sides that are integers.
pub proof fn law_tilt_size(n: Single, e: Single, a: int, b: int, c: int)
    requires
        crate::single::exact::worth(n, a, 0) && crate::vehicle::small(a, 2048),
        crate::single::exact::worth(e, b, 0) && crate::vehicle::small(b, 2048),
        a * a + b * b == c * c,
        0 <= c <= 4096,
    ensures
        crate::single::exact::worth(tilt_size(n, e), c, 0),
{
    crate::vehicle::lemma_small_product(a, a, 2048, 2048);
    crate::vehicle::lemma_small_product(b, b, 2048, 2048);
    crate::single::exact::law_worth_product(n, n, a, a, 0, 0);
    crate::single::exact::law_worth_product(e, e, b, b, 0, 0);
    crate::single::exact::law_worth_sum(n * n, e * e, a * a, b * b, 0);
    crate::single::exact::law_worth_root(n * n + e * e, c, 0);
}

/// A level vehicle that is not to accelerate gets the thrust at which it hovers.
pub proof fn law_hover_needs_hover_thrust(hover: Single, acc_d: Single, g: Single, tilt: Single)
    requires
        hover.finite(),
        Single::of_ratio(1, 10).less_eq(hover),
        hover.less_eq(Single::of_int(1)),
        acc_d.same(Single::of_int(0)),
        g.finite(),
        Single::of_int(0).less(g),
        tilt.less(Single::of_ratio(155, 100)),
    ensures
        tilted_thrust(hover, acc_d, g, tilt, Single::of_int(1)).same(hover),
{
    let z = Single::of_int(0);
    let one = Single::of_int(1);
    let fifth = Single::of_ratio(2, 10);
    crate::single::arith::lemma_small_ints();
    crate::single::laws::lemma_one_magnitude();
    crate::single::laws::law_ratio_is_positive(2, 10);
    crate::single::laws::lemma_same_is_finite(acc_d, z);
    crate::single::signs::law_quotient_points(true, acc_d, g);
    crate::single::signs::law_quotient_points(false, acc_d, g);
    crate::single::laws::lemma_add_nothing(hover, hover, acc_d / g);
    let h = hover - acc_d / g;
    assert(lift_share(tilt, one) == one) by {
        assert(!one.less(fifth)) by {
            vstd::arithmetic::power2::lemma2_to64();
        }
    }
    crate::single::signs::law_one_divides(h);
}

/// The more a vehicle is tilted, that is, the smaller the cosine, the more thrust holds it up.
pub proof fn law_tilt_needs_thrust(
    hover: Single,
    acc_d: Single,
    g: Single,
    tilt: Single,
    steep: Single,
    flat: Single,
)
    requires
        crate::single::laws::within(hover, 60),
        crate::single::laws::within(acc_d, 60),
        crate::single::signs::beyond(true, g, 20),
        g.finite(),
        steep.finite(),
        flat.finite(),
        steep.less_eq(flat),
        (acc_d / g).less_eq(hover),
    ensures
        tilted_thrust(hover, acc_d, g, tilt, flat).less_eq(
            tilted_thrust(hover, acc_d, g, tilt, steep),
        ),
{
    let z = Single::of_int(0);
    vstd::arithmetic::power2::lemma2_to64();
    crate::single::arith::lemma_small_ints();
    crate::single::laws::lemma_within_is_finite(hover, 60);
    crate::single::signs::law_quotient_within(acc_d, g, 60, 20);
    crate::single::signs::law_within_more(hover, 60, 80);
    crate::single::signs::law_difference_within(hover, acc_d / g, 80);
    crate::single::signs::law_difference_points(true, acc_d / g, hover);
    lemma_fifth();
    let (a, b) = (lift_share(tilt, steep), lift_share(tilt, flat));
    assert(a.less_eq(b) && z.less(a) && a.finite() && b.finite());
    let x = hover - acc_d / g;
    crate::single::signs::law_divisor_order(true, x, a, b);
    crate::single::laws::law_ratio_is_positive(1, 10);
    crate::single::laws::law_integer_within(1, 0);
    crate::single::laws::lemma_one_magnitude();
    crate::single::signs::law_clamp_order(
        true,
        x / b,
        x / a,
        Single::of_ratio(1, 10),
        Single::of_int(1),
    );
}

/// A vehicle in its wanted attitude that turns is told to turn the other way about each axis,
/// by a share of the rate at least; here in level attitude.
pub proof fn law_turning_is_opposed(
    kp: Single,
    kd: Single,
    omega: [Single; 3],
    i: int,
    up: bool,
    a: nat,
    b: nat,
)
    requires
        0 <= i < 3,
        crate::single::laws::within(kp, 20),
        crate::single::laws::within(kd, 20) && crate::single::signs::toward(true, kd),
        crate::single::laws::within(omega[i], 20),
        crate::single::signs::toward(up, omega[i]),
        a + b <= 149,
    ensures
        ({
            let r = attitude_answer(Quaternion::unit(), Quaternion::unit(), kp, kd, omega);
            &&& crate::single::signs::toward(!up, r.rates[i])
            &&& crate::single::signs::beyond(up, omega[i], a) && crate::single::signs::beyond(
                true,
                kd,
                b,
            ) ==> crate::single::signs::beyond(!up, r.rates[i], a + b)
        }),
{
    let q = Quaternion::unit();
    let z = Single::of_int(0);
    let r = attitude_answer(q, q, kp, kd, omega);
    vstd::arithmetic::power2::lemma2_to64();
    crate::single::arith::lemma_small_ints();
    crate::single::laws::lemma_one_magnitude();
    crate::single::laws::lemma_within_is_finite(kp, 20);
    crate::single::laws::lemma_within_is_finite(kd, 20);
    crate::single::laws::lemma_within_is_finite(omega[i], 20);
    crate::single::signs::lemma_negated(z);
    let c = q.conjugate();
    crate::vehicle::law_no_rotation_is_neutral(c);
    let e = c.times(q).part(i);
    assert(e.same(z));
    crate::single::laws::law_integer_within(2, 1);
    crate::single::laws::law_integer_within(-2, 1);
    crate::single::laws::law_product_with_zero(Single::of_int(2), e);
    crate::single::laws::law_product_with_zero(Single::of_int(-2), e);
    let err = r.err[i];
    assert(err.same(z));
    crate::single::laws::law_product_with_zero(kp, err);
    let p = kd * omega[i];
    crate::single::laws::law_product_within(kd, omega[i], 20, 20);
    crate::single::signs::law_product_points(up, omega[i], kd);
    crate::single::signs::lemma_negated(p);
    crate::single::signs::law_negated_points_back(up, p);
    crate::single::laws::lemma_add_nothing(p.negated(), p.negated(), kp * err);
    crate::single::laws::law_sum_commutes(kp * err, p.negated());
    assert(r.rates[i] == kp * err - p);
    if crate::single::signs::beyond(up, omega[i], a) && crate::single::signs::beyond(true, kd, b) {
        crate::single::signs::law_product_beyond(up, omega[i], kd, a, b);
        assert(crate::single::signs::beyond(!up, p.negated(), a + b));
        crate::single::signs::law_ahead_of_beyond(!up, p.negated(), r.rates[i], a + b);
    }
}

} // verus!
