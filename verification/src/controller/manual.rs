//! Flying by the sticks: rates in manual flight, attitudes in stabilized flight.

use super::attitude::{attitude_rates, limit, thrust_when_tilted, x4_mix, AttitudeOut};
use crate::config::CtrlParams;
use crate::single::Single;
use crate::vehicle::{ActuatorCmd, Quaternion, RcInput, VehicleState};
use vstd::prelude::*;

verus! {

/// The parameters of flight by the sticks.
#[derive(Debug, Clone, Copy)]
pub struct ManualParams {
    pub hover_thrust: Single,
    pub gravity: Single,
    pub att_kp: Single,
    pub att_kd: Single,
    /// The rate of a full stick in manual flight.
    pub rate_scale: Single,
    /// The tilt of a full stick in stabilized flight.
    pub max_tilt: Single,
    /// The climb of full throttle in stabilized flight; half throttle holds.
    pub vz_scale: Single,
    /// From climb error to acceleration.
    pub kv_z: Single,
}

impl ManualParams {
    /// The parameters for an aircraft.
    pub fn from_ctrl(c: &CtrlParams) -> (r: ManualParams)
        ensures
            r == (ManualParams {
                hover_thrust: c.hover_thrust,
                gravity: c.gravity,
                att_kp: c.att_kp,
                att_kd: c.att_kd,
                rate_scale: Single::of_int(3),
                max_tilt: c.tilt_max,
                vz_scale: Single::of_int(2),
                kv_z: Single::of_ratio(15, 10),
            }),
    {
        ManualParams {
            hover_thrust: c.hover_thrust,
            gravity: c.gravity,
            att_kp: c.att_kp,
            att_kd: c.att_kd,
            rate_scale: Single::from_i32(3),
            max_tilt: c.tilt_max,
            vz_scale: Single::from_i32(2),
            kv_z: Single::ratio(15, 10),
        }
    }
}

/// The answer to the error between the rate of a stick and the measured rate, held
/// within `bound`.
pub open spec fn rate_answer(
    p: ManualParams,
    stick: Single,
    omega: Single,
    bound: int,
) -> Single {
    (p.att_kp * (p.rate_scale * stick - omega)).clamped(
        Single::of_int(-bound),
        Single::of_int(bound),
    )
}

fn answer_rate(p: &ManualParams, stick: Single, omega: Single, bound: i32) -> (r: Single)
    requires
        0 <= bound <= 100,
    ensures
        r == rate_answer(*p, stick, omega, bound as int),
{
    (p.att_kp * (p.rate_scale * stick - omega)).clamp(
        Single::from_i32(-bound),
        Single::from_i32(bound),
    )
}

pub open spec fn manual_command(rc: RcInput, est: VehicleState, p: ManualParams) -> ActuatorCmd {
    super::attitude::limited(
        super::attitude::mixed(
            super::attitude::throttle(rc.throttle),
            rate_answer(p, rc.roll, est.omega[0].0, 8),
            rate_answer(p, rc.pitch, est.omega[1].0, 8),
            rate_answer(p, rc.yaw, est.omega[2].0, 8),
        ),
    )
}

/// Manual flight: the sticks command body rates, the throttle commands thrust. Only the
/// gyroscope is needed.
pub fn manual_rates(rc: &RcInput, est: &VehicleState, p: &ManualParams) -> (r: ActuatorCmd)
    ensures
        r == manual_command(*rc, *est, *p),
{
    let pqr: [Single; 3] = [
        answer_rate(p, rc.roll, est.omega[0].0, 8),
        answer_rate(p, rc.pitch, est.omega[1].0, 8),
        answer_rate(p, rc.yaw, est.omega[2].0, 8),
    ];
    let des_thrust: Single = rc.throttle.clamp(Single::from_i32(0), Single::from_i32(1));
    limit(x4_mix(des_thrust, pqr))
}

/// The tilt that the sticks ask for: roll, pitch, and the size of both.
#[derive(Debug, Clone, Copy)]
pub struct StickTilt {
    pub roll: Single,
    pub pitch: Single,
    pub size: Single,
}

pub open spec fn tilt_of_sticks(rc: RcInput, p: ManualParams) -> StickTilt {
    let roll = p.max_tilt * rc.roll;
    let pitch = p.max_tilt * rc.pitch;
    StickTilt { roll, pitch, size: super::attitude::tilt_size(roll, pitch) }
}

/// The tilt that the sticks ask for.
pub fn stick_tilt(rc: &RcInput, p: &ManualParams) -> (r: StickTilt)
    ensures
        r == tilt_of_sticks(*rc, *p),
{
    let roll: Single = p.max_tilt * rc.roll;
    let pitch: Single = p.max_tilt * rc.pitch;
    StickTilt { roll, pitch, size: (roll * roll + pitch * pitch).sqrt() }
}

pub open spec fn stabilize_command(
    rc: RcInput,
    est: VehicleState,
    p: ManualParams,
    q_des: Quaternion,
    cos_tilt: Single,
) -> ActuatorCmd {
    let att = super::attitude::attitude_answer(
        est.att,
        q_des,
        p.att_kp,
        p.att_kd,
        [est.omega[0].0, est.omega[1].0, est.omega[2].0],
    );
    let climb = (rc.throttle - Single::of_ratio(5, 10)).negated() * Single::of_int(2) * p.vz_scale;
    let acc_d = p.kv_z * (climb - est.vel[2].0);
    let thrust = super::attitude::tilted_thrust(
        p.hover_thrust,
        acc_d,
        p.gravity,
        tilt_of_sticks(rc, p).size,
        cos_tilt,
    );
    super::attitude::limited(
        super::attitude::mixed(
            thrust,
            att.rates[0],
            att.rates[1],
            rate_answer(p, rc.yaw, est.omega[2].0, 6),
        ),
    )
}

/// Stabilized flight: the sticks command tilt and yaw rate, the throttle commands
/// climb. `q_des` is the attitude with the tilt of `stick_tilt` and the present yaw,
/// `cos_tilt` the cosine of its size.
pub fn stabilize(
    rc: &RcInput,
    est: &VehicleState,
    p: &ManualParams,
    q_des: Quaternion,
    cos_tilt: Single,
) -> (r: ActuatorCmd)
    ensures
        r == stabilize_command(*rc, *est, *p, q_des, cos_tilt),
{
    let tilt: StickTilt = stick_tilt(rc, p);
    let att: AttitudeOut = attitude_rates(
        est.att,
        q_des,
        p.att_kp,
        p.att_kd,
        [est.omega[0].0, est.omega[1].0, est.omega[2].0],
    );
    let r_cmd: Single = answer_rate(p, rc.yaw, est.omega[2].0, 6);
    let vz_des: Single = (rc.throttle - Single::ratio(5, 10)).negate() * Single::from_i32(2)
        * p.vz_scale;
    let acc_d: Single = p.kv_z * (vz_des - est.vel[2].0);
    let des_thrust: Single = thrust_when_tilted(
        p.hover_thrust,
        acc_d,
        p.gravity,
        tilt.size,
        cos_tilt,
    );
    limit(x4_mix(des_thrust, [att.rates[0], att.rates[1], r_cmd]))
}

/// Whether the parameters are not negative and of ordinary size.
pub open spec fn sound(p: ManualParams) -> bool {
    &&& crate::single::laws::within(p.att_kp, 20) && crate::single::signs::toward(true, p.att_kp)
    &&& crate::single::laws::within(p.rate_scale, 20) && crate::single::signs::toward(
        true,
        p.rate_scale,
    )
    &&& crate::single::laws::within(p.max_tilt, 20) && crate::single::signs::toward(
        true,
        p.max_tilt,
    )
    &&& crate::single::laws::within(p.vz_scale, 10) && crate::single::signs::toward(
        true,
        p.vz_scale,
    )
    &&& crate::single::laws::within(p.kv_z, 20) && crate::single::signs::toward(true, p.kv_z)
    &&& crate::single::laws::within(p.hover_thrust, 60)
    &&& crate::single::signs::beyond(true, p.gravity, 20) && p.gravity.finite()
}

/// A stick turns the vehicle its way, measured rotation is damped: more stick gives a larger
/// rate, and more rotation a smaller one. A stick that asks for what is measured gives none,
/// and one that asks for more gives a share of the difference at least.
pub proof fn law_stick_turns_its_way(
    p: ManualParams,
    stick: Single,
    more: Single,
    fast: Single,
    slow: Single,
    bound: int,
    up: bool,
    a: nat,
    b: nat,
)
    requires
        sound(p),
        1 <= bound <= 100,
        crate::single::laws::within(stick, 20),
        crate::single::laws::within(more, 20),
        crate::single::laws::within(fast, 20),
        crate::single::laws::within(slow, 20),
        crate::single::signs::ahead(up, stick, more),
        crate::single::signs::ahead(!up, fast, slow),
        a + b <= 149,
    ensures
        crate::single::signs::ahead(
            up,
            rate_answer(p, stick, fast, bound),
            rate_answer(p, more, slow, bound),
        ),
        crate::single::signs::ahead(up, fast, p.rate_scale * stick)
            ==> crate::single::signs::toward(up, rate_answer(p, stick, fast, bound)),
        crate::single::signs::beyond(up, p.rate_scale * stick - fast, a)
            && crate::single::signs::beyond(true, p.att_kp, b) && crate::single::signs::ahead(
            up,
            fast,
            p.rate_scale * stick,
        ) ==> crate::single::signs::beyond(up, rate_answer(p, stick, fast, bound), a + b),
        crate::single::laws::within(rate_answer(p, stick, fast, bound), 100),
        crate::single::laws::within(rate_answer(p, more, slow, bound), 100),
{
    let limit = Single::of_int(bound);
    let z = Single::of_int(0);
    crate::single::arith::lemma_small_ints();
    vstd::arithmetic::power2::lemma2_to64();
    crate::single::laws::law_integer_within(bound, 7);
    crate::single::exact::law_integer_worth(bound);
    crate::single::exact::law_integer_worth(-bound);
    crate::single::exact::law_integer_worth(0);
    crate::single::exact::law_worth_order(z, limit, 0, bound, 0);
    lemma_negative_integer(bound);
    assert(Single::of_int(-bound) == limit.negated());
    crate::single::laws::lemma_within_is_finite(stick, 20);
    crate::single::laws::lemma_within_is_finite(more, 20);
    crate::single::laws::lemma_within_is_finite(p.rate_scale, 20);
    crate::single::laws::law_product_within(p.rate_scale, stick, 20, 20);
    crate::single::laws::law_product_within(p.rate_scale, more, 20, 20);
    crate::single::signs::law_product_order(up, stick, more, p.rate_scale);
    let x = p.rate_scale * stick;
    let y = p.rate_scale * more;
    crate::single::signs::law_within_more(x, 40, 60);
    crate::single::signs::law_within_more(y, 40, 60);
    crate::single::signs::law_within_more(fast, 20, 60);
    crate::single::signs::law_within_more(slow, 20, 60);
    crate::single::signs::law_feedback_order(up, p.att_kp, x, y, fast, slow);
    let s = p.att_kp * (x - fast);
    let t = p.att_kp * (y - slow);
    crate::single::signs::law_clamp_points(true, limit, limit);
    crate::single::signs::law_clamp_order(up, s, t, limit.negated(), limit);
    crate::single::signs::law_clamp_within(s, limit, 7);
    crate::single::signs::law_clamp_within(t, limit, 7);
    crate::single::signs::law_within_more(rate_answer(p, stick, fast, bound), 7, 100);
    crate::single::signs::law_within_more(rate_answer(p, more, slow, bound), 7, 100);
    if crate::single::signs::ahead(up, fast, x) {
        crate::single::signs::law_feedback_points(up, p.att_kp, x, fast, a, b);
        crate::single::signs::law_clamp_points(up, s, limit);
        if crate::single::signs::beyond(up, x - fast, a) && crate::single::signs::beyond(
            true,
            p.att_kp,
            b,
        ) {
            lemma_bound_is_seen(bound, a + b);
            crate::single::signs::law_clamp_beyond(up, s, limit, a + b);
        }
    }
}

/// A positive integer is one or more.
proof fn lemma_bound_is_seen(n: int, k: nat)
    requires
        1 <= n <= 100,
        k <= 149,
    ensures
        crate::single::signs::beyond(true, Single::of_int(n), k),
{
    let q = vstd::arithmetic::power2::pow2(149);
    crate::single::arith::lemma_small_ints();
    crate::single::exact::law_integer_worth(n);
    vstd::arithmetic::power2::lemma_pow2_pos(149);
    if k > 0 {
        vstd::arithmetic::power2::lemma_pow2_strictly_increases((149 - k) as nat, 149);
    }
    assert(n * q >= q) by (nonlinear_arith)
        requires
            n >= 1,
            q > 0,
    ;
}

/// An integer below zero is the one above with the sign turned.
proof fn lemma_negative_integer(n: int)
    requires
        1 <= n <= 100,
    ensures
        Single::of_int(-n) == Single::of_int(n).negated(),
{
    reveal(Single::of_int);
    let q = vstd::arithmetic::power2::pow2(149);
    let f = crate::single::exact::lemma_field_of(n as nat, 149);
    crate::single::rounding::lemma_nearest_exact(f);
    let s = crate::single::rounding::nearest((n * q) as nat, 1);
    crate::single::laws::lemma_packed(false, s);
    crate::single::laws::lemma_packed(true, s);
    crate::single::signs::lemma_negated(Single::of_int(n));
}

/// What the sticks and the throttle ask of the mixer: thrust, roll, pitch and yaw.
spec fn asked(p: ManualParams, rc: RcInput, est: VehicleState, by: int) -> Single {
    if by == 0 {
        super::attitude::throttle(rc.throttle)
    } else if by == 1 {
        rate_answer(p, rc.roll, est.omega[0].0, 8)
    } else if by == 2 {
        rate_answer(p, rc.pitch, est.omega[1].0, 8)
    } else {
        rate_answer(p, rc.yaw, est.omega[2].0, 8)
    }
}

/// The throttle or a stick: roll, pitch or yaw.
pub open spec fn stick_of(rc: RcInput, by: int) -> Single {
    if by == 0 {
        rc.throttle
    } else if by == 1 {
        rc.roll
    } else if by == 2 {
        rc.pitch
    } else {
        rc.yaw
    }
}

/// In manual flight more throttle speeds up all motors. More of one stick speeds up the
/// motors that turn its way and slows down the others; a faster rotation about this axis
/// works against it.
pub proof fn law_motors_follow_sticks(
    p: ManualParams,
    rc: RcInput,
    other: RcInput,
    est: VehicleState,
    now: VehicleState,
    by: int,
    motor: int,
    up: bool,
)
    requires
        sound(p),
        0 <= by < 4,
        0 <= motor < 4,
        forall|j: int| 0 <= j < 4 ==> crate::single::laws::within(#[trigger] stick_of(rc, j), 20),
        forall|j: int|
            0 <= j < 4 ==> crate::single::laws::within(#[trigger] stick_of(other, j), 20),
        forall|j: int| 0 <= j < 3 ==> crate::single::laws::within((#[trigger] est.omega[j]).0, 20),
        forall|j: int| 0 <= j < 3 ==> crate::single::laws::within((#[trigger] now.omega[j]).0, 20),
        forall|j: int|
            0 <= j < 4 && j != by ==> #[trigger] stick_of(rc, j) == stick_of(other, j),
        forall|j: int| 0 <= j < 3 && j != by - 1 ==> #[trigger] est.omega[j] == now.omega[j],
        crate::single::signs::ahead(up, stick_of(rc, by), stick_of(other, by)),
        by > 0 ==> crate::single::signs::ahead(!up, est.omega[by - 1].0, now.omega[by - 1].0),
    ensures
        crate::single::signs::ahead(
            if super::attitude::sped_up(by, motor) {
                up
            } else {
                !up
            },
            manual_command(rc, est, p).motor[motor],
            manual_command(other, now, p).motor[motor],
        ),
{
    crate::single::arith::lemma_small_ints();
    let d = [asked(p, rc, est, 0), asked(p, rc, est, 1), asked(p, rc, est, 2), asked(
        p,
        rc,
        est,
        3,
    )];
    assert forall|j: int| 0 <= j < 4 implies {
        &&& crate::single::laws::within(#[trigger] asked(p, rc, est, j), 100)
        &&& crate::single::laws::within(asked(p, other, now, j), 100)
        &&& j == by ==> crate::single::signs::ahead(
            up,
            asked(p, rc, est, j),
            asked(p, other, now, j),
        )
        &&& j != by ==> asked(p, rc, est, j) == asked(p, other, now, j)
    } by {
        let a = stick_of(rc, j);
        let b = stick_of(other, j);
        assert(crate::single::laws::within(a, 20));
        assert(crate::single::laws::within(b, 20));
        if j == 0 {
            lemma_throttle_size(a);
            lemma_throttle_size(b);
            if by == 0 {
                crate::single::signs::law_clamp_order(
                    up,
                    a,
                    b,
                    Single::of_int(0),
                    Single::of_int(1),
                );
            }
        } else {
            let v = est.omega[j - 1].0;
            let w = now.omega[j - 1].0;
            law_stick_turns_its_way(p, a, a, v, v, 8, up, 0, 0);
            law_stick_turns_its_way(p, b, b, w, w, 8, up, 0, 0);
            if j == by {
                law_stick_turns_its_way(p, a, b, v, w, 8, up, 0, 0);
            }
        }
    }
    assert(crate::single::laws::within(d[0], 100) && crate::single::laws::within(d[1], 100)
        && crate::single::laws::within(d[2], 100) && crate::single::laws::within(d[3], 100)) by {
        assert(crate::single::laws::within(asked(p, rc, est, 0), 100));
        assert(crate::single::laws::within(asked(p, rc, est, 1), 100));
        assert(crate::single::laws::within(asked(p, rc, est, 2), 100));
        assert(crate::single::laws::within(asked(p, rc, est, 3), 100));
    }
    assert(d[by] == asked(p, rc, est, by));
    super::attitude::law_motors_answer_demand(d, by, d[by], asked(p, other, now, by), motor, up);
    assert(by != 0 ==> asked(p, rc, est, 0) == asked(p, other, now, 0));
    assert(by != 1 ==> asked(p, rc, est, 1) == asked(p, other, now, 1));
    assert(by != 2 ==> asked(p, rc, est, 2) == asked(p, other, now, 2));
    assert(by != 3 ==> asked(p, rc, est, 3) == asked(p, other, now, 3));
}

proof fn lemma_throttle_size(x: Single)
    requires
        crate::single::laws::within(x, 20),
    ensures
        crate::single::laws::within(super::attitude::throttle(x), 100),
{
    crate::single::arith::lemma_small_ints();
    vstd::arithmetic::power2::lemma2_to64();
    crate::single::laws::law_integer_within(0, 0);
    crate::single::laws::law_integer_within(1, 0);
    crate::single::signs::law_within_more(Single::of_int(0), 0, 100);
    crate::single::signs::law_within_more(Single::of_int(1), 0, 100);
    crate::single::signs::law_within_more(x, 20, 100);
}

/// The sticks tilt the vehicle their way: each angle points as its stick does, by a share of
/// it at least, and full stick gives the largest tilt. The two sticks can be exchanged.
pub proof fn law_stick_tilts_its_way(p: ManualParams, rc: RcInput, up: bool, a: nat, b: nat)
    requires
        sound(p),
        crate::single::laws::within(rc.roll, 20),
        crate::single::laws::within(rc.pitch, 20),
        a + b <= 149,
    ensures
        ({
            let t = tilt_of_sticks(rc, p);
            let s = tilt_of_sticks(RcInput { roll: rc.pitch, pitch: rc.roll, ..rc }, p);
            &&& crate::single::signs::toward(up, rc.roll) ==> crate::single::signs::toward(
                up,
                t.roll,
            )
            &&& crate::single::signs::toward(up, rc.pitch) ==> crate::single::signs::toward(
                up,
                t.pitch,
            )
            &&& crate::single::signs::beyond(up, rc.roll, a) && crate::single::signs::beyond(
                true,
                p.max_tilt,
                b,
            ) ==> crate::single::signs::beyond(up, t.roll, a + b)
            &&& crate::single::signs::beyond(up, rc.pitch, a) && crate::single::signs::beyond(
                true,
                p.max_tilt,
                b,
            ) ==> crate::single::signs::beyond(up, t.pitch, a + b)
            &&& rc.roll.same(Single::of_int(1)) ==> t.roll.same(p.max_tilt)
            &&& s.roll == t.pitch && s.pitch == t.roll && s.size == t.size
        }),
{
    let one = Single::of_int(1);
    crate::single::laws::lemma_within_is_finite(rc.roll, 20);
    crate::single::laws::lemma_within_is_finite(rc.pitch, 20);
    crate::single::laws::lemma_within_is_finite(p.max_tilt, 20);
    if crate::single::signs::toward(up, rc.roll) {
        crate::single::signs::law_product_points(up, rc.roll, p.max_tilt);
    }
    if crate::single::signs::toward(up, rc.pitch) {
        crate::single::signs::law_product_points(up, rc.pitch, p.max_tilt);
    }
    if crate::single::signs::beyond(true, p.max_tilt, b) {
        if crate::single::signs::beyond(up, rc.roll, a) {
            crate::single::signs::law_product_beyond(up, rc.roll, p.max_tilt, a, b);
        }
        if crate::single::signs::beyond(up, rc.pitch, a) {
            crate::single::signs::law_product_beyond(up, rc.pitch, p.max_tilt, a, b);
        }
    }
    if rc.roll.same(one) {
        crate::single::laws::law_one_is_neutral(p.max_tilt);
        crate::single::laws::lemma_one_magnitude();
        vstd::arithmetic::power2::lemma2_to64();
        crate::single::laws::law_integer_within(1, 0);
        crate::single::signs::law_product_order(true, rc.roll, one, p.max_tilt);
        crate::single::signs::law_product_order(true, one, rc.roll, p.max_tilt);
    }
    let x = p.max_tilt * rc.roll;
    let y = p.max_tilt * rc.pitch;
    crate::single::laws::law_sum_commutes(x * x, y * y);
}

/// In stabilized flight more throttle never slows a motor down, and a faster climb never
/// speeds one up.
pub proof fn law_throttle_climbs(
    p: ManualParams,
    rc: RcInput,
    throttle: Single,
    est: VehicleState,
    sinking: VehicleState,
    q_des: Quaternion,
    cos_tilt: Single,
    motor: int,
    up: bool,
)
    requires
        sound(p),
        0 <= motor < 4,
        crate::single::laws::within(rc.throttle, 10),
        crate::single::laws::within(throttle, 10),
        crate::single::laws::within(rc.yaw, 20),
        crate::single::laws::within(est.omega[2].0, 20),
        crate::single::laws::within(est.vel[2].0, 20),
        crate::single::laws::within(sinking.vel[2].0, 20),
        cos_tilt.finite(),
        sinking.omega == est.omega,
        sinking.att == est.att,
        crate::single::signs::ahead(up, rc.throttle, throttle),
        crate::single::signs::ahead(up, est.vel[2].0, sinking.vel[2].0),
        ({
            let att = super::attitude::attitude_answer(
                est.att,
                q_des,
                p.att_kp,
                p.att_kd,
                [est.omega[0].0, est.omega[1].0, est.omega[2].0],
            );
            crate::single::laws::within(att.rates[0], 100) && crate::single::laws::within(
                att.rates[1],
                100,
            )
        }),
    ensures
        crate::single::signs::ahead(
            up,
            stabilize_command(rc, est, p, q_des, cos_tilt).motor[motor],
            stabilize_command(
                RcInput { throttle, ..rc },
                sinking,
                p,
                q_des,
                cos_tilt,
            ).motor[motor],
        ),
{
    let half = Single::of_ratio(5, 10);
    let two = Single::of_int(2);
    let att = super::attitude::attitude_answer(
        est.att,
        q_des,
        p.att_kp,
        p.att_kd,
        [est.omega[0].0, est.omega[1].0, est.omega[2].0],
    );
    vstd::arithmetic::power2::lemma2_to64();
    crate::single::arith::lemma_small_ints();
    crate::single::laws::law_ratio_is_positive(5, 10);
    crate::single::laws::law_integer_within(2, 1);
    crate::single::exact::law_integer_worth(2);
    crate::single::exact::law_integer_worth(0);
    crate::single::exact::law_worth_order(Single::of_int(0), two, 0, 2, 0);
    crate::single::signs::law_within_more(half, 0, 10);
    let x = rc.throttle - half;
    let y = throttle - half;
    crate::single::signs::law_difference_order(up, rc.throttle, throttle, half);
    crate::single::signs::law_difference_within(rc.throttle, half, 10);
    crate::single::signs::law_difference_within(throttle, half, 10);
    crate::single::signs::law_negated_order(up, x, y);
    crate::single::signs::lemma_negated(x);
    crate::single::signs::lemma_negated(y);
    crate::single::laws::lemma_within_is_finite(p.vz_scale, 10);
    let (nx, ny) = (x.negated(), y.negated());
    crate::single::signs::law_product_order(!up, nx, ny, two);
    crate::single::laws::law_product_within(nx, two, 11, 1);
    crate::single::laws::law_product_within(ny, two, 11, 1);
    crate::single::signs::law_product_order(!up, nx * two, ny * two, p.vz_scale);
    crate::single::laws::law_product_within(nx * two, p.vz_scale, 12, 10);
    crate::single::laws::law_product_within(ny * two, p.vz_scale, 12, 10);
    let (cx, cy) = (nx * two * p.vz_scale, ny * two * p.vz_scale);
    let (vx, vy) = (est.vel[2].0, sinking.vel[2].0);
    crate::single::signs::law_within_more(vx, 20, 22);
    crate::single::signs::law_within_more(vy, 20, 22);
    crate::single::laws::lemma_within_is_finite(vx, 20);
    crate::single::laws::lemma_within_is_finite(vy, 20);
    crate::single::laws::lemma_within_is_finite(p.kv_z, 20);
    crate::single::signs::law_difference_within(cx, vx, 22);
    crate::single::signs::law_difference_within(cy, vy, 22);
    crate::single::signs::law_difference_within(cy, vx, 22);
    crate::single::signs::law_difference_order(!up, cx, cy, vx);
    crate::single::signs::law_difference_order(up, vx, vy, cy);
    crate::single::signs::law_product_order(!up, cx - vx, cy - vx, p.kv_z);
    crate::single::signs::law_product_order(!up, cy - vx, cy - vy, p.kv_z);
    crate::single::laws::law_product_within(p.kv_z, cx - vx, 20, 23);
    crate::single::laws::law_product_within(p.kv_z, cy - vy, 20, 23);
    let (ax, ay) = (p.kv_z * (cx - vx), p.kv_z * (cy - vy));
    crate::single::signs::law_within_more(ax, 43, 60);
    crate::single::signs::law_within_more(ay, 43, 60);
    let size = tilt_of_sticks(rc, p).size;
    super::attitude::law_climbing_needs_thrust(
        p.hover_thrust,
        ax,
        ay,
        p.gravity,
        size,
        cos_tilt,
        !up,
    );
    let (tx, ty) = (
        super::attitude::tilted_thrust(p.hover_thrust, ax, p.gravity, size, cos_tilt),
        super::attitude::tilted_thrust(p.hover_thrust, ay, p.gravity, size, cos_tilt),
    );
    lemma_thrust_size(p.hover_thrust, ax, p.gravity, size, cos_tilt);
    lemma_thrust_size(p.hover_thrust, ay, p.gravity, size, cos_tilt);
    law_stick_turns_its_way(
        p,
        rc.yaw,
        rc.yaw,
        est.omega[2].0,
        est.omega[2].0,
        6,
        up,
        0,
        0,
    );
    let d = [tx, att.rates[0], att.rates[1], rate_answer(p, rc.yaw, est.omega[2].0, 6)];
    super::attitude::law_motors_answer_demand(d, 0, tx, ty, motor, up);
}

proof fn lemma_thrust_size(hover: Single, acc: Single, g: Single, tilt: Single, cos: Single)
    requires
        !super::attitude::tilted_thrust(hover, acc, g, tilt, cos).nan(),
    ensures
        crate::single::laws::within(
            super::attitude::tilted_thrust(hover, acc, g, tilt, cos),
            100,
        ),
{
    let t = super::attitude::tilted_thrust(hover, acc, g, tilt, cos);
    vstd::arithmetic::power2::lemma2_to64();
    crate::single::laws::law_ratio_is_positive(1, 10);
    crate::single::laws::law_integer_within(1, 0);
    super::attitude::law_thrust_bounded(hover, acc, g, tilt, cos);
    assert(crate::single::laws::within(t, 0));
    crate::single::signs::law_within_more(t, 0, 100);
}

} // verus!
