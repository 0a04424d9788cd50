//! Incremental dynamic inversion: on top of the command of another control law, the
//! error between wanted and measured angular acceleration is fed back, so that errors
//! of the model matter less.

use crate::single::Single;
use crate::units::Second;
use crate::vehicle::{ActuatorCmd, VehicleState};
use vstd::prelude::*;

verus! {

/// The body rates that a motor command asks for; it undoes the mixer.
pub open spec fn rates_of(m: [Single; 4]) -> [Single; 3] {
    let half = Single::of_ratio(5, 10);
    [
        (m[0] - m[1] - m[2] + m[3]) * half,
        (m[0] - m[1] + m[2] - m[3]) * half,
        (m[0] + m[1] - m[2] - m[3]) * half,
    ]
}

/// The body rates that a motor command asks for.
pub fn motors_to_rates(m: &[Single; 4]) -> (r: [Single; 3])
    ensures
        r == rates_of(*m),
{
    let half: Single = Single::ratio(5, 10);
    [
        (m[0] - m[1] - m[2] + m[3]) * half,
        (m[0] - m[1] + m[2] - m[3]) * half,
        (m[0] + m[1] - m[2] - m[3]) * half,
    ]
}

/// What a change of the body rates changes in the motor command.
pub open spec fn motors_of(d: [Single; 3]) -> [Single; 4] {
    let half = Single::of_ratio(5, 10);
    [
        half * (d[0] + d[1] + d[2]),
        half * (d[0].negated() - d[1] + d[2]),
        half * (d[0].negated() + d[1] - d[2]),
        half * (d[0] - d[1] - d[2]),
    ]
}

/// What a change of the body rates changes in the motor command.
pub fn rates_to_motor_inc(d: [Single; 3]) -> (r: [Single; 4])
    ensures
        r == motors_of(d),
{
    let half: Single = Single::ratio(5, 10);
    [
        half * (d[0] + d[1] + d[2]),
        half * (d[0].negate() - d[1] + d[2]),
        half * (d[0].negate() + d[1] - d[2]),
        half * (d[0] - d[1] - d[2]),
    ]
}

#[derive(Debug, Clone, Copy)]
pub struct IndiController {
    /// How strongly the motors act on each axis.
    pub ctrl_eff: [Single; 3],
    /// The gain from acceleration error to rate.
    pub k_inv: [Single; 3],
    pub dt: Single,
    pub prev_cmd_rate: [Single; 3],
    pub prev_omega: [Single; 3],
    pub initialized: bool,
    /// From zero, which changes nothing, to one.
    pub gain_scale: Single,
}

/// The gain of an axis, at most two hundred.
pub open spec fn inverse_gain(eff: Single, dt: Single) -> Single {
    (Single::of_int(1) / (eff * dt)).clamped(Single::of_int(0), Single::of_int(200))
}

fn gain_of(eff: Single, dt: Single) -> (r: Single)
    ensures
        r == inverse_gain(eff, dt),
{
    (Single::from_i32(1) / (eff * dt)).clamp(Single::from_i32(0), Single::from_i32(200))
}

/// How strongly the motors act on an axis with this inertia.
pub open spec fn effect_of(inertia: Single) -> Single {
    Single::of_int(1) / inertia.larger(Single::of_ratio(1, 1000))
}

fn effect(inertia: Single) -> (r: Single)
    ensures
        r == effect_of(inertia),
{
    Single::from_i32(1) / inertia.max(Single::ratio(1, 1000))
}

impl IndiController {
    pub open spec fn fresh(ctrl_eff: [Single; 3], gain_scale: Single) -> IndiController {
        let z = Single::of_int(0);
        IndiController {
            ctrl_eff,
            k_inv: [z, z, z],
            dt: Single::of_ratio(1, 100),
            prev_cmd_rate: [z, z, z],
            prev_omega: [z, z, z],
            initialized: false,
            gain_scale: gain_scale.clamped(Single::of_int(0), Single::of_int(1)),
        }
    }

    pub fn new(ctrl_eff: [Single; 3], gain_scale: Single) -> (r: IndiController)
        ensures
            r == IndiController::fresh(ctrl_eff, gain_scale),
    {
        let z: Single = Single::from_i32(0);
        IndiController {
            ctrl_eff,
            k_inv: [z, z, z],
            dt: Single::ratio(1, 100),
            prev_cmd_rate: [z, z, z],
            prev_omega: [z, z, z],
            initialized: false,
            gain_scale: gain_scale.clamp(Single::from_i32(0), Single::from_i32(1)),
        }
    }

    /// With the effect of the motors estimated from the inertia.
    pub fn with_inertia(inertia: [Single; 3], dt: Single, gain_scale: Single) -> (r: IndiController)
        ensures
            ({
                let eff = [effect_of(inertia[0]), effect_of(inertia[1]), effect_of(inertia[2])];
                r == (IndiController {
                    dt,
                    k_inv: [
                        inverse_gain(eff[0], dt),
                        inverse_gain(eff[1], dt),
                        inverse_gain(eff[2], dt),
                    ],
                    ..IndiController::fresh(eff, gain_scale)
                })
            }),
    {
        let eff: [Single; 3] = [effect(inertia[0]), effect(inertia[1]), effect(inertia[2])];
        let mut s: IndiController = IndiController::new(eff, gain_scale);
        s.dt = dt;
        s.k_inv = [gain_of(eff[0], dt), gain_of(eff[1], dt), gain_of(eff[2], dt)];
        s
    }

    /// The change of the rate of axis `i`: the gain times the error between the wanted
    /// and the measured angular acceleration.
    pub open spec fn rate_change(
        self,
        cmd: [Single; 3],
        omega: [Single; 3],
        dt: Single,
        i: int,
    ) -> Single {
        let wanted = (cmd[i] - self.prev_cmd_rate[i]) / dt;
        let measured = (omega[i] - self.prev_omega[i]) / dt;
        self.k_inv[i] * (wanted - measured) * self.gain_scale
    }

    fn change_rate(&self, cmd: &[Single; 3], omega: &[Single; 3], dt: Single, i: usize) -> (r:
        Single)
        requires
            i < 3,
        ensures
            r == self.rate_change(*cmd, *omega, dt, i as int),
    {
        let wanted: Single = (cmd[i] - self.prev_cmd_rate[i]) / dt;
        let measured: Single = (omega[i] - self.prev_omega[i]) / dt;
        self.k_inv[i] * (wanted - measured) * self.gain_scale
    }

    /// The controller and the command after a step. The first step has no past to
    /// compare with and leaves the command as it is.
    pub open spec fn stepped(self, dt: Single, base: ActuatorCmd, est: VehicleState) -> (
        IndiController,
        ActuatorCmd,
    ) {
        let cmd = rates_of(base.motor);
        let omega = [est.omega[0].0, est.omega[1].0, est.omega[2].0];
        if !self.initialized {
            (
                IndiController {
                    initialized: true,
                    prev_cmd_rate: cmd,
                    prev_omega: omega,
                    dt,
                    k_inv: [
                        inverse_gain(self.ctrl_eff[0], dt),
                        inverse_gain(self.ctrl_eff[1], dt),
                        inverse_gain(self.ctrl_eff[2], dt),
                    ],
                    ..self
                },
                base,
            )
        } else {
            let inc = motors_of(
                [
                    self.rate_change(cmd, omega, dt, 0),
                    self.rate_change(cmd, omega, dt, 1),
                    self.rate_change(cmd, omega, dt, 2),
                ],
            );
            (
                IndiController { prev_cmd_rate: cmd, prev_omega: omega, ..self },
                super::attitude::limited(
                    [
                        base.motor[0] + inc[0],
                        base.motor[1] + inc[1],
                        base.motor[2] + inc[2],
                        base.motor[3] + inc[3],
                    ],
                ),
            )
        }
    }

    /// Corrects the command `base` of another control law.
    pub fn control(&mut self, dt: Second, base: ActuatorCmd, est: &VehicleState) -> (r: ActuatorCmd)
        ensures
            (*final(self), r) == old(self).stepped(dt.0, base, *est),
    {
        let dt: Single = dt.0;
        let cmd_rate: [Single; 3] = motors_to_rates(&base.motor);
        let omega: [Single; 3] = [est.omega[0].0, est.omega[1].0, est.omega[2].0];
        if !self.initialized {
            self.initialized = true;
            self.prev_cmd_rate = cmd_rate;
            self.prev_omega = omega;
            self.dt = dt;
            self.k_inv = [
                gain_of(self.ctrl_eff[0], dt),
                gain_of(self.ctrl_eff[1], dt),
                gain_of(self.ctrl_eff[2], dt),
            ];
            return base;
        }
        let dpqr: [Single; 3] = [
            self.change_rate(&cmd_rate, &omega, dt, 0),
            self.change_rate(&cmd_rate, &omega, dt, 1),
            self.change_rate(&cmd_rate, &omega, dt, 2),
        ];
        let inc: [Single; 4] = rates_to_motor_inc(dpqr);
        self.prev_cmd_rate = cmd_rate;
        self.prev_omega = omega;
        super::attitude::limit(
            [
                base.motor[0] + inc[0],
                base.motor[1] + inc[1],
                base.motor[2] + inc[2],
                base.motor[3] + inc[3],
            ],
        )
    }

    /// Forgets the past.
    pub fn reset(&mut self)
        ensures
            *final(self) == (IndiController {
                initialized: false,
                prev_cmd_rate: [Single::of_int(0), Single::of_int(0), Single::of_int(0)],
                prev_omega: [Single::of_int(0), Single::of_int(0), Single::of_int(0)],
                ..*old(self)
            }),
    {
        let z: Single = Single::from_i32(0);
        self.initialized = false;
        self.prev_cmd_rate = [z, z, z];
        self.prev_omega = [z, z, z];
    }
}

/// A command within bounds stays within bounds, as long as the correction is numbers.
pub proof fn law_corrected_command_bounded(
    c: IndiController,
    dt: Single,
    base: ActuatorCmd,
    est: VehicleState,
)
    requires
        super::attitude::bounded(base),
        forall|i: int| 0 <= i < 4 ==> !(#[trigger] c.stepped(dt, base, est).1.motor[i]).nan(),
    ensures
        super::attitude::bounded(c.stepped(dt, base, est).1),
{
    if c.initialized {
        let cmd = rates_of(base.motor);
        let omega = [est.omega[0].0, est.omega[1].0, est.omega[2].0];
        let inc = motors_of(
            [
                c.rate_change(cmd, omega, dt, 0),
                c.rate_change(cmd, omega, dt, 1),
                c.rate_change(cmd, omega, dt, 2),
            ],
        );
        let m = [
            base.motor[0] + inc[0],
            base.motor[1] + inc[1],
            base.motor[2] + inc[2],
            base.motor[3] + inc[3],
        ];
        let out = c.stepped(dt, base, est).1;
        assert(out == super::attitude::limited(m));
        assert(!out.motor[0].nan() && !out.motor[1].nan() && !out.motor[2].nan()
            && !out.motor[3].nan());
        super::attitude::law_limited_is_bounded(m);
    }
}

/// The rates that a mixed command asks for are those that were mixed, whatever the thrust;
/// here for all values that leave no rounding.
pub proof fn law_mixer_is_undone(
    thrust: Single,
    d: [Single; 3],
    t: int,
    n: [int; 3],
    k: nat,
    i: int,
)
    requires
        0 <= i < 3,
        k <= 100,
        crate::single::exact::worth(thrust, t, k),
        forall|j: int| 0 <= j < 3 ==> crate::single::exact::worth(#[trigger] d[j], n[j], k),
        crate::vehicle::small(t, 0x10_0000),
        forall|j: int| 0 <= j < 3 ==> crate::vehicle::small(#[trigger] n[j], 0x10_0000),
    ensures
        rates_of(super::attitude::mixed(thrust, d[0], d[1], d[2]))[i].same(d[i]),
{
    let half = Single::of_ratio(5, 10);
    let (p, q, r) = (d[0], d[1], d[2]);
    let (a, b, c) = (n[0], n[1], n[2]);
    let m = super::attitude::mixed(thrust, p, q, r);
    let minus = p.negated();
    assert(crate::vehicle::small(a, 0x10_0000) && crate::vehicle::small(b, 0x10_0000)
        && crate::vehicle::small(c, 0x10_0000));
    assert(crate::single::exact::worth(d[i], n[i], k));
    crate::single::exact::law_half_worth();
    crate::single::exact::law_worth_negated(p, a, k);
    crate::single::exact::law_worth_sum(p, q, a, b, k);
    crate::single::exact::law_worth_sum(p + q, r, a + b, c, k);
    crate::single::exact::law_worth_difference(minus, q, -a, b, k);
    crate::single::exact::law_worth_sum(minus - q, r, -a - b, c, k);
    crate::single::exact::law_worth_sum(minus, q, -a, b, k);
    crate::single::exact::law_worth_difference(minus + q, r, -a + b, c, k);
    crate::single::exact::law_worth_difference(p, q, a, b, k);
    crate::single::exact::law_worth_difference(p - q, r, a - b, c, k);
    crate::single::exact::law_worth_finer(thrust, t, k);
    let k1 = k + 1;
    let (e0, e1, e2, e3) = (a + b + c, -a - b + c, -a + b - c, a - b - c);
    crate::single::exact::law_worth_product(half, p + q + r, 1, e0, 1, k);
    crate::single::exact::law_worth_product(half, minus - q + r, 1, e1, 1, k);
    crate::single::exact::law_worth_product(half, minus + q - r, 1, e2, 1, k);
    crate::single::exact::law_worth_product(half, p - q - r, 1, e3, 1, k);
    crate::single::exact::law_worth_sum(thrust, half * (p + q + r), 2 * t, e0, k1);
    crate::single::exact::law_worth_sum(thrust, half * (minus - q + r), 2 * t, e1, k1);
    crate::single::exact::law_worth_sum(thrust, half * (minus + q - r), 2 * t, e2, k1);
    crate::single::exact::law_worth_sum(thrust, half * (p - q - r), 2 * t, e3, k1);
    let (m0, m1, m2, m3) = (2 * t + e0, 2 * t + e1, 2 * t + e2, 2 * t + e3);
    crate::single::exact::law_worth_difference(m[0], m[1], m0, m1, k1);
    crate::single::exact::law_worth_sum(m[0], m[1], m0, m1, k1);
    crate::single::exact::law_worth_difference(m[0] - m[1], m[2], m0 - m1, m2, k1);
    crate::single::exact::law_worth_sum(m[0] - m[1], m[2], m0 - m1, m2, k1);
    crate::single::exact::law_worth_difference(m[0] + m[1], m[2], m0 + m1, m2, k1);
    crate::single::exact::law_worth_sum(m[0] - m[1] - m[2], m[3], m0 - m1 - m2, m3, k1);
    crate::single::exact::law_worth_difference(m[0] - m[1] + m[2], m[3], m0 - m1 + m2, m3, k1);
    crate::single::exact::law_worth_difference(m[0] + m[1] - m[2], m[3], m0 + m1 - m2, m3, k1);
    crate::single::exact::law_worth_product(m[0] - m[1] - m[2] + m[3], half, 4 * a, 1, k1, 1);
    crate::single::exact::law_worth_product(m[0] - m[1] + m[2] - m[3], half, 4 * b, 1, k1, 1);
    crate::single::exact::law_worth_product(m[0] + m[1] - m[2] - m[3], half, 4 * c, 1, k1, 1);
    crate::single::exact::law_worth_finer(d[i], n[i], k);
    crate::single::exact::law_worth_finer(d[i], 2 * n[i], k1);
    crate::single::exact::law_worth_order(rates_of(m)[i], d[i], 4 * n[i], 4 * n[i], k + 2);
}

/// A change of the rates changes each motor by what the mixer would give for it on top of the
/// thrust.
pub proof fn law_change_is_mixed(thrust: Single, d: [Single; 3], i: int)
    requires
        0 <= i < 4,
    ensures
        super::attitude::mixed(thrust, d[0], d[1], d[2])[i] == thrust + motors_of(d)[i],
{
}

/// Where the vehicle turns up slower than it was told to, the rate about this axis is
/// increased, by a share of the missing acceleration at least; where it turns up just as it
/// was told to, the rate stays.
pub proof fn law_missing_turn_is_added(
    s: IndiController,
    cmd: [Single; 3],
    omega: [Single; 3],
    dt: Single,
    i: int,
    up: bool,
    a: nat,
    b: nat,
    c: nat,
)
    requires
        0 <= i < 3,
        crate::single::laws::within(cmd[i], 30),
        crate::single::laws::within(s.prev_cmd_rate[i], 30),
        crate::single::laws::within(omega[i], 30),
        crate::single::laws::within(s.prev_omega[i], 30),
        crate::single::laws::within(s.k_inv[i], 20) && crate::single::signs::toward(
            true,
            s.k_inv[i],
        ),
        crate::single::laws::within(s.gain_scale, 20) && crate::single::signs::toward(
            true,
            s.gain_scale,
        ),
        crate::single::signs::beyond(true, dt, 20) && dt.finite() && crate::single::laws::within(
            dt,
            0,
        ),
        crate::single::signs::ahead(
            up,
            omega[i] - s.prev_omega[i],
            cmd[i] - s.prev_cmd_rate[i],
        ),
        a + b + c <= 149,
    ensures
        ({
            let r = s.rate_change(cmd, omega, dt, i);
            &&& crate::single::signs::toward(up, r)
            &&& (omega[i] - s.prev_omega[i]).same(cmd[i] - s.prev_cmd_rate[i]) ==> r.same(
                Single::of_int(0),
            )
            &&& (crate::single::signs::beyond(up, cmd[i] - s.prev_cmd_rate[i], a)
                && crate::single::signs::toward(!up, omega[i] - s.prev_omega[i])
                && crate::single::signs::beyond(true, s.k_inv[i], b)
                && crate::single::signs::beyond(true, s.gain_scale, c))
                ==> crate::single::signs::beyond(up, r, a + b + c)
            &&& (crate::single::signs::beyond(!up, omega[i] - s.prev_omega[i], a)
                && crate::single::signs::toward(up, cmd[i] - s.prev_cmd_rate[i])
                && crate::single::signs::beyond(true, s.k_inv[i], b)
                && crate::single::signs::beyond(true, s.gain_scale, c))
                ==> crate::single::signs::beyond(up, r, a + b + c)
        }),
{
    let x = cmd[i] - s.prev_cmd_rate[i];
    let y = omega[i] - s.prev_omega[i];
    let p = x / dt;
    let q = y / dt;
    let k = s.k_inv[i];
    let z = Single::of_int(0);
    crate::single::arith::lemma_small_ints();
    crate::single::signs::law_beyond_is_toward(true, dt, 20);
    crate::single::signs::law_difference_within(cmd[i], s.prev_cmd_rate[i], 30);
    crate::single::signs::law_difference_within(omega[i], s.prev_omega[i], 30);
    crate::single::signs::law_quotient_within(x, dt, 31, 20);
    crate::single::signs::law_quotient_within(y, dt, 31, 20);
    crate::single::signs::law_quotient_order(up, y, x, dt);
    crate::single::signs::law_within_more(p, 51, 60);
    crate::single::signs::law_within_more(q, 51, 60);
    crate::single::signs::law_feedback_points(up, k, p, q, a, b);
    crate::single::laws::lemma_within_is_finite(s.gain_scale, 20);
    let e = k * (p - q);
    crate::single::signs::law_product_points(up, e, s.gain_scale);
    if y.same(x) {
        crate::single::signs::law_quotient_order(!up, y, x, dt);
        crate::single::signs::law_feedback_points(!up, k, p, q, a, b);
        crate::single::signs::law_product_points(!up, e, s.gain_scale);
    }
    if crate::single::signs::beyond(true, k, b) && crate::single::signs::beyond(
        true,
        s.gain_scale,
        c,
    ) {
        crate::single::laws::lemma_within_is_finite(p, 60);
        crate::single::laws::lemma_within_is_finite(q, 60);
        if crate::single::signs::beyond(up, x, a) && crate::single::signs::toward(!up, y) {
            crate::single::signs::law_quotient_beyond(up, x, dt, a, 0);
            crate::single::signs::law_quotient_points(!up, y, dt);
            crate::single::signs::law_sum_moves(!up, p, q);
            crate::single::signs::law_ahead_of_beyond(up, p, p - q, a);
            crate::single::signs::law_product_beyond(up, e, s.gain_scale, a + b, c);
        }
        if crate::single::signs::beyond(!up, y, a) && crate::single::signs::toward(up, x) {
            crate::single::signs::law_quotient_beyond(!up, y, dt, a, 0);
            crate::single::signs::law_quotient_points(up, x, dt);
            crate::single::signs::lemma_negated(q);
            crate::single::signs::law_sum_beyond(up, q.negated(), p, a);
            crate::single::signs::law_product_beyond(up, e, s.gain_scale, a + b, c);
        }
    }
}

/// A heavier vehicle is moved less by its motors, and the gain of an axis is larger where the
/// motors act less, up to its limit.
pub proof fn law_heavier_needs_more(light: Single, heavy: Single, dt: Single)
    requires
        crate::single::laws::within(light, 10),
        crate::single::laws::within(heavy, 10),
        Single::of_ratio(1, 1000).less_eq(light),
        light.less_eq(heavy),
        crate::single::laws::within(dt, 0),
        crate::single::signs::beyond(true, dt, 20),
    ensures
        effect_of(heavy).less_eq(effect_of(light)),
        inverse_gain(effect_of(light), dt).less_eq(inverse_gain(effect_of(heavy), dt)),
{
    let one = Single::of_int(1);
    let z = Single::of_int(0);
    let most = Single::of_int(200);
    let tiny = Single::of_ratio(1, 1000);
    vstd::arithmetic::power2::lemma2_to64();
    crate::single::arith::lemma_small_ints();
    crate::single::laws::lemma_one_magnitude();
    crate::single::laws::law_integer_within(1, 0);
    crate::single::laws::law_ratio_is_positive(1, 1000);
    crate::single::laws::lemma_within_is_finite(light, 10);
    crate::single::laws::lemma_within_is_finite(heavy, 10);
    crate::single::laws::lemma_within_is_finite(dt, 0);
    crate::single::signs::law_beyond_is_toward(true, dt, 20);
    let p = vstd::arithmetic::power2::pow2(149);
    vstd::arithmetic::power2::lemma_pow2_adds(139, 10);
    crate::single::signs::lemma_nearest_beyond(1 * p, 1000, 10);
    reveal(Single::of_ratio);
    crate::single::laws::lemma_packed(false, crate::single::rounding::nearest(1 * p, 1000));
    vstd::arithmetic::power2::lemma_pow2_pos(139);
    assert(crate::single::signs::beyond(true, tiny, 10));
    crate::single::signs::law_ahead_of_beyond(true, tiny, light, 10);
    crate::single::signs::law_ahead_of_beyond(true, light, heavy, 10);
    crate::single::signs::law_beyond_is_toward(true, light, 10);
    crate::single::signs::law_beyond_is_toward(true, heavy, 10);
    assert(light.larger(tiny).same(light) && heavy.larger(tiny).same(heavy));
    let (a, b) = (light.larger(tiny), heavy.larger(tiny));
    crate::single::laws::lemma_same_is_finite(a, light);
    crate::single::laws::lemma_same_is_finite(b, heavy);
    crate::single::signs::law_divisor_order(true, one, a, b);
    let (x, y) = (effect_of(light), effect_of(heavy));
    assert(x == one / a && y == one / b);
    assert(crate::single::signs::beyond(true, one, 0));
    assert(crate::single::laws::within(a, 10) && crate::single::laws::within(b, 10)) by {
        assert(a.magnitude() == light.magnitude() && b.magnitude() == heavy.magnitude());
    }
    assert(crate::single::signs::beyond(true, a, 10) && crate::single::signs::beyond(true, b, 10));
    crate::single::signs::law_quotient_beyond(true, one, a, 0, 10);
    crate::single::signs::law_quotient_beyond(true, one, b, 0, 10);
    crate::single::signs::law_quotient_within(one, a, 0, 10);
    crate::single::signs::law_quotient_within(one, b, 0, 10);
    crate::single::signs::law_product_order(true, y, x, dt);
    crate::single::laws::law_product_within(x, dt, 10, 0);
    crate::single::laws::law_product_within(y, dt, 10, 0);
    crate::single::signs::law_product_beyond(true, y, dt, 10, 20);
    crate::single::signs::law_product_beyond(true, x, dt, 10, 20);
    crate::single::signs::law_beyond_is_toward(true, y * dt, 30);
    crate::single::signs::law_divisor_order(true, one, y * dt, x * dt);
    crate::single::exact::law_integer_worth(200);
    crate::single::exact::law_integer_worth(0);
    crate::single::exact::law_worth_order(z, most, 0, 200, 0);
    crate::single::signs::law_clamp_order(true, one / (x * dt), one / (y * dt), z, most);
}

/// Where nothing changes nothing is corrected: a step with the command and the rates of the
/// step before leaves a command that is within bounds as it is.
pub proof fn law_steady_needs_no_correction(
    c: IndiController,
    dt: Single,
    base: ActuatorCmd,
    est: VehicleState,
    motor: int,
)
    requires
        0 <= motor < 4,
        c.initialized,
        super::attitude::bounded(base),
        forall|j: int| 0 <= j < 3 ==> crate::single::laws::within((#[trigger] est.omega[j]).0, 30),
        forall|j: int| 0 <= j < 3 ==> crate::single::laws::within(#[trigger] c.k_inv[j], 20)
            && crate::single::signs::toward(true, c.k_inv[j]),
        crate::single::laws::within(c.gain_scale, 20) && crate::single::signs::toward(
            true,
            c.gain_scale,
        ),
        crate::single::signs::beyond(true, dt, 20) && dt.finite() && crate::single::laws::within(
            dt,
            0,
        ),
    ensures
        c.stepped(dt, base, est).0.stepped(dt, base, est).1.motor[motor].same(base.motor[motor]),
{
    let s = c.stepped(dt, base, est).0;
    let cmd = rates_of(base.motor);
    let omega = [est.omega[0].0, est.omega[1].0, est.omega[2].0];
    let z = Single::of_int(0);
    let one = Single::of_int(1);
    vstd::arithmetic::power2::lemma2_to64();
    crate::single::arith::lemma_small_ints();
    crate::single::laws::lemma_one_magnitude();
    lemma_rates_size(base);
    assert forall|i: int| 0 <= i < 3 implies (#[trigger] s.rate_change(cmd, omega, dt, i)).same(
        z,
    ) by {
        assert(crate::single::laws::within(est.omega[i].0, 30));
        assert(crate::single::laws::within(c.k_inv[i], 20));
        assert(s.prev_cmd_rate[i] == cmd[i] && s.prev_omega[i] == omega[i]);
        let x = cmd[i] - s.prev_cmd_rate[i];
        let y = omega[i] - s.prev_omega[i];
        crate::single::laws::lemma_within_is_finite(cmd[i], 30);
        crate::single::laws::lemma_within_is_finite(omega[i], 30);
        crate::single::signs::law_difference_points(true, cmd[i], cmd[i]);
        crate::single::signs::law_difference_points(false, cmd[i], cmd[i]);
        crate::single::signs::law_difference_points(true, omega[i], omega[i]);
        crate::single::signs::law_difference_points(false, omega[i], omega[i]);
        assert(x.same(z) && y.same(z));
        law_missing_turn_is_added(s, cmd, omega, dt, i, true, 0, 0, 0);
    }
    let d = [
        s.rate_change(cmd, omega, dt, 0),
        s.rate_change(cmd, omega, dt, 1),
        s.rate_change(cmd, omega, dt, 2),
    ];
    assert(s.rate_change(cmd, omega, dt, 0).same(z) && s.rate_change(cmd, omega, dt, 1).same(z)
        && s.rate_change(cmd, omega, dt, 2).same(z));
    lemma_no_change(d);
    let m = base.motor[motor];
    assert(z.less_eq(m) && m.less_eq(one));
    assert(crate::single::laws::within(m, 0));
    crate::single::laws::lemma_within_is_finite(m, 0);
    assert(motors_of(d)[motor].same(z));
    crate::single::laws::lemma_add_nothing(m, m, motors_of(d)[motor]);
}

/// No change of the rates changes no motor.
proof fn lemma_no_change(d: [Single; 3])
    requires
        d[0].same(Single::of_int(0)),
        d[1].same(Single::of_int(0)),
        d[2].same(Single::of_int(0)),
    ensures
        forall|m: int| 0 <= m < 4 ==> (#[trigger] motors_of(d)[m]).same(Single::of_int(0)),
{
    let z = Single::of_int(0);
    let half = Single::of_ratio(5, 10);
    let n = d[0].negated();
    crate::single::arith::lemma_small_ints();
    crate::single::laws::law_ratio_is_positive(5, 10);
    crate::single::signs::lemma_negated(d[0]);
    crate::single::laws::lemma_nothing_more(d[0], d[1]);
    crate::single::laws::lemma_nothing_more(n, d[1]);
    crate::single::laws::lemma_nothing_more(d[0] + d[1], d[2]);
    crate::single::laws::lemma_nothing_more(n - d[1], d[2]);
    crate::single::laws::lemma_nothing_more(n + d[1], d[2]);
    crate::single::laws::lemma_nothing_more(d[0] - d[1], d[2]);
    crate::single::laws::law_product_with_zero(half, d[0] + d[1] + d[2]);
    crate::single::laws::law_product_with_zero(half, n - d[1] + d[2]);
    crate::single::laws::law_product_with_zero(half, n + d[1] - d[2]);
    crate::single::laws::law_product_with_zero(half, d[0] - d[1] - d[2]);
}

/// The rates of a command within bounds are of ordinary size.
proof fn lemma_rates_size(base: ActuatorCmd)
    requires
        super::attitude::bounded(base),
    ensures
        forall|i: int|
            0 <= i < 3 ==> crate::single::laws::within(#[trigger] rates_of(base.motor)[i], 30),
{
    let m = base.motor;
    let half = Single::of_ratio(5, 10);
    let one = Single::of_int(1);
    vstd::arithmetic::power2::lemma2_to64();
    crate::single::arith::lemma_small_ints();
    crate::single::laws::lemma_one_magnitude();
    crate::single::laws::law_integer_within(1, 0);
    crate::single::laws::law_ratio_is_positive(5, 10);
    assert(Single::of_int(0).less_eq(m[0]) && m[0].less_eq(one));
    assert(Single::of_int(0).less_eq(m[1]) && m[1].less_eq(one));
    assert(Single::of_int(0).less_eq(m[2]) && m[2].less_eq(one));
    assert(Single::of_int(0).less_eq(m[3]) && m[3].less_eq(one));
    assert(crate::single::laws::within(m[0], 0) && crate::single::laws::within(m[1], 0)
        && crate::single::laws::within(m[2], 0) && crate::single::laws::within(m[3], 0));
    crate::single::signs::law_difference_within(m[0], m[1], 0);
    crate::single::laws::law_sum_within(m[0], m[1], 0);
    crate::single::signs::law_within_more(m[2], 0, 1);
    crate::single::signs::law_within_more(m[3], 0, 2);
    let (a, b) = (m[0] - m[1], m[0] + m[1]);
    crate::single::signs::law_difference_within(a, m[2], 1);
    crate::single::laws::law_sum_within(a, m[2], 1);
    crate::single::signs::law_difference_within(b, m[2], 1);
    crate::single::laws::law_sum_within(a - m[2], m[3], 2);
    crate::single::signs::law_difference_within(a + m[2], m[3], 2);
    crate::single::signs::law_difference_within(b - m[2], m[3], 2);
    crate::single::laws::law_product_within(a - m[2] + m[3], half, 3, 0);
    crate::single::laws::law_product_within(a + m[2] - m[3], half, 3, 0);
    crate::single::laws::law_product_within(b - m[2] - m[3], half, 3, 0);
    crate::single::signs::law_within_more(rates_of(m)[0], 3, 30);
    crate::single::signs::law_within_more(rates_of(m)[1], 3, 30);
    crate::single::signs::law_within_more(rates_of(m)[2], 3, 30);
}

} // verus!
