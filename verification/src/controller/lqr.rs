//! Full state feedback: position and speed errors to acceleration, angles and rates to
//! torques.

use super::attitude::{limit, x4_mix};
use super::trait_def::Setpoint;
use crate::single::Single;
use crate::vehicle::{ActuatorCmd, Euler, Quaternion, VehicleState};
use vstd::prelude::*;

verus! {

/// The two arguments of an arctangent: opposite and adjacent.
#[derive(Debug, Clone, Copy)]
pub struct AngleOf {
    pub y: Single,
    pub x: Single,
}

pub open spec fn rpy_arguments_of(q: Quaternion) -> [AngleOf; 3] {
    let one = Single::of_int(1);
    let two = Single::of_int(2);
    [
        AngleOf { y: two * (q.w * q.x + q.y * q.z), x: one - two * (q.x * q.x + q.y * q.y) },
        AngleOf { y: two * (q.w * q.y - q.x * q.z), x: one - two * (q.y * q.y + q.z * q.z) },
        AngleOf { y: two * (q.w * q.z + q.x * q.y), x: one - two * (q.z * q.z + q.x * q.x) },
    ]
}

/// What roll, pitch and yaw are the arctangents of.
pub fn rpy_arguments(q: &Quaternion) -> (r: [AngleOf; 3])
    ensures
        r == rpy_arguments_of(*q),
{
    let one: Single = Single::from_i32(1);
    let two: Single = Single::from_i32(2);
    [
        AngleOf { y: two * (q.w * q.x + q.y * q.z), x: one - two * (q.x * q.x + q.y * q.y) },
        AngleOf { y: two * (q.w * q.y - q.x * q.z), x: one - two * (q.y * q.y + q.z * q.z) },
        AngleOf { y: two * (q.w * q.z + q.x * q.y), x: one - two * (q.z * q.z + q.x * q.x) },
    ]
}

/// The gains from angles and rates to torques, and the limits of the tilt.
#[derive(Debug, Clone, Copy)]
pub struct AngleGains {
    pub g: Single,
    pub tilt_max: Single,
    pub hover_thrust: Single,
    pub k_phi: Single,
    pub k_theta: Single,
    pub k_psi: Single,
    pub k_p: Single,
    pub k_q: Single,
    pub k_r: Single,
}

impl AngleGains {
    pub open spec fn quad() -> AngleGains {
        AngleGains {
            g: Single::of_ratio(981, 100),
            tilt_max: Single::of_ratio(35, 100),
            hover_thrust: Single::of_ratio(5, 10),
            k_phi: Single::of_ratio(45, 10),
            k_theta: Single::of_ratio(45, 10),
            k_psi: Single::of_ratio(15, 10),
            k_p: Single::of_ratio(12, 10),
            k_q: Single::of_ratio(12, 10),
            k_r: Single::of_ratio(6, 10),
        }
    }

    /// For an X quadrotor of 450 millimetres.
    pub fn default_quad() -> (r: AngleGains)
        ensures
            r == AngleGains::quad(),
    {
        AngleGains {
            g: Single::ratio(981, 100),
            tilt_max: Single::ratio(35, 100),
            hover_thrust: Single::ratio(5, 10),
            k_phi: Single::ratio(45, 10),
            k_theta: Single::ratio(45, 10),
            k_psi: Single::ratio(15, 10),
            k_p: Single::ratio(12, 10),
            k_q: Single::ratio(12, 10),
            k_r: Single::ratio(6, 10),
        }
    }

    /// The motor command that accelerates by `ax`, `ay` and `az` and turns to `yaw`:
    /// roll accelerates to the east, negative pitch to the north, and what is to
    /// accelerate downwards needs less thrust.
    pub open spec fn command(
        self,
        ax: Single,
        ay: Single,
        az: Single,
        yaw: Single,
        est: VehicleState,
        have: Euler,
    ) -> ActuatorCmd {
        let thrust = (self.hover_thrust - az / self.g).clamped(
            Single::of_ratio(1, 10),
            Single::of_int(1),
        );
        let phi = (ay / self.g).clamped(self.tilt_max.negated(), self.tilt_max);
        let theta = (ax.negated() / self.g).clamped(self.tilt_max.negated(), self.tilt_max);
        super::attitude::limited(
            super::attitude::mixed(
                thrust,
                self.k_phi * (phi - have.roll.0) - self.k_p * est.omega[0].0,
                self.k_theta * (theta - have.pitch.0) - self.k_q * est.omega[1].0,
                self.k_psi * (yaw - have.yaw.0) - self.k_r * est.omega[2].0,
            ),
        )
    }

    pub fn drive(
        &self,
        ax: Single,
        ay: Single,
        az: Single,
        yaw: Single,
        est: &VehicleState,
        have: &Euler,
    ) -> (r: ActuatorCmd)
        ensures
            r == self.command(ax, ay, az, yaw, *est, *have),
    {
        let thrust: Single = (self.hover_thrust - az / self.g).clamp(
            Single::ratio(1, 10),
            Single::from_i32(1),
        );
        let phi: Single = (ay / self.g).clamp(self.tilt_max.negate(), self.tilt_max);
        let theta: Single = (ax.negate() / self.g).clamp(self.tilt_max.negate(), self.tilt_max);
        let p_cmd: Single = self.k_phi * (phi - have.roll.0) - self.k_p * est.omega[0].0;
        let q_cmd: Single = self.k_theta * (theta - have.pitch.0) - self.k_q * est.omega[1].0;
        let r_cmd: Single = self.k_psi * (yaw - have.yaw.0) - self.k_r * est.omega[2].0;
        limit(x4_mix(thrust, [p_cmd, q_cmd, r_cmd]))
    }
}

#[derive(Debug, Clone, Copy)]
pub struct LqrController {
    pub kp_pos: Single,
    pub kd_vel: Single,
    pub gains: AngleGains,
}

impl LqrController {
    pub open spec fn quad() -> LqrController {
        LqrController {
            kp_pos: Single::of_ratio(35, 100),
            kd_vel: Single::of_ratio(9, 10),
            gains: AngleGains::quad(),
        }
    }

    pub fn new() -> (r: LqrController)
        ensures
            r == LqrController::quad(),
    {
        LqrController {
            kp_pos: Single::ratio(35, 100),
            kd_vel: Single::ratio(9, 10),
            gains: AngleGains::default_quad(),
        }
    }

    /// For an X quadrotor of 450 millimetres.
    pub fn default_quad() -> (r: LqrController)
        ensures
            r == LqrController::quad(),
    {
        LqrController::new()
    }

    /// The acceleration wanted along axis `i`.
    pub open spec fn acceleration(self, sp: Setpoint, est: VehicleState, i: int) -> Single {
        self.kp_pos * (sp.pos[i].0 - est.pos[i].0) + self.kd_vel * (sp.vel[i].0 - est.vel[i].0)
    }

    fn accelerate(&self, sp: &Setpoint, est: &VehicleState, i: usize) -> (r: Single)
        requires
            i < 3,
        ensures
            r == self.acceleration(*sp, *est, i as int),
    {
        self.kp_pos * (sp.pos[i].0 - est.pos[i].0) + self.kd_vel * (sp.vel[i].0 - est.vel[i].0)
    }

    /// The motor command, where `have` are the angles of the estimated attitude.
    pub fn control(&mut self, sp: &Setpoint, est: &VehicleState, have: &Euler) -> (r: ActuatorCmd)
        ensures
            r == old(self).gains.command(
                old(self).acceleration(*sp, *est, 0),
                old(self).acceleration(*sp, *est, 1),
                old(self).acceleration(*sp, *est, 2),
                sp.yaw.0,
                *est,
                *have,
            ),
            *final(self) == *old(self),
    {
        let ax: Single = self.accelerate(sp, est, 0);
        let ay: Single = self.accelerate(sp, est, 1);
        let az: Single = self.accelerate(sp, est, 2);
        self.gains.drive(ax, ay, az, sp.yaw.0, est, have)
    }

    /// There is nothing to forget.
    pub fn reset(&mut self)
        ensures
            *final(self) == *old(self),
    {
    }
}

/// Behind the wanted position and below the wanted speed, seen in the direction `up`, the
/// vehicle is accelerated in this direction, by a share of either error at least.
pub proof fn law_accelerates_towards_target(
    c: LqrController,
    sp: Setpoint,
    est: VehicleState,
    i: int,
    up: bool,
    a: nat,
    b: nat,
)
    requires
        0 <= i < 3,
        crate::single::laws::within(c.kp_pos, 20) && crate::single::signs::toward(true, c.kp_pos),
        crate::single::laws::within(c.kd_vel, 20) && crate::single::signs::toward(true, c.kd_vel),
        crate::single::laws::within(sp.pos[i].0, 60),
        crate::single::laws::within(est.pos[i].0, 60),
        crate::single::laws::within(sp.vel[i].0, 60),
        crate::single::laws::within(est.vel[i].0, 60),
        crate::single::signs::ahead(up, est.pos[i].0, sp.pos[i].0),
        crate::single::signs::ahead(up, est.vel[i].0, sp.vel[i].0),
        a + b <= 149,
    ensures
        ({
            let r = c.acceleration(sp, est, i);
            &&& crate::single::signs::toward(up, r)
            &&& crate::single::signs::beyond(up, sp.pos[i].0 - est.pos[i].0, a)
                && crate::single::signs::beyond(true, c.kp_pos, b)
                ==> crate::single::signs::beyond(up, r, a + b)
            &&& crate::single::signs::beyond(up, sp.vel[i].0 - est.vel[i].0, a)
                && crate::single::signs::beyond(true, c.kd_vel, b)
                ==> crate::single::signs::beyond(up, r, a + b)
        }),
{
    let x = c.kp_pos * (sp.pos[i].0 - est.pos[i].0);
    let v = c.kd_vel * (sp.vel[i].0 - est.vel[i].0);
    crate::single::signs::law_feedback_points(up, c.kp_pos, sp.pos[i].0, est.pos[i].0, a, b);
    crate::single::signs::law_feedback_points(up, c.kd_vel, sp.vel[i].0, est.vel[i].0, a, b);
    crate::single::signs::law_sum_points(up, x, v);
    if crate::single::signs::beyond(up, x, a + b) {
        crate::single::signs::law_sum_beyond(up, x, v, a + b);
    }
    if crate::single::signs::beyond(up, v, a + b) {
        crate::single::signs::law_sum_beyond(up, v, x, a + b);
    }
}

/// The angle about body axis `i`: roll, pitch or yaw.
pub open spec fn angle_about(e: Euler, i: int) -> Single {
    if i == 0 {
        e.roll.0
    } else if i == 1 {
        e.pitch.0
    } else {
        e.yaw.0
    }
}

/// Whether the gains are not negative and of ordinary size, and gravity is not too small to
/// divide by.
pub open spec fn sound(g: AngleGains) -> bool {
    &&& crate::single::signs::beyond(true, g.g, 10) && g.g.finite()
    &&& crate::single::laws::within(g.tilt_max, 20) && crate::single::signs::toward(
        true,
        g.tilt_max,
    )
    &&& crate::single::laws::within(g.hover_thrust, 20)
    &&& crate::single::laws::within(g.k_phi, 20) && crate::single::signs::toward(true, g.k_phi)
    &&& crate::single::laws::within(g.k_theta, 20) && crate::single::signs::toward(true, g.k_theta)
    &&& crate::single::laws::within(g.k_psi, 20) && crate::single::signs::toward(true, g.k_psi)
    &&& crate::single::laws::within(g.k_p, 20) && crate::single::signs::toward(true, g.k_p)
    &&& crate::single::laws::within(g.k_q, 20) && crate::single::signs::toward(true, g.k_q)
    &&& crate::single::laws::within(g.k_r, 20) && crate::single::signs::toward(true, g.k_r)
}

/// Whether angles and rates are of ordinary size.
pub open spec fn calm(est: VehicleState, have: Euler) -> bool {
    forall|i: int|
        0 <= i < 3 ==> {
            &&& crate::single::laws::within((#[trigger] est.omega[i]).0, 60)
            &&& crate::single::laws::within(angle_about(have, i), 60)
        }
}

/// What the loops ask of the mixer for the accelerations down, east and north and the yaw:
/// thrust, roll, pitch and yaw.
spec fn asked(g: AngleGains, w: [Single; 4], est: VehicleState, have: Euler, by: int) -> Single {
    let limit = g.tilt_max;
    if by == 0 {
        (g.hover_thrust - w[0] / g.g).clamped(Single::of_ratio(1, 10), Single::of_int(1))
    } else if by == 1 {
        g.k_phi * ((w[1] / g.g).clamped(limit.negated(), limit) - have.roll.0) - g.k_p
            * est.omega[0].0
    } else if by == 2 {
        g.k_theta * ((w[2].negated() / g.g).clamped(limit.negated(), limit) - have.pitch.0)
            - g.k_q * est.omega[1].0
    } else {
        g.k_psi * (w[3] - have.yaw.0) - g.k_r * est.omega[2].0
    }
}

/// A gain times an error, damped, grows with what is wanted and shrinks with what there is.
proof fn lemma_damped_order(
    up: bool,
    k: Single,
    d: Single,
    want: Single,
    more: Single,
    have: Single,
    less: Single,
    fast: Single,
    slow: Single,
)
    requires
        crate::single::signs::ahead(up, want, more),
        crate::single::signs::ahead(!up, have, less),
        crate::single::signs::ahead(!up, fast, slow),
        crate::single::laws::within(want, 60),
        crate::single::laws::within(more, 60),
        crate::single::laws::within(have, 60),
        crate::single::laws::within(less, 60),
        crate::single::laws::within(fast, 60),
        crate::single::laws::within(slow, 60),
        crate::single::laws::within(k, 20),
        crate::single::signs::toward(true, k),
        crate::single::laws::within(d, 20),
        crate::single::signs::toward(true, d),
    ensures
        crate::single::signs::ahead(
            up,
            k * (want - have) - d * fast,
            k * (more - less) - d * slow,
        ),
        crate::single::laws::within(k * (want - have) - d * fast, 100),
        crate::single::laws::within(k * (more - less) - d * slow, 100),
{
    let x = k * (want - have);
    let y = k * (more - less);
    crate::single::signs::law_feedback_order(up, k, want, more, have, less);
    crate::single::laws::law_product_within(d, fast, 20, 60);
    crate::single::laws::law_product_within(d, slow, 20, 60);
    crate::single::laws::lemma_within_is_finite(fast, 60);
    crate::single::laws::lemma_within_is_finite(slow, 60);
    crate::single::laws::lemma_within_is_finite(d, 20);
    crate::single::laws::lemma_within_is_finite(x, 81);
    crate::single::laws::lemma_within_is_finite(y, 81);
    crate::single::signs::law_product_order(!up, fast, slow, d);
    crate::single::signs::law_difference_order(up, x, y, d * fast);
    crate::single::signs::law_difference_order(!up, d * fast, d * slow, y);
    crate::single::signs::law_within_more(d * fast, 80, 81);
    crate::single::signs::law_within_more(d * slow, 80, 81);
    crate::single::signs::law_difference_within(x, d * fast, 81);
    crate::single::signs::law_difference_within(y, d * slow, 81);
    crate::single::signs::law_within_more(x - d * fast, 82, 100);
    crate::single::signs::law_within_more(y - d * slow, 82, 100);
}

/// The tilt that gives an acceleration.
proof fn lemma_tilt_order(g: AngleGains, a: Single, b: Single, up: bool)
    requires
        sound(g),
        crate::single::signs::ahead(up, a, b),
        crate::single::laws::within(a, 60),
        crate::single::laws::within(b, 60),
    ensures
        ({
            let l = g.tilt_max;
            let x = (a / g.g).clamped(l.negated(), l);
            let y = (b / g.g).clamped(l.negated(), l);
            &&& crate::single::signs::ahead(up, x, y)
            &&& crate::single::laws::within(x, 60)
            &&& crate::single::laws::within(y, 60)
            &&& crate::single::laws::within(a / g.g, 80)
            &&& crate::single::laws::within(b / g.g, 80)
            &&& crate::single::signs::ahead(up, a / g.g, b / g.g)
        }),
{
    let l = g.tilt_max;
    crate::single::laws::lemma_within_is_finite(a, 60);
    crate::single::laws::lemma_within_is_finite(b, 60);
    crate::single::signs::law_beyond_is_toward(true, g.g, 10);
    crate::single::signs::law_quotient_order(up, a, b, g.g);
    crate::single::signs::law_quotient_within(a, g.g, 60, 10);
    crate::single::signs::law_quotient_within(b, g.g, 60, 10);
    crate::single::signs::law_clamp_within(a / g.g, l, 20);
    crate::single::signs::law_clamp_within(b / g.g, l, 20);
    crate::single::signs::law_clamp_points(true, l, l);
    crate::single::signs::law_clamp_order(up, a / g.g, b / g.g, l.negated(), l);
    crate::single::signs::law_within_more((a / g.g).clamped(l.negated(), l), 20, 60);
    crate::single::signs::law_within_more((b / g.g).clamped(l.negated(), l), 20, 60);
    crate::single::signs::law_within_more(a / g.g, 70, 80);
    crate::single::signs::law_within_more(b / g.g, 70, 80);
}

/// What each loop asks for is of ordinary size, and moves with what it is given.
proof fn lemma_asked_order(
    g: AngleGains,
    w: [Single; 4],
    v: [Single; 4],
    est: VehicleState,
    now: VehicleState,
    have: Euler,
    seen: Euler,
    by: int,
    up: bool,
)
    requires
        sound(g),
        calm(est, have),
        calm(now, seen),
        0 <= by < 4,
        crate::single::laws::within(w[by], 60),
        crate::single::laws::within(v[by], 60),
        crate::single::signs::ahead(
            if by == 0 || by == 2 {
                !up
            } else {
                up
            },
            w[by],
            v[by],
        ),
        by > 0 ==> crate::single::signs::ahead(
            !up,
            angle_about(have, by - 1),
            angle_about(seen, by - 1),
        ),
        by > 0 ==> crate::single::signs::ahead(!up, est.omega[by - 1].0, now.omega[by - 1].0),
    ensures
        crate::single::signs::ahead(up, asked(g, w, est, have, by), asked(g, v, now, seen, by)),
        crate::single::laws::within(asked(g, w, est, have, by), 100),
        crate::single::laws::within(asked(g, v, now, seen, by), 100),
{
    let l = g.tilt_max;
    let a = w[by];
    let b = v[by];
    if by == 0 {
        let tenth = Single::of_ratio(1, 10);
        let one = Single::of_int(1);
        vstd::arithmetic::power2::lemma2_to64();
        lemma_tilt_order(g, a, b, !up);
        crate::single::laws::lemma_within_is_finite(g.hover_thrust, 20);
        crate::single::signs::law_within_more(g.hover_thrust, 20, 80);
        let x = g.hover_thrust - a / g.g;
        let y = g.hover_thrust - b / g.g;
        crate::single::signs::law_difference_within(g.hover_thrust, a / g.g, 80);
        crate::single::signs::law_difference_within(g.hover_thrust, b / g.g, 80);
        crate::single::signs::law_difference_order(!up, a / g.g, b / g.g, g.hover_thrust);
        crate::single::laws::law_ratio_is_positive(1, 10);
        crate::single::laws::law_integer_within(1, 0);
        crate::single::laws::lemma_one_magnitude();
        crate::single::signs::law_clamp_order(up, x, y, tenth, one);
        crate::single::signs::law_within_more(tenth, 0, 100);
        crate::single::signs::law_within_more(one, 0, 100);
        crate::single::signs::law_within_more(x, 81, 100);
        crate::single::signs::law_within_more(y, 81, 100);
    } else {
        assert(crate::single::laws::within(est.omega[by - 1].0, 60));
        assert(crate::single::laws::within(now.omega[by - 1].0, 60));
        if by == 1 {
            lemma_tilt_order(g, a, b, up);
            lemma_damped_order(
                up,
                g.k_phi,
                g.k_p,
                (a / g.g).clamped(l.negated(), l),
                (b / g.g).clamped(l.negated(), l),
                have.roll.0,
                seen.roll.0,
                est.omega[0].0,
                now.omega[0].0,
            );
        } else if by == 2 {
            crate::single::signs::law_negated_order(!up, a, b);
            crate::single::signs::lemma_negated(a);
            crate::single::signs::lemma_negated(b);
            lemma_tilt_order(g, a.negated(), b.negated(), up);
            lemma_damped_order(
                up,
                g.k_theta,
                g.k_q,
                (a.negated() / g.g).clamped(l.negated(), l),
                (b.negated() / g.g).clamped(l.negated(), l),
                have.pitch.0,
                seen.pitch.0,
                est.omega[1].0,
                now.omega[1].0,
            );
        } else {
            lemma_damped_order(
                up,
                g.k_psi,
                g.k_r,
                a,
                b,
                have.yaw.0,
                seen.yaw.0,
                est.omega[2].0,
                now.omega[2].0,
            );
        }
    }
}

/// How the motors answer. A demand for more acceleration down slows all of them down; one for
/// more acceleration east, or for more yaw, speeds up the motors that roll right, or yaw
/// right, and slows down the others; one for more acceleration north speeds up those that
/// pitch down. A larger angle or rate about the same axis works against it. `w` holds the
/// accelerations down, east and north and the yaw.
pub proof fn law_motors_follow_acceleration(
    g: AngleGains,
    w: [Single; 4],
    v: [Single; 4],
    est: VehicleState,
    now: VehicleState,
    have: Euler,
    seen: Euler,
    by: int,
    motor: int,
    up: bool,
)
    requires
        sound(g),
        calm(est, have),
        calm(now, seen),
        0 <= by < 4,
        0 <= motor < 4,
        forall|j: int| 0 <= j < 4 ==> crate::single::laws::within(#[trigger] w[j], 60),
        crate::single::laws::within(v[by], 60),
        forall|j: int| 0 <= j < 4 && j != by ==> #[trigger] v[j] == w[j],
        forall|j: int|
            0 <= j < 3 && j != by - 1 ==> #[trigger] now.omega[j] == est.omega[j] && angle_about(
                seen,
                j,
            ) == angle_about(have, j),
        crate::single::signs::ahead(
            if by == 0 || by == 2 {
                !up
            } else {
                up
            },
            w[by],
            v[by],
        ),
        by > 0 ==> crate::single::signs::ahead(
            !up,
            angle_about(have, by - 1),
            angle_about(seen, by - 1),
        ),
        by > 0 ==> crate::single::signs::ahead(!up, est.omega[by - 1].0, now.omega[by - 1].0),
    ensures
        crate::single::signs::ahead(
            if super::attitude::sped_up(by, motor) {
                up
            } else {
                !up
            },
            g.command(w[2], w[1], w[0], w[3], est, have).motor[motor],
            g.command(v[2], v[1], v[0], v[3], now, seen).motor[motor],
        ),
{
    let d = [
        asked(g, w, est, have, 0),
        asked(g, w, est, have, 1),
        asked(g, w, est, have, 2),
        asked(g, w, est, have, 3),
    ];
    assert(forall|j: int|
        0 <= j < 4 && j != by ==> #[trigger] asked(g, v, now, seen, j) == asked(
            g,
            w,
            est,
            have,
            j,
        )) by {
        assert(v[0] == w[0] || by == 0);
        assert(v[1] == w[1] || by == 1);
        assert(v[2] == w[2] || by == 2);
        assert(v[3] == w[3] || by == 3);
        assert(now.omega[0] == est.omega[0] || by == 1);
        assert(now.omega[1] == est.omega[1] || by == 2);
        assert(now.omega[2] == est.omega[2] || by == 3);
    }
    assert forall|j: int| 0 <= j < 4 implies crate::single::laws::within(#[trigger] d[j], 100) by {
        assert(crate::single::laws::within(w[j], 60));
        if j > 0 {
            assert(crate::single::laws::within(est.omega[j - 1].0, 60));
        }
        lemma_asked_order(g, w, w, est, est, have, have, j, true);
    }
    lemma_asked_order(g, w, v, est, now, have, seen, by, up);
    let more = asked(g, v, now, seen, by);
    assert(crate::single::laws::within(d[0], 100) && crate::single::laws::within(d[1], 100)
        && crate::single::laws::within(d[2], 100) && crate::single::laws::within(d[3], 100));
    super::attitude::law_motors_answer_demand(d, by, d[by], more, motor, up);
    assert(asked(g, v, now, seen, 0) == (if by == 0 {
        more
    } else {
        d[0]
    }));
    assert(asked(g, v, now, seen, 1) == (if by == 1 {
        more
    } else {
        d[1]
    }));
    assert(asked(g, v, now, seen, 2) == (if by == 2 {
        more
    } else {
        d[2]
    }));
    assert(asked(g, v, now, seen, 3) == (if by == 3 {
        more
    } else {
        d[3]
    }));
}

/// Roll, pitch and yaw are read off the turned axes of the body: the sine side of roll is how
/// far the axis to the right points down, that of pitch how far the axis forwards points up,
/// and that of yaw how far it points east; here for all integers that leave no rounding.
pub proof fn law_angles_are_of_axes(q: Quaternion, w: int, x: int, y: int, z: int)
    requires
        crate::vehicle::whole(q, w, x, y, z),
        crate::vehicle::small(w, 64) && crate::vehicle::small(x, 64),
        crate::vehicle::small(y, 64) && crate::vehicle::small(z, 64),
    ensures
        ({
            let a = rpy_arguments_of(q);
            let forward = q.rotated(crate::estimator::nominal::basis(0));
            let right = q.rotated(crate::estimator::nominal::basis(1));
            let down = q.rotated(crate::estimator::nominal::basis(2));
            &&& a[0].y.same(right[2])
            &&& a[1].y.same(forward[2].negated())
            &&& a[2].y.same(forward[1])
            &&& a[0].x.same(down[2])
            &&& a[1].x.same(forward[0])
            &&& a[2].x.same(right[1])
        }),
{
    let a = rpy_arguments_of(q);
    let e0 = crate::estimator::nominal::basis(0);
    let e1 = crate::estimator::nominal::basis(1);
    let e2 = crate::estimator::nominal::basis(2);
    crate::single::exact::law_integer_worth(0);
    crate::single::exact::law_integer_worth(1);
    assert(e0[0] == Single::of_int(1) && e0[1] == Single::of_int(0) && e0[2] == Single::of_int(0));
    assert(e1[0] == Single::of_int(0) && e1[1] == Single::of_int(1) && e1[2] == Single::of_int(0));
    assert(e2[0] == Single::of_int(0) && e2[1] == Single::of_int(0) && e2[2] == Single::of_int(1));
    crate::rotation_laws::lemma_rotated_whole(q, e0, w, x, y, z, 1, 0, 0);
    crate::rotation_laws::lemma_rotated_whole(q, e1, w, x, y, z, 0, 1, 0);
    crate::rotation_laws::lemma_rotated_whole(q, e2, w, x, y, z, 0, 0, 1);
    lemma_sine_side(q.w, q.x, q.y, q.z, w, x, y, z, true);
    lemma_sine_side(q.w, q.y, q.x, q.z, w, y, x, z, false);
    lemma_sine_side(q.w, q.z, q.x, q.y, w, z, x, y, true);
    lemma_cosine_side(q.x, q.y, x, y);
    lemma_cosine_side(q.y, q.z, y, z);
    lemma_cosine_side(q.z, q.x, z, x);
    lemma_zeros(w, x, y, z);
    let forward = q.rotated(e0);
    let right = q.rotated(e1);
    let down = q.rotated(e2);
    let r2 = 2 * (w * x + y * z);
    let f2 = -(2 * (w * y - x * z));
    let f1 = 2 * (w * z + x * y);
    let d2 = 1 - 2 * (x * x + y * y);
    let f0 = 1 - 2 * (y * y + z * z);
    let r1 = 1 - 2 * (z * z + x * x);
    assert(crate::single::exact::worth(right[2], r2, 0));
    assert(crate::single::exact::worth(forward[2], f2, 0));
    assert(crate::single::exact::worth(forward[1], f1, 0));
    assert(crate::single::exact::worth(down[2], d2, 0));
    assert(crate::single::exact::worth(forward[0], f0, 0));
    assert(crate::single::exact::worth(right[1], r1, 0));
    crate::single::exact::law_worth_negated(forward[2], f2, 0);
    crate::single::exact::law_worth_order(a[0].y, right[2], r2, r2, 0);
    crate::single::exact::law_worth_order(a[1].y, forward[2].negated(), -f2, -f2, 0);
    crate::single::exact::law_worth_order(a[2].y, forward[1], f1, f1, 0);
    crate::single::exact::law_worth_order(a[0].x, down[2], d2, d2, 0);
    crate::single::exact::law_worth_order(a[1].x, forward[0], f0, f0, 0);
    crate::single::exact::law_worth_order(a[2].x, right[1], r1, r1, 0);
}

/// What the products of a rotation of a unit vector come to.
proof fn lemma_zeros(w: int, x: int, y: int, z: int)
    ensures
        0 + w * (2 * (x * 1 - y * 0)) + (x * (2 * (z * 0 - x * 0)) - y * (2 * (y * 0 - z * 1)))
            == 2 * (w * x + y * z),
        0 + w * (2 * (x * 0 - y * 1)) + (x * (2 * (z * 1 - x * 0)) - y * (2 * (y * 0 - z * 0)))
            == -(2 * (w * y - x * z)),
        0 + w * (2 * (z * 1 - x * 0)) + (z * (2 * (y * 0 - z * 0)) - x * (2 * (x * 0 - y * 1)))
            == 2 * (w * z + x * y),
        1 + w * (2 * (x * 0 - y * 0)) + (x * (2 * (z * 0 - x * 1)) - y * (2 * (y * 1 - z * 0)))
            == 1 - 2 * (x * x + y * y),
        1 + w * (2 * (y * 0 - z * 0)) + (y * (2 * (x * 0 - y * 1)) - z * (2 * (z * 1 - x * 0)))
            == 1 - 2 * (y * y + z * z),
        1 + w * (2 * (z * 0 - x * 0)) + (z * (2 * (y * 0 - z * 1)) - x * (2 * (x * 1 - y * 0)))
            == 1 - 2 * (z * z + x * x),
{
    assert(x * 1 == x && y * 1 == y && z * 1 == z && x * 0 == 0 && y * 0 == 0 && z * 0 == 0);
    assert(w * (2 * x) == 2 * (w * x)) by (nonlinear_arith);
    assert(w * (2 * (0 - y)) == -(2 * (w * y))) by (nonlinear_arith);
    assert(w * (2 * z) == 2 * (w * z)) by (nonlinear_arith);
    assert(y * (2 * (0 - z)) == -(2 * (y * z))) by (nonlinear_arith);
    assert(x * (2 * z) == 2 * (x * z)) by (nonlinear_arith);
    assert(x * (2 * (0 - y)) == -(2 * (x * y))) by (nonlinear_arith);
    assert(x * (2 * (0 - x)) == -(2 * (x * x))) by (nonlinear_arith);
    assert(y * (2 * y) == 2 * (y * y)) by (nonlinear_arith);
    assert(y * (2 * (0 - y)) == -(2 * (y * y))) by (nonlinear_arith);
    assert(z * (2 * z) == 2 * (z * z)) by (nonlinear_arith);
    assert(z * (2 * (0 - z)) == -(2 * (z * z))) by (nonlinear_arith);
    assert(x * (2 * x) == 2 * (x * x)) by (nonlinear_arith);
    assert(w * 0 == 0);
}

proof fn lemma_sine_side(
    a: Single,
    b: Single,
    c: Single,
    d: Single,
    k: int,
    l: int,
    m: int,
    n: int,
    plus: bool,
)
    requires
        crate::single::exact::worth(a, k, 0) && crate::vehicle::small(k, 64),
        crate::single::exact::worth(b, l, 0) && crate::vehicle::small(l, 64),
        crate::single::exact::worth(c, m, 0) && crate::vehicle::small(m, 64),
        crate::single::exact::worth(d, n, 0) && crate::vehicle::small(n, 64),
    ensures
        plus ==> crate::single::exact::worth(
            Single::of_int(2) * (a * b + c * d),
            2 * (k * l + m * n),
            0,
        ),
        !plus ==> crate::single::exact::worth(
            Single::of_int(2) * (a * b - c * d),
            2 * (k * l - m * n),
            0,
        ),
{
    crate::single::exact::law_integer_worth(2);
    crate::rotation_laws::lemma_whole_product(a, b, k, l, 64, 64);
    crate::rotation_laws::lemma_whole_product(c, d, m, n, 64, 64);
    crate::single::exact::law_worth_sum(a * b, c * d, k * l, m * n, 0);
    crate::single::exact::law_worth_difference(a * b, c * d, k * l, m * n, 0);
    crate::single::exact::law_worth_product(
        Single::of_int(2),
        a * b + c * d,
        2,
        k * l + m * n,
        0,
        0,
    );
    crate::single::exact::law_worth_product(
        Single::of_int(2),
        a * b - c * d,
        2,
        k * l - m * n,
        0,
        0,
    );
}

proof fn lemma_cosine_side(a: Single, b: Single, k: int, l: int)
    requires
        crate::single::exact::worth(a, k, 0) && crate::vehicle::small(k, 64),
        crate::single::exact::worth(b, l, 0) && crate::vehicle::small(l, 64),
    ensures
        crate::single::exact::worth(
            Single::of_int(1) - Single::of_int(2) * (a * a + b * b),
            1 - 2 * (k * k + l * l),
            0,
        ),
{
    crate::vehicle::lemma_small_product(k, k, 64, 64);
    crate::vehicle::lemma_small_product(l, l, 64, 64);
    crate::single::exact::law_integer_worth(1);
    lemma_sine_side(a, a, b, b, k, k, l, l, true);
    crate::single::exact::law_worth_difference(
        Single::of_int(1),
        Single::of_int(2) * (a * a + b * b),
        1,
        2 * (k * k + l * l),
        0,
    );
}

} // verus!
