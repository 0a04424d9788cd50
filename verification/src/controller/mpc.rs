//! Model predictive control: each axis is a double integrator, and the accelerations
//! of the next steps are improved by projected gradient descent within their limit. The
//! first of them is flown.

use super::lqr::AngleGains;
use super::trait_def::Setpoint;
use crate::config::CtrlParams;
use crate::single::Single;
use crate::units::Second;
use crate::vehicle::{ActuatorCmd, Euler, VehicleState};
use vstd::prelude::*;

verus! {

/// The most steps that an axis looks ahead.
pub const MAX_STEPS: usize = 32;

/// What one axis weighs, and its accelerations of the next steps.
#[derive(Debug, Clone, Copy)]
pub struct AxisMpc2 {
    pub n: usize,
    pub q_pos: Single,
    pub q_vel: Single,
    pub r: Single,
    pub umax: Single,
    pub u: [Single; 32],
}

/// The task of an axis: where it is, where it is to be, and the time step.
pub struct AxisTask {
    pub x0: Single,
    pub v0: Single,
    pub xr: Single,
    pub vr: Single,
    pub dt: Single,
}

/// Half of the squared time step.
pub open spec fn half_square(dt: Single) -> Single {
    Single::of_ratio(5, 10) * dt * dt
}

/// Position and speed after the first `k` accelerations.
pub open spec fn predicted(t: AxisTask, u: Seq<Single>, k: nat) -> (Single, Single)
    decreases k,
{
    if k == 0 {
        (t.x0, t.v0)
    } else {
        let (x, v) = predicted(t, u, (k - 1) as nat);
        (x + t.dt * v + half_square(t.dt) * u[k - 1], v + t.dt * u[k - 1])
    }
}

impl AxisMpc2 {
    /// How the cost of step `k` and of all later ones grows with the position and the
    /// speed before step `k`; nothing follows step `n`.
    pub open spec fn sensitivity(self, t: AxisTask, u: Seq<Single>, k: nat) -> (Single, Single)
        decreases self.n - k,
    {
        if k >= self.n {
            (Single::of_int(0), Single::of_int(0))
        } else {
            let (lx, lv) = self.sensitivity(t, u, k + 1);
            let (x, v) = predicted(t, u, k);
            (self.q_pos * (x - t.xr) + lx, self.q_vel * (v - t.vr) + lv + t.dt * lx)
        }
    }

    /// How the cost grows with acceleration `k`.
    pub open spec fn slope(self, t: AxisTask, u: Seq<Single>, k: nat) -> Single {
        let (lx, lv) = self.sensitivity(t, u, k + 1);
        self.r * u[k as int] + half_square(t.dt) * lx + t.dt * lv
    }

    /// An acceleration held within the limit.
    pub open spec fn held(self, a: Single) -> Single {
        a.clamped(self.umax.negated(), self.umax)
    }

    /// The accelerations after one step of descent.
    pub open spec fn improved(self, t: AxisTask, u: Seq<Single>) -> Seq<Single> {
        Seq::new(
            u.len(),
            |k: int|
                if k < self.n {
                    self.held(u[k] - Single::of_ratio(5, 10) * self.slope(t, u, k as nat))
                } else {
                    u[k]
                },
        )
    }

    /// The accelerations after `iters` steps of descent.
    pub open spec fn descended(self, t: AxisTask, u: Seq<Single>, iters: nat) -> Seq<Single>
        decreases iters,
    {
        if iters == 0 {
            u
        } else {
            self.improved(t, self.descended(t, u, (iters - 1) as nat))
        }
    }

    /// The accelerations that the descent starts from: all the same.
    pub open spec fn guessed(self, t: AxisTask) -> Seq<Single> {
        let a = self.held(
            Single::of_ratio(4, 10) * (t.xr - t.x0) + Single::of_ratio(8, 10) * (t.vr - t.v0),
        );
        Seq::new(
            MAX_STEPS as nat,
            |k: int|
                if k < self.n {
                    a
                } else {
                    self.u[k]
                },
        )
    }

    pub open spec fn weighing(
        n: usize,
        q_pos: Single,
        q_vel: Single,
        r: Single,
        umax: Single,
        a: AxisMpc2,
    ) -> bool {
        &&& a.n == n
        &&& a.q_pos == q_pos
        &&& a.q_vel == q_vel
        &&& a.r == r
        &&& a.umax == umax
        &&& a.u@ == Seq::new(MAX_STEPS as nat, |k: int| Single::of_int(0))
    }

    pub fn new(n: usize, q_pos: Single, q_vel: Single, r: Single, umax: Single) -> (a: AxisMpc2)
        ensures
            AxisMpc2::weighing(n, q_pos, q_vel, r, umax, a),
    {
        let z: Single = Single::from_i32(0);
        let a = AxisMpc2 { n, q_pos, q_vel, r, umax, u: [z; 32] };
        assert(a.u@ =~= Seq::new(MAX_STEPS as nat, |k: int| Single::of_int(0)));
        a
    }

    fn hold(&self, a: Single) -> (r: Single)
        ensures
            r == self.held(a),
    {
        a.clamp(self.umax.negate(), self.umax)
    }

    /// One step of descent.
    fn improve(&mut self, x0: Single, v0: Single, xr: Single, vr: Single, dt: Single)
        requires
            old(self).n <= MAX_STEPS,
        ensures
            final(self).u@ == old(self).improved(AxisTask { x0, v0, xr, vr, dt }, old(self).u@),
            *final(self) == (AxisMpc2 { u: final(self).u, ..*old(self) }),
    {
        let ghost t = AxisTask { x0, v0, xr, vr, dt };
        let ghost before = *self;
        let ghost u0 = self.u@;
        let n: usize = self.n;
        let alpha: Single = Single::ratio(5, 10);
        let hs: Single = Single::ratio(5, 10) * dt * dt;
        let zero: Single = Single::from_i32(0);
        let mut sx: [Single; 33] = [zero; 33];
        let mut sv: [Single; 33] = [zero; 33];
        sx[0] = x0;
        sv[0] = v0;
        let mut k: usize = 0;
        while k < n
            invariant
                k <= n <= MAX_STEPS,
                t == (AxisTask { x0, v0, xr, vr, dt }),
                hs == half_square(dt),
                u0 == self.u@,
                forall|j: int|
                    0 <= j <= k ==> predicted(t, u0, j as nat) == (#[trigger] sx[j], sv[j]),
            decreases n - k,
        {
            let x: Single = sx[k];
            let v: Single = sv[k];
            assert(predicted(t, u0, k as nat) == (sx[k as int], sv[k as int]));
            sx[k + 1] = x + dt * v + hs * self.u[k];
            sv[k + 1] = v + dt * self.u[k];
            k += 1;
        }
        let mut lx: Single = zero;
        let mut lv: Single = zero;
        let mut i: usize = n;
        while i > 0
            invariant
                i <= n <= MAX_STEPS,
                n == before.n,
                t == (AxisTask { x0, v0, xr, vr, dt }),
                hs == half_square(dt),
                alpha == Single::of_ratio(5, 10),
                *self == (AxisMpc2 { u: self.u, ..before }),
                u0 == before.u@,
                u0.len() == MAX_STEPS,
                (lx, lv) == before.sensitivity(t, u0, i as nat),
                forall|j: int|
                    0 <= j <= n ==> predicted(t, u0, j as nat) == (#[trigger] sx[j], sv[j]),
                self.u@ == Seq::new(
                    MAX_STEPS as nat,
                    |j: int|
                        if i <= j {
                            before.improved(t, u0)[j]
                        } else {
                            u0[j]
                        },
                ),
            decreases i,
        {
            let j: usize = i - 1;
            assert(predicted(t, u0, j as nat) == (sx[j as int], sv[j as int]));
            let gx: Single = self.q_pos * (sx[j] - xr) + lx;
            let gv: Single = self.q_vel * (sv[j] - vr) + lv + dt * lx;
            let gu: Single = self.r * self.u[j] + hs * lx + dt * lv;
            lx = gx;
            lv = gv;
            let a: Single = self.hold(self.u[j] - alpha * gu);
            self.u[j] = a;
            i = j;
            assert(self.u@ =~= Seq::new(
                MAX_STEPS as nat,
                |j: int|
                    if i <= j {
                        before.improved(t, u0)[j]
                    } else {
                        u0[j]
                    },
            ));
        }
        assert(self.u@ =~= before.improved(t, u0));
    }

    /// Improves the accelerations of the next steps `iters` times and returns the first.
    pub fn solve(
        &mut self,
        x0: Single,
        v0: Single,
        xr: Single,
        vr: Single,
        dt: Single,
        iters: usize,
    ) -> (a: Single)
        requires
            old(self).n <= MAX_STEPS,
        ensures
            ({
                let t = AxisTask { x0, v0, xr, vr, dt };
                final(self).u@ == old(self).descended(t, old(self).guessed(t), iters as nat)
            }),
            *final(self) == (AxisMpc2 { u: final(self).u, ..*old(self) }),
            a == final(self).u[0],
    {
        let ghost t = AxisTask { x0, v0, xr, vr, dt };
        let ghost before = *self;
        let n: usize = self.n;
        let guess: Single = self.hold(
            Single::ratio(4, 10) * (xr - x0) + Single::ratio(8, 10) * (vr - v0),
        );
        let mut k: usize = 0;
        while k < n
            invariant
                k <= n <= MAX_STEPS,
                *self == (AxisMpc2 { u: self.u, ..before }),
                self.u@ == Seq::new(
                    MAX_STEPS as nat,
                    |j: int|
                        if j < k {
                            guess
                        } else {
                            before.u[j]
                        },
                ),
            decreases n - k,
        {
            self.u[k] = guess;
            k += 1;
            assert(self.u@ =~= Seq::new(
                MAX_STEPS as nat,
                |j: int|
                    if j < k {
                        guess
                    } else {
                        before.u[j]
                    },
            ));
        }
        assert(self.u@ =~= before.guessed(t));
        let mut i: usize = 0;
        while i < iters
            invariant
                i <= iters,
                t == (AxisTask { x0, v0, xr, vr, dt }),
                before.n <= MAX_STEPS,
                *self == (AxisMpc2 { u: self.u, ..before }),
                self.u@ == before.descended(t, before.guessed(t), i as nat),
            decreases iters - i,
        {
            let ghost u1 = self.u@;
            let ghost mid = *self;
            self.improve(x0, v0, xr, vr, dt);
            proof {
                lemma_same_weights(mid, before, t, u1);
            }
            i += 1;
        }
        self.u[0]
    }
}

/// The descent depends on the weights alone, not on the accelerations stored beside
/// them.
proof fn lemma_same_weights(a: AxisMpc2, b: AxisMpc2, t: AxisTask, u: Seq<Single>)
    requires
        a == (AxisMpc2 { u: a.u, ..b }),
    ensures
        a.improved(t, u) == b.improved(t, u),
{
    assert forall|k: nat| #[trigger] a.sensitivity(t, u, k) == b.sensitivity(t, u, k) by {
        lemma_same_sensitivity(a, b, t, u, k);
    }
    assert(a.improved(t, u) =~= b.improved(t, u));
}

proof fn lemma_same_sensitivity(a: AxisMpc2, b: AxisMpc2, t: AxisTask, u: Seq<Single>, k: nat)
    requires
        a == (AxisMpc2 { u: a.u, ..b }),
    ensures
        a.sensitivity(t, u, k) == b.sensitivity(t, u, k),
    decreases a.n - k,
{
    if k < a.n {
        lemma_same_sensitivity(a, b, t, u, k + 1);
    }
}

/// No acceleration goes beyond the limit, whatever the task and however often it is
/// improved, as long as it is a number.
pub proof fn law_acceleration_bounded(a: AxisMpc2, t: AxisTask, iters: nat, k: int)
    requires
        0 <= k < a.n <= MAX_STEPS,
        a.umax.negated().less_eq(a.umax),
        !a.descended(t, a.guessed(t), iters)[k].nan(),
    ensures
        a.umax.negated().less_eq(a.descended(t, a.guessed(t), iters)[k]),
        a.descended(t, a.guessed(t), iters)[k].less_eq(a.umax),
{
    let low = a.umax.negated();
    lemma_descended_len(a, t, iters);
    if iters == 0 {
        let x = Single::of_ratio(4, 10) * (t.xr - t.x0) + Single::of_ratio(8, 10) * (t.vr - t.v0);
        if !x.nan() {
            crate::single::number::law_clamp_bounds(x, low, a.umax);
        }
    } else {
        let u = a.descended(t, a.guessed(t), (iters - 1) as nat);
        lemma_descended_len(a, t, (iters - 1) as nat);
        let x = u[k] - Single::of_ratio(5, 10) * a.slope(t, u, k as nat);
        if !x.nan() {
            crate::single::number::law_clamp_bounds(x, low, a.umax);
        }
    }
}

proof fn lemma_descended_len(a: AxisMpc2, t: AxisTask, iters: nat)
    ensures
        a.descended(t, a.guessed(t), iters).len() == MAX_STEPS,
    decreases iters,
{
    if iters > 0 {
        lemma_descended_len(a, t, (iters - 1) as nat);
    }
}

#[derive(Debug, Clone, Copy)]
pub struct MpcController {
    pub gains: AngleGains,
    pub mx: AxisMpc2,
    pub my: AxisMpc2,
    pub mz: AxisMpc2,
    pub iters: usize,
}

/// How many steps the controller looks ahead.
pub const HORIZON: usize = 12;

/// How often it improves the accelerations.
pub const ITERATIONS: usize = 6;

/// An axis with the usual weights and the limit `umax`.
pub open spec fn usual_axis(a: AxisMpc2, umax: Single) -> bool {
    AxisMpc2::weighing(
        HORIZON,
        Single::of_int(1),
        Single::of_ratio(6, 10),
        Single::of_ratio(5, 100),
        umax,
        a,
    )
}

fn make_axis(umax: Single) -> (a: AxisMpc2)
    ensures
        usual_axis(a, umax),
{
    AxisMpc2::new(
        HORIZON,
        Single::from_i32(1),
        Single::ratio(6, 10),
        Single::ratio(5, 100),
        umax,
    )
}

impl MpcController {
    /// Whether no axis looks further ahead than there is room for.
    pub open spec fn wf(self) -> bool {
        self.mx.n <= MAX_STEPS && self.my.n <= MAX_STEPS && self.mz.n <= MAX_STEPS
    }

    /// The limit over the ground is what the tilt can give, the vertical one is
    /// gravity.
    pub fn new() -> (r: MpcController)
        ensures
            r.wf(),
            r.gains == AngleGains::quad(),
            usual_axis(r.mx, Single::of_ratio(981, 100) * Single::of_ratio(35, 100)),
            usual_axis(r.my, Single::of_ratio(981, 100) * Single::of_ratio(35, 100)),
            usual_axis(r.mz, Single::of_ratio(981, 100)),
            r.iters == ITERATIONS,
    {
        let g: Single = Single::ratio(981, 100);
        let tilt: Single = Single::ratio(35, 100);
        MpcController {
            gains: AngleGains::default_quad(),
            mx: make_axis(g * tilt),
            my: make_axis(g * tilt),
            mz: make_axis(g),
            iters: ITERATIONS,
        }
    }

    /// For an X quadrotor of 450 millimetres.
    pub fn default_quad() -> (r: MpcController)
        ensures
            r.wf(),
            r.gains == AngleGains::quad(),
            usual_axis(r.mx, Single::of_ratio(981, 100) * Single::of_ratio(35, 100)),
            usual_axis(r.my, Single::of_ratio(981, 100) * Single::of_ratio(35, 100)),
            usual_axis(r.mz, Single::of_ratio(981, 100)),
            r.iters == ITERATIONS,
    {
        MpcController::new()
    }

    /// For an aircraft.
    pub fn from_config(c: &CtrlParams) -> (r: MpcController)
        ensures
            r.wf(),
            r.gains == (AngleGains {
                g: c.gravity,
                tilt_max: c.tilt_max,
                hover_thrust: c.hover_thrust,
                ..AngleGains::quad()
            }),
            usual_axis(r.mx, c.gravity * c.tilt_max),
            usual_axis(r.my, c.gravity * c.tilt_max),
            usual_axis(r.mz, c.gravity),
            r.iters == ITERATIONS,
    {
        let mut s: MpcController = MpcController::new();
        s.gains.g = c.gravity;
        s.gains.tilt_max = c.tilt_max;
        s.gains.hover_thrust = c.hover_thrust;
        let umax_h: Single = c.gravity * c.tilt_max;
        s.mx = make_axis(umax_h);
        s.my = make_axis(umax_h);
        s.mz = make_axis(c.gravity);
        s
    }

    /// The task of axis `i`.
    pub open spec fn task(sp: Setpoint, est: VehicleState, dt: Single, i: int) -> AxisTask {
        AxisTask {
            x0: est.pos[i].0,
            v0: est.vel[i].0,
            xr: sp.pos[i].0,
            vr: sp.vel[i].0,
            dt,
        }
    }

    /// The acceleration of an axis.
    pub open spec fn solved(self, a: AxisMpc2, t: AxisTask) -> Seq<Single> {
        a.descended(t, a.guessed(t), self.iters as nat)
    }

    /// The motor command, where `have` are the angles of the estimated attitude.
    pub fn control(
        &mut self,
        dt: Second,
        sp: &Setpoint,
        est: &VehicleState,
        have: &Euler,
    ) -> (r: ActuatorCmd)
        requires
            old(self).wf(),
        ensures
            final(self).wf(),
            ({
                let c = *old(self);
                let ux = c.solved(c.mx, MpcController::task(*sp, *est, dt.0, 0));
                let uy = c.solved(c.my, MpcController::task(*sp, *est, dt.0, 1));
                let uz = c.solved(c.mz, MpcController::task(*sp, *est, dt.0, 2));
                &&& r == c.gains.command(ux[0], uy[0], uz[0], sp.yaw.0, *est, *have)
                &&& final(self).mx.u@ == ux
                &&& final(self).my.u@ == uy
                &&& final(self).mz.u@ == uz
                &&& *final(self) == (MpcController {
                    mx: AxisMpc2 { u: final(self).mx.u, ..c.mx },
                    my: AxisMpc2 { u: final(self).my.u, ..c.my },
                    mz: AxisMpc2 { u: final(self).mz.u, ..c.mz },
                    ..c
                })
            }),
    {
        let dt: Single = dt.0;
        let ax: Single = self.mx.solve(
            est.pos[0].0,
            est.vel[0].0,
            sp.pos[0].0,
            sp.vel[0].0,
            dt,
            self.iters,
        );
        let ay: Single = self.my.solve(
            est.pos[1].0,
            est.vel[1].0,
            sp.pos[1].0,
            sp.vel[1].0,
            dt,
            self.iters,
        );
        let az: Single = self.mz.solve(
            est.pos[2].0,
            est.vel[2].0,
            sp.pos[2].0,
            sp.vel[2].0,
            dt,
            self.iters,
        );
        self.gains.drive(ax, ay, az, sp.yaw.0, est, have)
    }

    /// There is nothing to forget.
    pub fn reset(&mut self)
        ensures
            *final(self) == *old(self),
    {
    }
}

} // verus!
