//! Comparing estimators and controllers in simulation: which are run, how a run is
//! judged, and what many runs amount to.

use crate::comm::mavlink::{decode, msg_id, Frame};
use crate::config::DynParams;
use crate::controller::trait_def::Setpoint;
use crate::single::Single;
use crate::vehicle::{ActuatorCmd, VehicleState};
use vstd::multiset::*;
use vstd::prelude::*;

verus! {

#[derive(Clone, Copy, Debug, PartialEq, Eq, Structural)]
pub enum EstKind {
    Complementary,
    Ekf,
}

#[derive(Clone, Copy, Debug, PartialEq, Eq, Structural)]
pub enum CtrlKind {
    Pid,
    Lqr,
    Mpc,
}

pub fn est_name(e: EstKind) -> (r: &'static str)
    ensures
        r@ == match e {
            EstKind::Complementary => "Complementary"@,
            EstKind::Ekf => "EKF"@,
        },
{
    match e {
        EstKind::Complementary => "Complementary",
        EstKind::Ekf => "EKF",
    }
}

pub fn ctrl_name(c: CtrlKind) -> (r: &'static str)
    ensures
        r@ == match c {
            CtrlKind::Pid => "PID"@,
            CtrlKind::Lqr => "LQR"@,
            CtrlKind::Mpc => "MPC"@,
        },
{
    match c {
        CtrlKind::Pid => "PID",
        CtrlKind::Lqr => "LQR",
        CtrlKind::Mpc => "MPC",
    }
}

/// Whether a time lies in the window without positions, which ends before its end.
pub open spec fn in_dropout(window: Option<(Single, Single)>, t: Single) -> bool {
    match window {
        Some((from, to)) => from.less_eq(t) && t.less(to),
        None => false,
    }
}

/// Whether positions are available at a time.
pub fn gps_available(window: &Option<(Single, Single)>, t: Single) -> (r: bool)
    ensures
        r == !in_dropout(*window, t),
{
    match window {
        Some((from, to)) => !(t >= *from && t < *to),
        None => true,
    }
}

/// How a run went.
#[derive(Clone, Copy, Debug, PartialEq)]
pub struct Metrics {
    pub pos_rms: Single,
    pub settle_time: Single,
    pub diverge: bool,
    pub final_alt: Single,
    pub final_att_w: Single,
    pub ctrl_effort: Single,
    pub max_err: Single,
}

/// How a run goes so far.
#[derive(Clone, Copy, Debug)]
pub struct RunTracker {
    pub seconds: Single,
    pub sum_sq: Single,
    pub settle: Single,
    pub settled: bool,
    pub diverge: bool,
    pub ctrl_eff: Single,
    pub final_att_w: Single,
    pub final_alt: Single,
    pub max_err: Single,
}

/// The distance between the estimated and the wanted position.
pub open spec fn track_error(sp: Setpoint, est: VehicleState) -> Single {
    let x = est.pos[0].0 - sp.pos[0].0;
    let y = est.pos[1].0 - sp.pos[1].0;
    let z = est.pos[2].0 - sp.pos[2].0;
    (x * x + y * y + z * z).root()
}

impl RunTracker {
    pub open spec fn started(seconds: Single) -> RunTracker {
        let z = Single::of_int(0);
        RunTracker {
            seconds,
            sum_sq: z,
            settle: seconds,
            settled: false,
            diverge: false,
            ctrl_eff: z,
            final_att_w: Single::of_int(1),
            final_alt: z,
            max_err: z,
        }
    }

    /// Before a run of the given length.
    pub fn new(seconds: Single) -> (r: RunTracker)
        ensures
            r == RunTracker::started(seconds),
    {
        let z: Single = Single::from_i32(0);
        RunTracker {
            seconds,
            sum_sq: z,
            settle: seconds,
            settled: false,
            diverge: false,
            ctrl_eff: z,
            final_att_w: Single::from_i32(1),
            final_alt: z,
            max_err: z,
        }
    }

    /// After one step at time `t`. A run settles when its error falls below half a metre
    /// while `may_settle`, and loses that when the error exceeds one metre. It diverges,
    /// for good, when the estimated attitude turns over or the error exceeds twenty
    /// metres.
    pub open spec fn next(
        self,
        t: Single,
        sp: Setpoint,
        est: VehicleState,
        truth: VehicleState,
        cmd: ActuatorCmd,
        may_settle: bool,
    ) -> RunTracker {
        let zero = Single::of_int(0);
        let e = track_error(sp, est);
        let settles = !self.settled && may_settle && e.less(Single::of_ratio(5, 10));
        let m = cmd.motor;
        RunTracker {
            seconds: self.seconds,
            sum_sq: self.sum_sq + e * e,
            settle: if settles {
                t
            } else {
                self.settle
            },
            settled: if self.settled {
                !Single::of_int(1).less(e)
            } else {
                settles
            },
            diverge: self.diverge || est.att.w.less(zero) || Single::of_int(20).less(e),
            ctrl_eff: self.ctrl_eff + (zero + m[0] + m[1] + m[2] + m[3]) / Single::of_int(4),
            final_att_w: truth.att.w,
            final_alt: truth.pos[2].0,
            max_err: if self.max_err.less(e) {
                e
            } else {
                self.max_err
            },
        }
    }

    /// Takes in one step at time `t`, with the setpoint, the estimate, the true state and
    /// the motor command.
    pub fn observe(
        &mut self,
        t: Single,
        sp: &Setpoint,
        est: &VehicleState,
        truth: &VehicleState,
        cmd: &ActuatorCmd,
        may_settle: bool,
    )
        ensures
            *final(self) == old(self).next(t, *sp, *est, *truth, *cmd, may_settle),
    {
        let zero: Single = Single::from_i32(0);
        let x: Single = est.pos[0].0 - sp.pos[0].0;
        let y: Single = est.pos[1].0 - sp.pos[1].0;
        let z: Single = est.pos[2].0 - sp.pos[2].0;
        let e: Single = (x * x + y * y + z * z).sqrt();
        self.sum_sq = self.sum_sq + e * e;
        if e > self.max_err {
            self.max_err = e;
        }
        if !self.settled {
            if may_settle && e < Single::ratio(5, 10) {
                self.settled = true;
                self.settle = t;
            }
        } else if e > Single::from_i32(1) {
            self.settled = false;
        }
        let msum: Single = zero + cmd.motor[0] + cmd.motor[1] + cmd.motor[2] + cmd.motor[3];
        self.ctrl_eff = self.ctrl_eff + msum / Single::from_i32(4);
        if est.att.w < zero || e > Single::from_i32(20) {
            self.diverge = true;
        }
        self.final_att_w = truth.att.w;
        self.final_alt = truth.pos[2].0;
    }

    /// How a run of so many steps went. A run that diverged never settled.
    pub fn finish(&self, steps: usize) -> (r: Metrics)
        ensures
            ({
                let n = Single::of_int(steps as int);
                r == (Metrics {
                    pos_rms: (self.sum_sq / n).root(),
                    settle_time: if self.diverge {
                        self.seconds
                    } else {
                        self.settle
                    },
                    diverge: self.diverge,
                    final_alt: self.final_alt,
                    final_att_w: self.final_att_w,
                    ctrl_effort: self.ctrl_eff / n,
                    max_err: self.max_err,
                })
            }),
    {
        let n: Single = Single::from_u64(steps as u64);
        Metrics {
            pos_rms: (self.sum_sq / n).sqrt(),
            settle_time: if self.diverge {
                self.seconds
            } else {
                self.settle
            },
            diverge: self.diverge,
            final_alt: self.final_alt,
            final_att_w: self.final_att_w,
            ctrl_effort: self.ctrl_eff / n,
            max_err: self.max_err,
        }
    }
}

/// Divergence is for good, and the largest error never shrinks.
pub proof fn law_divergence_stays(
    r: RunTracker,
    t: Single,
    sp: Setpoint,
    est: VehicleState,
    truth: VehicleState,
    cmd: ActuatorCmd,
    may_settle: bool,
)
    ensures
        r.diverge ==> r.next(t, sp, est, truth, cmd, may_settle).diverge,
        !r.next(t, sp, est, truth, cmd, may_settle).max_err.less(r.max_err),
{
}

/// No later number is below an earlier one.
pub open spec fn ascending(v: Seq<Single>) -> bool {
    forall|i: int, j: int| 0 <= i < j < v.len() ==> !(#[trigger] v[j]).less(#[trigger] v[i])
}

/// Whether all are numbers.
pub open spec fn all_numbers(v: Seq<Single>) -> bool {
    forall|i: int| 0 <= i < v.len() ==> !(#[trigger] v[i]).nan()
}

/// Puts numbers in ascending order.
pub fn sort_numbers(v: &mut Vec<Single>)
    requires
        all_numbers(old(v)@),
    ensures
        ascending(final(v)@),
        all_numbers(final(v)@),
        final(v)@.to_multiset() == old(v)@.to_multiset(),
{
    let n: usize = v.len();
    let mut i: usize = 0;
    while i < n
        invariant
            i <= n,
            n == v@.len(),
            all_numbers(v@),
            v@.to_multiset() == old(v)@.to_multiset(),
            forall|a: int, b: int|
                0 <= a < b < i ==> !(#[trigger] v@[b]).less(#[trigger] v@[a]),
        decreases n - i,
    {
        let mut j: usize = i;
        while j > 0 && v[j] < v[j - 1]
            invariant
                j <= i < n,
                n == v@.len(),
                all_numbers(v@),
                v@.to_multiset() == old(v)@.to_multiset(),
                forall|a: int, b: int|
                    0 <= a < b <= i && b != j ==> !(#[trigger] v@[b]).less(#[trigger] v@[a]),
            decreases j,
        {
            let ghost before = v@;
            let a: Single = v[j - 1];
            let b: Single = v[j];
            v.set(j - 1, b);
            v.set(j, a);
            proof {
                lemma_swapped(before, (j - 1) as int, j as int, v@);
                assert forall|x: int, y: int| 0 <= x < y <= i && y != j - 1 implies !(
                #[trigger] v@[y]).less(#[trigger] v@[x]) by {
                    if y == j {
                        if x == j - 1 {
                            assert(b.less(a));
                        } else {
                            assert(v@[x] == before[x]);
                            assert(!before[j - 1].less(before[x]));
                        }
                    } else if x == j - 1 {
                        assert(!before[y].less(before[j as int]));
                    } else if x == j {
                        assert(!before[y].less(before[j - 1]));
                    } else {
                        assert(!before[y].less(before[x]));
                    }
                }
            }
            j -= 1;
        }
        proof {
            assert forall|a: int, b: int| 0 <= a < b < i + 1 implies !(#[trigger] v@[b]).less(
                #[trigger] v@[a],
            ) by {
                if b == j {
                    if a < j - 1 {
                        assert(!v@[j - 1].less(v@[a]));
                        lemma_not_less_chain(v@[a], v@[j - 1], v@[j as int]);
                    }
                }
            }
        }
        i += 1;
    }
}

proof fn lemma_not_less_chain(a: Single, b: Single, c: Single)
    requires
        !a.nan(),
        !b.nan(),
        !c.nan(),
        !b.less(a),
        !c.less(b),
    ensures
        !c.less(a),
{
}

proof fn lemma_swapped(s: Seq<Single>, i: int, j: int, t: Seq<Single>)
    requires
        0 <= i < j < s.len(),
        t == s.update(i, s[j]).update(j, s[i]),
    ensures
        t.to_multiset() == s.to_multiset(),
        all_numbers(s) ==> all_numbers(t),
{
    broadcast use {group_multiset_axioms, vstd::seq_lib::group_to_multiset_ensures};

    vstd::seq_lib::to_multiset_update(s, i, s[j]);
    vstd::seq_lib::to_multiset_update(s.update(i, s[j]), j, s[i]);
    assert(s.contains(s[i]) && s.contains(s[j]));
    assert(t.to_multiset() =~= s.to_multiset());
    assert forall|k: int| 0 <= k < t.len() && all_numbers(s) implies !(#[trigger] t[k]).nan() by {
        if k == i {
            assert(t[k] == s[j]);
        } else if k == j {
            assert(t[k] == s[i]);
        } else {
            assert(t[k] == s[k]);
        }
    }
}

/// The sum of the first `n` numbers.
pub open spec fn sum_of(v: Seq<Single>, n: nat) -> Single
    decreases n,
{
    if n == 0 {
        Single::of_int(0)
    } else {
        sum_of(v, (n - 1) as nat) + v[n - 1]
    }
}

/// The sum of the squared differences of the first `n` numbers from `m`.
pub open spec fn spread_of(v: Seq<Single>, m: Single, n: nat) -> Single
    decreases n,
{
    if n == 0 {
        Single::of_int(0)
    } else {
        spread_of(v, m, (n - 1) as nat) + (v[n - 1] - m) * (v[n - 1] - m)
    }
}

/// What many runs amount to.
#[derive(Clone, Copy, Debug, PartialEq)]
pub struct Summary {
    pub mean: Single,
    pub std: Single,
    pub min: Single,
    pub max: Single,
    pub p95: Single,
}

/// How many numbers the mean is over: at least one.
pub open spec fn divisor(n: nat) -> Single {
    Single::of_int(
        if n == 0 {
            1
        } else {
            n as int
        },
    )
}

/// The position of the number that nineteen of twenty do not exceed.
pub open spec fn rank95(n: nat) -> int {
    (Single::of_int(n as int) * Single::of_ratio(95, 100)).saturated(0, usize::MAX as int)
}

/// The summary of numbers in ascending order; zeros where there are none.
pub open spec fn summary_of(v: Seq<Single>) -> Summary {
    let mean = sum_of(v, v.len()) / divisor(v.len());
    let zero = Single::of_int(0);
    let max = if v.len() > 0 {
        v[v.len() - 1]
    } else {
        zero
    };
    Summary {
        mean,
        std: (spread_of(v, mean, v.len()) / divisor(v.len())).root(),
        min: if v.len() > 0 {
            v[0]
        } else {
            zero
        },
        max,
        p95: if rank95(v.len()) < v.len() {
            v[rank95(v.len())]
        } else {
            max
        },
    }
}

/// Sorts the results of many runs and sums them up.
pub fn summarize(v: &mut Vec<Single>) -> (r: Summary)
    requires
        all_numbers(old(v)@),
    ensures
        ascending(final(v)@),
        final(v)@.to_multiset() == old(v)@.to_multiset(),
        r == summary_of(final(v)@),
{
    sort_numbers(v);
    let n: usize = v.len();
    let count: Single = if n == 0 {
        Single::from_i32(1)
    } else {
        Single::from_u64(n as u64)
    };
    let zero: Single = Single::from_i32(0);
    let mut sum: Single = zero;
    let mut i: usize = 0;
    while i < n
        invariant
            i <= n == v@.len(),
            sum == sum_of(v@, i as nat),
        decreases n - i,
    {
        sum = sum + v[i];
        i += 1;
    }
    let mean: Single = sum / count;
    let mut spread: Single = zero;
    let mut k: usize = 0;
    while k < n
        invariant
            k <= n == v@.len(),
            spread == spread_of(v@, mean, k as nat),
        decreases n - k,
    {
        let d: Single = v[k] - mean;
        spread = spread + d * d;
        k += 1;
    }
    let max: Single = if n > 0 {
        v[n - 1]
    } else {
        zero
    };
    let rank: usize = (Single::from_u64(n as u64) * Single::ratio(95, 100)).to_usize();
    Summary {
        mean,
        std: (spread / count).sqrt(),
        min: if n > 0 {
            v[0]
        } else {
            zero
        },
        max,
        p95: if rank < n {
            v[rank]
        } else {
            max
        },
    }
}

/// Whether a run may settle at time `t`: after the step of the setpoint, where there is
/// one, and while positions are available.
pub fn may_settle(step_time: Option<Single>, t: Single, gps: bool) -> (r: bool)
    ensures
        r == (gps && match step_time {
            Some(at) => at.less_eq(t),
            None => true,
        }),
{
    match step_time {
        Some(at) => t >= at && gps,
        None => gps,
    }
}

/// The length of a step, in seconds.
pub fn step_length() -> (r: Single)
    ensures
        r == Single::of_ratio(5, 1000),
{
    Single::ratio(5, 1000)
}

/// How many steps a run of the given length has.
pub fn step_count(seconds: Single) -> (r: usize)
    ensures
        r == (seconds / Single::of_ratio(5, 1000)).saturated(0, usize::MAX as int),
{
    (seconds / step_length()).to_usize()
}

/// The time of step `k`.
pub fn step_time(k: usize) -> (r: Single)
    ensures
        r == Single::of_int(k as int) * Single::of_ratio(5, 1000),
{
    Single::from_u64(k as u64) * step_length()
}

/// The angles from whose sines the parameters of a trial are varied: of the mass, the
/// three inertias and the three drags.
pub fn perturbation_phases(trial: usize) -> (r: [Single; 7])
    ensures
        r@ == Seq::new(
            7,
            |i: int| Single::of_int(trial as int) * Single::of_ratio(phase_rates()[i], 100),
        ),
{
    let t: Single = Single::from_u64(trial as u64);
    let r: [Single; 7] = [
        t * Single::ratio(31, 100),
        t * Single::ratio(27, 100),
        t * Single::ratio(29, 100),
        t * Single::ratio(23, 100),
        t * Single::ratio(19, 100),
        t * Single::ratio(17, 100),
        t * Single::ratio(13, 100),
    ];
    assert(r@ =~= Seq::new(
        7,
        |i: int| Single::of_int(trial as int) * Single::of_ratio(phase_rates()[i], 100),
    ));
    r
}

/// The hundredths of a radian by which the angles advance per trial.
pub open spec fn phase_rates() -> Seq<int> {
    seq![31, 27, 29, 23, 19, 17, 13]
}

/// A parameter varied by the share `percent` of a sine.
pub open spec fn varied(x: Single, percent: int, sine: Single) -> Single {
    x * (Single::of_int(1) + Single::of_ratio(percent, 100) * sine)
}

fn vary(x: Single, percent: i32, sine: Single) -> (r: Single)
    ensures
        r == varied(x, percent as int, sine),
{
    x * (Single::from_i32(1) + Single::ratio(percent, 100) * sine)
}

/// The parameters of a trial: the mass within ten percent, the inertias within fifteen
/// and the drags within twenty, by the sines of `perturbation_phases`.
pub fn perturb_params(base: &DynParams, sines: &[Single; 7]) -> (r: DynParams)
    ensures
        r == (DynParams {
            mass: varied(base.mass, 10, sines[0]),
            inertia: [
                varied(base.inertia[0], 15, sines[1]),
                varied(base.inertia[1], 15, sines[2]),
                varied(base.inertia[2], 15, sines[3]),
            ],
            drag_coeff: [
                varied(base.drag_coeff[0], 20, sines[4]),
                varied(base.drag_coeff[1], 20, sines[5]),
                varied(base.drag_coeff[2], 20, sines[6]),
            ],
            ..*base
        }),
{
    let mut p: DynParams = *base;
    p.mass = vary(base.mass, 10, sines[0]);
    p.inertia = [
        vary(base.inertia[0], 15, sines[1]),
        vary(base.inertia[1], 15, sines[2]),
        vary(base.inertia[2], 15, sines[3]),
    ];
    p.drag_coeff = [
        vary(base.drag_coeff[0], 20, sines[4]),
        vary(base.drag_coeff[1], 20, sines[5]),
        vary(base.drag_coeff[2], 20, sines[6]),
    ];
    p
}

/// The angles of the wind of a trial, northwards and eastwards.
pub fn wind_phases(trial: usize) -> (r: (Single, Single))
    ensures
        r.0 == Single::of_int(trial as int) * Single::of_ratio(7, 10),
        r.1 == Single::of_int(trial as int) * Single::of_ratio(13, 10),
{
    let t: Single = Single::from_u64(trial as u64);
    (t * Single::ratio(7, 10), t * Single::ratio(13, 10))
}

/// The wind of a trial: up to two metres per second each way, by the sine of the first
/// and the cosine of the second of `wind_phases`.
pub fn trial_wind(sine: Single, cosine: Single) -> (r: [Single; 3])
    ensures
        r == [sine * Single::of_int(2), cosine * Single::of_int(2), Single::of_int(0)],
{
    let two: Single = Single::from_i32(2);
    [sine * two, cosine * two, Single::from_i32(0)]
}

/// How many frames of each kind a ground station has read.
#[derive(Clone, Copy, Debug, PartialEq, Eq, Structural)]
pub struct FrameTally {
    pub heartbeat: u32,
    pub attitude: u32,
    pub position: u32,
}

/// The count after one more, held at the top of the type.
pub open spec fn tallied(n: u32) -> u32 {
    if n == u32::MAX {
        u32::MAX
    } else {
        (n + 1) as u32
    }
}

impl FrameTally {
    pub fn new() -> (r: FrameTally)
        ensures
            r == (FrameTally { heartbeat: 0, attitude: 0, position: 0 }),
    {
        FrameTally { heartbeat: 0, attitude: 0, position: 0 }
    }

    /// After a frame with the message `id`.
    pub open spec fn after(self, id: u32) -> FrameTally {
        if id == msg_id::HEARTBEAT {
            FrameTally { heartbeat: tallied(self.heartbeat), ..self }
        } else if id == msg_id::ATTITUDE {
            FrameTally { attitude: tallied(self.attitude), ..self }
        } else if id == msg_id::LOCAL_POSITION_NED {
            FrameTally { position: tallied(self.position), ..self }
        } else {
            self
        }
    }

    /// Counts a frame, unless it is damaged.
    pub fn count(&mut self, frame: &Frame)
        ensures
            *final(self) == match crate::comm::mavlink::frame::unframed(frame.bytes()) {
                Some((id, _)) => old(self).after(id),
                None => *old(self),
            },
    {
        if let Some((id, _)) = decode(frame) {
            if id == msg_id::HEARTBEAT {
                self.heartbeat = self.heartbeat.saturating_add(1);
            } else if id == msg_id::ATTITUDE {
                self.attitude = self.attitude.saturating_add(1);
            } else if id == msg_id::LOCAL_POSITION_NED {
                self.position = self.position.saturating_add(1);
            }
        }
    }
}

/// The error is the distance between where the vehicle is and where it is to be, whichever
/// way: the long side over its parts; here for sides that are integers.
pub proof fn law_error_is_distance(
    sp: Setpoint,
    est: VehicleState,
    d: [int; 3],
    c: int,
)
    requires
        crate::single::exact::worth(est.pos[0].0 - sp.pos[0].0, d[0], 0),
        crate::single::exact::worth(est.pos[1].0 - sp.pos[1].0, d[1], 0),
        crate::single::exact::worth(est.pos[2].0 - sp.pos[2].0, d[2], 0),
        crate::vehicle::small(d[0], 2048),
        crate::vehicle::small(d[1], 2048),
        crate::vehicle::small(d[2], 2048),
        d[0] * d[0] + d[1] * d[1] + d[2] * d[2] == c * c,
        0 <= c <= 4096,
    ensures
        crate::single::exact::worth(track_error(sp, est), c, 0),
{
    let x = est.pos[0].0 - sp.pos[0].0;
    let y = est.pos[1].0 - sp.pos[1].0;
    let z = est.pos[2].0 - sp.pos[2].0;
    crate::rotation_laws::lemma_whole_product(x, x, d[0], d[0], 2048, 2048);
    crate::rotation_laws::lemma_whole_product(y, y, d[1], d[1], 2048, 2048);
    crate::rotation_laws::lemma_whole_product(z, z, d[2], d[2], 2048, 2048);
    crate::single::exact::law_worth_sum(x * x, y * y, d[0] * d[0], d[1] * d[1], 0);
    crate::single::exact::law_worth_sum(
        x * x + y * y,
        z * z,
        d[0] * d[0] + d[1] * d[1],
        d[2] * d[2],
        0,
    );
    crate::single::exact::law_worth_root(x * x + y * y + z * z, c, 0);
}

/// Equal results have themselves for mean, least and greatest, and do not spread; here for all
/// integers that leave no rounding.
pub proof fn law_equal_results_do_not_spread(v: Seq<Single>, n: int)
    requires
        1 <= v.len() <= 256,
        forall|i: int| 0 <= i < v.len() ==> crate::single::exact::worth(#[trigger] v[i], n, 0),
        crate::vehicle::small(n, 1024),
    ensures
        ({
            let s = summary_of(v);
            &&& crate::single::exact::worth(s.mean, n, 0)
            &&& crate::single::exact::worth(s.std, 0, 0)
            &&& crate::single::exact::worth(s.min, n, 0)
            &&& crate::single::exact::worth(s.max, n, 0)
        }),
{
    let k = v.len() as int;
    let mean = sum_of(v, v.len()) / divisor(v.len());
    lemma_equal_sum(v, n, v.len());
    crate::single::exact::law_integer_worth(k);
    crate::single::exact::law_worth_quotient(sum_of(v, v.len()), divisor(v.len()), n, k, 0, 0);
    lemma_no_spread(v, mean, n, v.len());
    let spread = spread_of(v, mean, v.len());
    assert(0 * k == 0);
    crate::single::exact::law_worth_quotient(spread, divisor(v.len()), 0, k, 0, 0);
    crate::single::exact::law_worth_root(spread / divisor(v.len()), 0, 0);
    assert(crate::single::exact::worth(v[0], n, 0));
    assert(crate::single::exact::worth(v[v.len() - 1], n, 0));
}

proof fn lemma_equal_sum(v: Seq<Single>, n: int, k: nat)
    requires
        k <= v.len() <= 256,
        forall|i: int| 0 <= i < v.len() ==> crate::single::exact::worth(#[trigger] v[i], n, 0),
        crate::vehicle::small(n, 1024),
    ensures
        crate::single::exact::worth(sum_of(v, k), n * k, 0),
    decreases k,
{
    crate::single::exact::law_integer_worth(0);
    if k > 0 {
        lemma_equal_sum(v, n, (k - 1) as nat);
        assert(crate::single::exact::worth(v[k - 1], n, 0));
        assert(n * (k - 1) + n == n * k) by (nonlinear_arith);
        crate::vehicle::lemma_small_product(n, k as int, 1024, 256);
        crate::single::exact::law_worth_sum(
            sum_of(v, (k - 1) as nat),
            v[k - 1],
            n * (k - 1),
            n,
            0,
        );
    } else {
        assert(n * 0 == 0);
    }
}

proof fn lemma_no_spread(v: Seq<Single>, m: Single, n: int, k: nat)
    requires
        k <= v.len(),
        crate::single::exact::worth(m, n, 0),
        forall|i: int| 0 <= i < v.len() ==> crate::single::exact::worth(#[trigger] v[i], n, 0),
    ensures
        crate::single::exact::worth(spread_of(v, m, k), 0, 0),
    decreases k,
{
    crate::single::exact::law_integer_worth(0);
    if k > 0 {
        lemma_no_spread(v, m, n, (k - 1) as nat);
        assert(crate::single::exact::worth(v[k - 1], n, 0));
        let d = v[k - 1] - m;
        crate::single::exact::law_worth_difference(v[k - 1], m, n, n, 0);
        crate::single::exact::law_worth_product(d, d, 0, 0, 0, 0);
        crate::single::exact::law_worth_sum(spread_of(v, m, (k - 1) as nat), d * d, 0, 0, 0);
    }
}

} // verus!
