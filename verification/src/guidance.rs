//! Guidance: a trajectory turned into setpoints with feed-forward.
//!
//! A trajectory gives the wanted state at every time and holds its end once it has
//! been flown. Guidance advances the time and hands out what is wanted next; limits
//! and feedback are the controller's.

use crate::controller::trait_def::Setpoint;
use crate::single::Single;
use crate::units::{Meter, MeterPerSecond, MeterPerSecondSquared, Radian, Second, PI_BITS};
use vstd::prelude::*;

verus! {

/// The wanted state at one time.
#[derive(Clone, Copy, Debug, PartialEq)]
pub struct TrajectorySample {
    pub pos: [Meter; 3],
    pub vel: [MeterPerSecond; 3],
    pub acc: [MeterPerSecondSquared; 3],
    pub yaw: Radian,
}

impl TrajectorySample {
    /// To stay at `pos`.
    pub fn hover(pos: [Meter; 3], yaw: Radian) -> (r: TrajectorySample)
        ensures
            r.pos == pos,
            r.yaw == yaw,
            r.vel@ == Seq::new(3, |i: int| MeterPerSecond(Single::of_int(0))),
            r.acc@ == Seq::new(3, |i: int| MeterPerSecondSquared(Single::of_int(0))),
    {
        let s = Setpoint::hover(pos, yaw);
        TrajectorySample { pos, vel: s.vel, acc: s.acc, yaw }
    }

    /// The sample as a setpoint.
    pub open spec fn wanted(self) -> Setpoint {
        Setpoint { pos: self.pos, yaw: self.yaw, vel: self.vel, acc: self.acc }
    }
}

/// A trajectory.
pub trait TrajectorySource {
    /// The duration, where an implementation says so.
    open spec fn length(&self) -> Second {
        arbitrary()
    }

    open spec fn sample(&self, t: Second) -> TrajectorySample {
        arbitrary()
    }

    /// How long the trajectory takes.
    fn duration(&self) -> (r: Second)
        ensures
            r == self.length(),
    ;

    /// The wanted state at time `t`; after the end, that at the end.
    fn at(&self, t: Second) -> (r: TrajectorySample)
        ensures
            r == self.sample(t),
            self.length().0.less(t.0) ==> r == self.sample(self.length()),
    ;
}

/// Advances along a trajectory.
pub struct Guidance<S: TrajectorySource> {
    src: S,
    t: Second,
    dt: Second,
    done: bool,
}

/// The trajectory, the time reached, the time step, and whether the end was reached.
pub struct GuidanceState<S> {
    pub src: S,
    pub t: Second,
    pub dt: Second,
    pub done: bool,
}

impl<S: TrajectorySource> GuidanceState<S> {
    /// The time of the next step.
    pub open spec fn next_time(self) -> Second {
        Second(self.t.0 + self.dt.0)
    }

    /// Whether the next step reaches the end.
    pub open spec fn arrives(self) -> bool {
        self.src.length().0.less_eq(self.next_time().0)
    }

    pub open spec fn stepped(self) -> GuidanceState<S> {
        GuidanceState {
            t: if self.arrives() {
                self.src.length()
            } else {
                self.next_time()
            },
            done: self.done || self.arrives(),
            ..self
        }
    }
}

impl<S: TrajectorySource> View for Guidance<S> {
    type V = GuidanceState<S>;

    closed spec fn view(&self) -> GuidanceState<S> {
        GuidanceState { src: self.src, t: self.t, dt: self.dt, done: self.done }
    }
}

impl<S: TrajectorySource> Guidance<S> {
    pub fn new(src: S, dt: Second) -> (r: Guidance<S>)
        ensures
            r@ == (GuidanceState { src, t: Second(Single::of_int(0)), dt, done: false }),
    {
        Guidance { src, t: Second(Single::from_i32(0)), dt, done: false }
    }

    /// The time reached.
    pub fn time(&self) -> (r: Second)
        ensures
            r == self@.t,
    {
        self.t
    }

    /// Whether the end was reached.
    pub fn done(&self) -> (r: bool)
        ensures
            r == self@.done,
    {
        self.done
    }

    /// The setpoint at the time reached.
    pub fn setpoint(&self) -> (r: Setpoint)
        ensures
            r == self@.src.sample(self@.t).wanted(),
    {
        let s = self.src.at(self.t);
        Setpoint { pos: s.pos, yaw: s.yaw, vel: s.vel, acc: s.acc }
    }

    /// The setpoint of the next step; the time advances to it, but not beyond the
    /// end.
    pub fn step(&mut self) -> (r: Setpoint)
        ensures
            r == old(self)@.src.sample(old(self)@.next_time()).wanted(),
            old(self)@.src.length().0.less(old(self)@.next_time().0) ==> r == old(self)@.src.sample(
                old(self)@.src.length(),
            ).wanted(),
            final(self)@ == old(self)@.stepped(),
    {
        let t_next = Second(self.t.0 + self.dt.0);
        let s = self.src.at(t_next);
        let end = self.src.duration();
        if t_next.0 >= end.0 {
            self.done = true;
            self.t = end;
        } else {
            self.t = t_next;
        }
        Setpoint { pos: s.pos, yaw: s.yaw, vel: s.vel, acc: s.acc }
    }
}

/// Stepping never takes the time beyond the end, and the end once reached stays
/// reached.
pub proof fn law_time_stops_at_end<S: TrajectorySource>(g: GuidanceState<S>)
    ensures
        !g.stepped().src.length().0.less(g.stepped().t.0),
        g.done ==> g.stepped().done,
        g.stepped().done && !g.done ==> g.stepped().t == g.src.length(),
{
}

/// At the end, a step forward stays there.
pub proof fn law_end_is_held<S: TrajectorySource>(g: GuidanceState<S>)
    requires
        g.t == g.src.length(),
        g.t.0.less_eq(g.next_time().0),
    ensures
        g.stepped().t == g.src.length(),
        g.stepped().done,
{
}

/// The time that `laps` rounds take at the rate `omega`; a rate near zero counts as
/// a millionth.
pub open spec fn lap_time(laps: Single, omega: Single) -> Single {
    laps * Single::of_int(2) * (Single { bits: PI_BITS }) / omega.magnitude_of().larger(
        Single::of_ratio(1, 1_000_000),
    )
}

fn time_of_laps(laps: Single, omega: Single) -> (r: Single)
    ensures
        r == lap_time(laps, omega),
{
    laps * Single::from_i32(2) * Single::from_bits(PI_BITS) / omega.abs().max(
        Single::ratio(1, 1_000_000),
    )
}

/// A level circle at constant speed.
#[derive(Clone, Copy, Debug)]
pub struct Circle {
    pub center: [Meter; 3],
    pub radius: Meter,
    /// Radians per second.
    pub omega: Single,
    /// How many rounds.
    pub laps: Single,
    pub phase0: Single,
    /// Whether the nose points along the path; otherwise it points north.
    pub nose_tangent: bool,
}

impl Circle {
    pub fn new(center: [Meter; 3], radius: Meter, omega: Single, laps: Single) -> (r: Circle)
        ensures
            r == (Circle {
                center,
                radius,
                omega,
                laps,
                phase0: Single::of_int(0),
                nose_tangent: true,
            }),
    {
        Circle { center, radius, omega, laps, phase0: Single::from_i32(0), nose_tangent: true }
    }

    /// How long all rounds take.
    pub fn duration(&self) -> (r: Second)
        ensures
            r == Second(lap_time(self.laps, self.omega)),
    {
        Second(time_of_laps(self.laps, self.omega))
    }

    pub open spec fn phase_at(self, t: Second) -> Single {
        self.phase0 + self.omega * t.0.smaller(lap_time(self.laps, self.omega))
    }

    /// The angle on the circle at time `t`, held from the end on.
    pub fn phase(&self, t: Second) -> (r: Single)
        ensures
            r == self.phase_at(t),
    {
        let tt: Single = t.0.min(self.duration().0);
        self.phase0 + self.omega * tt
    }

    /// The velocity to the north and to the east at the angle of sine `s` and cosine
    /// `c`.
    pub open spec fn velocity(self, s: Single, c: Single) -> (Single, Single) {
        (self.radius.0.negated() * self.omega * s, self.radius.0 * self.omega * c)
    }

    /// The place, north and east, at the angle of sine `s` and cosine `c`.
    pub open spec fn place(self, s: Single, c: Single) -> (Single, Single) {
        (self.center[0].0 + self.radius.0 * c, self.center[1].0 + self.radius.0 * s)
    }

    /// The acceleration, north and east, at the angle of sine `s` and cosine `c`.
    pub open spec fn acceleration(self, s: Single, c: Single) -> (Single, Single) {
        let r = self.radius.0.negated();
        (r * self.omega * self.omega * c, r * self.omega * self.omega * s)
    }

    /// The wanted state at the angle of sine `s` and cosine `c`, where `heading` is
    /// the direction of the velocity there.
    pub fn sample_at(&self, s: Single, c: Single, heading: Radian) -> (r: TrajectorySample)
        ensures
            r.pos@ == seq![
                Meter(self.place(s, c).0),
                Meter(self.place(s, c).1),
                self.center[2],
            ],
            r.vel@ == seq![
                MeterPerSecond(self.velocity(s, c).0),
                MeterPerSecond(self.velocity(s, c).1),
                MeterPerSecond(Single::of_int(0)),
            ],
            r.acc@ == seq![
                MeterPerSecondSquared(self.acceleration(s, c).0),
                MeterPerSecondSquared(self.acceleration(s, c).1),
                MeterPerSecondSquared(Single::of_int(0)),
            ],
            r.yaw == if self.nose_tangent {
                heading
            } else {
                Radian(Single::of_int(0))
            },
    {
        let zero: Single = Single::from_i32(0);
        let rad: Single = self.radius.0;
        let w: Single = self.omega;
        let r = TrajectorySample {
            pos: [
                Meter(self.center[0].0 + rad * c),
                Meter(self.center[1].0 + rad * s),
                self.center[2],
            ],
            vel: [
                MeterPerSecond(rad.negate() * w * s),
                MeterPerSecond(rad * w * c),
                MeterPerSecond(zero),
            ],
            acc: [
                MeterPerSecondSquared(rad.negate() * w * w * c),
                MeterPerSecondSquared(rad.negate() * w * w * s),
                MeterPerSecondSquared(zero),
            ],
            yaw: if self.nose_tangent {
                heading
            } else {
                Radian(zero)
            },
        };
        assert(r.pos@ =~= seq![r.pos[0], r.pos[1], r.pos[2]]);
        assert(r.vel@ =~= seq![r.vel[0], r.vel[1], r.vel[2]]);
        assert(r.acc@ =~= seq![r.acc[0], r.acc[1], r.acc[2]]);
        r
    }
}

/// After the end the circle stands still: the angle there is that at the end.
pub proof fn law_circle_holds_end(c: Circle, t: Second)
    requires
        lap_time(c.laps, c.omega).less(t.0),
    ensures
        c.phase_at(t) == c.phase_at(Second(lap_time(c.laps, c.omega))),
{
}

/// A level figure of eight: north at the base rate, east at twice the rate.
#[derive(Clone, Copy, Debug)]
pub struct Figure8 {
    pub center: [Meter; 3],
    pub amp_n: Meter,
    pub amp_e: Meter,
    /// Radians per second.
    pub omega: Single,
    /// How many rounds.
    pub laps: Single,
}

impl Figure8 {
    /// The usual proportions: half as wide to the east as to the north.
    pub fn new(center: [Meter; 3], amp_n: Meter, omega: Single, laps: Single) -> (r: Figure8)
        ensures
            r == (Figure8 {
                center,
                amp_n,
                amp_e: Meter(amp_n.0 * Single::of_ratio(1, 2)),
                omega,
                laps,
            }),
    {
        Figure8 { center, amp_n, amp_e: Meter(amp_n.0 * Single::ratio(1, 2)), omega, laps }
    }

    /// How long all rounds take.
    pub fn duration(&self) -> (r: Second)
        ensures
            r == Second(lap_time(self.laps, self.omega)),
    {
        Second(time_of_laps(self.laps, self.omega))
    }

    pub open spec fn phase_at(self, t: Second) -> Single {
        self.omega * t.0.smaller(lap_time(self.laps, self.omega))
    }

    /// The base angle at time `t`, held from the end on, and its double.
    pub fn phase(&self, t: Second) -> (r: (Single, Single))
        ensures
            r == (self.phase_at(t), Single::of_int(2) * self.phase_at(t)),
    {
        let tt: Single = t.0.min(self.duration().0);
        let ph: Single = self.omega * tt;
        (ph, Single::from_i32(2) * ph)
    }

    /// The velocity to the north and to the east where the base angle has the cosine
    /// `c1` and its double `c2`.
    pub open spec fn velocity(self, c1: Single, c2: Single) -> (Single, Single) {
        (self.amp_n.0 * self.omega * c1, Single::of_int(2) * self.amp_e.0 * self.omega * c2)
    }

    /// The place, north and east, where the base angle has the sine `s1` and its double
    /// `s2`.
    pub open spec fn place(self, s1: Single, s2: Single) -> (Single, Single) {
        (self.center[0].0 + self.amp_n.0 * s1, self.center[1].0 + self.amp_e.0 * s2)
    }

    /// The acceleration, north and east, where the base angle has the sine `s1` and its
    /// double `s2`.
    pub open spec fn acceleration(self, s1: Single, s2: Single) -> (Single, Single) {
        (
            self.amp_n.0.negated() * self.omega * self.omega * s1,
            Single::of_int(-4) * self.amp_e.0 * self.omega * self.omega * s2,
        )
    }

    /// The wanted state where the base angle has the sine `s1` and the cosine `c1`
    /// and its double `s2` and `c2`; `heading` is the direction of the velocity.
    pub fn sample_at(
        &self,
        s1: Single,
        c1: Single,
        s2: Single,
        c2: Single,
        heading: Radian,
    ) -> (r: TrajectorySample)
        ensures
            r.pos@ == seq![
                Meter(self.place(s1, s2).0),
                Meter(self.place(s1, s2).1),
                self.center[2],
            ],
            r.vel@ == seq![
                MeterPerSecond(self.velocity(c1, c2).0),
                MeterPerSecond(self.velocity(c1, c2).1),
                MeterPerSecond(Single::of_int(0)),
            ],
            r.acc@ == seq![
                MeterPerSecondSquared(self.acceleration(s1, s2).0),
                MeterPerSecondSquared(self.acceleration(s1, s2).1),
                MeterPerSecondSquared(Single::of_int(0)),
            ],
            r.yaw == heading,
    {
        let zero: Single = Single::from_i32(0);
        let an: Single = self.amp_n.0;
        let ae: Single = self.amp_e.0;
        let w: Single = self.omega;
        let r = TrajectorySample {
            pos: [
                Meter(self.center[0].0 + an * s1),
                Meter(self.center[1].0 + ae * s2),
                self.center[2],
            ],
            vel: [
                MeterPerSecond(an * w * c1),
                MeterPerSecond(Single::from_i32(2) * ae * w * c2),
                MeterPerSecond(zero),
            ],
            acc: [
                MeterPerSecondSquared(an.negate() * w * w * s1),
                MeterPerSecondSquared(Single::from_i32(-4) * ae * w * w * s2),
                MeterPerSecondSquared(zero),
            ],
            yaw: heading,
        };
        assert(r.pos@ =~= seq![r.pos[0], r.pos[1], r.pos[2]]);
        assert(r.vel@ =~= seq![r.vel[0], r.vel[1], r.vel[2]]);
        assert(r.acc@ =~= seq![r.acc[0], r.acc[1], r.acc[2]]);
        r
    }
}

/// After the end the figure of eight stands still.
pub proof fn law_figure8_holds_end(f: Figure8, t: Second)
    requires
        lap_time(f.laps, f.omega).less(t.0),
    ensures
        f.phase_at(t) == f.phase_at(Second(lap_time(f.laps, f.omega))),
{
}

/// On a circle the velocity is square to the way from the centre, and turns with it from north
/// to east where the rate is positive; the acceleration pulls back to the centre; here for all
/// integers that leave no rounding. `n` and `e` are the way from the centre.
pub proof fn law_circle_is_flown_round(
    c: Circle,
    sin: Single,
    cos: Single,
    a: int,
    b: int,
    r: int,
    w: int,
    s: int,
    k: int,
)
    requires
        crate::single::exact::worth(c.center[0].0, a, 0) && crate::vehicle::small(a, 4096),
        crate::single::exact::worth(c.center[1].0, b, 0) && crate::vehicle::small(b, 4096),
        crate::single::exact::worth(c.radius.0, r, 0) && crate::vehicle::small(r, 64),
        crate::single::exact::worth(c.omega, w, 0) && crate::vehicle::small(w, 16),
        crate::single::exact::worth(sin, s, 0) && crate::vehicle::small(s, 64),
        crate::single::exact::worth(cos, k, 0) && crate::vehicle::small(k, 64),
    ensures
        ({
            let n = r * k;
            let e = r * s;
            let vn = -(r * w * s);
            let ve = r * w * k;
            let an = -(r * w * w * k);
            let ae = -(r * w * w * s);
            &&& crate::single::exact::worth(c.place(sin, cos).0, a + n, 0)
            &&& crate::single::exact::worth(c.place(sin, cos).1, b + e, 0)
            &&& crate::single::exact::worth(c.velocity(sin, cos).0, vn, 0)
            &&& crate::single::exact::worth(c.velocity(sin, cos).1, ve, 0)
            &&& crate::single::exact::worth(c.acceleration(sin, cos).0, an, 0)
            &&& crate::single::exact::worth(c.acceleration(sin, cos).1, ae, 0)
            &&& n * vn + e * ve == 0
            &&& n * ve - e * vn == w * (n * n + e * e)
            &&& an == -(w * w * n)
            &&& ae == -(w * w * e)
        }),
{
    let rad = c.radius.0;
    crate::single::exact::law_worth_negated(rad, r, 0);
    crate::rotation_laws::lemma_whole_product(rad, cos, r, k, 64, 64);
    crate::rotation_laws::lemma_whole_product(rad, sin, r, s, 64, 64);
    crate::single::exact::law_worth_sum(c.center[0].0, rad * cos, a, r * k, 0);
    crate::single::exact::law_worth_sum(c.center[1].0, rad * sin, b, r * s, 0);
    crate::rotation_laws::lemma_whole_product(rad, c.omega, r, w, 64, 16);
    crate::rotation_laws::lemma_whole_product(rad * c.omega, cos, r * w, k, 1024, 64);
    crate::rotation_laws::lemma_whole_product(rad.negated(), c.omega, -r, w, 64, 16);
    let m = rad.negated() * c.omega;
    crate::rotation_laws::lemma_whole_product(m, sin, (-r) * w, s, 1024, 64);
    crate::rotation_laws::lemma_whole_product(m, c.omega, (-r) * w, w, 1024, 16);
    crate::rotation_laws::lemma_whole_product(m * c.omega, cos, (-r) * w * w, k, 16384, 64);
    crate::rotation_laws::lemma_whole_product(m * c.omega, sin, (-r) * w * w, s, 16384, 64);
    assert((-r) * w * s == -(r * w * s)) by (nonlinear_arith);
    assert((-r) * w * w * k == -(r * w * w * k)) by (nonlinear_arith);
    assert((-r) * w * w * s == -(r * w * w * s)) by (nonlinear_arith);
    lemma_round(r, w, s, k);
}

proof fn lemma_round(r: int, w: int, s: int, k: int)
    ensures
        (r * k) * (-(r * w * s)) + (r * s) * (r * w * k) == 0,
        (r * k) * (r * w * k) - (r * s) * (-(r * w * s)) == w * ((r * k) * (r * k) + (r * s) * (r
            * s)),
        r * w * w * k == w * w * (r * k),
        r * w * w * s == w * w * (r * s),
{
    let (n, e) = (r * k, r * s);
    assert(r * w * s == w * e) by (nonlinear_arith)
        requires
            e == r * s,
    ;
    assert(r * w * k == w * n) by (nonlinear_arith)
        requires
            n == r * k,
    ;
    assert(n * (-(w * e)) + e * (w * n) == 0) by (nonlinear_arith);
    assert(n * (w * n) - e * (-(w * e)) == w * (n * n + e * e)) by (nonlinear_arith);
    assert(r * w * w * k == w * w * n) by (nonlinear_arith)
        requires
            n == r * k,
    ;
    assert(r * w * w * s == w * w * e) by (nonlinear_arith)
        requires
            e == r * s,
    ;
}

/// On a figure of eight the vehicle swings to the north and back once while it swings to the
/// east and back twice: along each axis the acceleration pulls back to the centre, four times
/// as strongly along the axis that swings twice, and the speed is what the swing at that
/// moment gives; here for all integers that leave no rounding.
pub proof fn law_figure8_swings(
    f: Figure8,
    s1: Single,
    c1: Single,
    s2: Single,
    c2: Single,
    a: int,
    b: int,
    n: int,
    e: int,
    w: int,
    k: [int; 4],
)
    requires
        crate::single::exact::worth(f.center[0].0, a, 0) && crate::vehicle::small(a, 4096),
        crate::single::exact::worth(f.center[1].0, b, 0) && crate::vehicle::small(b, 4096),
        crate::single::exact::worth(f.amp_n.0, n, 0) && crate::vehicle::small(n, 64),
        crate::single::exact::worth(f.amp_e.0, e, 0) && crate::vehicle::small(e, 64),
        crate::single::exact::worth(f.omega, w, 0) && crate::vehicle::small(w, 16),
        crate::single::exact::worth(s1, k[0], 0) && crate::vehicle::small(k[0], 64),
        crate::single::exact::worth(c1, k[1], 0) && crate::vehicle::small(k[1], 64),
        crate::single::exact::worth(s2, k[2], 0) && crate::vehicle::small(k[2], 64),
        crate::single::exact::worth(c2, k[3], 0) && crate::vehicle::small(k[3], 64),
    ensures
        ({
            let x = n * k[0];
            let y = e * k[2];
            &&& crate::single::exact::worth(f.place(s1, s2).0, a + x, 0)
            &&& crate::single::exact::worth(f.place(s1, s2).1, b + y, 0)
            &&& crate::single::exact::worth(f.velocity(c1, c2).0, w * (n * k[1]), 0)
            &&& crate::single::exact::worth(f.velocity(c1, c2).1, 2 * w * (e * k[3]), 0)
            &&& crate::single::exact::worth(f.acceleration(s1, s2).0, -(w * w * x), 0)
            &&& crate::single::exact::worth(f.acceleration(s1, s2).1, -(4 * w * w * y), 0)
        }),
{
    let (an, ae) = (f.amp_n.0, f.amp_e.0);
    let two = Single::of_int(2);
    let four = Single::of_int(-4);
    crate::single::exact::law_integer_worth(2);
    crate::single::exact::law_integer_worth(-4);
    crate::single::exact::law_worth_negated(an, n, 0);
    crate::rotation_laws::lemma_whole_product(an, s1, n, k[0], 64, 64);
    crate::rotation_laws::lemma_whole_product(ae, s2, e, k[2], 64, 64);
    crate::single::exact::law_worth_sum(f.center[0].0, an * s1, a, n * k[0], 0);
    crate::single::exact::law_worth_sum(f.center[1].0, ae * s2, b, e * k[2], 0);
    crate::rotation_laws::lemma_whole_product(an, f.omega, n, w, 64, 16);
    crate::rotation_laws::lemma_whole_product(an * f.omega, c1, n * w, k[1], 1024, 64);
    crate::rotation_laws::lemma_whole_product(two, ae, 2, e, 2, 64);
    crate::rotation_laws::lemma_whole_product(two * ae, f.omega, 2 * e, w, 128, 16);
    crate::rotation_laws::lemma_whole_product(
        two * ae * f.omega,
        c2,
        2 * e * w,
        k[3],
        2048,
        64,
    );
    crate::rotation_laws::lemma_whole_product(an.negated(), f.omega, -n, w, 64, 16);
    let m = an.negated() * f.omega;
    crate::rotation_laws::lemma_whole_product(m, f.omega, (-n) * w, w, 1024, 16);
    crate::rotation_laws::lemma_whole_product(m * f.omega, s1, (-n) * w * w, k[0], 16384, 64);
    crate::rotation_laws::lemma_whole_product(four, ae, -4, e, 4, 64);
    crate::rotation_laws::lemma_whole_product(four * ae, f.omega, -4 * e, w, 256, 16);
    let q = four * ae * f.omega;
    crate::rotation_laws::lemma_whole_product(q, f.omega, -4 * e * w, w, 4096, 16);
    crate::rotation_laws::lemma_whole_product(
        q * f.omega,
        s2,
        -4 * e * w * w,
        k[2],
        65536,
        64,
    );
    lemma_swing(n, w, k[0], k[1]);
    lemma_swing(e, w, k[2], k[3]);
}

proof fn lemma_swing(n: int, w: int, s: int, c: int)
    ensures
        n * w * c == w * (n * c),
        2 * n * w * c == 2 * w * (n * c),
        (-n) * w * w * s == -(w * w * (n * s)),
        -4 * n * w * w * s == -(4 * w * w * (n * s)),
{
    assert(n * w * c == w * (n * c)) by (nonlinear_arith);
    assert(2 * n * w * c == 2 * w * (n * c)) by (nonlinear_arith);
    assert((-n) * w * w * s == -(w * w * (n * s))) by (nonlinear_arith);
    assert(-4 * n * w * w * s == -(4 * w * w * (n * s))) by (nonlinear_arith);
}

/// Until the end the vehicle goes on along its way: later, the angle has moved on in the
/// direction of the rate, on the circle and on the figure of eight alike.
pub proof fn law_angle_moves_on(c: Circle, f: Figure8, soon: Second, late: Second, up: bool)
    requires
        soon.0.less_eq(late.0),
        crate::single::laws::within(soon.0, 30),
        crate::single::laws::within(late.0, 30),
        late.0.less_eq(lap_time(c.laps, c.omega)),
        late.0.less_eq(lap_time(f.laps, f.omega)),
        c.phase0.finite(),
        crate::single::laws::within(c.omega, 20),
        crate::single::laws::within(f.omega, 20),
        crate::single::signs::toward(up, c.omega),
        crate::single::signs::toward(up, f.omega),
    ensures
        crate::single::signs::ahead(up, c.phase_at(soon), c.phase_at(late)),
        crate::single::signs::ahead(up, f.phase_at(soon), f.phase_at(late)),
{
    let (a, b) = (lap_time(c.laps, c.omega), lap_time(f.laps, f.omega));
    crate::single::laws::lemma_within_is_finite(soon.0, 30);
    crate::single::laws::lemma_within_is_finite(late.0, 30);
    crate::single::laws::lemma_within_is_finite(c.omega, 20);
    crate::single::laws::lemma_within_is_finite(f.omega, 20);
    assert(soon.0.smaller(a).same(soon.0) && late.0.smaller(a).same(late.0));
    assert(soon.0.smaller(b).same(soon.0) && late.0.smaller(b).same(late.0));
    crate::single::laws::lemma_same_is_finite(soon.0.smaller(a), soon.0);
    crate::single::laws::lemma_same_is_finite(late.0.smaller(a), late.0);
    crate::single::laws::lemma_same_is_finite(soon.0.smaller(b), soon.0);
    crate::single::laws::lemma_same_is_finite(late.0.smaller(b), late.0);
    crate::single::signs::law_factor_order(
        up,
        c.omega,
        soon.0.smaller(a),
        late.0.smaller(a),
    );
    crate::single::signs::law_factor_order(
        up,
        f.omega,
        soon.0.smaller(b),
        late.0.smaller(b),
    );
    crate::single::signs::law_sum_order(
        up,
        c.omega * soon.0.smaller(a),
        c.omega * late.0.smaller(a),
        c.phase0,
    );
}

} // verus!
