//! The control task: from the latest readings to a setpoint, and from the motor
//! command to the outputs.
//!
//! Between the two stands one step of estimation and control. Here is what the task
//! decides around it: how much time has passed, whose sticks count, which mode
//! rules, where the mode wants the vehicle to be, which altitude is held, and what
//! the outputs are.

use super::hil_shmem::HilSetpoint;
use super::sensors_task::SensorFrame;
use crate::comm::mavlink::enums::{
    COPTER_MODE_ALT_HOLD, COPTER_MODE_GUIDED, COPTER_MODE_LAND, COPTER_MODE_LOITER,
    COPTER_MODE_RTL, COPTER_MODE_STABILIZE,
};
use crate::controller::trait_def::Setpoint;
use crate::flightmode::mode_from_rc_switch;
use crate::single::Single;
use crate::units::{Meter, MeterPerSecond, MeterPerSecondSquared, Radian, Second};
use crate::vehicle::{ActuatorCmd, RcInput, VehicleState};
use vstd::prelude::*;

verus! {

/// The period of the task, in milliseconds.
pub const CONTROL_PERIOD_TICKS: u32 = 4;

/// What the ground station has commanded.
#[derive(Clone, Copy, Debug, PartialEq, Eq, Structural)]
pub struct Commands {
    pub armed: bool,
    pub mode: u16,
}

/// Arms or disarms by command; the pilot's switch arms as well.
pub fn set_cmd_armed(c: &mut Commands, arm: bool)
    ensures
        *final(c) == (Commands { armed: arm, ..*old(c) }),
{
    c.armed = arm;
}

/// Sets the mode by command; it counts while the pilot's signal is lost.
pub fn set_cmd_mode(c: &mut Commands, mode: u16)
    ensures
        *final(c) == (Commands { mode, ..*old(c) }),
{
    c.mode = mode;
}

/// What the task remembers from step to step.
#[derive(Clone, Copy, Debug)]
pub struct Control {
    /// The altitude to hold, downwards positive.
    pub hold_alt: Meter,
    /// Whether that altitude was taken since arming.
    pub alt_locked: bool,
    pub last_est: Option<VehicleState>,
    pub last_ticks: u32,
    pub seq: u32,
}

/// The milliseconds from `last` to `now` on a clock that wraps, at least one and at
/// most fifty.
pub open spec fn elapsed(now: u32, last: u32) -> int {
    let d = if now >= last {
        now - last
    } else {
        now - last + 0x1_0000_0000
    };
    if d < 1 {
        1
    } else if d > 50 {
        50
    } else {
        d
    }
}

/// A channel of 1000 to 2000 microseconds as a number between zero and one.
pub open spec fn channel(pwm: u16) -> Single {
    ((Single::of_int(pwm as int) - Single::of_int(1000)) / Single::of_int(1000)).clamped(
        Single::of_int(0),
        Single::of_int(1),
    )
}

fn normalize(pwm: u16) -> (r: Single)
    ensures
        r == channel(pwm),
{
    let thousand: Single = Single::from_i32(1000);
    ((Single::from_i32(pwm as i32) - thousand) / thousand).clamp(
        Single::from_i32(0),
        Single::from_i32(1),
    )
}

/// The sticks that count: those that the ground sends, where it does, otherwise the
/// pilot's. The mode switch is always the pilot's.
pub open spec fn effective_rc(rc: RcInput, channels: Option<[u16; 8]>) -> RcInput {
    match channels {
        Some(ch) => RcInput {
            throttle: channel(ch[2]),
            roll: channel(ch[0]),
            pitch: channel(ch[1]),
            yaw: channel(ch[3]),
            armed: ch[0] > 1500,
            mode: rc.mode,
            fresh: true,
        },
        None => rc,
    }
}

pub fn override_rc(rc: RcInput, channels: Option<[u16; 8]>) -> (r: RcInput)
    ensures
        r == effective_rc(rc, channels),
{
    match channels {
        Some(ch) => RcInput {
            throttle: normalize(ch[2]),
            roll: normalize(ch[0]),
            pitch: normalize(ch[1]),
            yaw: normalize(ch[3]),
            armed: ch[0] > 1500,
            mode: rc.mode,
            fresh: true,
        },
        None => rc,
    }
}

/// The mode that rules: that of the pilot's switch, or the commanded one while the
/// pilot's signal is lost.
pub open spec fn ruling_mode(rc: RcInput, c: Commands) -> u16 {
    if rc.fresh {
        crate::flightmode::switch_mode(rc.mode).copter_mode()
    } else {
        c.mode
    }
}

pub fn select_mode(rc: &RcInput, c: &Commands) -> (r: u16)
    ensures
        r == ruling_mode(*rc, *c),
{
    if rc.fresh {
        mode_from_rc_switch(rc.mode).to_copter_mode()
    } else {
        c.mode
    }
}

/// Whether the mode flies by speed, without holding a position.
pub open spec fn is_rate_mode(mode: u16) -> bool {
    mode == COPTER_MODE_STABILIZE || mode == COPTER_MODE_ALT_HOLD
}

/// Where a mode wants the vehicle to be, and how fast over the ground.
pub struct Target {
    pub x: Single,
    pub y: Single,
    pub z: Single,
    pub vx: Single,
    pub vy: Single,
}

/// The altitude one step of descent lower, but not below the ground.
pub open spec fn lower(z: Single) -> Single {
    (z + Single::of_ratio(2, 100)).smaller(Single::of_int(0))
}

fn descend(z: Single) -> (r: Single)
    ensures
        r == lower(z),
{
    (z + Single::ratio(2, 100)).min(Single::from_i32(0))
}

impl Control {
    /// Before the first step.
    pub fn new(now_ticks: u32) -> (r: Control)
        ensures
            r == (Control {
                hold_alt: Meter(Single::of_int(0)),
                alt_locked: false,
                last_est: None,
                last_ticks: now_ticks,
                seq: 0,
            }),
    {
        Control {
            hold_alt: Meter(Single::from_i32(0)),
            alt_locked: false,
            last_est: None,
            last_ticks: now_ticks,
            seq: 0,
        }
    }

    /// The time since the last step.
    pub fn period(&mut self, now_ticks: u32) -> (dt: Second)
        ensures
            dt == Second(
                Single::of_int(elapsed(now_ticks, old(self).last_ticks)) / Single::of_int(1000),
            ),
            *final(self) == (Control { last_ticks: now_ticks, ..*old(self) }),
    {
        let d: u32 = now_ticks.wrapping_sub(self.last_ticks);
        self.last_ticks = now_ticks;
        let ms: u32 = if d < 1 {
            1
        } else if d > 50 {
            50
        } else {
            d
        };
        Second(Single::from_u64(ms as u64) / Single::from_i32(1000))
    }

    /// The estimated position, or the place where the altitude is held.
    pub open spec fn here(self) -> (Single, Single, Single) {
        match self.last_est {
            Some(e) => (e.pos[0].0, e.pos[1].0, e.pos[2].0),
            None => (Single::of_int(0), Single::of_int(0), self.hold_alt.0),
        }
    }

    /// What a mode wants. Landing keeps the place and descends. Returning flies to
    /// the origin at the held altitude and descends within a metre of it. Holding a
    /// position stays at the origin and lets the sticks nudge. All other modes fly
    /// by the sticks at an altitude around the held one that the throttle sets, and
    /// want the place that the present speed leads to within a quarter of a second.
    pub open spec fn target(self, mode: u16, rc: RcInput) -> Target {
        let zero = Single::of_int(0);
        let here = self.here();
        if mode == COPTER_MODE_LAND {
            Target { x: here.0, y: here.1, z: lower(here.2), vx: zero, vy: zero }
        } else if mode == COPTER_MODE_RTL {
            let far = (here.0 * here.0 + here.1 * here.1).root();
            Target {
                x: zero,
                y: zero,
                z: if far.less(Single::of_int(1)) {
                    lower(here.2)
                } else {
                    self.hold_alt.0
                },
                vx: zero,
                vy: zero,
            }
        } else if mode == COPTER_MODE_LOITER || mode == COPTER_MODE_GUIDED {
            Target {
                x: zero,
                y: zero,
                z: self.hold_alt.0,
                vx: rc.pitch * Single::of_ratio(3, 10),
                vy: rc.roll.negated() * Single::of_ratio(3, 10),
            }
        } else {
            let ahead = Single::of_ratio(25, 100);
            let climb = (rc.throttle - Single::of_ratio(1, 2)) * Single::of_int(2);
            Target {
                x: match self.last_est {
                    Some(e) => e.pos[0].0 + e.vel[0].0 * ahead,
                    None => zero,
                },
                y: match self.last_est {
                    Some(e) => e.pos[1].0 + e.vel[1].0 * ahead,
                    None => zero,
                },
                z: self.hold_alt.0 - climb * Single::of_int(2),
                vx: rc.pitch * Single::of_ratio(17, 10),
                vy: rc.roll.negated() * Single::of_ratio(17, 10),
            }
        }
    }

    /// The setpoint that a mode wants.
    pub fn mode_setpoint(&self, mode: u16, rc: &RcInput) -> (r: Setpoint)
        ensures
            ({
                let t = self.target(mode, *rc);
                &&& r.pos@ == seq![Meter(t.x), Meter(t.y), Meter(t.z)]
                &&& r.vel@ == seq![
                    MeterPerSecond(t.vx),
                    MeterPerSecond(t.vy),
                    MeterPerSecond(Single::of_int(0)),
                ]
                &&& r.acc@ == Seq::new(3, |i: int| MeterPerSecondSquared(Single::of_int(0)))
                &&& r.yaw == Radian(rc.yaw * Single::of_ratio(1, 2))
            }),
    {
        let zero: Single = Single::from_i32(0);
        let (hx, hy, hz) = match self.last_est {
            Some(e) => (e.pos[0].0, e.pos[1].0, e.pos[2].0),
            None => (zero, zero, self.hold_alt.0),
        };
        let (tx, ty, tz, vx, vy) = match mode {
            COPTER_MODE_LAND => (hx, hy, descend(hz), zero, zero),
            COPTER_MODE_RTL => {
                let horiz: Single = (hx * hx + hy * hy).sqrt();
                let tz: Single = if horiz < Single::from_i32(1) {
                    descend(hz)
                } else {
                    self.hold_alt.0
                };
                (zero, zero, tz, zero, zero)
            },
            COPTER_MODE_LOITER | COPTER_MODE_GUIDED => {
                let gain: Single = Single::ratio(3, 10);
                (zero, zero, self.hold_alt.0, rc.pitch * gain, rc.roll.negate() * gain)
            },
            _ => {
                let gain: Single = Single::ratio(17, 10);
                let ahead: Single = Single::ratio(25, 100);
                let two: Single = Single::from_i32(2);
                let climb: Single = (rc.throttle - Single::ratio(1, 2)) * two;
                let (px, py) = match self.last_est {
                    Some(e) => (
                        e.pos[0].0 + e.vel[0].0 * ahead,
                        e.pos[1].0 + e.vel[1].0 * ahead,
                    ),
                    None => (zero, zero),
                };
                (
                    px,
                    py,
                    self.hold_alt.0 - climb * two,
                    rc.pitch * gain,
                    rc.roll.negate() * gain,
                )
            },
        };
        let a: MeterPerSecondSquared = MeterPerSecondSquared(zero);
        let r = Setpoint {
            pos: [Meter(tx), Meter(ty), Meter(tz)],
            yaw: Radian(rc.yaw * Single::ratio(1, 2)),
            vel: [MeterPerSecond(vx), MeterPerSecond(vy), MeterPerSecond(zero)],
            acc: [a, a, a],
        };
        assert(r.pos@ =~= seq![r.pos[0], r.pos[1], r.pos[2]]);
        assert(r.vel@ =~= seq![r.vel[0], r.vel[1], r.vel[2]]);
        assert(r.acc@ =~= Seq::new(3, |i: int| MeterPerSecondSquared(Single::of_int(0))));
        r
    }

    /// The setpoint of the simulator, or, until it has sent one, to stay over the
    /// origin at the estimated altitude.
    pub fn hil_setpoint(&self, sp: &HilSetpoint) -> (r: Setpoint)
        ensures
            sp.valid ==> {
                &&& r.pos@ == sp.pos@.map_values(|x: Single| Meter(x))
                &&& r.vel@ == sp.vel@.map_values(|x: Single| MeterPerSecond(x))
                &&& r.acc@ == sp.acc@.map_values(|x: Single| MeterPerSecondSquared(x))
                &&& r.yaw == Radian(sp.yaw)
            },
            !sp.valid ==> {
                let zero = Single::of_int(0);
                let z = match self.last_est {
                    Some(e) => e.pos[2].0,
                    None => zero,
                };
                &&& r.pos@ == seq![Meter(zero), Meter(zero), Meter(z)]
                &&& r.vel@ == Seq::new(3, |i: int| MeterPerSecond(zero))
                &&& r.acc@ == Seq::new(3, |i: int| MeterPerSecondSquared(zero))
                &&& r.yaw == Radian(zero)
            },
    {
        if sp.valid {
            let r = Setpoint {
                pos: [Meter(sp.pos[0]), Meter(sp.pos[1]), Meter(sp.pos[2])],
                yaw: Radian(sp.yaw),
                vel: [
                    MeterPerSecond(sp.vel[0]),
                    MeterPerSecond(sp.vel[1]),
                    MeterPerSecond(sp.vel[2]),
                ],
                acc: [
                    MeterPerSecondSquared(sp.acc[0]),
                    MeterPerSecondSquared(sp.acc[1]),
                    MeterPerSecondSquared(sp.acc[2]),
                ],
            };
            assert(r.pos@ =~= sp.pos@.map_values(|x: Single| Meter(x)));
            assert(r.vel@ =~= sp.vel@.map_values(|x: Single| MeterPerSecond(x)));
            assert(r.acc@ =~= sp.acc@.map_values(|x: Single| MeterPerSecondSquared(x)));
            r
        } else {
            let zero: Single = Single::from_i32(0);
            let z: Single = match self.last_est {
                Some(e) => e.pos[2].0,
                None => zero,
            };
            let pos: [Meter; 3] = [Meter(zero), Meter(zero), Meter(z)];
            assert(pos@ =~= seq![pos[0], pos[1], pos[2]]);
            Setpoint::hover(pos, Radian(zero))
        }
    }
}

/// What one step of estimation and control works on.
#[derive(Clone, Copy, Debug)]
pub struct StepPlan {
    pub dt: Second,
    /// The readings.
    pub frame: SensorFrame,
    /// The sticks that count.
    pub rc: RcInput,
    /// Whether the motors are armed, by switch or by command.
    pub armed: bool,
    pub setpoint: Setpoint,
    pub setpoint_valid: bool,
    /// Whether the position loop is bypassed, where a mode decides that.
    pub rate_mode: Option<bool>,
}

impl Control {
    /// Prepares a step from the readings of the vehicle's own sensors.
    pub fn plan(
        &mut self,
        now_ticks: u32,
        frame: &SensorFrame,
        c: &Commands,
        channels: Option<[u16; 8]>,
    ) -> (r: StepPlan)
        ensures
            *final(self) == (Control { last_ticks: now_ticks, ..*old(self) }),
            r.dt == Second(
                Single::of_int(elapsed(now_ticks, old(self).last_ticks)) / Single::of_int(1000),
            ),
            r.frame == *frame,
            r.rc == effective_rc(frame.rc, channels),
            r.armed == (frame.armed || c.armed),
            ({
                let mode = ruling_mode(r.rc, *c);
                let t = old(self).target(mode, r.rc);
                &&& r.rate_mode == Some(is_rate_mode(mode))
                &&& r.setpoint.pos@ == seq![Meter(t.x), Meter(t.y), Meter(t.z)]
                &&& r.setpoint.vel@ == seq![
                    MeterPerSecond(t.vx),
                    MeterPerSecond(t.vy),
                    MeterPerSecond(Single::of_int(0)),
                ]
                &&& r.setpoint.acc@ == Seq::new(
                    3,
                    |i: int| MeterPerSecondSquared(Single::of_int(0)),
                )
                &&& r.setpoint.yaw == Radian(r.rc.yaw * Single::of_ratio(1, 2))
            }),
            r.setpoint_valid,
    {
        let dt: Second = self.period(now_ticks);
        let rc: RcInput = override_rc(frame.rc, channels);
        let mode: u16 = select_mode(&rc, c);
        let setpoint: Setpoint = self.mode_setpoint(mode, &rc);
        proof {
            let before = *old(self);
            let now = *self;
            assert(now.target(mode, rc) == before.target(mode, rc));
        }
        StepPlan {
            dt,
            frame: *frame,
            rc,
            armed: frame.armed || c.armed,
            setpoint,
            setpoint_valid: true,
            rate_mode: Some(mode == COPTER_MODE_STABILIZE || mode == COPTER_MODE_ALT_HOLD),
        }
    }

    /// Prepares a step from the readings of a simulator. The inertial readings are
    /// taken out of the frame, so that none is integrated twice.
    pub fn plan_hil(
        &mut self,
        now_ticks: u32,
        frame: &mut SensorFrame,
        c: &Commands,
        channels: Option<[u16; 8]>,
        sp: &HilSetpoint,
    ) -> (r: StepPlan)
        ensures
            *final(self) == (Control { last_ticks: now_ticks, ..*old(self) }),
            *final(frame) == (SensorFrame { imu: None, ..*old(frame) }),
            r.dt == Second(
                Single::of_int(elapsed(now_ticks, old(self).last_ticks)) / Single::of_int(1000),
            ),
            r.frame == *old(frame),
            r.rc == effective_rc(old(frame).rc, channels),
            r.armed == (old(frame).armed || c.armed),
            r.rate_mode is None,
            r.setpoint_valid == sp.valid,
            sp.valid ==> {
                &&& r.setpoint.pos@ == sp.pos@.map_values(|x: Single| Meter(x))
                &&& r.setpoint.vel@ == sp.vel@.map_values(|x: Single| MeterPerSecond(x))
                &&& r.setpoint.acc@ == sp.acc@.map_values(|x: Single| MeterPerSecondSquared(x))
                &&& r.setpoint.yaw == Radian(sp.yaw)
            },
            !sp.valid ==> {
                let zero = Single::of_int(0);
                let z = match old(self).last_est {
                    Some(e) => e.pos[2].0,
                    None => zero,
                };
                &&& r.setpoint.pos@ == seq![Meter(zero), Meter(zero), Meter(z)]
                &&& r.setpoint.vel@ == Seq::new(3, |i: int| MeterPerSecond(zero))
                &&& r.setpoint.acc@ == Seq::new(3, |i: int| MeterPerSecondSquared(zero))
                &&& r.setpoint.yaw == Radian(zero)
            },
    {
        let dt: Second = self.period(now_ticks);
        let taken: SensorFrame = *frame;
        frame.imu = None;
        StepPlan {
            dt,
            frame: taken,
            rc: override_rc(taken.rc, channels),
            armed: taken.armed || c.armed,
            setpoint: self.hil_setpoint(sp),
            setpoint_valid: sp.valid,
            rate_mode: None,
        }
    }
}

/// The share of a pulse period that a motor is driven, in timer ticks: 1000 to 2000
/// microseconds out of 2500.
pub open spec fn duty(motor: Single, period_ticks: u32) -> int {
    let m = motor.clamped(Single::of_int(0), Single::of_int(1));
    let us = Single::of_int(1000) + Single::of_int(1000) * m;
    (us * Single::of_int(period_ticks as int) / Single::of_int(2500)).saturated(
        0,
        u32::MAX as int,
    )
}

pub fn duty_ticks(motor: Single, period_ticks: u32) -> (r: u32)
    ensures
        r == duty(motor, period_ticks),
{
    let m: Single = motor.clamp(Single::from_i32(0), Single::from_i32(1));
    let us: Single = Single::from_i32(1000) + Single::from_i32(1000) * m;
    (us * Single::from_u64(period_ticks as u64) / Single::from_i32(2500)).to_u32()
}

/// The mean of the motors, in percent.
pub open spec fn mean_percent(motor: Seq<Single>) -> int {
    (((motor[0] + motor[1] + motor[2] + motor[3]) / Single::of_int(4)).clamped(
        Single::of_int(0),
        Single::of_int(1),
    ) * Single::of_int(100)).saturated(0, 255)
}

pub fn throttle_percent(cmd: &ActuatorCmd) -> (r: u8)
    ensures
        r == mean_percent(cmd.motor@),
{
    let avg: Single = (cmd.motor[0] + cmd.motor[1] + cmd.motor[2] + cmd.motor[3])
        / Single::from_i32(4);
    (avg.clamp(Single::from_i32(0), Single::from_i32(1)) * Single::from_i32(100)).to_u8()
}

/// What a step puts out.
#[derive(Clone, Copy, Debug)]
pub struct StepOutput {
    pub ticks: [u32; 4],
    pub throttle_pct: u8,
    /// Whether to log the estimate.
    pub log_estimate: bool,
    /// Whether to log that the task is alive.
    pub log_alive: bool,
}

impl Control {
    /// The altitude to hold after a step: that of the estimate when the motors have
    /// just been armed.
    pub open spec fn settled(self, armed: bool, est: VehicleState) -> Control {
        Control {
            hold_alt: if armed && !self.alt_locked {
                est.pos[2]
            } else {
                self.hold_alt
            },
            alt_locked: armed,
            last_est: Some(est),
            last_ticks: self.last_ticks,
            seq: if self.seq == u32::MAX {
                0
            } else {
                (self.seq + 1) as u32
            },
        }
    }

    /// Finishes a step with its estimate and motor command.
    pub fn finish(
        &mut self,
        armed: bool,
        est: &VehicleState,
        cmd: &ActuatorCmd,
        periods: &[u32; 4],
    ) -> (r: StepOutput)
        ensures
            *final(self) == old(self).settled(armed, *est),
            r.ticks@ == Seq::new(4, |i: int| duty(cmd.motor[i], periods[i]) as u32),
            r.throttle_pct == mean_percent(cmd.motor@),
            r.log_estimate == (final(self).seq % 25 == 0),
            r.log_alive == (final(self).seq % 250 == 0),
    {
        self.last_est = Some(*est);
        if armed && !self.alt_locked {
            self.hold_alt = est.pos[2];
            self.alt_locked = true;
        } else if !armed {
            self.alt_locked = false;
        }
        let ticks: [u32; 4] = [
            duty_ticks(cmd.motor[0], periods[0]),
            duty_ticks(cmd.motor[1], periods[1]),
            duty_ticks(cmd.motor[2], periods[2]),
            duty_ticks(cmd.motor[3], periods[3]),
        ];
        assert(ticks@ =~= Seq::new(4, |i: int| duty(cmd.motor[i], periods[i]) as u32));
        self.seq = self.seq.wrapping_add(1);
        StepOutput {
            ticks,
            throttle_pct: throttle_percent(cmd),
            log_estimate: self.seq % 25 == 0,
            log_alive: self.seq % 250 == 0,
        }
    }
}

/// While the motors stay armed, the altitude to hold stays that of arming.
pub proof fn law_held_altitude_stays(c: Control, first: VehicleState, later: VehicleState)
    ensures
        c.settled(true, first).settled(true, later).hold_alt == c.settled(true, first).hold_alt,
        !c.alt_locked ==> c.settled(true, first).hold_alt == first.pos[2],
        c.settled(false, first).settled(true, later).hold_alt == later.pos[2],
{
}

/// The pilot's switch rules as long as the signal is fresh, whatever was commanded.
pub proof fn law_pilot_rules(rc: RcInput, a: Commands, b: Commands)
    requires
        rc.fresh,
    ensures
        ruling_mode(rc, a) == ruling_mode(rc, b),
{
}

/// A task that hangs or a clock that wraps never gives a step outside of one to
/// fifty milliseconds.
pub proof fn law_step_time_bounded(now: u32, last: u32)
    ensures
        1 <= elapsed(now, last) <= 50,
{
}

/// The pulse of a motor as a number of timer ticks before it is cut to an integer.
pub open spec fn pulse(m: Single, period_ticks: u32) -> Single {
    (Single::of_int(1000) + Single::of_int(1000) * m) * Single::of_int(period_ticks as int)
        / Single::of_int(2500)
}

/// A larger command makes no shorter pulse.
proof fn lemma_pulse_order(a: Single, b: Single, period_ticks: u32)
    requires
        a.less_eq(b),
        crate::single::laws::within(a, 0),
        crate::single::laws::within(b, 0),
    ensures
        pulse(a, period_ticks).less_eq(pulse(b, period_ticks)),
{
    let k = Single::of_int(1000);
    let p = Single::of_int(period_ticks as int);
    let d = Single::of_int(2500);
    vstd::arithmetic::power2::lemma2_to64();
    crate::single::laws::law_integer_within(1000, 10);
    crate::single::laws::law_integer_within(2500, 12);
    crate::single::laws::law_integer_within(period_ticks as int, 32);
    crate::single::laws::law_product_within(k, a, 10, 0);
    crate::single::laws::law_product_within(k, b, 10, 0);
    crate::single::laws::law_sum_within(k, k * a, 10);
    crate::single::laws::law_sum_within(k, k * b, 10);
    crate::single::laws::law_product_within(k + k * a, p, 11, 32);
    crate::single::laws::law_product_within(k + k * b, p, 11, 32);
    crate::single::laws::lemma_within_is_finite(a, 0);
    crate::single::laws::lemma_within_is_finite(b, 0);
    crate::single::laws::law_product_commutes(k, a);
    crate::single::laws::law_product_commutes(k, b);
    crate::single::laws::law_product_keeps_order(a, b, k);
    crate::single::laws::law_sum_commutes(k, k * a);
    crate::single::laws::law_sum_commutes(k, k * b);
    crate::single::laws::law_sum_keeps_order(k * a, k * b, k);
    crate::single::laws::law_product_keeps_order(k + k * a, k + k * b, p);
    crate::single::laws::lemma_one_magnitude();
    crate::single::laws::law_integers_keep_order(1, 2500);
    crate::single::laws::law_quotient_keeps_order((k + k * a) * p, (k + k * b) * p, d);
}

/// Every motor command, however large or small, makes a pulse between that of an idle and
/// that of a full motor.
pub proof fn law_pulse_within_range(motor: Single, period_ticks: u32)
    requires
        !motor.nan(),
    ensures
        duty(Single::of_int(0), period_ticks) <= duty(motor, period_ticks),
        duty(motor, period_ticks) <= duty(Single::of_int(1), period_ticks),
{
    let zero = Single::of_int(0);
    let one = Single::of_int(1);
    let m = motor.clamped(zero, one);
    crate::single::arith::lemma_small_ints();
    crate::single::number::law_clamp_bounds(motor, zero, one);
    vstd::arithmetic::power2::lemma2_to64();
    crate::single::laws::law_integer_within(0, 0);
    crate::single::laws::law_integer_within(1, 0);
    assert(crate::single::laws::within(m, 0));
    lemma_pulse_order(zero, m, period_ticks);
    lemma_pulse_order(m, one, period_ticks);
    let top = u32::MAX as int;
    crate::single::laws::law_saturation_keeps_order(
        pulse(zero, period_ticks),
        pulse(m, period_ticks),
        0,
        top,
    );
    crate::single::laws::law_saturation_keeps_order(
        pulse(m, period_ticks),
        pulse(one, period_ticks),
        0,
        top,
    );
}

/// Landing never climbs and never aims below the ground.
pub proof fn law_landing_never_climbs(z: Single)
    requires
        z.less_eq(Single::of_int(0)),
    ensures
        z.less_eq(lower(z)),
        lower(z).less_eq(Single::of_int(0)),
{
    let step = Single::of_ratio(2, 100);
    let zero = Single::of_int(0);
    crate::single::arith::lemma_small_ints();
    crate::single::laws::law_ratio_is_positive(2, 100);
    crate::single::laws::law_zero_is_neutral(z);
    crate::single::laws::law_sum_commutes(z, zero);
    crate::single::laws::law_sum_commutes(z, step);
    crate::single::laws::law_sum_of_finite(step, z);
    crate::single::laws::law_sum_of_finite(zero, z);
    crate::single::laws::law_sum_keeps_order(zero, step, z);
}

/// The mean throttle is never above a hundred percent.
pub proof fn law_percent_bounded(motor: Seq<Single>)
    ensures
        0 <= mean_percent(motor) <= 100,
{
    let zero = Single::of_int(0);
    let one = Single::of_int(1);
    let hundred = Single::of_int(100);
    let mean = (motor[0] + motor[1] + motor[2] + motor[3]) / Single::of_int(4);
    let m = mean.clamped(zero, one);
    crate::single::arith::lemma_small_ints();
    if mean.nan() {
        assert((m * hundred).nan()) by {
            reveal(Single::product);
        }
    } else {
        crate::single::number::law_clamp_bounds(mean, zero, one);
        vstd::arithmetic::power2::lemma2_to64();
        crate::single::laws::law_integer_within(0, 0);
        crate::single::laws::law_integer_within(1, 0);
        crate::single::laws::law_integer_within(100, 7);
        crate::single::laws::lemma_within_is_finite(m, 0);
        crate::single::laws::law_product_keeps_order(zero, m, hundred);
        crate::single::laws::law_product_keeps_order(m, one, hundred);
        crate::single::laws::law_product_commutes(one, hundred);
        crate::single::laws::law_one_is_neutral(hundred);
        crate::single::laws::law_saturation_keeps_order(m * hundred, hundred, 0, 255);
        crate::single::laws::law_small_integers_exact(100);
    }
}

/// A channel grows with its pulse, from zero at the shortest to one at the longest; an eighth
/// of the range is an eighth.
pub proof fn law_channel_follows_pulse(less: u16, more: u16, k: int)
    requires
        less <= more,
        0 <= k <= 8,
    ensures
        channel(less).less_eq(channel(more)),
        crate::single::exact::worth(channel((1000 + 125 * k) as u16), k, 3),
{
    let t = Single::of_int(1000);
    let z = Single::of_int(0);
    let one = Single::of_int(1);
    let (a, b) = (Single::of_int(less as int), Single::of_int(more as int));
    crate::single::exact::law_integer_worth(less as int);
    crate::single::exact::law_integer_worth(more as int);
    crate::single::exact::law_integer_worth(1000);
    crate::single::exact::law_integer_worth(1000 + 125 * k);
    crate::single::exact::law_integer_worth(0);
    crate::single::exact::law_integer_worth(1);
    crate::single::exact::law_worth_order(z, t, 0, 1000, 0);
    crate::single::exact::law_worth_order(z, one, 0, 1, 0);
    crate::single::exact::law_worth_difference(a, t, less as int, 1000, 0);
    crate::single::exact::law_worth_difference(b, t, more as int, 1000, 0);
    crate::single::exact::law_worth_order(a - t, b - t, less - 1000, more - 1000, 0);
    crate::single::signs::law_quotient_order(true, a - t, b - t, t);
    crate::single::signs::law_clamp_order(true, (a - t) / t, (b - t) / t, z, one);
    let c = Single::of_int(1000 + 125 * k);
    crate::single::exact::law_worth_difference(c, t, 1000 + 125 * k, 1000, 0);
    let x = c - t;
    crate::single::exact::law_worth_finer(x, 125 * k, 0);
    crate::single::exact::law_worth_finer(x, 2 * (125 * k), 1);
    crate::single::exact::law_worth_finer(x, 2 * (2 * (125 * k)), 2);
    crate::single::exact::law_worth_quotient(x, t, k, 1000, 3, 0);
    vstd::arithmetic::power2::lemma2_to64();
    crate::single::exact::law_worth_finer_to(z, 0, 0, 3);
    crate::single::exact::law_worth_finer_to(one, 1, 0, 3);
    crate::single::exact::law_worth_order(x / t, z, k, 0, 3);
    crate::single::exact::law_worth_order(one, x / t, 8, k, 3);
}

/// A positive share.
proof fn lemma_share_points(x: Single, num: nat, den: nat, up: bool)
    requires
        crate::single::laws::within(x, 20),
        crate::single::signs::toward(up, x),
        0 < den,
        num <= 2 * den,
    ensures
        crate::single::signs::toward(up, x * Single::of_ratio(num as int, den)),
{
    let p = vstd::arithmetic::power2::pow2(149);
    let c = Single::of_ratio(num as int, den);
    vstd::arithmetic::power2::lemma2_to64();
    vstd::arithmetic::power2::lemma_pow2_adds(149, 1);
    crate::single::arith::lemma_small_ints();
    assert(num * p <= (2 * p) * den) by (nonlinear_arith)
        requires
            num <= 2 * den,
            p >= 0,
    ;
    crate::single::laws::lemma_nearest_within(num * p, den, 1);
    reveal(Single::of_ratio);
    crate::single::laws::lemma_packed(false, crate::single::rounding::nearest(num * p, den));
    crate::single::laws::lemma_within_is_finite(c, 1);
    crate::single::laws::lemma_within_is_finite(x, 20);
    crate::single::signs::law_product_points(up, x, c);
}

/// The sticks fly the vehicle their way: the pitch stick sets the speed to the north, the roll
/// stick the speed to the west, in every mode that looks at them. More throttle never wants
/// the vehicle lower, and a vehicle that moves wants a place ahead of it.
pub proof fn law_sticks_lead_their_way(
    c: Control,
    mode: u16,
    rc: RcInput,
    throttle: Single,
    est: VehicleState,
    i: int,
    up: bool,
)
    requires
        i == 0 || i == 1,
        mode != COPTER_MODE_LAND,
        mode != COPTER_MODE_RTL,
        c.last_est == Some(est),
        crate::single::laws::within(rc.pitch, 20),
        crate::single::laws::within(rc.roll, 20),
        crate::single::laws::within(rc.throttle, 20),
        crate::single::laws::within(throttle, 20),
        crate::single::signs::ahead(up, rc.throttle, throttle),
        c.hold_alt.0.finite(),
        est.pos[i].0.finite(),
        crate::single::laws::within(est.vel[i].0, 20),
        crate::single::signs::toward(up, est.vel[i].0),
    ensures
        ({
            let t = c.target(mode, rc);
            &&& crate::single::signs::toward(up, rc.pitch) ==> crate::single::signs::toward(up, t.vx)
            &&& crate::single::signs::toward(up, rc.roll) ==> crate::single::signs::toward(
                !up,
                t.vy,
            )
            &&& crate::single::signs::ahead(
                !up,
                t.z,
                c.target(mode, RcInput { throttle, ..rc }).z,
            )
            &&& mode != COPTER_MODE_LOITER && mode != COPTER_MODE_GUIDED
                ==> crate::single::signs::ahead(
                up,
                est.pos[i].0,
                if i == 0 {
                    t.x
                } else {
                    t.y
                },
            )
        }),
{
    let half = Single::of_ratio(1, 2);
    let two = Single::of_int(2);
    let z = Single::of_int(0);
    vstd::arithmetic::power2::lemma2_to64();
    crate::single::arith::lemma_small_ints();
    crate::single::signs::lemma_negated(rc.roll);
    if crate::single::signs::toward(up, rc.pitch) {
        lemma_share_points(rc.pitch, 3, 10, up);
        lemma_share_points(rc.pitch, 17, 10, up);
    }
    if crate::single::signs::toward(up, rc.roll) {
        crate::single::signs::law_negated_points_back(up, rc.roll);
        lemma_share_points(rc.roll.negated(), 3, 10, !up);
        lemma_share_points(rc.roll.negated(), 17, 10, !up);
    }
    crate::single::laws::law_ratio_is_positive(1, 2);
    crate::single::signs::law_within_more(half, 0, 20);
    crate::single::laws::law_integer_within(2, 1);
    crate::single::exact::law_integer_worth(2);
    crate::single::exact::law_integer_worth(0);
    crate::single::exact::law_worth_order(z, two, 0, 2, 0);
    let (a, b) = (rc.throttle - half, throttle - half);
    crate::single::signs::law_difference_order(up, rc.throttle, throttle, half);
    crate::single::signs::law_difference_within(rc.throttle, half, 20);
    crate::single::signs::law_difference_within(throttle, half, 20);
    crate::single::signs::law_product_order(up, a, b, two);
    crate::single::laws::law_product_within(a, two, 21, 1);
    crate::single::laws::law_product_within(b, two, 21, 1);
    crate::single::signs::law_product_order(up, a * two, b * two, two);
    crate::single::signs::law_difference_order(
        up,
        a * two * two,
        b * two * two,
        c.hold_alt.0,
    );
    crate::single::signs::law_sum_moves(true, c.hold_alt.0, z);
    lemma_share_points(est.vel[i].0, 25, 100, up);
    crate::single::signs::law_sum_moves(
        up,
        est.pos[i].0,
        est.vel[i].0 * Single::of_ratio(25, 100),
    );
}

/// The pulse of a motor is a share of the step from the shortest to the longest: one
/// millisecond and the command in milliseconds, counted in the ticks of two and a half; here
/// for eighths.
pub proof fn law_pulse_is_share(motor: Single, k: int, n: int)
    requires
        crate::single::exact::worth(motor, k, 3),
        0 <= k <= 8,
        0 <= n <= 3,
    ensures
        duty(motor, (2500 * n) as u32) == (1000 + 125 * k) * n,
{
    let z = Single::of_int(0);
    let one = Single::of_int(1);
    let t = Single::of_int(1000);
    let ticks = (2500 * n) as u32;
    let p = Single::of_int(ticks as int);
    let c = Single::of_int(2500);
    vstd::arithmetic::power2::lemma2_to64();
    crate::single::exact::law_integer_worth(0);
    crate::single::exact::law_integer_worth(1);
    crate::single::exact::law_integer_worth(1000);
    crate::single::exact::law_integer_worth(2500);
    crate::single::exact::law_integer_worth(2500 * n);
    crate::single::exact::law_worth_finer_to(z, 0, 0, 3);
    crate::single::exact::law_worth_finer_to(one, 1, 0, 3);
    crate::single::exact::law_worth_order(motor, z, k, 0, 3);
    crate::single::exact::law_worth_order(one, motor, 8, k, 3);
    let m = motor.clamped(z, one);
    assert(m == motor);
    crate::single::exact::law_worth_product(t, m, 1000, k, 0, 3);
    let q = vstd::arithmetic::power2::pow2(149) as int;
    let r = vstd::arithmetic::power2::pow2(146) as int;
    vstd::arithmetic::power2::lemma_pow2_adds(3, 146);
    assert(1000 * k * r == 125 * k * (8 * r)) by (nonlinear_arith);
    assert(crate::single::exact::worth(t * m, 125 * k, 0));
    crate::single::exact::law_worth_sum(t, t * m, 1000, 125 * k, 0);
    let us = t + t * m;
    let w = 1000 + 125 * k;
    assert(0 <= w * (2500 * n) <= 0x100_0000) by (nonlinear_arith)
        requires
            1000 <= w <= 2000,
            0 <= n <= 3,
    ;
    crate::single::exact::law_worth_product(us, p, w, 2500 * n, 0, 0);
    assert(w * (2500 * n) == (w * n) * 2500) by (nonlinear_arith);
    assert(0 <= w * n <= 6000) by (nonlinear_arith)
        requires
            1000 <= w <= 2000,
            0 <= n <= 3,
    ;
    crate::single::exact::law_worth_quotient(us * p, c, w * n, 2500, 0, 0);
    lemma_saturated_whole(us * p / c, w * n);
}

/// An integer of ordinary size is itself when taken as an integer.
proof fn lemma_saturated_whole(x: Single, n: int)
    requires
        crate::single::exact::worth(x, n, 0),
        0 <= n <= 0x10_0000,
    ensures
        x.saturated(0, u32::MAX as int) == n,
        n <= 255 ==> x.saturated(0, 255) == n,
{
    let p = vstd::arithmetic::power2::pow2(149) as int;
    vstd::arithmetic::power2::lemma_pow2_pos(149);
    assert((n * p) / p == n) by (nonlinear_arith)
        requires
            p > 0,
    ;
    assert(n * p >= 0) by (nonlinear_arith)
        requires
            n >= 0,
            p > 0,
    ;
}

/// The throttle in percent is the mean of the motors; here for quarters.
pub proof fn law_percent_is_mean(motor: Seq<Single>, k: int)
    requires
        0 <= k <= 4,
        forall|i: int| 0 <= i < 4 ==> crate::single::exact::worth(#[trigger] motor[i], k, 2),
    ensures
        mean_percent(motor) == 25 * k,
{
    let z = Single::of_int(0);
    let one = Single::of_int(1);
    let four = Single::of_int(4);
    let h = Single::of_int(100);
    vstd::arithmetic::power2::lemma2_to64();
    crate::single::exact::law_integer_worth(0);
    crate::single::exact::law_integer_worth(1);
    crate::single::exact::law_integer_worth(4);
    crate::single::exact::law_integer_worth(100);
    assert(crate::single::exact::worth(motor[0], k, 2) && crate::single::exact::worth(
        motor[1],
        k,
        2,
    ) && crate::single::exact::worth(motor[2], k, 2) && crate::single::exact::worth(
        motor[3],
        k,
        2,
    ));
    crate::single::exact::law_worth_sum(motor[0], motor[1], k, k, 2);
    crate::single::exact::law_worth_sum(motor[0] + motor[1], motor[2], 2 * k, k, 2);
    let s = motor[0] + motor[1] + motor[2] + motor[3];
    crate::single::exact::law_worth_sum(
        motor[0] + motor[1] + motor[2],
        motor[3],
        3 * k,
        k,
        2,
    );
    crate::single::exact::law_worth_quotient(s, four, k, 4, 2, 0);
    let m = s / four;
    crate::single::exact::law_worth_finer_to(z, 0, 0, 2);
    crate::single::exact::law_worth_finer_to(one, 1, 0, 2);
    crate::single::exact::law_worth_order(m, z, k, 0, 2);
    crate::single::exact::law_worth_order(one, m, 4, k, 2);
    crate::single::exact::law_worth_product(m, h, k, 100, 2, 0);
    let r = vstd::arithmetic::power2::pow2(147) as int;
    vstd::arithmetic::power2::lemma_pow2_adds(2, 147);
    assert(k * 100 * r == 25 * k * (4 * r)) by (nonlinear_arith);
    assert(crate::single::exact::worth(m * h, 25 * k, 0));
    lemma_saturated_whole(m * h, 25 * k);
}

} // verus!
