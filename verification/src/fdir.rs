//! Fault detection, isolation and recovery.
//!
//! Watches the sensors for a frozen inertial unit and for lost position, altitude
//! and heading sources, and grades the health of the vehicle from that.

use crate::single::Single;
use crate::units::Meter;
use crate::vehicle::{ImuSample, Ned};
use vstd::prelude::*;

verus! {

#[derive(Clone, Copy, Debug, PartialEq, Eq, Structural)]
pub enum Health {
    Nominal,
    /// A sensor that is not vital has failed; the vehicle can still be controlled.
    Degraded,
    /// A vital sensor has failed; the vehicle must go to a safe mode.
    Critical,
}

/// Which source has failed.
#[derive(Clone, Copy, Debug, PartialEq, Eq, Structural)]
pub struct HealthFlags {
    pub imu_frozen: bool,
    pub gps_lost: bool,
    pub baro_lost: bool,
    pub mag_lost: bool,
}

impl HealthFlags {
    pub fn all_ok() -> (r: HealthFlags)
        ensures
            r == (HealthFlags {
                imu_frozen: false,
                gps_lost: false,
                baro_lost: false,
                mag_lost: false,
            }),
    {
        HealthFlags { imu_frozen: false, gps_lost: false, baro_lost: false, mag_lost: false }
    }

    /// Whether the altitude can still be estimated: the inertial unit or the
    /// barometer is at work.
    pub fn has_altitude(&self) -> (r: bool)
        ensures
            r == !(self.imu_frozen && self.baro_lost),
    {
        !self.imu_frozen || !self.baro_lost
    }

    /// Whether the heading can still be estimated: the inertial unit or the
    /// magnetometer is at work.
    pub fn has_heading(&self) -> (r: bool)
        ensures
            r == !(self.imu_frozen && self.mag_lost),
    {
        !self.imu_frozen || !self.mag_lost
    }

    /// Whether the horizontal position can still be estimated: both the receiver
    /// and the inertial unit are at work.
    pub fn has_position(&self) -> (r: bool)
        ensures
            r == (!self.imu_frozen && !self.gps_lost),
    {
        !self.imu_frozen && !self.gps_lost
    }

    /// The health that the failed sources amount to.
    pub open spec fn grade(self) -> Health {
        if self.imu_frozen {
            Health::Critical
        } else if self.gps_lost || self.baro_lost || self.mag_lost {
            Health::Degraded
        } else {
            Health::Nominal
        }
    }
}

/// Steps without a position fix after which it counts as lost.
pub const GPS_TIMEOUT: u32 = 40;

/// Steps without the barometer after which it counts as lost.
pub const BARO_TIMEOUT: u32 = 80;

/// Steps without the magnetometer after which it counts as lost.
pub const MAG_TIMEOUT: u32 = 80;

/// Steps of an unchanged implausible reading after which the inertial unit counts
/// as frozen.
pub const IMU_STALE_TIMEOUT: u32 = 20;

/// The counters behind the health.
pub struct FdirState {
    pub gps_lost_steps: nat,
    pub baro_lost_steps: nat,
    pub mag_lost_steps: nat,
    pub imu_stale_steps: nat,
    pub last_acc: Seq<Single>,
    pub health: Health,
    pub flags: HealthFlags,
}

/// The length of a vector of three.
pub open spec fn norm3(a: Seq<Single>) -> Single {
    (a[0] * a[0] + a[1] * a[1] + a[2] * a[2]).root()
}

/// Whether a reading looks frozen: it repeats the last one, and its length is
/// outside of what a vehicle at rest or in ordinary flight measures. A steady
/// hover repeats readings too, but near the force of gravity.
pub open spec fn looks_frozen(a: Seq<Single>, last: Seq<Single>) -> bool {
    &&& norm3(a).less(Single::of_int(6)) || Single::of_int(14).less(norm3(a))
    &&& a[0].same(last[0])
    &&& a[1].same(last[1])
    &&& a[2].same(last[2])
}

/// A counter of consecutive steps, held at its top.
pub open spec fn count_step(steps: nat, happened: bool) -> nat {
    if !happened {
        0
    } else if steps < u32::MAX {
        steps + 1
    } else {
        u32::MAX as nat
    }
}

impl FdirState {
    pub open spec fn initial() -> FdirState {
        FdirState {
            gps_lost_steps: 0,
            baro_lost_steps: 0,
            mag_lost_steps: 0,
            imu_stale_steps: 0,
            last_acc: seq![Single::of_int(0), Single::of_int(0), Single::of_int(0)],
            health: Health::Nominal,
            flags: HealthFlags {
                imu_frozen: false,
                gps_lost: false,
                baro_lost: false,
                mag_lost: false,
            },
        }
    }

    pub open spec fn next(
        self,
        acc: Seq<Single>,
        pos_available: bool,
        baro_available: bool,
        mag_available: bool,
    ) -> FdirState {
        let imu_stale_steps = count_step(self.imu_stale_steps, looks_frozen(acc, self.last_acc));
        let gps_lost_steps = count_step(self.gps_lost_steps, !pos_available);
        let baro_lost_steps = count_step(self.baro_lost_steps, !baro_available);
        let mag_lost_steps = count_step(self.mag_lost_steps, !mag_available);
        let flags = HealthFlags {
            imu_frozen: imu_stale_steps >= IMU_STALE_TIMEOUT,
            gps_lost: gps_lost_steps >= GPS_TIMEOUT,
            baro_lost: baro_lost_steps >= BARO_TIMEOUT,
            mag_lost: mag_lost_steps >= MAG_TIMEOUT,
        };
        FdirState {
            gps_lost_steps,
            baro_lost_steps,
            mag_lost_steps,
            imu_stale_steps,
            last_acc: acc,
            health: flags.grade(),
            flags,
        }
    }
}

/// The accelerometer reading as plain numbers.
pub open spec fn acc_of(imu: ImuSample) -> Seq<Single> {
    seq![imu.accel[0].0, imu.accel[1].0, imu.accel[2].0]
}

/// The health monitor.
pub struct Fdir {
    gps_lost_steps: u32,
    baro_lost_steps: u32,
    mag_lost_steps: u32,
    last_acc: [Single; 3],
    imu_stale_steps: u32,
    health: Health,
    flags: HealthFlags,
}

impl View for Fdir {
    type V = FdirState;

    closed spec fn view(&self) -> FdirState {
        FdirState {
            gps_lost_steps: self.gps_lost_steps as nat,
            baro_lost_steps: self.baro_lost_steps as nat,
            mag_lost_steps: self.mag_lost_steps as nat,
            imu_stale_steps: self.imu_stale_steps as nat,
            last_acc: self.last_acc@,
            health: self.health,
            flags: self.flags,
        }
    }
}

fn count(steps: u32, happened: bool) -> (r: u32)
    ensures
        r == count_step(steps as nat, happened),
{
    if happened {
        steps.saturating_add(1)
    } else {
        0
    }
}

impl Fdir {
    pub fn new() -> (r: Fdir)
        ensures
            r@ == FdirState::initial(),
    {
        let z: Single = Single::from_i32(0);
        let r = Fdir {
            gps_lost_steps: 0,
            baro_lost_steps: 0,
            mag_lost_steps: 0,
            last_acc: [z, z, z],
            imu_stale_steps: 0,
            health: Health::Nominal,
            flags: HealthFlags::all_ok(),
        };
        assert(r.last_acc@ =~= FdirState::initial().last_acc);
        r
    }

    /// Takes in one step of readings and returns the health.
    pub fn update(
        &mut self,
        imu: &ImuSample,
        pos_available: bool,
        baro_available: bool,
        mag_available: bool,
    ) -> (r: Health)
        ensures
            final(self)@ == old(self)@.next(
                acc_of(*imu),
                pos_available,
                baro_available,
                mag_available,
            ),
            r == final(self)@.health,
    {
        let a: [Single; 3] = [imu.accel[0].0, imu.accel[1].0, imu.accel[2].0];
        assert(a@ =~= acc_of(*imu));
        let norm: Single = (a[0] * a[0] + a[1] * a[1] + a[2] * a[2]).sqrt();
        let frozen: bool = (norm < Single::from_i32(6) || norm > Single::from_i32(14)) && a[0]
            == self.last_acc[0] && a[1] == self.last_acc[1] && a[2] == self.last_acc[2];
        self.imu_stale_steps = count(self.imu_stale_steps, frozen);
        self.last_acc = a;
        self.gps_lost_steps = count(self.gps_lost_steps, !pos_available);
        self.baro_lost_steps = count(self.baro_lost_steps, !baro_available);
        self.mag_lost_steps = count(self.mag_lost_steps, !mag_available);
        self.flags = HealthFlags {
            imu_frozen: self.imu_stale_steps >= IMU_STALE_TIMEOUT,
            gps_lost: self.gps_lost_steps >= GPS_TIMEOUT,
            baro_lost: self.baro_lost_steps >= BARO_TIMEOUT,
            mag_lost: self.mag_lost_steps >= MAG_TIMEOUT,
        };
        if self.flags.imu_frozen {
            self.health = Health::Critical;
        } else if self.flags.gps_lost {
            self.health = Health::Degraded;
        } else if self.flags.baro_lost || self.flags.mag_lost {
            self.health = Health::Degraded;
        } else {
            self.health = Health::Nominal;
        }
        self.health
    }

    pub fn health(&self) -> (r: Health)
        ensures
            r == self@.health,
    {
        self.health
    }

    /// The failed sources.
    pub fn flags(&self) -> (r: HealthFlags)
        ensures
            r == self@.flags,
    {
        self.flags
    }

    /// The steps after which each source counts as lost: position, barometer,
    /// magnetometer, inertial unit.
    pub fn timeouts(&self) -> (r: (u32, u32, u32, u32))
        ensures
            r == (GPS_TIMEOUT, BARO_TIMEOUT, MAG_TIMEOUT, IMU_STALE_TIMEOUT),
    {
        (GPS_TIMEOUT, BARO_TIMEOUT, MAG_TIMEOUT, IMU_STALE_TIMEOUT)
    }

    /// Whether anything has failed.
    pub fn degraded(&self) -> (r: bool)
        ensures
            r == !(self@.health is Nominal),
    {
        self.health != Health::Nominal
    }

    /// Whether a vital sensor has failed.
    pub fn critical(&self) -> (r: bool)
        ensures
            r == (self@.health is Critical),
    {
        self.health == Health::Critical
    }
}

impl Default for Fdir {
    fn default() -> (r: Fdir)
        ensures
            r@ == FdirState::initial(),
    {
        Fdir::new()
    }
}

/// One step with every source at work and a plausible or changed reading brings
/// the health back to nominal from any state.
pub proof fn law_recovers_in_one_step(s: FdirState, acc: Seq<Single>)
    requires
        !looks_frozen(acc, s.last_acc),
    ensures
        s.next(acc, true, true, true).health is Nominal,
        s.next(acc, true, true, true).flags == FdirState::initial().flags,
{
}

/// Loss of position alone is never critical.
pub proof fn law_position_loss_is_not_critical(
    s: FdirState,
    acc: Seq<Single>,
    baro_available: bool,
    mag_available: bool,
)
    requires
        !looks_frozen(acc, s.last_acc),
    ensures
        !(s.next(acc, false, baro_available, mag_available).health is Critical),
{
}

/// A reading whose length is that of gravity in ordinary flight never counts as
/// frozen, however often it repeats.
pub proof fn law_steady_hover_is_not_frozen(
    s: FdirState,
    acc: Seq<Single>,
    pos_available: bool,
    baro_available: bool,
    mag_available: bool,
)
    requires
        !norm3(acc).less(Single::of_int(6)),
        !Single::of_int(14).less(norm3(acc)),
    ensures
        !s.next(acc, pos_available, baro_available, mag_available).flags.imu_frozen,
{
}

/// The state after `n` steps with the same readings.
pub open spec fn repeated(
    s: FdirState,
    acc: Seq<Single>,
    pos: bool,
    baro: bool,
    mag: bool,
    n: nat,
) -> FdirState
    decreases n,
{
    if n == 0 {
        s
    } else {
        repeated(s, acc, pos, baro, mag, (n - 1) as nat).next(acc, pos, baro, mag)
    }
}

proof fn lemma_repeated_counts(
    s: FdirState,
    acc: Seq<Single>,
    pos: bool,
    baro: bool,
    mag: bool,
    n: nat,
)
    requires
        s.gps_lost_steps + n <= u32::MAX,
        s.baro_lost_steps + n <= u32::MAX,
        s.mag_lost_steps + n <= u32::MAX,
    ensures
        ({
            let t = repeated(s, acc, pos, baro, mag, n);
            &&& !pos ==> t.gps_lost_steps == s.gps_lost_steps + n
            &&& pos && n > 0 ==> t.gps_lost_steps == 0
            &&& !baro ==> t.baro_lost_steps == s.baro_lost_steps + n
            &&& baro && n > 0 ==> t.baro_lost_steps == 0
            &&& !mag ==> t.mag_lost_steps == s.mag_lost_steps + n
            &&& mag && n > 0 ==> t.mag_lost_steps == 0
        }),
    decreases n,
{
    if n > 0 {
        lemma_repeated_counts(s, acc, pos, baro, mag, (n - 1) as nat);
    }
}

/// Counting from readings at work, a source that stays away is reported as lost
/// exactly from its timeout on.
pub proof fn law_lost_exactly_at_timeout(
    s: FdirState,
    acc: Seq<Single>,
    pos: bool,
    baro: bool,
    mag: bool,
    n: nat,
)
    requires
        s.gps_lost_steps == 0,
        s.baro_lost_steps == 0,
        s.mag_lost_steps == 0,
        0 < n <= u32::MAX,
    ensures
        ({
            let flags = repeated(s, acc, pos, baro, mag, n).flags;
            &&& flags.gps_lost <==> !pos && n >= GPS_TIMEOUT
            &&& flags.baro_lost <==> !baro && n >= BARO_TIMEOUT
            &&& flags.mag_lost <==> !mag && n >= MAG_TIMEOUT
        }),
{
    lemma_repeated_counts(s, acc, pos, baro, mag, n);
}

proof fn lemma_repeated_stale(
    s: FdirState,
    acc: Seq<Single>,
    pos: bool,
    baro: bool,
    mag: bool,
    n: nat,
)
    requires
        looks_frozen(acc, acc),
        0 < n < u32::MAX,
    ensures
        ({
            let t = repeated(s, acc, pos, baro, mag, n);
            &&& t.last_acc == acc
            &&& t.imu_stale_steps >= n - 1
        }),
    decreases n,
{
    if n > 1 {
        lemma_repeated_stale(s, acc, pos, baro, mag, (n - 1) as nat);
    }
    assert(repeated(s, acc, pos, baro, mag, n) == repeated(
        s,
        acc,
        pos,
        baro,
        mag,
        (n - 1) as nat,
    ).next(acc, pos, baro, mag));
}

/// An implausible reading that repeats for one step more than the timeout is
/// critical, whatever the state before.
pub proof fn law_frozen_is_critical(
    s: FdirState,
    acc: Seq<Single>,
    pos: bool,
    baro: bool,
    mag: bool,
    n: nat,
)
    requires
        looks_frozen(acc, acc),
        IMU_STALE_TIMEOUT < n < u32::MAX,
    ensures
        repeated(s, acc, pos, baro, mag, n).health is Critical,
{
    lemma_repeated_stale(s, acc, pos, baro, mag, n);
    assert(repeated(s, acc, pos, baro, mag, n) == repeated(
        s,
        acc,
        pos,
        baro,
        mag,
        (n - 1) as nat,
    ).next(acc, pos, baro, mag));
}

/// The place to return to: the first reliable position.
#[derive(Clone, Copy, Debug, PartialEq)]
pub struct RtlHome {
    pub pos: Ned,
    pub locked: bool,
}

impl RtlHome {
    pub fn new() -> (r: RtlHome)
        ensures
            !r.locked,
            r.pos.0@ == seq![
                Meter(Single::of_int(0)),
                Meter(Single::of_int(0)),
                Meter(Single::of_int(0)),
            ],
    {
        RtlHome { pos: Ned::origin(), locked: false }
    }

    /// With `current` remembered, unless there is a home already.
    pub open spec fn locked_at(self, current: Ned) -> RtlHome {
        if self.locked {
            self
        } else {
            RtlHome { pos: current, locked: true }
        }
    }

    /// Remembers the first position and no later one. Says whether this call did.
    pub fn try_lock(&mut self, current: Ned) -> (r: bool)
        ensures
            *final(self) == old(self).locked_at(current),
            r == !old(self).locked,
    {
        if !self.locked {
            self.pos = current;
            self.locked = true;
            true
        } else {
            false
        }
    }

    /// The distance reported while there is no place to return to.
    pub open spec fn far_away() -> Single {
        Single::of_int(1_000_000_000)
    }

    /// How far `current` is from home over the ground.
    pub fn horizontal_distance(&self, current: Ned) -> (r: Single)
        ensures
            r == if self.locked {
                let dx = current.0[0].0 - self.pos.0[0].0;
                let dy = current.0[1].0 - self.pos.0[1].0;
                (dx * dx + dy * dy).root()
            } else {
                RtlHome::far_away()
            },
    {
        if !self.locked {
            return Single::from_i32(1_000_000_000);
        }
        let dx: Single = current.0[0].0 - self.pos.0[0].0;
        let dy: Single = current.0[1].0 - self.pos.0[1].0;
        (dx * dx + dy * dy).sqrt()
    }
}

impl Default for RtlHome {
    fn default() -> (r: RtlHome)
        ensures
            !r.locked,
            r.pos.0@ == seq![
                Meter(Single::of_int(0)),
                Meter(Single::of_int(0)),
                Meter(Single::of_int(0)),
            ],
    {
        RtlHome::new()
    }
}

/// Home once remembered stays where it is.
pub proof fn law_home_stays(home: RtlHome, first: Ned, later: Ned)
    ensures
        home.locked_at(first).locked,
        home.locked_at(first).locked_at(later) == home.locked_at(first),
{
}

} // verus!
