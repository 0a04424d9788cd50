//! The sensor task: readings gathered into the frame that the control loop reads.

use crate::single::Single;
use crate::vehicle::{ImuSample, PosSample, RcInput};
use vstd::prelude::*;

verus! {

/// The latest readings of all sensors.
#[derive(Clone, Copy, Debug)]
pub struct SensorFrame {
    pub imu: Option<ImuSample>,
    pub baro_alt: Option<Single>,
    pub gps: Option<PosSample>,
    pub mag: Option<[Single; 3]>,
    pub rc: RcInput,
    pub armed: bool,
    pub imu_ok: bool,
    pub baro_ok: bool,
    pub gps_ok: bool,
    pub mag_ok: bool,
}

/// How many steps a position fix stays good without a new one: half a second.
pub const GPS_VALID_STEPS: u32 = 250;

/// How often the task runs, in milliseconds.
pub const SAMPLE_PERIOD_MS: u32 = 2;

/// Every how many steps the task reports what it reads.
pub const REPORT_STEPS: u32 = 500;

/// What was read in one step.
#[derive(Clone, Copy, Debug)]
pub struct Readings {
    pub imu: ImuSample,
    pub baro_alt: Single,
    pub gps: Option<PosSample>,
    pub rc: RcInput,
    pub mag: [Single; 3],
    pub mag_ok: bool,
}

/// The sensor task.
#[derive(Clone, Copy, Debug)]
pub struct Sensors {
    /// Steps since the last position fix.
    pub gps_stale: u32,
    /// Steps so far.
    pub loop_cnt: u32,
}

/// The sum, held at the top of the type.
pub open spec fn one_more(n: u32) -> u32 {
    if n == u32::MAX {
        u32::MAX
    } else {
        (n + 1) as u32
    }
}

/// The fix in the frame after a step: a new one replaces it, an old one stays until
/// it is too old.
pub open spec fn held_fix(old: Option<PosSample>, new: Option<PosSample>, stale: u32) -> Option<
    PosSample,
> {
    if new is Some {
        new
    } else if stale > GPS_VALID_STEPS {
        None
    } else {
        old
    }
}

/// The steps since the last fix after a step.
pub open spec fn stale_after(stale: u32, new: Option<PosSample>) -> u32 {
    if new is Some {
        0
    } else {
        one_more(stale)
    }
}

/// The frame after a step.
pub open spec fn frame_after(frame: SensorFrame, r: Readings, stale: u32) -> SensorFrame {
    let gps = held_fix(frame.gps, r.gps, stale_after(stale, r.gps));
    SensorFrame {
        imu: Some(r.imu),
        baro_alt: Some(r.baro_alt),
        gps,
        mag: if r.mag_ok {
            Some(r.mag)
        } else {
            None
        },
        rc: r.rc,
        armed: r.rc.armed,
        imu_ok: true,
        baro_ok: true,
        gps_ok: gps is Some,
        mag_ok: r.mag_ok,
    }
}

/// The write counter after one whole write: it is odd while the frame is written.
pub open spec fn counter_after(seq: u32) -> u32 {
    ((seq + 2) % 0x1_0000_0000) as u32
}

impl Sensors {
    /// The task named `_name` before its first step.
    pub fn new(_name: &[u8]) -> (r: Option<Sensors>)
        ensures
            r == Some(Sensors { gps_stale: 0, loop_cnt: 0 }),
    {
        Some(Sensors { gps_stale: 0, loop_cnt: 0 })
    }

    /// Writes the readings of one step to the frame. Returns whether this step is
    /// one to report.
    pub fn step(&mut self, r: &Readings, frame: &mut SensorFrame, seq: &mut u32) -> (report: bool)
        ensures
            *final(frame) == frame_after(*old(frame), *r, old(self).gps_stale),
            *final(seq) == counter_after(*old(seq)),
            final(self).gps_stale == stale_after(old(self).gps_stale, r.gps),
            final(self).loop_cnt == one_more(old(self).loop_cnt),
            report == (old(self).loop_cnt % REPORT_STEPS == 0),
    {
        if r.gps.is_some() {
            self.gps_stale = 0;
        } else {
            self.gps_stale = self.gps_stale.saturating_add(1);
        }
        *seq = seq.wrapping_add(1);
        frame.imu = Some(r.imu);
        frame.baro_alt = Some(r.baro_alt);
        if r.gps.is_some() {
            frame.gps = r.gps;
        } else if self.gps_stale > GPS_VALID_STEPS {
            frame.gps = None;
        }
        frame.mag = if r.mag_ok {
            Some(r.mag)
        } else {
            None
        };
        frame.rc = r.rc;
        frame.armed = r.rc.armed;
        frame.imu_ok = true;
        frame.baro_ok = true;
        frame.gps_ok = frame.gps.is_some();
        frame.mag_ok = r.mag_ok;
        *seq = seq.wrapping_add(1);
        let report: bool = self.loop_cnt % REPORT_STEPS == 0;
        self.loop_cnt = self.loop_cnt.saturating_add(1);
        report
    }
}

/// The fix and its age after `n` steps without a new one.
pub open spec fn without_fix(fix: Option<PosSample>, stale: u32, n: nat) -> (
    Option<PosSample>,
    u32,
)
    decreases n,
{
    if n == 0 {
        (fix, stale)
    } else {
        let (f, s) = without_fix(fix, stale, (n - 1) as nat);
        (held_fix(f, None, stale_after(s, None)), stale_after(s, None))
    }
}

/// A fix is held for as many steps as it stays good, and not longer.
pub proof fn law_fix_is_held(fix: PosSample, n: nat)
    requires
        n < u32::MAX,
    ensures
        without_fix(Some(fix), 0, n).1 == n,
        n <= GPS_VALID_STEPS ==> without_fix(Some(fix), 0, n).0 == Some(fix),
        n > GPS_VALID_STEPS ==> without_fix(Some(fix), 0, n).0 is None,
    decreases n,
{
    if n > 0 {
        law_fix_is_held(fix, (n - 1) as nat);
    }
}

/// A write leaves an even counter even, and changes it.
pub proof fn law_counter_stays_even(seq: u32)
    ensures
        seq % 2 == 0 ==> counter_after(seq) % 2 == 0,
        counter_after(seq) != seq,
{
}

} // verus!
