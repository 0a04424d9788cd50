//! The inertial unit: two chips, an accelerometer and a gyroscope.

use crate::single::Single;
use crate::vehicle::ImuSample;
use vstd::prelude::*;

verus! {

/// What the accelerometer answers when asked who it is.
pub const ACCEL_ID: u8 = 0x1E;

/// What the gyroscope answers when asked who it is.
pub const GYRO_ID: u8 = 0x0F;

/// Whether the probe found the unit: the bus transfer succeeded and one of the two
/// chips answered with its number.
pub fn probe_ok(rc: i32, accel: u8, gyro: u8) -> (r: bool)
    ensures
        r == (rc == 0 && (accel == ACCEL_ID || gyro == GYRO_ID)),
{
    !(rc != 0 || (accel != ACCEL_ID && gyro != GYRO_ID))
}

/// Whether three readings are all finite.
pub open spec fn all_finite(v: Seq<Single>) -> bool {
    v[0].finite() && v[1].finite() && v[2].finite()
}

fn finite3(v: &[Single; 3]) -> (r: bool)
    ensures
        r == all_finite(v@),
{
    v[0].is_finite() && v[1].is_finite() && v[2].is_finite()
}

/// The state of the unit: whether every transfer so far succeeded.
#[derive(Clone, Copy, Debug)]
pub struct ImuBmi088 {
    pub healthy: bool,
}

/// Whether a transfer with result `rc` gave a usable reading.
pub open spec fn usable(rc: i32, accel: Seq<Single>, gyro: Seq<Single>) -> bool {
    rc == 0 && all_finite(accel) && all_finite(gyro)
}

impl ImuBmi088 {
    /// The unit after the probe; one that does not answer is kept as unhealthy.
    pub fn new(rc: i32, accel_id: u8, gyro_id: u8) -> (r: ImuBmi088)
        ensures
            r.healthy == (rc == 0 && (accel_id == ACCEL_ID || gyro_id == GYRO_ID)),
    {
        ImuBmi088 { healthy: probe_ok(rc, accel_id, gyro_id) }
    }

    /// The sample in a transfer, unless it failed or holds a value that is not
    /// finite.
    pub fn read_raw(&self, rc: i32, accel: [Single; 3], gyro: [Single; 3]) -> (r: Option<ImuSample>)
        ensures
            r is Some <==> usable(rc, accel@, gyro@),
            r matches Some(s) ==> {
                &&& s.accel@ == Seq::new(3, |i: int| crate::units::MeterPerSecondSquared(accel[i]))
                &&& s.gyro@ == Seq::new(3, |i: int| crate::units::RadianPerSecond(gyro[i]))
            },
    {
        if rc != 0 {
            return None;
        }
        if !finite3(&accel) || !finite3(&gyro) {
            return None;
        }
        Some(ImuSample::from_axes(accel, gyro))
    }

    /// As `read_raw`, with zeros for a failed transfer, which makes the unit
    /// unhealthy.
    pub fn read(&mut self, rc: i32, accel: [Single; 3], gyro: [Single; 3]) -> (r: ImuSample)
        ensures
            final(self).healthy == (old(self).healthy && usable(rc, accel@, gyro@)),
            r.accel@ == Seq::new(
                3,
                |i: int|
                    crate::units::MeterPerSecondSquared(
                        if usable(rc, accel@, gyro@) {
                            accel[i]
                        } else {
                            Single::of_int(0)
                        },
                    ),
            ),
            r.gyro@ == Seq::new(
                3,
                |i: int|
                    crate::units::RadianPerSecond(
                        if usable(rc, accel@, gyro@) {
                            gyro[i]
                        } else {
                            Single::of_int(0)
                        },
                    ),
            ),
    {
        let r = match self.read_raw(rc, accel, gyro) {
            Some(s) => s,
            None => {
                self.healthy = false;
                ImuSample::zero()
            },
        };
        assert(r.accel@ =~= Seq::new(
            3,
            |i: int|
                crate::units::MeterPerSecondSquared(
                    if usable(rc, accel@, gyro@) {
                        accel[i]
                    } else {
                        Single::of_int(0)
                    },
                ),
        ));
        assert(r.gyro@ =~= Seq::new(
            3,
            |i: int|
                crate::units::RadianPerSecond(
                    if usable(rc, accel@, gyro@) {
                        gyro[i]
                    } else {
                        Single::of_int(0)
                    },
                ),
        ));
        r
    }
}

} // verus!
