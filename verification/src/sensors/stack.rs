//! All sensors of the vehicle. A sensor that was not found leaves its slot empty;
//! reading it gives a safe value and its health is bad.

use crate::single::Single;
use crate::units::{Meter, MeterPerSecondSquared, RadianPerSecond};
use crate::vehicle::{ImuSample, PosSample, RcInput};
use vstd::prelude::*;

verus! {

/// The latest reading of a sensor and whether the sensor works.
#[derive(Debug)]
pub struct Source<T> {
    pub reading: T,
    pub healthy: bool,
}

#[derive(Debug)]
pub struct SensorStack {
    pub imu: Option<Source<ImuSample>>,
    pub baro: Option<Source<Meter>>,
    pub gps: Option<Source<Option<PosSample>>>,
    pub rc: Option<Source<RcInput>>,
    pub mag: Option<Source<[Single; 3]>>,
}

/// Which sensors work.
#[derive(Clone, Copy, Debug, PartialEq, Eq, Structural)]
pub struct SensorHealth {
    pub imu: bool,
    pub baro: bool,
    pub gps: bool,
    pub rc: bool,
    pub mag: bool,
}

/// Whether a slot holds a sensor that works.
pub open spec fn works<T>(slot: Option<Source<T>>) -> bool {
    slot is Some && slot->0.healthy
}

fn slot_works<T>(slot: &Option<Source<T>>) -> (r: bool)
    ensures
        r == works(*slot),
{
    match slot {
        Some(s) => s.healthy,
        None => false,
    }
}

impl SensorStack {
    pub fn new(
        imu: Option<Source<ImuSample>>,
        baro: Option<Source<Meter>>,
        gps: Option<Source<Option<PosSample>>>,
        rc: Option<Source<RcInput>>,
        mag: Option<Source<[Single; 3]>>,
    ) -> (r: SensorStack)
        ensures
            r == (SensorStack { imu, baro, gps, rc, mag }),
    {
        SensorStack { imu, baro, gps, rc, mag }
    }

    /// The inertial readings, zeros where there is no sensor.
    pub fn read_imu(&self) -> (r: ImuSample)
        ensures
            self.imu matches Some(s) ==> r == s.reading,
            self.imu is None ==> {
                &&& r.accel@ == Seq::new(3, |i: int| MeterPerSecondSquared(Single::of_int(0)))
                &&& r.gyro@ == Seq::new(3, |i: int| RadianPerSecond(Single::of_int(0)))
            },
    {
        match &self.imu {
            Some(s) => s.reading,
            None => ImuSample::zero(),
        }
    }

    /// The magnetic field, zeros where there is no sensor.
    pub fn read_mag(&self) -> (r: [Single; 3])
        ensures
            self.mag matches Some(s) ==> r == s.reading,
            self.mag is None ==> r@ == Seq::new(3, |i: int| Single::of_int(0)),
    {
        match &self.mag {
            Some(s) => s.reading,
            None => {
                let z: Single = Single::from_i32(0);
                let r: [Single; 3] = [z, z, z];
                assert(r@ =~= Seq::new(3, |i: int| Single::of_int(0)));
                r
            },
        }
    }

    /// The altitude, zero where there is no sensor.
    pub fn read_altitude(&self) -> (r: Single)
        ensures
            r == match self.baro {
                Some(s) => s.reading.0,
                None => Single::of_int(0),
            },
    {
        match &self.baro {
            Some(s) => s.reading.0,
            None => Single::from_i32(0),
        }
    }

    /// The position, none where there is no fix or no sensor.
    pub fn read_gps(&self) -> (r: Option<PosSample>)
        ensures
            r == match self.gps {
                Some(s) => s.reading,
                None => None,
            },
    {
        match &self.gps {
            Some(s) => s.reading,
            None => None,
        }
    }

    /// The pilot's input, nothing armed where there is no receiver.
    pub fn read_rc(&self) -> (r: RcInput)
        ensures
            r == match self.rc {
                Some(s) => s.reading,
                None => RcInput::at_rest(),
            },
    {
        match &self.rc {
            Some(s) => s.reading,
            None => RcInput::neutral(),
        }
    }

    /// Which sensors work; a missing one does not.
    pub fn health(&self) -> (r: SensorHealth)
        ensures
            r == (SensorHealth {
                imu: works(self.imu),
                baro: works(self.baro),
                gps: works(self.gps),
                rc: works(self.rc),
                mag: works(self.mag),
            }),
    {
        SensorHealth {
            imu: slot_works(&self.imu),
            baro: slot_works(&self.baro),
            gps: slot_works(&self.gps),
            rc: slot_works(&self.rc),
            mag: slot_works(&self.mag),
        }
    }
}

} // verus!
