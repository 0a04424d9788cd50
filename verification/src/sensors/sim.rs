//! Sensors that play back recorded frames.

use crate::single::Single;
use crate::units::{Meter, MeterPerSecondSquared, RadianPerSecond};
use crate::vehicle::{ImuSample, PosSample};
use vstd::prelude::*;

verus! {

/// One recorded frame: the inertial readings with the y axis to the left and the z
/// axis up, and latitude, longitude and altitude.
#[derive(Clone, Copy, Debug, PartialEq)]
pub struct PlaybackFrame {
    pub imu_accel: [Single; 3],
    pub imu_gyro: [Single; 3],
    pub gps: [Single; 3],
}

/// The inertial unit of the recording.
#[derive(Clone, Copy, Debug)]
pub struct VirtualImu;

impl VirtualImu {
    pub fn new() -> (r: Option<VirtualImu>)
        ensures
            r is Some,
    {
        Some(VirtualImu)
    }

    /// The recorded readings turned to the axes of the estimators: y to the right
    /// and z down. The recording holds specific force, so gravity stays in.
    pub fn read(&mut self, f: &PlaybackFrame) -> (r: ImuSample)
        ensures
            r.accel@ == seq![
                MeterPerSecondSquared(f.imu_accel[0]),
                MeterPerSecondSquared(f.imu_accel[1].negated()),
                MeterPerSecondSquared(f.imu_accel[2].negated()),
            ],
            r.gyro@ == seq![
                RadianPerSecond(f.imu_gyro[0]),
                RadianPerSecond(f.imu_gyro[1].negated()),
                RadianPerSecond(f.imu_gyro[2].negated()),
            ],
    {
        let r = ImuSample::from_axes(
            [f.imu_accel[0], f.imu_accel[1].negate(), f.imu_accel[2].negate()],
            [f.imu_gyro[0], f.imu_gyro[1].negate(), f.imu_gyro[2].negate()],
        );
        assert(r.accel@ =~= seq![r.accel[0], r.accel[1], r.accel[2]]);
        assert(r.gyro@ =~= seq![r.gyro[0], r.gyro[1], r.gyro[2]]);
        r
    }

    pub fn healthy(&self) -> (r: bool)
        ensures
            r,
    {
        true
    }
}

/// Where a recording starts, and how long a degree is there.
#[derive(Clone, Copy, Debug, PartialEq)]
pub struct GpsDatum {
    pub lat: Single,
    pub lon: Single,
    pub meters_per_deg_lat: Single,
    pub meters_per_deg_lon: Single,
}

/// The satellite receiver of the recording. The altitude of the first frame is the
/// origin of all.
#[derive(Clone, Copy, Debug)]
pub struct VirtualGps {
    pub alt_origin: Option<Single>,
}

impl VirtualGps {
    pub fn new() -> (r: Option<VirtualGps>)
        ensures
            r == Some(VirtualGps { alt_origin: None }),
    {
        Some(VirtualGps { alt_origin: None })
    }

    pub open spec fn origin_after(self, f: PlaybackFrame) -> Single {
        match self.alt_origin {
            Some(a) => a,
            None => f.gps[2],
        }
    }

    /// Where a frame is from the start of the recording, north, east and down.
    pub open spec fn place(self, f: PlaybackFrame, datum: GpsDatum) -> Seq<Meter> {
        seq![
            Meter((f.gps[0] - datum.lat) * datum.meters_per_deg_lat),
            Meter((f.gps[1] - datum.lon) * datum.meters_per_deg_lon),
            Meter(self.origin_after(f) - f.gps[2]),
        ]
    }

    /// The recorded fix as a position from the start of the recording.
    pub fn read(&mut self, f: &PlaybackFrame, datum: &GpsDatum) -> (r: Option<PosSample>)
        ensures
            final(self).alt_origin == Some(old(self).origin_after(*f)),
            r matches Some(s) && s.vel is None && s.pos@ == old(self).place(*f, *datum),
    {
        let alt: Single = f.gps[2];
        let north: Single = (f.gps[0] - datum.lat) * datum.meters_per_deg_lat;
        let east: Single = (f.gps[1] - datum.lon) * datum.meters_per_deg_lon;
        let origin: Single = match self.alt_origin {
            Some(a) => a,
            None => alt,
        };
        self.alt_origin = Some(origin);
        let pos: [Meter; 3] = [Meter(north), Meter(east), Meter(origin - alt)];
        assert(pos@ =~= seq![pos[0], pos[1], pos[2]]);
        Some(PosSample::pos_only(pos))
    }

    pub fn healthy(&self) -> (r: bool)
        ensures
            r,
    {
        true
    }
}

/// A frame north of the start is placed to the north, one east of it to the east and one above
/// it upwards, which is not down, each by the whole difference; here for all integers that
/// leave no rounding.
pub proof fn law_frame_is_placed_its_way(
    g: VirtualGps,
    f: PlaybackFrame,
    datum: GpsDatum,
    d: [int; 3],
    m: [int; 2],
)
    requires
        crate::single::exact::worth(f.gps[0] - datum.lat, d[0], 0),
        crate::single::exact::worth(f.gps[1] - datum.lon, d[1], 0),
        crate::single::exact::worth(f.gps[2], d[2], 0),
        crate::single::exact::worth(datum.meters_per_deg_lat, m[0], 0),
        crate::single::exact::worth(datum.meters_per_deg_lon, m[1], 0),
        crate::vehicle::small(d[0], 64) && crate::vehicle::small(d[1], 64),
        crate::vehicle::small(d[2], 0x8000),
        crate::vehicle::small(m[0], 0x2_0000) && crate::vehicle::small(m[1], 0x2_0000),
    ensures
        crate::single::exact::worth(g.place(f, datum)[0].0, m[0] * d[0], 0),
        crate::single::exact::worth(g.place(f, datum)[1].0, m[1] * d[1], 0),
        forall|a: int|
            g.alt_origin is Some && crate::vehicle::small(a, 0x8000)
                && #[trigger] crate::single::exact::worth(g.alt_origin->0, a, 0)
                ==> crate::single::exact::worth(g.place(f, datum)[2].0, -(d[2] - a), 0),
        g.alt_origin is None ==> crate::single::exact::worth(g.place(f, datum)[2].0, 0, 0),
{
    let (x, y) = (f.gps[0] - datum.lat, f.gps[1] - datum.lon);
    crate::rotation_laws::lemma_whole_product(
        x,
        datum.meters_per_deg_lat,
        d[0],
        m[0],
        64,
        0x2_0000,
    );
    crate::rotation_laws::lemma_whole_product(
        y,
        datum.meters_per_deg_lon,
        d[1],
        m[1],
        64,
        0x2_0000,
    );
    assert(d[0] * m[0] == m[0] * d[0]) by (nonlinear_arith);
    assert(d[1] * m[1] == m[1] * d[1]) by (nonlinear_arith);
    assert forall|a: int|
        g.alt_origin is Some && crate::vehicle::small(a, 0x8000)
            && #[trigger] crate::single::exact::worth(
            g.alt_origin->0,
            a,
            0,
        ) implies crate::single::exact::worth(g.place(f, datum)[2].0, -(d[2] - a), 0) by {
        crate::single::exact::law_worth_difference(g.alt_origin->0, f.gps[2], a, d[2], 0);
    }
    crate::single::exact::law_worth_difference(f.gps[2], f.gps[2], d[2], d[2], 0);
}

} // verus!
