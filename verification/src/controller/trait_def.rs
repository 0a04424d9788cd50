//! What a control law is asked to reach.

use crate::single::Single;
use crate::units::{Meter, MeterPerSecond, MeterPerSecondSquared, Radian};
use vstd::prelude::*;

verus! {

/// The position, heading, velocity and acceleration to follow.
#[derive(Clone, Copy, Debug, PartialEq)]
pub struct Setpoint {
    pub pos: [Meter; 3],
    pub yaw: Radian,
    pub vel: [MeterPerSecond; 3],
    pub acc: [MeterPerSecondSquared; 3],
}

impl Setpoint {
    /// To stay at `pos`.
    pub fn hover(pos: [Meter; 3], yaw: Radian) -> (r: Setpoint)
        ensures
            r.pos == pos,
            r.yaw == yaw,
            r.vel@ == Seq::new(3, |i: int| MeterPerSecond(Single::of_int(0))),
            r.acc@ == Seq::new(3, |i: int| MeterPerSecondSquared(Single::of_int(0))),
    {
        let z: Single = Single::from_i32(0);
        let r = Setpoint {
            pos,
            yaw,
            vel: [MeterPerSecond(z), MeterPerSecond(z), MeterPerSecond(z)],
            acc: [MeterPerSecondSquared(z), MeterPerSecondSquared(z), MeterPerSecondSquared(z)],
        };
        assert(r.vel@ =~= Seq::new(3, |i: int| MeterPerSecond(Single::of_int(0))));
        assert(r.acc@ =~= Seq::new(3, |i: int| MeterPerSecondSquared(Single::of_int(0))));
        r
    }
}

} // verus!
