//! Physical quantities, each a number with its unit in the type.

use crate::single::Single;
use vstd::prelude::*;

verus! {

/// Half a turn in radians.
pub const PI_BITS: u32 = 0x4049_0FDB;

#[derive(Clone, Copy, Debug, PartialEq)]
pub struct Meter(pub Single);

#[derive(Clone, Copy, Debug, PartialEq)]
pub struct MeterPerSecond(pub Single);

#[derive(Clone, Copy, Debug, PartialEq)]
pub struct MeterPerSecondSquared(pub Single);

#[derive(Clone, Copy, Debug, PartialEq)]
pub struct Radian(pub Single);

#[derive(Clone, Copy, Debug, PartialEq)]
pub struct RadianPerSecond(pub Single);

#[derive(Clone, Copy, Debug, PartialEq)]
pub struct Second(pub Single);

} // verus!
