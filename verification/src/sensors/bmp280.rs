//! The barometer: raw pressure to altitude, upwards positive.

use crate::single::Single;
use crate::units::Meter;
use vstd::prelude::*;

verus! {

/// The register where the pressure starts.
pub const PRESS_MSB: u8 = 0xF7;

/// The pressure at sea level, in pascals.
pub const SEA_LEVEL_PA: i32 = 101325;

/// The pressure in the first three bytes of a raw reading: twenty bits, the highest
/// first.
pub open spec fn raw_pressure(raw: Seq<u8>) -> int {
    raw[0] * 4096 + raw[1] * 16 + raw[2] / 16
}

pub fn pressure(raw: &[u8; 6]) -> (p: u32)
    ensures
        p == raw_pressure(raw@),
        p < 0x10_0000,
{
    let wide: u32 = raw[0] as u32 * 65536 + raw[1] as u32 * 256 + raw[2] as u32;
    wide / 16
}

/// The pressure of a raw reading as a fraction of that at sea level.
pub fn pressure_ratio(raw: &[u8; 6]) -> (r: Single)
    ensures
        r == Single::of_int(raw_pressure(raw@)) / Single::of_int(SEA_LEVEL_PA as int),
{
    Single::from_u64(pressure(raw) as u64) / Single::from_i32(SEA_LEVEL_PA)
}

/// The exponent of the standard atmosphere.
pub fn exponent() -> (r: Single)
    ensures
        r == Single::of_ratio(1903, 10000),
{
    Single::ratio(1903, 10000)
}

pub open spec fn standard_altitude(power: Single) -> Single {
    Single::of_int(44330) * (Single::of_int(1) - power)
}

/// The altitude at which the pressure ratio, raised to the exponent, is `power`.
pub fn altitude(power: Single) -> (r: Meter)
    ensures
        r == Meter(standard_altitude(power)),
{
    Meter(Single::from_i32(44330) * (Single::from_i32(1) - power))
}

/// The state of the barometer: whether every transfer so far succeeded.
#[derive(Clone, Copy, Debug)]
pub struct BaroBmp280 {
    pub healthy: bool,
}

impl BaroBmp280 {
    pub fn new() -> (r: BaroBmp280)
        ensures
            r.healthy,
    {
        BaroBmp280 { healthy: true }
    }

    /// The altitude of a transfer with result `rc`, unless it failed.
    pub fn read_altitude_raw(&self, rc: i32, power: Single) -> (r: Option<Meter>)
        ensures
            r == if rc == 0 {
                Some(Meter(standard_altitude(power)))
            } else {
                None
            },
    {
        if rc != 0 {
            return None;
        }
        Some(altitude(power))
    }

    /// As `read_altitude_raw`, with zero for a failed transfer, which makes the
    /// barometer unhealthy.
    pub fn read_altitude(&mut self, rc: i32, power: Single) -> (r: Meter)
        ensures
            final(self).healthy == (old(self).healthy && rc == 0),
            r == if rc == 0 {
                Meter(standard_altitude(power))
            } else {
                Meter(Single::of_int(0))
            },
    {
        match self.read_altitude_raw(rc, power) {
            Some(h) => h,
            None => {
                self.healthy = false;
                Meter(Single::from_i32(0))
            },
        }
    }
}

/// Where the pressure falls the altitude rises, and at the pressure of the sea it is zero.
pub proof fn law_thin_air_is_high(less: Single, more: Single, up: bool)
    requires
        crate::single::laws::within(less, 10),
        crate::single::laws::within(more, 10),
        crate::single::signs::ahead(up, less, more),
    ensures
        crate::single::signs::ahead(!up, standard_altitude(less), standard_altitude(more)),
        standard_altitude(Single::of_int(1)).same(Single::of_int(0)),
{
    let one = Single::of_int(1);
    let k = Single::of_int(44330);
    let z = Single::of_int(0);
    vstd::arithmetic::power2::lemma2_to64();
    crate::single::laws::law_integer_within(44330, 16);
    crate::single::laws::law_integer_within(1, 0);
    crate::single::signs::law_within_more(one, 0, 10);
    crate::single::exact::law_integer_worth(44330);
    crate::single::exact::law_integer_worth(1);
    crate::single::exact::law_integer_worth(0);
    crate::single::exact::law_worth_order(z, k, 0, 44330, 0);
    crate::single::signs::law_difference_order(up, less, more, one);
    crate::single::signs::law_difference_within(one, less, 10);
    crate::single::signs::law_difference_within(one, more, 10);
    crate::single::signs::law_product_order(!up, one - less, one - more, k);
    crate::single::exact::law_worth_difference(one, one, 1, 1, 0);
    crate::single::exact::law_worth_product(k, one - one, 44330, 0, 0, 0);
    crate::single::exact::law_worth_order(k * (one - one), z, 0, 0, 0);
}

/// The pressure is the upper twenty bits of the first three bytes, the first byte counting
/// most.
pub proof fn law_pressure_is_upper_bits(raw: Seq<u8>)
    requires
        raw.len() == 6,
    ensures
        16 * raw_pressure(raw) + raw[2] % 16 == 256 * (256 * raw[0] + raw[1]) + raw[2],
        0 <= raw_pressure(raw) < 0x10_0000,
{
}

} // verus!
