//! Messages made from a vehicle state.

use super::codec::{
    encode_attitude_raw, encode_global_position_int_raw, encode_local_pos_from_raw,
    encode_vfr_hud_raw,
};
use super::frame::{MAX_FRAME_LEN, SYS_ID};
use super::msg_id;
use crate::single::Single;
use crate::units::{Radian, PI_BITS};
use crate::vehicle::{Euler, VehicleState};
use vstd::prelude::*;

verus! {

/// An angle in degrees.
pub open spec fn degrees(a: Radian) -> Single {
    a.0 * Single::of_int(180) / (Single { bits: PI_BITS })
}

/// An angle in degrees.
pub fn to_degrees(a: Radian) -> (r: Single)
    ensures
        r == degrees(a),
{
    a.0 * Single::from_i32(180) / Single::from_bits(PI_BITS)
}

/// The payload that reports the attitude and the rates of `state`.
pub open spec fn attitude_report(state: VehicleState, euler: Euler) -> Seq<u8> {
    super::codec::attitude_payload(
        state.time_boot_ms,
        seq![euler.roll.0, euler.pitch.0, euler.yaw.0],
        seq![state.omega[0].0, state.omega[1].0, state.omega[2].0],
    )
}

/// Reports the attitude, read as `euler`, and the body rates.
pub fn encode_attitude(
    state: &VehicleState,
    euler: &Euler,
    seq: u8,
    out: &mut [u8; MAX_FRAME_LEN],
) -> (n: usize)
    ensures
        n == 40,
        super::frame::wrote(
            old(out)@,
            final(out)@,
            n,
            super::frame::framed(
                SYS_ID,
                msg_id::ATTITUDE,
                seq,
                attitude_report(*state, *euler),
            ),
        ),
{
    encode_attitude_raw(
        state.time_boot_ms,
        euler.roll.0,
        euler.pitch.0,
        euler.yaw.0,
        state.omega[0].0,
        state.omega[1].0,
        state.omega[2].0,
        seq,
        out,
    )
}

/// The payload that reports the position and the velocity of `state`.
pub open spec fn local_pos_report(state: VehicleState) -> Seq<u8> {
    super::codec::local_pos_payload(
        state.time_boot_ms,
        seq![state.pos[0].0, state.pos[1].0, state.pos[2].0],
        seq![state.vel[0].0, state.vel[1].0, state.vel[2].0],
    )
}

/// Reports position and velocity, sent by this vehicle.
pub fn encode_local_pos(
    state: &VehicleState,
    seq: u8,
    out: &mut [u8; MAX_FRAME_LEN],
) -> (n: usize)
    ensures
        n == 40,
        super::frame::wrote(
            old(out)@,
            final(out)@,
            n,
            super::frame::framed(
                SYS_ID,
                msg_id::LOCAL_POSITION_NED,
                seq,
                local_pos_report(*state),
            ),
        ),
{
    encode_local_pos_from(SYS_ID, state, seq, out)
}

/// Reports position and velocity, sent by the vehicle `sys_id`.
pub fn encode_local_pos_from(
    sys_id: u8,
    state: &VehicleState,
    seq: u8,
    out: &mut [u8; MAX_FRAME_LEN],
) -> (n: usize)
    ensures
        n == 40,
        super::frame::wrote(
            old(out)@,
            final(out)@,
            n,
            super::frame::framed(
                sys_id,
                msg_id::LOCAL_POSITION_NED,
                seq,
                local_pos_report(*state),
            ),
        ),
{
    encode_local_pos_from_raw(
        sys_id,
        state.time_boot_ms,
        state.pos[0].0,
        state.pos[1].0,
        state.pos[2].0,
        state.vel[0].0,
        state.vel[1].0,
        state.vel[2].0,
        seq,
        out,
    )
}

/// The speed over the ground.
pub open spec fn ground_speed(state: VehicleState) -> Single {
    (state.vel[0].0 * state.vel[0].0 + state.vel[1].0 * state.vel[1].0).root()
}

/// The payload that reports speed, heading, throttle, altitude and climb.
pub open spec fn vfr_hud_report(state: VehicleState, yaw: Radian, throttle_pct: u16) -> Seq<u8> {
    super::codec::vfr_hud_payload(
        ground_speed(state),
        (degrees(yaw) * Single::of_int(100)).saturated(
            i16::MIN as int,
            i16::MAX as int,
        ) as i16,
        throttle_pct,
        state.pos[2].0.negated(),
        state.vel[2].0,
    )
}

/// Reports speed, heading in hundredths of a degree, throttle, altitude and climb.
pub fn encode_vfr_hud(
    state: &VehicleState,
    euler: &Euler,
    throttle_pct: u16,
    seq: u8,
    out: &mut [u8; MAX_FRAME_LEN],
) -> (n: usize)
    ensures
        n == 32,
        super::frame::wrote(
            old(out)@,
            final(out)@,
            n,
            super::frame::framed(
                SYS_ID,
                msg_id::VFR_HUD,
                seq,
                vfr_hud_report(*state, euler.yaw, throttle_pct),
            ),
        ),
{
    let gnd: Single = (state.vel[0].0 * state.vel[0].0 + state.vel[1].0 * state.vel[1].0).sqrt();
    let heading_cdeg: i16 = (to_degrees(euler.yaw) * Single::from_i32(100)).to_i16();
    encode_vfr_hud_raw(
        gnd,
        heading_cdeg,
        throttle_pct,
        state.pos[2].0.negate(),
        state.vel[2].0,
        seq,
        out,
    )
}

/// A heading in whole degrees.
pub open spec fn whole_degrees(yaw: Radian) -> int {
    degrees(yaw).saturated(0, u16::MAX as int)
}

/// The payload that reports altitude in millimetres, velocity in centimetres per
/// second and heading.
pub open spec fn global_position_report(state: VehicleState, yaw: Radian) -> Seq<u8> {
    let cm = |v: Single|
        (v * Single::of_int(100)).saturated(i16::MIN as int, i16::MAX as int) as i16;
    super::codec::global_position_payload(
        state.time_boot_ms,
        (state.pos[2].0.negated() * Single::of_int(1000)).saturated(
            i32::MIN as int,
            i32::MAX as int,
        ) as i32,
        cm(state.vel[0].0),
        cm(state.vel[1].0),
        cm(state.vel[2].0),
        (whole_degrees(yaw) * 100) as u16,
    )
}

/// Reports altitude, velocity and heading; no fix is reported.
pub fn encode_global_position_int(
    state: &VehicleState,
    euler: &Euler,
    seq: u8,
    out: &mut [u8; MAX_FRAME_LEN],
) -> (n: usize)
    requires
        whole_degrees(euler.yaw) <= 655,
    ensures
        n == 40,
        super::frame::wrote(
            old(out)@,
            final(out)@,
            n,
            super::frame::framed(
                SYS_ID,
                msg_id::GLOBAL_POSITION_INT,
                seq,
                global_position_report(*state, euler.yaw),
            ),
        ),
{
    let hundred: Single = Single::from_i32(100);
    encode_global_position_int_raw(
        state.time_boot_ms,
        (state.pos[2].0.negate() * Single::from_i32(1000)).to_i32(),
        (state.vel[0].0 * hundred).to_i16(),
        (state.vel[1].0 * hundred).to_i16(),
        (state.vel[2].0 * hundred).to_i16(),
        to_degrees(euler.yaw).to_u16() * 100,
        seq,
        out,
    )
}

/// An integer of ordinary size is itself when taken as an integer.
proof fn lemma_saturated_whole(x: Single, n: int, lo: int, hi: int)
    requires
        crate::single::exact::worth(x, n, 0),
        lo <= n <= hi,
    ensures
        x.saturated(lo, hi) == n,
{
    let p = vstd::arithmetic::power2::pow2(149) as int;
    vstd::arithmetic::power2::lemma_pow2_pos(149);
    let m = if n < 0 {
        -n
    } else {
        n
    };
    assert((m * p) / p == m) by (nonlinear_arith)
        requires
            p > 0,
    ;
    assert(m * p == n * p || m * p == -(n * p)) by (nonlinear_arith)
        requires
            m == n || m == -n,
    ;
    assert(n >= 0 ==> n * p >= 0) by (nonlinear_arith)
        requires
            p > 0,
    ;
    assert(n < 0 ==> n * p < 0) by (nonlinear_arith)
        requires
            p > 0,
    ;
    if n == 0 {
        assert(0 * p == 0);
    }
}

/// The ground reads altitudes upwards, in millimetres, and velocities north, east and down in
/// centimetres per second; here for whole metres.
pub proof fn law_report_reads_upwards(state: VehicleState, yaw: Radian, h: int, v: [int; 3])
    requires
        crate::single::exact::worth(state.pos[2].0, -h, 0),
        crate::vehicle::small(h, 10000),
        forall|i: int|
            0 <= i < 3 ==> crate::single::exact::worth((#[trigger] state.vel[i]).0, v[i], 0)
                && crate::vehicle::small(v[i], 300),
    ensures
        global_position_report(state, yaw) == super::codec::global_position_payload(
            state.time_boot_ms,
            (1000 * h) as i32,
            (100 * v[0]) as i16,
            (100 * v[1]) as i16,
            (100 * v[2]) as i16,
            (whole_degrees(yaw) * 100) as u16,
        ),
        exists|alt: Single|
            #[trigger] crate::single::exact::worth(alt, h, 0) && forall|pct: u16| #[trigger]
                vfr_hud_report(state, yaw, pct) == super::codec::vfr_hud_payload(
                    ground_speed(state),
                    (degrees(yaw) * Single::of_int(100)).saturated(
                        i16::MIN as int,
                        i16::MAX as int,
                    ) as i16,
                    pct,
                    alt,
                    state.vel[2].0,
                ),
{
    let d = state.pos[2].0;
    crate::single::exact::law_integer_worth(1000);
    crate::single::exact::law_integer_worth(100);
    crate::single::exact::law_worth_negated(d, -h, 0);
    crate::single::exact::law_worth_product(d.negated(), Single::of_int(1000), h, 1000, 0, 0);
    lemma_saturated_whole(
        d.negated() * Single::of_int(1000),
        1000 * h,
        i32::MIN as int,
        i32::MAX as int,
    );
    assert forall|i: int| 0 <= i < 3 implies ((#[trigger] state.vel[i]).0 * Single::of_int(
        100,
    )).saturated(i16::MIN as int, i16::MAX as int) == 100 * v[i] by {
        assert(crate::single::exact::worth(state.vel[i].0, v[i], 0));
        crate::single::exact::law_worth_product(
            state.vel[i].0,
            Single::of_int(100),
            v[i],
            100,
            0,
            0,
        );
        lemma_saturated_whole(
            state.vel[i].0 * Single::of_int(100),
            100 * v[i],
            i16::MIN as int,
            i16::MAX as int,
        );
    }
    assert(state.vel[0] == state.vel[0] && state.vel[1] == state.vel[1] && state.vel[2]
        == state.vel[2]);
    assert(crate::single::exact::worth(d.negated(), h, 0));
}

/// The speed over the ground is the long side over its parts; here for sides that are
/// integers.
pub proof fn law_ground_speed(state: VehicleState, a: int, b: int, c: int)
    requires
        crate::single::exact::worth(state.vel[0].0, a, 0) && crate::vehicle::small(a, 2048),
        crate::single::exact::worth(state.vel[1].0, b, 0) && crate::vehicle::small(b, 2048),
        a * a + b * b == c * c,
        0 <= c <= 4096,
    ensures
        crate::single::exact::worth(ground_speed(state), c, 0),
{
    let (x, y) = (state.vel[0].0, state.vel[1].0);
    crate::rotation_laws::lemma_whole_product(x, x, a, a, 2048, 2048);
    crate::rotation_laws::lemma_whole_product(y, y, b, b, 2048, 2048);
    crate::single::exact::law_worth_sum(x * x, y * y, a * a, b * b, 0);
    crate::single::exact::law_worth_root(x * x + y * y, c, 0);
}

} // verus!
