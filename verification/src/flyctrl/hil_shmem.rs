//! The memory shared with a simulator.
//!
//! The simulator writes readings, a setpoint and the arming state and counts its
//! steps; a changed count makes the readings be taken over. Motors and diagnosis are
//! written back. Without the simulator's mark in the first word nothing happens.
//! The region is seen as words, in this order:
//!
//! | word | content |
//! |---|---|
//! | 0 | mark of the simulator |
//! | 1 | count of the simulator's steps |
//! | 2, 5 | specific force and rates, three each |
//! | 8 | altitude |
//! | 9, 10, 13 | whether there is a fix, its position and its velocity |
//! | 16, 17, 20, 23, 26 | whether there is a setpoint, its position, velocity, acceleration and yaw |
//! | 27 | whether the motors are armed |
//! | 32 | count of the writes back |
//! | 33 | four motors |
//! | 37 | sixteen numbers of diagnosis |

use super::sensors_task::SensorFrame;
use crate::fdir::Health;
use crate::single::Single;
use crate::units::{Meter, MeterPerSecond};
use crate::vehicle::{ImuSample, PosSample, RcInput, VehicleState};
use vstd::prelude::*;

verus! {

/// The words of the region.
pub const REGION_WORDS: usize = 53;

/// The mark that the simulator leaves.
pub const MAGIC: u32 = 0x4849_4C31;

pub const W_MAGIC: usize = 0;

pub const W_PC_SEQ: usize = 1;

pub const W_IMU_ACC: usize = 2;

pub const W_IMU_GYR: usize = 5;

pub const W_BARO: usize = 8;

pub const W_GPS_VALID: usize = 9;

pub const W_GPS_POS: usize = 10;

pub const W_GPS_VEL: usize = 13;

pub const W_SP_VALID: usize = 16;

pub const W_SP_POS: usize = 17;

pub const W_SP_VEL: usize = 20;

pub const W_SP_ACC: usize = 23;

pub const W_SP_YAW: usize = 26;

pub const W_ARMED: usize = 27;

pub const W_MCU_SEQ: usize = 32;

pub const W_MOTOR: usize = 33;

pub const W_DIAG: usize = 37;

/// The setpoint of the simulator.
#[derive(Clone, Copy, Debug, PartialEq)]
pub struct HilSetpoint {
    pub time_boot_ms: u32,
    pub pos: [Single; 3],
    pub vel: [Single; 3],
    pub acc: [Single; 3],
    pub yaw: Single,
    pub valid: bool,
}

/// What was taken over last.
#[derive(Clone, Copy, Debug)]
pub struct ShmemState {
    pub last_pc_seq: u32,
    pub last_accel_z: Single,
}

/// Three numbers from word `w` on.
pub open spec fn numbers_at(region: Seq<u32>, w: int) -> Seq<Single> {
    Seq::new(3, |i: int| Single { bits: region[w + i] })
}

fn three(region: &[u32; REGION_WORDS], w: usize) -> (r: [Single; 3])
    requires
        w + 3 <= REGION_WORDS,
    ensures
        r@ == numbers_at(region@, w as int),
{
    let r: [Single; 3] = [
        Single::from_bits(region[w]),
        Single::from_bits(region[w + 1]),
        Single::from_bits(region[w + 2]),
    ];
    assert(r@ =~= numbers_at(region@, w as int));
    r
}

/// Whether the simulator has left its mark.
pub fn shmem_available(region: &[u32; REGION_WORDS]) -> (r: bool)
    ensures
        r == (region[W_MAGIC as int] == MAGIC),
{
    region[W_MAGIC] == MAGIC
}

/// Whether the simulator has made a step since the last look.
pub open spec fn has_news(region: Seq<u32>, state: ShmemState) -> bool {
    region[W_MAGIC as int] == MAGIC && region[W_PC_SEQ as int] != state.last_pc_seq
}

/// The setpoint in the region.
pub open spec fn is_setpoint(sp: HilSetpoint, region: Seq<u32>) -> bool {
    &&& sp.time_boot_ms == region[W_PC_SEQ as int]
    &&& sp.pos@ == numbers_at(region, W_SP_POS as int)
    &&& sp.vel@ == numbers_at(region, W_SP_VEL as int)
    &&& sp.acc@ == numbers_at(region, W_SP_ACC as int)
    &&& sp.yaw == (Single { bits: region[W_SP_YAW as int] })
    &&& sp.valid == (region[W_SP_VALID as int] != 0)
}

/// The fix in the region.
pub open spec fn is_fix(s: PosSample, region: Seq<u32>) -> bool {
    &&& s.pos@ == numbers_at(region, W_GPS_POS as int).map_values(|x: Single| Meter(x))
    &&& s.vel is Some
    &&& s.vel->0@ == numbers_at(region, W_GPS_VEL as int).map_values(
        |x: Single| MeterPerSecond(x),
    )
}

/// The frame with the readings in the region: no pilot, but the signal counts as
/// fresh; the magnetometer has no place in the region and keeps its last reading.
pub open spec fn is_frame(f: SensorFrame, before: SensorFrame, region: Seq<u32>) -> bool {
    let armed = region[W_ARMED as int] != 0;
    let fix = region[W_GPS_VALID as int] != 0;
    &&& f.imu is Some
    &&& f.imu->0.accel@ == numbers_at(region, W_IMU_ACC as int).map_values(
        |x: Single| crate::units::MeterPerSecondSquared(x),
    )
    &&& f.imu->0.gyro@ == numbers_at(region, W_IMU_GYR as int).map_values(
        |x: Single| crate::units::RadianPerSecond(x),
    )
    &&& f.baro_alt == Some(Single { bits: region[W_BARO as int] })
    &&& f.gps is Some <==> fix
    &&& fix ==> is_fix(f.gps->0, region)
    &&& f.mag == before.mag
    &&& f.rc == (RcInput { armed, fresh: true, ..RcInput::at_rest() })
    &&& f.armed == armed
    &&& f.imu_ok
    &&& f.baro_ok
    &&& f.gps_ok == fix
    &&& !f.mag_ok
}

/// Takes over what the simulator has written, if it has made a step since the last
/// look. Returns whether it has, in which case the control loop is to be woken.
pub fn shmem_poll_once(
    region: &[u32; REGION_WORDS],
    state: &mut ShmemState,
    setpoint: &mut HilSetpoint,
    frame: &mut SensorFrame,
    seq: &mut u32,
) -> (woken: bool)
    ensures
        woken == has_news(region@, *old(state)),
        !woken ==> {
            &&& *final(state) == *old(state)
            &&& *final(setpoint) == *old(setpoint)
            &&& *final(frame) == *old(frame)
            &&& *final(seq) == *old(seq)
        },
        woken ==> {
            &&& final(state).last_pc_seq == region[W_PC_SEQ as int]
            &&& final(state).last_accel_z == (Single { bits: region[W_IMU_ACC + 2] })
            &&& is_setpoint(*final(setpoint), region@)
            &&& is_frame(*final(frame), *old(frame), region@)
            &&& *final(seq) == super::sensors_task::counter_after(*old(seq))
        },
{
    if !shmem_available(region) {
        return false;
    }
    let pc_seq: u32 = region[W_PC_SEQ];
    if pc_seq == state.last_pc_seq {
        return false;
    }
    state.last_pc_seq = pc_seq;
    let acc: [Single; 3] = three(region, W_IMU_ACC);
    let gyr: [Single; 3] = three(region, W_IMU_GYR);
    state.last_accel_z = acc[2];
    let baro: Single = Single::from_bits(region[W_BARO]);
    let gps_valid: bool = region[W_GPS_VALID] != 0;
    let gps_pos: [Single; 3] = three(region, W_GPS_POS);
    let gps_vel: [Single; 3] = three(region, W_GPS_VEL);
    let armed: bool = region[W_ARMED] != 0;
    *setpoint = HilSetpoint {
        time_boot_ms: pc_seq,
        pos: three(region, W_SP_POS),
        vel: three(region, W_SP_VEL),
        acc: three(region, W_SP_ACC),
        yaw: Single::from_bits(region[W_SP_YAW]),
        valid: region[W_SP_VALID] != 0,
    };
    *seq = seq.wrapping_add(1);
    let imu: ImuSample = ImuSample::from_axes(acc, gyr);
    assert(imu.accel@ =~= numbers_at(region@, W_IMU_ACC as int).map_values(
        |x: Single| crate::units::MeterPerSecondSquared(x),
    ));
    assert(imu.gyro@ =~= numbers_at(region@, W_IMU_GYR as int).map_values(
        |x: Single| crate::units::RadianPerSecond(x),
    ));
    let pos: [Meter; 3] = [Meter(gps_pos[0]), Meter(gps_pos[1]), Meter(gps_pos[2])];
    let vel: [MeterPerSecond; 3] = [
        MeterPerSecond(gps_vel[0]),
        MeterPerSecond(gps_vel[1]),
        MeterPerSecond(gps_vel[2]),
    ];
    assert(pos@ =~= numbers_at(region@, W_GPS_POS as int).map_values(|x: Single| Meter(x)));
    assert(vel@ =~= numbers_at(region@, W_GPS_VEL as int).map_values(
        |x: Single| MeterPerSecond(x),
    ));
    let z: Single = Single::from_i32(0);
    frame.imu = Some(imu);
    frame.baro_alt = Some(baro);
    frame.gps = if gps_valid {
        Some(PosSample::with_vel(pos, vel))
    } else {
        None
    };
    frame.rc = RcInput { roll: z, pitch: z, yaw: z, throttle: z, armed, mode: 0, fresh: true };
    frame.armed = armed;
    frame.imu_ok = true;
    frame.baro_ok = true;
    frame.gps_ok = gps_valid;
    frame.mag_ok = false;
    *seq = seq.wrapping_add(1);
    true
}

/// The number that stands for a health.
pub open spec fn health_number(health: Health) -> int {
    match health {
        Health::Nominal => 0,
        Health::Degraded => 1,
        Health::Critical => 2,
    }
}

/// The diagnosis: the motors, their mean, the health, position, velocity, the write
/// counter, the altitude, the last specific force downwards and the arming state.
pub open spec fn diagnosis(
    motors: Seq<Single>,
    est: VehicleState,
    health: Health,
    armed: bool,
    seq: u32,
    accel_z: Single,
) -> Seq<Single> {
    seq![
        motors[0],
        motors[1],
        motors[2],
        motors[3],
        (motors[0] + motors[1] + motors[2] + motors[3]) / Single::of_int(4),
        Single::of_int(health_number(health)),
        est.pos[0].0,
        est.pos[1].0,
        est.pos[2].0,
        est.vel[0].0,
        est.vel[1].0,
        est.vel[2].0,
        Single::of_int(seq as int),
        est.pos[2].0,
        accel_z,
        Single::of_int(
            if armed {
                1
            } else {
                0
            },
        ),
    ]
}

/// The region after a write back.
pub open spec fn written_back(region: Seq<u32>, motors: Seq<Single>, diag: Seq<Single>) -> Seq<
    u32,
> {
    Seq::new(
        REGION_WORDS as nat,
        |i: int|
            if i == W_MCU_SEQ {
                if region[i] == u32::MAX {
                    0
                } else {
                    (region[i] + 1) as u32
                }
            } else if W_MOTOR <= i < W_MOTOR + 4 {
                motors[i - W_MOTOR].bits
            } else if W_DIAG <= i {
                diag[i - W_DIAG].bits
            } else {
                region[i]
            },
    )
}

/// Writes motors and diagnosis back for the simulator and counts the write.
pub fn shmem_write_back(
    region: &mut [u32; REGION_WORDS],
    motors: &[Single; 4],
    est: &VehicleState,
    health: Health,
    armed: bool,
    seq: u32,
    state: &ShmemState,
)
    ensures
        final(region)@ == if old(region)[W_MAGIC as int] == MAGIC {
            written_back(
                old(region)@,
                motors@,
                diagnosis(motors@, *est, health, armed, seq, state.last_accel_z),
            )
        } else {
            old(region)@
        },
{
    if !shmem_available(region) {
        return;
    }
    region[W_MCU_SEQ] = region[W_MCU_SEQ].wrapping_add(1);
    let level: i32 = match health {
        Health::Nominal => 0,
        Health::Degraded => 1,
        Health::Critical => 2,
    };
    let diag: [Single; 16] = [
        motors[0],
        motors[1],
        motors[2],
        motors[3],
        (motors[0] + motors[1] + motors[2] + motors[3]) / Single::from_i32(4),
        Single::from_i32(level),
        est.pos[0].0,
        est.pos[1].0,
        est.pos[2].0,
        est.vel[0].0,
        est.vel[1].0,
        est.vel[2].0,
        Single::from_u64(seq as u64),
        est.pos[2].0,
        state.last_accel_z,
        Single::from_i32(
            if armed {
                1
            } else {
                0
            },
        ),
    ];
    let ghost d = diagnosis(motors@, *est, health, armed, seq, state.last_accel_z);
    assert(diag@ =~= d);
    let ghost counted = region@;
    let mut i: usize = 0;
    while i < 4
        invariant
            i <= 4,
            counted.len() == REGION_WORDS,
            region@ == Seq::new(
                REGION_WORDS as nat,
                |k: int|
                    if W_MOTOR <= k < W_MOTOR + i {
                        motors[k - W_MOTOR].bits
                    } else {
                        counted[k]
                    },
            ),
        decreases 4 - i,
    {
        region[W_MOTOR + i] = motors[i].to_bits();
        i += 1;
        assert(region@ =~= Seq::new(
            REGION_WORDS as nat,
            |k: int|
                if W_MOTOR <= k < W_MOTOR + i {
                    motors[k - W_MOTOR].bits
                } else {
                    counted[k]
                },
        ));
    }
    let ghost driven = region@;
    let mut j: usize = 0;
    while j < 16
        invariant
            j <= 16,
            driven.len() == REGION_WORDS,
            region@ == Seq::new(
                REGION_WORDS as nat,
                |k: int|
                    if W_DIAG <= k < W_DIAG + j {
                        diag[k - W_DIAG].bits
                    } else {
                        driven[k]
                    },
            ),
        decreases 16 - j,
    {
        region[W_DIAG + j] = diag[j].to_bits();
        j += 1;
        assert(region@ =~= Seq::new(
            REGION_WORDS as nat,
            |k: int|
                if W_DIAG <= k < W_DIAG + j {
                    diag[k - W_DIAG].bits
                } else {
                    driven[k]
                },
        ));
    }
    assert(region@ =~= written_back(old(region)@, motors@, d));
}

/// What the simulator has written stays as it is under a write back.
pub proof fn law_write_back_keeps_input(
    region: Seq<u32>,
    motors: Seq<Single>,
    diag: Seq<Single>,
    w: int,
)
    requires
        region.len() == REGION_WORDS,
        0 <= w < W_MCU_SEQ,
    ensures
        written_back(region, motors, diag)[w] == region[w],
{
}

/// A step of the simulator is taken over once: a second look finds no news.
pub proof fn law_taken_over_once(region: Seq<u32>, accel_z: Single)
    ensures
        !has_news(
            region,
            ShmemState { last_pc_seq: region[W_PC_SEQ as int], last_accel_z: accel_z },
        ),
{
}

} // verus!
