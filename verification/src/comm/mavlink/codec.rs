//! The messages: what stands in each payload, and reading it back.

use super::enums;
use super::frame::{encode, encode_from, COMP_ID, MAX_FRAME_LEN, SYS_ID};
use super::msg_id;
use crate::single::Single;
use vstd::prelude::*;

verus! {

/// The bytes of a number.
pub open spec fn number(x: Single) -> Seq<u8> {
    super::frame::le4(x.bits)
}

/// The number in the four bytes from `i` on.
pub open spec fn number_at(s: Seq<u8>, i: int) -> Single {
    Single { bits: super::frame::le4_at(s, i) as u32 }
}

/// The two's complement bit pattern of a signed 16-bit number.
pub open spec fn pattern16(v: i16) -> u16 {
    if v >= 0 {
        v as u16
    } else {
        (v + 65536) as u16
    }
}

/// The two's complement bit pattern of a signed 32-bit number.
pub open spec fn pattern32(v: i32) -> u32 {
    if v >= 0 {
        v as u32
    } else {
        (v + 4294967296) as u32
    }
}

pub fn put_u16(out: &mut Vec<u8>, v: u16)
    ensures
        final(out)@ == old(out)@ + super::frame::le2(v),
{
    out.push((v % 256) as u8);
    out.push((v / 256) as u8);
    assert(out@ =~= old(out)@ + super::frame::le2(v));
}

pub fn put_u32(out: &mut Vec<u8>, v: u32)
    ensures
        final(out)@ == old(out)@ + super::frame::le4(v),
{
    out.push((v % 256) as u8);
    out.push((v / 256 % 256) as u8);
    out.push((v / 65536 % 256) as u8);
    out.push((v / 16777216) as u8);
    assert(out@ =~= old(out)@ + super::frame::le4(v));
}

pub fn put_f32(out: &mut Vec<u8>, v: Single)
    ensures
        final(out)@ == old(out)@ + number(v),
{
    put_u32(out, v.to_bits());
}

pub fn put_i16(out: &mut Vec<u8>, v: i16)
    ensures
        final(out)@ == old(out)@ + super::frame::le2(pattern16(v)),
{
    if v >= 0 {
        put_u16(out, v as u16);
    } else {
        put_u16(out, (v as i32 + 65536) as u16);
    }
}

pub fn put_i32(out: &mut Vec<u8>, v: i32)
    ensures
        final(out)@ == old(out)@ + super::frame::le4(pattern32(v)),
{
    if v >= 0 {
        put_u32(out, v as u32);
    } else {
        put_u32(out, (v as i64 + 4294967296) as u32);
    }
}

fn put_bytes(out: &mut Vec<u8>, bytes: &[u8; 16])
    ensures
        final(out)@ == old(out)@ + bytes@,
{
    let mut i: usize = 0;
    while i < 16
        invariant
            i <= 16,
            out@ == old(out)@ + bytes@.take(i as int),
        decreases 16 - i,
    {
        out.push(bytes[i]);
        i += 1;
        assert(out@ =~= old(out)@ + bytes@.take(i as int));
    }
    assert(bytes@.take(16) =~= bytes@);
}

fn get_u16(s: &[u8], i: usize) -> (r: u16)
    requires
        i + 2 <= s@.len(),
    ensures
        r == super::frame::le2_at(s@, i as int),
{
    s[i] as u16 + 256 * s[i + 1] as u16
}

fn get_f32(s: &[u8], i: usize) -> (r: Single)
    requires
        i + 4 <= s@.len(),
    ensures
        r == number_at(s@, i as int),
{
    let bits: u32 = s[i] as u32 + 256 * s[i + 1] as u32 + 65536 * s[i + 2] as u32 + 16777216 * s[i
        + 3] as u32;
    Single::from_bits(bits)
}

/// The payload of a heartbeat: kind of vehicle, autopilot, mode flags, custom mode,
/// state and protocol version.
pub open spec fn heartbeat_payload(custom_mode: u32, armed: bool) -> Seq<u8> {
    let base_mode: u8 = if armed {
        0x81
    } else {
        0x01
    };
    seq![enums::MAV_TYPE_QUADROTOR, enums::MAV_AUTOPILOT_ARDUPILOTMEGA, base_mode]
        + super::frame::le4(custom_mode)
        + seq![enums::MAV_STATE_ACTIVE, enums::MAVLINK_VERSION]
}

pub fn encode_heartbeat(
    custom_mode: u32,
    armed: bool,
    seq: u8,
    out: &mut [u8; MAX_FRAME_LEN],
) -> (n: usize)
    ensures
        n == 21,
        super::frame::wrote(
            old(out)@,
            final(out)@,
            n,
            super::frame::framed(
                SYS_ID,
                msg_id::HEARTBEAT,
                seq,
                heartbeat_payload(custom_mode, armed),
            ),
        ),
{
    let mut p: Vec<u8> = Vec::new();
    p.push(enums::MAV_TYPE_QUADROTOR);
    p.push(enums::MAV_AUTOPILOT_ARDUPILOTMEGA);
    p.push(
        if armed {
            enums::MAV_MODE_FLAG_SAFETY_ARMED + enums::MAV_MODE_FLAG_CUSTOM_MODE_ENABLED
        } else {
            enums::MAV_MODE_FLAG_CUSTOM_MODE_ENABLED
        },
    );
    put_u32(&mut p, custom_mode);
    p.push(enums::MAV_STATE_ACTIVE);
    p.push(enums::MAVLINK_VERSION);
    assert(p@ =~= heartbeat_payload(custom_mode, armed));
    encode(msg_id::HEARTBEAT, seq, p.as_slice(), out)
}

/// The payload of a status report: sensors present, enabled and healthy, then load,
/// battery and error counts, of which nothing is measured.
pub open spec fn sys_status_payload(sensors_ok: bool) -> Seq<u8> {
    let health: u32 = if sensors_ok {
        enums::SENSOR_MASK
    } else {
        0
    };
    super::frame::le4(enums::SENSOR_MASK) + super::frame::le4(enums::SENSOR_MASK)
        + super::frame::le4(health) + super::frame::le2(0) + super::frame::le2(0xFFFF)
        + super::frame::le2(0xFFFF) + super::frame::le2(0) + super::frame::le2(0)
        + super::frame::le2(0) + super::frame::le2(0) + super::frame::le2(0)
        + super::frame::le2(0) + seq![0xFFu8]
}

pub fn encode_sys_status(
    sensors_ok: bool,
    seq: u8,
    out: &mut [u8; MAX_FRAME_LEN],
) -> (n: usize)
    ensures
        n == 43,
        super::frame::wrote(
            old(out)@,
            final(out)@,
            n,
            super::frame::framed(
                SYS_ID,
                msg_id::SYS_STATUS,
                seq,
                sys_status_payload(sensors_ok),
            ),
        ),
{
    let mut p: Vec<u8> = Vec::new();
    put_u32(&mut p, enums::SENSOR_MASK);
    put_u32(&mut p, enums::SENSOR_MASK);
    put_u32(
        &mut p,
        if sensors_ok {
            enums::SENSOR_MASK
        } else {
            0
        },
    );
    put_u16(&mut p, 0);
    put_u16(&mut p, 0xFFFF);
    put_u16(&mut p, 0xFFFF);
    put_u16(&mut p, 0);
    put_u16(&mut p, 0);
    put_u16(&mut p, 0);
    put_u16(&mut p, 0);
    put_u16(&mut p, 0);
    put_u16(&mut p, 0);
    p.push(0xFF);
    assert(p@ =~= sys_status_payload(sensors_ok));
    encode(msg_id::SYS_STATUS, seq, p.as_slice(), out)
}

/// The payload of an attitude report: time, three angles, three rates.
pub open spec fn attitude_payload(time_boot_ms: u32, angles: Seq<Single>, rates: Seq<Single>) -> Seq<
    u8,
> {
    super::frame::le4(time_boot_ms) + number(angles[0]) + number(angles[1]) + number(angles[2])
        + number(rates[0]) + number(rates[1]) + number(rates[2])
}

pub fn encode_attitude_raw(
    time_boot_ms: u32,
    roll: Single,
    pitch: Single,
    yaw: Single,
    rollspeed: Single,
    pitchspeed: Single,
    yawspeed: Single,
    seq: u8,
    out: &mut [u8; MAX_FRAME_LEN],
) -> (n: usize)
    ensures
        n == 40,
        super::frame::wrote(
            old(out)@,
            final(out)@,
            n,
            super::frame::framed(
                SYS_ID,
                msg_id::ATTITUDE,
                seq,
                attitude_payload(
                    time_boot_ms,
                    seq![roll, pitch, yaw],
                    seq![rollspeed, pitchspeed, yawspeed],
                ),
            ),
        ),
{
    let mut p: Vec<u8> = Vec::new();
    put_u32(&mut p, time_boot_ms);
    put_f32(&mut p, roll);
    put_f32(&mut p, pitch);
    put_f32(&mut p, yaw);
    put_f32(&mut p, rollspeed);
    put_f32(&mut p, pitchspeed);
    put_f32(&mut p, yawspeed);
    assert(p@ =~= attitude_payload(
        time_boot_ms,
        seq![roll, pitch, yaw],
        seq![rollspeed, pitchspeed, yawspeed],
    ));
    encode(msg_id::ATTITUDE, seq, p.as_slice(), out)
}

/// The payload of a local position report: time, position, velocity.
pub open spec fn local_pos_payload(time_boot_ms: u32, pos: Seq<Single>, vel: Seq<Single>) -> Seq<
    u8,
> {
    super::frame::le4(time_boot_ms) + number(pos[0]) + number(pos[1]) + number(pos[2])
        + number(vel[0]) + number(vel[1]) + number(vel[2])
}

pub fn encode_local_pos_from_raw(
    sys_id: u8,
    time_boot_ms: u32,
    x: Single,
    y: Single,
    z: Single,
    vx: Single,
    vy: Single,
    vz: Single,
    seq: u8,
    out: &mut [u8; MAX_FRAME_LEN],
) -> (n: usize)
    ensures
        n == 40,
        super::frame::wrote(
            old(out)@,
            final(out)@,
            n,
            super::frame::framed(
                sys_id,
                msg_id::LOCAL_POSITION_NED,
                seq,
                local_pos_payload(time_boot_ms, seq![x, y, z], seq![vx, vy, vz]),
            ),
        ),
{
    let mut p: Vec<u8> = Vec::new();
    put_u32(&mut p, time_boot_ms);
    put_f32(&mut p, x);
    put_f32(&mut p, y);
    put_f32(&mut p, z);
    put_f32(&mut p, vx);
    put_f32(&mut p, vy);
    put_f32(&mut p, vz);
    assert(p@ =~= local_pos_payload(time_boot_ms, seq![x, y, z], seq![vx, vy, vz]));
    encode_from(sys_id, msg_id::LOCAL_POSITION_NED, seq, p.as_slice(), out)
}

/// The payload of the head-up display: airspeed, which is not measured, then ground
/// speed, heading, throttle, altitude and climb.
pub open spec fn vfr_hud_payload(
    groundspeed: Single,
    heading_cdeg: i16,
    throttle_pct: u16,
    alt: Single,
    climb: Single,
) -> Seq<u8> {
    super::frame::le4(0) + number(groundspeed) + super::frame::le2(pattern16(heading_cdeg))
        + super::frame::le2(throttle_pct) + number(alt) + number(climb)
}

pub fn encode_vfr_hud_raw(
    groundspeed: Single,
    heading_cdeg: i16,
    throttle_pct: u16,
    alt: Single,
    climb: Single,
    seq: u8,
    out: &mut [u8; MAX_FRAME_LEN],
) -> (n: usize)
    ensures
        n == 32,
        super::frame::wrote(
            old(out)@,
            final(out)@,
            n,
            super::frame::framed(
                SYS_ID,
                msg_id::VFR_HUD,
                seq,
                vfr_hud_payload(groundspeed, heading_cdeg, throttle_pct, alt, climb),
            ),
        ),
{
    let mut p: Vec<u8> = Vec::new();
    put_u32(&mut p, 0);
    put_f32(&mut p, groundspeed);
    put_i16(&mut p, heading_cdeg);
    put_u16(&mut p, throttle_pct);
    put_f32(&mut p, alt);
    put_f32(&mut p, climb);
    assert(p@ =~= vfr_hud_payload(groundspeed, heading_cdeg, throttle_pct, alt, climb));
    encode(msg_id::VFR_HUD, seq, p.as_slice(), out)
}

/// The payload of a global position report: time, latitude and longitude, which are
/// not known, altitude (the same above sea and above home), velocity and heading.
pub open spec fn global_position_payload(
    time_boot_ms: u32,
    relative_alt_mm: i32,
    vx: i16,
    vy: i16,
    vz: i16,
    hdg: u16,
) -> Seq<u8> {
    super::frame::le4(time_boot_ms) + super::frame::le4(0) + super::frame::le4(0)
        + super::frame::le4(pattern32(relative_alt_mm)) + super::frame::le4(
        pattern32(relative_alt_mm),
    ) + super::frame::le2(pattern16(vx)) + super::frame::le2(pattern16(vy)) + super::frame::le2(
        pattern16(vz),
    ) + super::frame::le2(hdg)
}

pub fn encode_global_position_int_raw(
    time_boot_ms: u32,
    relative_alt_mm: i32,
    vx: i16,
    vy: i16,
    vz: i16,
    hdg: u16,
    seq: u8,
    out: &mut [u8; MAX_FRAME_LEN],
) -> (n: usize)
    ensures
        n == 40,
        super::frame::wrote(
            old(out)@,
            final(out)@,
            n,
            super::frame::framed(
                SYS_ID,
                msg_id::GLOBAL_POSITION_INT,
                seq,
                global_position_payload(time_boot_ms, relative_alt_mm, vx, vy, vz, hdg),
            ),
        ),
{
    let mut p: Vec<u8> = Vec::new();
    put_u32(&mut p, time_boot_ms);
    put_u32(&mut p, 0);
    put_u32(&mut p, 0);
    put_i32(&mut p, relative_alt_mm);
    put_i32(&mut p, relative_alt_mm);
    put_i16(&mut p, vx);
    put_i16(&mut p, vy);
    put_i16(&mut p, vz);
    put_u16(&mut p, hdg);
    assert(p@ =~= global_position_payload(time_boot_ms, relative_alt_mm, vx, vy, vz, hdg));
    encode(msg_id::GLOBAL_POSITION_INT, seq, p.as_slice(), out)
}

/// A command with seven parameters.
#[derive(Clone, Copy, Debug, PartialEq)]
pub struct CommandLong {
    pub command: u16,
    pub params: [Single; 7],
    pub target_system: u8,
    pub target_component: u8,
    pub confirmation: u8,
}

/// The payload of a command to this vehicle.
pub open spec fn command_long_payload(command: u16, params: Seq<Single>, confirmation: u8) -> Seq<
    u8,
> {
    number(params[0]) + number(params[1]) + number(params[2]) + number(params[3]) + number(
        params[4],
    ) + number(params[5]) + number(params[6]) + super::frame::le2(command) + seq![
        SYS_ID,
        COMP_ID,
        confirmation,
    ]
}

pub fn encode_command_long(
    command: u16,
    p1: Single,
    p2: Single,
    p3: Single,
    p4: Single,
    p5: Single,
    p6: Single,
    p7: Single,
    confirmation: u8,
    seq: u8,
    out: &mut [u8; MAX_FRAME_LEN],
) -> (n: usize)
    ensures
        n == 45,
        super::frame::wrote(
            old(out)@,
            final(out)@,
            n,
            super::frame::framed(
                SYS_ID,
                msg_id::COMMAND_LONG,
                seq,
                command_long_payload(command, seq![p1, p2, p3, p4, p5, p6, p7], confirmation),
            ),
        ),
{
    let mut p: Vec<u8> = Vec::new();
    put_f32(&mut p, p1);
    put_f32(&mut p, p2);
    put_f32(&mut p, p3);
    put_f32(&mut p, p4);
    put_f32(&mut p, p5);
    put_f32(&mut p, p6);
    put_f32(&mut p, p7);
    put_u16(&mut p, command);
    p.push(SYS_ID);
    p.push(COMP_ID);
    p.push(confirmation);
    assert(p@ =~= command_long_payload(
        command,
        seq![p1, p2, p3, p4, p5, p6, p7],
        confirmation,
    ));
    encode(msg_id::COMMAND_LONG, seq, p.as_slice(), out)
}

/// The command in a payload of at least 33 bytes.
pub open spec fn is_command_long(c: CommandLong, p: Seq<u8>) -> bool {
    &&& c.command == super::frame::le2_at(p, 28)
    &&& c.params@ == Seq::new(7, |i: int| number_at(p, 4 * i))
    &&& c.target_system == p[30]
    &&& c.target_component == p[31]
    &&& c.confirmation == p[32]
}

pub fn decode_command_long(p: &[u8]) -> (r: Option<CommandLong>)
    ensures
        r is Some <==> p@.len() >= 33,
        r matches Some(c) ==> is_command_long(c, p@),
{
    if p.len() < 33 {
        return None;
    }
    let c = CommandLong {
        command: get_u16(p, 28),
        params: [
            get_f32(p, 0),
            get_f32(p, 4),
            get_f32(p, 8),
            get_f32(p, 12),
            get_f32(p, 16),
            get_f32(p, 20),
            get_f32(p, 24),
        ],
        target_system: p[30],
        target_component: p[31],
        confirmation: p[32],
    };
    assert(c.params@ =~= Seq::new(7, |i: int| number_at(p@, 4 * i)));
    Some(c)
}

/// The payload of an answer to a command: the command, the result, no progress and
/// no further result, and who had sent the command.
pub open spec fn command_ack_payload(
    command: u16,
    result: u8,
    target_system: u8,
    target_component: u8,
) -> Seq<u8> {
    super::frame::le2(command) + seq![result, 0u8] + super::frame::le4(0) + seq![
        target_system,
        target_component,
    ]
}

pub fn encode_command_ack(
    command: u16,
    result: u8,
    target_system: u8,
    target_component: u8,
    seq: u8,
    out: &mut [u8; MAX_FRAME_LEN],
) -> (n: usize)
    ensures
        n == 22,
        super::frame::wrote(
            old(out)@,
            final(out)@,
            n,
            super::frame::framed(
                SYS_ID,
                msg_id::COMMAND_ACK,
                seq,
                command_ack_payload(command, result, target_system, target_component),
            ),
        ),
{
    let mut p: Vec<u8> = Vec::new();
    put_u16(&mut p, command);
    p.push(result);
    p.push(0);
    put_u32(&mut p, 0);
    p.push(target_system);
    p.push(target_component);
    assert(p@ =~= command_ack_payload(command, result, target_system, target_component));
    encode(msg_id::COMMAND_ACK, seq, p.as_slice(), out)
}

/// The command and the result in an answer.
pub fn decode_command_ack(p: &[u8]) -> (r: Option<(u16, u8)>)
    ensures
        r is Some <==> p@.len() >= 3,
        r matches Some(a) ==> a.0 == super::frame::le2_at(p@, 0) && a.1 == p@[2],
{
    if p.len() < 3 {
        return None;
    }
    Some((get_u16(p, 0), p[2]))
}

/// The payload of a request for all parameters.
pub open spec fn param_request_list_payload(target_system: u8, target_component: u8) -> Seq<u8> {
    seq![target_system, target_component]
}

pub fn encode_param_request_list(
    target_system: u8,
    target_component: u8,
    sys_id: u8,
    seq: u8,
    out: &mut [u8; MAX_FRAME_LEN],
) -> (n: usize)
    ensures
        n == 14,
        super::frame::wrote(
            old(out)@,
            final(out)@,
            n,
            super::frame::framed(
                sys_id,
                msg_id::PARAM_REQUEST_LIST,
                seq,
                param_request_list_payload(target_system, target_component),
            ),
        ),
{
    let mut p: Vec<u8> = Vec::new();
    p.push(target_system);
    p.push(target_component);
    assert(p@ =~= param_request_list_payload(target_system, target_component));
    encode_from(sys_id, msg_id::PARAM_REQUEST_LIST, seq, p.as_slice(), out)
}

/// One parameter, and where it stands among all of them.
#[derive(Clone, Copy, Debug, PartialEq)]
pub struct ParamValue {
    pub id: [u8; 16],
    pub value: Single,
    pub param_type: u8,
    pub param_count: u16,
    pub param_index: u16,
}

/// The payload of one parameter.
pub open spec fn param_value_payload(
    id: Seq<u8>,
    value: Single,
    param_type: u8,
    count: u16,
    index: u16,
) -> Seq<u8> {
    number(value) + super::frame::le2(count) + super::frame::le2(index) + id + seq![param_type]
}

pub fn encode_param_value(
    id: &[u8; 16],
    value: Single,
    param_type: u8,
    count: u16,
    index: u16,
    seq: u8,
    out: &mut [u8; MAX_FRAME_LEN],
) -> (n: usize)
    ensures
        n == 37,
        super::frame::wrote(
            old(out)@,
            final(out)@,
            n,
            super::frame::framed(
                SYS_ID,
                msg_id::PARAM_VALUE,
                seq,
                param_value_payload(id@, value, param_type, count, index),
            ),
        ),
{
    let mut p: Vec<u8> = Vec::new();
    put_f32(&mut p, value);
    put_u16(&mut p, count);
    put_u16(&mut p, index);
    put_bytes(&mut p, id);
    p.push(param_type);
    assert(p@ =~= param_value_payload(id@, value, param_type, count, index));
    encode(msg_id::PARAM_VALUE, seq, p.as_slice(), out)
}

/// The parameter in a payload of at least 25 bytes.
pub open spec fn is_param_value(v: ParamValue, p: Seq<u8>) -> bool {
    &&& v.id@ == p.subrange(8, 24)
    &&& v.value == number_at(p, 0)
    &&& v.param_type == p[24]
    &&& v.param_count == super::frame::le2_at(p, 4)
    &&& v.param_index == super::frame::le2_at(p, 6)
}

pub fn decode_param_value(p: &[u8]) -> (r: Option<ParamValue>)
    ensures
        r is Some <==> p@.len() >= 25,
        r matches Some(v) ==> is_param_value(v, p@),
{
    if p.len() < 25 {
        return None;
    }
    let mut id: [u8; 16] = [0u8; 16];
    let mut i: usize = 0;
    while i < 16
        invariant
            i <= 16,
            p@.len() >= 25,
            id@.take(i as int) == p@.subrange(8, 8 + i),
        decreases 16 - i,
    {
        id[i] = p[8 + i];
        i += 1;
        assert(id@.take(i as int) =~= p@.subrange(8, 8 + i));
    }
    assert(id@.take(16) =~= id@);
    Some(
        ParamValue {
            id,
            value: get_f32(p, 0),
            param_type: p[24],
            param_count: get_u16(p, 4),
            param_index: get_u16(p, 6),
        },
    )
}

/// The bytes of a number give the number back, wherever they stand.
proof fn lemma_number_at(before: Seq<u8>, x: Single, after: Seq<u8>)
    ensures
        number_at(before + number(x) + after, before.len() as int) == x,
{
    let s = before + number(x) + after;
    let i = before.len() as int;
    assert(s[i] == number(x)[0]);
    assert(s[i + 1] == number(x)[1]);
    assert(s[i + 2] == number(x)[2]);
    assert(s[i + 3] == number(x)[3]);
}

/// Reading a command gives back what was written.
pub proof fn law_command_long_round_trip(
    command: u16,
    params: Seq<Single>,
    confirmation: u8,
    c: CommandLong,
)
    requires
        params.len() == 7,
        is_command_long(c, command_long_payload(command, params, confirmation)),
    ensures
        c.command == command,
        c.params@ == params,
        c.confirmation == confirmation,
        c.target_system == SYS_ID,
        c.target_component == COMP_ID,
{
    let p = command_long_payload(command, params, confirmation);
    let ns = Seq::new(7, |i: int| number(params[i]));
    assert forall|k: int| 0 <= k < 7 implies number_at(p, 4 * k) == #[trigger] params[k] by {
        let before = p.take(4 * k);
        let after = p.skip(4 * k + 4);
        assert(p =~= before + number(params[k]) + after);
        lemma_number_at(before, params[k], after);
    }
    assert(c.params@ =~= params);
    assert(p[28] == super::frame::le2(command)[0] && p[29] == super::frame::le2(command)[1]);
}

/// Reading a parameter gives back what was written.
pub proof fn law_param_value_round_trip(
    id: Seq<u8>,
    value: Single,
    param_type: u8,
    count: u16,
    index: u16,
    v: ParamValue,
)
    requires
        id.len() == 16,
        is_param_value(v, param_value_payload(id, value, param_type, count, index)),
    ensures
        v.id@ == id,
        v.value == value,
        v.param_type == param_type,
        v.param_count == count,
        v.param_index == index,
{
    let p = param_value_payload(id, value, param_type, count, index);
    assert(p =~= Seq::<u8>::empty() + number(value) + p.skip(4));
    lemma_number_at(Seq::empty(), value, p.skip(4));
    assert(p.subrange(8, 24) =~= id);
    assert(p[4] == super::frame::le2(count)[0] && p[5] == super::frame::le2(count)[1]);
    assert(p[6] == super::frame::le2(index)[0] && p[7] == super::frame::le2(index)[1]);
}

/// Reading an answer gives back the command and the result.
pub proof fn law_command_ack_round_trip(
    command: u16,
    result: u8,
    target_system: u8,
    target_component: u8,
)
    ensures
        ({
            let p = command_ack_payload(command, result, target_system, target_component);
            &&& p.len() >= 3
            &&& super::frame::le2_at(p, 0) == command
            &&& p[2] == result
        }),
{
}

} // verus!
