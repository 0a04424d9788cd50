//! Frames: a start byte, a header of nine bytes, the payload and a checksum that
//! also covers a byte known for each message.

use super::msg_id;
use vstd::prelude::*;

verus! {

/// The first byte of a frame.
pub const MAVLINK_MAGIC: u8 = 0xFD;

/// The bytes before the payload, the start byte included.
pub const HEADER_LEN: usize = 10;

/// The bytes of a frame beside its payload.
pub const FRAME_OVERHEAD: usize = 12;

/// The room that a frame takes at most.
pub const MAX_FRAME_LEN: usize = 280;

/// The number by which this vehicle is known.
pub const SYS_ID: u8 = 1;

/// The number by which the controller on this vehicle is known.
pub const COMP_ID: u8 = 1;

/// The bytes of one frame, or of none.
#[derive(Clone, Copy, Debug)]
pub struct Frame {
    pub data: [u8; 280],
    pub len: usize,
}

impl Frame {
    /// The bytes that are in the frame.
    pub open spec fn bytes(self) -> Seq<u8> {
        self.data@.take(
            if self.len <= MAX_FRAME_LEN {
                self.len as int
            } else {
                MAX_FRAME_LEN as int
            },
        )
    }

    /// The first bytes of `s`, as many as a frame can hold.
    pub fn from_bytes(s: &[u8]) -> (r: Frame)
        ensures
            r.len <= MAX_FRAME_LEN,
            r.bytes() == if s@.len() <= MAX_FRAME_LEN {
                s@
            } else {
                s@.take(MAX_FRAME_LEN as int)
            },
    {
        let len: usize = if s.len() <= MAX_FRAME_LEN {
            s.len()
        } else {
            MAX_FRAME_LEN
        };
        let mut data: [u8; 280] = [0u8; 280];
        let mut i: usize = 0;
        while i < len
            invariant
                i <= len <= MAX_FRAME_LEN,
                len <= s@.len(),
                data@.take(i as int) == s@.take(i as int),
            decreases len - i,
        {
            data[i] = s[i];
            i += 1;
            assert(data@.take(i as int) =~= s@.take(i as int));
        }
        let r = Frame { data, len };
        assert(s@.take(s@.len() as int) =~= s@);
        r
    }

    pub fn is_empty(&self) -> (r: bool)
        ensures
            r == (self.len == 0),
            r == (self.bytes().len() == 0),
    {
        self.len == 0
    }
}

impl Default for Frame {
    /// The frame without bytes.
    fn default() -> (r: Frame)
        ensures
            r.len == 0,
            r.bytes() == Seq::<u8>::empty(),
    {
        let r = Frame { data: [0u8; 280], len: 0 };
        assert(r.bytes() =~= Seq::<u8>::empty());
        r
    }
}

/// One step of the checksum's shift register.
pub open spec fn crc_bit(crc: u16) -> u16 {
    if crc & 1 == 1 {
        (crc >> 1) ^ 0x8408
    } else {
        crc >> 1
    }
}

/// The register after `n` steps.
pub open spec fn crc_bits(crc: u16, n: nat) -> u16
    decreases n,
{
    if n == 0 {
        crc
    } else {
        crc_bit(crc_bits(crc, (n - 1) as nat))
    }
}

/// The checksum register after the bytes of `data`.
pub open spec fn crc_over(crc: u16, data: Seq<u8>) -> u16
    decreases data.len(),
{
    if data.len() == 0 {
        crc
    } else {
        crc_bits(crc_over(crc, data.drop_last()) ^ data.last() as u16, 8)
    }
}

/// The checksum of `data`.
pub open spec fn checksum(data: Seq<u8>) -> u16 {
    crc_over(0xFFFF, data)
}

fn crc_byte(crc: u16, b: u8) -> (r: u16)
    ensures
        r == crc_bits(crc ^ b as u16, 8),
{
    let mut c: u16 = crc ^ b as u16;
    let mut k: u32 = 0;
    while k < 8
        invariant
            k <= 8,
            c == crc_bits(crc ^ b as u16, k as nat),
        decreases 8 - k,
    {
        c = if c & 1 == 1 {
            (c >> 1) ^ 0x8408
        } else {
            c >> 1
        };
        k += 1;
    }
    c
}

/// The checksum of `data[from..to]` and one byte more.
fn crc_range(data: &[u8], from: usize, to: usize, extra: u8) -> (r: u16)
    requires
        from <= to <= data@.len(),
    ensures
        r == checksum(data@.subrange(from as int, to as int).push(extra)),
{
    let mut c: u16 = 0xFFFF;
    let mut i: usize = from;
    while i < to
        invariant
            from <= i <= to <= data@.len(),
            c == checksum(data@.subrange(from as int, i as int)),
        decreases to - i,
    {
        let ghost before = data@.subrange(from as int, i as int);
        c = crc_byte(c, data[i]);
        i += 1;
        proof {
            let now = data@.subrange(from as int, i as int);
            assert(now.drop_last() =~= before);
        }
    }
    proof {
        let all = data@.subrange(from as int, to as int);
        assert(all.push(extra).drop_last() =~= all);
    }
    crc_byte(c, extra)
}

/// The checksum of `data`.
pub fn crc16_x25(data: &[u8]) -> (r: u16)
    ensures
        r == checksum(data@),
{
    let mut c: u16 = 0xFFFF;
    let mut i: usize = 0;
    while i < data.len()
        invariant
            i <= data@.len(),
            c == checksum(data@.take(i as int)),
        decreases data@.len() - i,
    {
        let ghost before = data@.take(i as int);
        c = crc_byte(c, data[i]);
        i += 1;
        assert(data@.take(i as int).drop_last() =~= before);
    }
    assert(data@.take(i as int) =~= data@);
    c
}

/// The byte that the checksum of a message also covers, for known messages.
pub open spec fn extra_byte(id: u32) -> Option<u8> {
    if id == msg_id::HEARTBEAT {
        Some(50)
    } else if id == msg_id::SYS_STATUS {
        Some(124)
    } else if id == msg_id::PARAM_REQUEST_LIST {
        Some(159)
    } else if id == msg_id::PARAM_VALUE {
        Some(220)
    } else if id == msg_id::ATTITUDE {
        Some(39)
    } else if id == msg_id::LOCAL_POSITION_NED {
        Some(185)
    } else if id == msg_id::GLOBAL_POSITION_INT {
        Some(104)
    } else if id == msg_id::VFR_HUD {
        Some(20)
    } else if id == msg_id::COMMAND_LONG {
        Some(152)
    } else if id == msg_id::COMMAND_ACK {
        Some(143)
    } else {
        None
    }
}

/// The byte that the checksum of a message also covers, for known messages.
pub fn crc_extra(id: u32) -> (r: Option<u8>)
    ensures
        r == extra_byte(id),
{
    match id {
        msg_id::HEARTBEAT => Some(50),
        msg_id::SYS_STATUS => Some(124),
        msg_id::PARAM_REQUEST_LIST => Some(159),
        msg_id::PARAM_VALUE => Some(220),
        msg_id::ATTITUDE => Some(39),
        msg_id::LOCAL_POSITION_NED => Some(185),
        msg_id::GLOBAL_POSITION_INT => Some(104),
        msg_id::VFR_HUD => Some(20),
        msg_id::COMMAND_LONG => Some(152),
        msg_id::COMMAND_ACK => Some(143),
        _ => None,
    }
}

/// The two bytes of a number, the low one first.
pub open spec fn le2(v: u16) -> Seq<u8> {
    seq![(v % 256) as u8, (v / 256) as u8]
}

/// The four bytes of a number, the low one first.
pub open spec fn le4(v: u32) -> Seq<u8> {
    seq![
        (v % 256) as u8,
        (v / 256 % 256) as u8,
        (v / 65536 % 256) as u8,
        (v / 16777216) as u8,
    ]
}

/// The number in the two bytes from `i` on.
pub open spec fn le2_at(s: Seq<u8>, i: int) -> int {
    s[i] + 256 * s[i + 1]
}

/// The number in the three bytes from `i` on.
pub open spec fn le3_at(s: Seq<u8>, i: int) -> int {
    s[i] + 256 * s[i + 1] + 65536 * s[i + 2]
}

/// The number in the four bytes from `i` on.
pub open spec fn le4_at(s: Seq<u8>, i: int) -> int {
    s[i] + 256 * s[i + 1] + 65536 * s[i + 2] + 16777216 * s[i + 3]
}

/// Start byte, payload length, no flags, sequence number, sender and message
/// number.
pub open spec fn header(sys_id: u8, id: u32, seq: u8, len: nat) -> Seq<u8> {
    seq![
        MAVLINK_MAGIC,
        len as u8,
        0u8,
        0u8,
        seq,
        sys_id,
        COMP_ID,
        (id % 256) as u8,
        (id / 256 % 256) as u8,
        (id / 65536 % 256) as u8,
    ]
}

/// The frame that carries `payload`.
#[verifier::opaque]
pub open spec fn framed(sys_id: u8, id: u32, seq: u8, payload: Seq<u8>) -> Seq<u8> {
    let front = header(sys_id, id, seq, payload.len()) + payload;
    front + le2(checksum(front.skip(1).push(extra_byte(id)->0)))
}

/// Whether `frame` was written to the start of a buffer whose rest stays.
pub open spec fn wrote(before: Seq<u8>, after: Seq<u8>, n: usize, frame: Seq<u8>) -> bool {
    &&& n == frame.len()
    &&& after.take(n as int) == frame
    &&& after.skip(n as int) == before.skip(n as int)
}

/// Whether a message can be framed.
pub open spec fn can_frame(id: u32, len: nat) -> bool {
    extra_byte(id) is Some && len <= 255
}

/// The message in a frame: its number and payload, where the start byte, the
/// length, the message number and the checksum are in order.
pub open spec fn unframed(s: Seq<u8>) -> Option<(u32, Seq<u8>)> {
    if s.len() < FRAME_OVERHEAD || s[0] != MAVLINK_MAGIC || s.len() < FRAME_OVERHEAD + s[1] {
        None
    } else {
        let n = s[1] as int;
        let id = le3_at(s, 7) as u32;
        match extra_byte(id) {
            None => None,
            Some(extra) => if checksum(s.subrange(1, HEADER_LEN + n).push(extra)) == le2_at(
                s,
                HEADER_LEN + n,
            ) {
                Some((id, s.subrange(HEADER_LEN as int, HEADER_LEN + n)))
            } else {
                None
            },
        }
    }
}

/// Writes the frame that carries `payload` to the start of `out` and returns its
/// length; for an unknown message or a payload that is too long, zero.
pub fn encode_from(
    sys_id: u8,
    id: u32,
    seq: u8,
    payload: &[u8],
    out: &mut [u8; MAX_FRAME_LEN],
) -> (n: usize)
    ensures
        can_frame(id, payload@.len()) ==> {
            &&& n == FRAME_OVERHEAD + payload@.len()
            &&& wrote(old(out)@, final(out)@, n, framed(sys_id, id, seq, payload@))
        },
        !can_frame(id, payload@.len()) ==> n == 0 && final(out)@ == old(out)@,
{
    let extra: u8 = match crc_extra(id) {
        Some(x) => x,
        None => {
            return 0;
        },
    };
    let len: usize = payload.len();
    if len > 255 {
        return 0;
    }
    out[0] = MAVLINK_MAGIC;
    out[1] = len as u8;
    out[2] = 0;
    out[3] = 0;
    out[4] = seq;
    out[5] = sys_id;
    out[6] = COMP_ID;
    out[7] = (id % 256) as u8;
    out[8] = (id / 256 % 256) as u8;
    out[9] = (id / 65536 % 256) as u8;
    let ghost head = header(sys_id, id, seq, len as nat);
    assert(out@ =~= head + old(out)@.skip(10));
    let mut i: usize = 0;
    while i < len
        invariant
            i <= len <= 255,
            len == payload@.len(),
            head.len() == 10,
            old(out)@.len() == MAX_FRAME_LEN,
            out@ == head + payload@.take(i as int) + old(out)@.skip(10 + i),
        decreases len - i,
    {
        out[10 + i] = payload[i];
        i += 1;
        assert(out@ =~= head + payload@.take(i as int) + old(out)@.skip(10 + i));
    }
    let ghost front = head + payload@;
    assert(payload@.take(i as int) =~= payload@);
    let crc: u16 = crc_range(out.as_slice(), 1, 10 + len, extra);
    assert(out@.subrange(1, 10 + len) =~= front.skip(1));
    out[10 + len] = (crc % 256) as u8;
    out[11 + len] = (crc / 256) as u8;
    proof {
        reveal(framed);
        assert(out@ =~= front + le2(crc) + old(out)@.skip(12 + len));
        assert(out@.take(12 + len) =~= front + le2(crc));
        assert(out@.skip(12 + len) =~= old(out)@.skip(12 + len));
    }
    FRAME_OVERHEAD + len
}

/// As `encode_from`, sent by this vehicle.
pub fn encode(id: u32, seq: u8, payload: &[u8], out: &mut [u8; MAX_FRAME_LEN]) -> (n: usize)
    ensures
        can_frame(id, payload@.len()) ==> {
            &&& n == FRAME_OVERHEAD + payload@.len()
            &&& wrote(old(out)@, final(out)@, n, framed(SYS_ID, id, seq, payload@))
        },
        !can_frame(id, payload@.len()) ==> n == 0 && final(out)@ == old(out)@,
{
    encode_from(SYS_ID, id, seq, payload, out)
}

/// The message in a frame: its number and payload.
pub fn decode(frame: &Frame) -> (r: Option<(u32, &[u8])>)
    ensures
        unframed(frame.bytes()) is None <==> r is None,
        r matches Some(m) ==> unframed(frame.bytes()) == Some((m.0, m.1@)),
{
    let len: usize = if frame.len <= MAX_FRAME_LEN {
        frame.len
    } else {
        MAX_FRAME_LEN
    };
    if len < FRAME_OVERHEAD || frame.data[0] != MAVLINK_MAGIC {
        return None;
    }
    let n: usize = frame.data[1] as usize;
    if len < FRAME_OVERHEAD + n {
        return None;
    }
    let id: u32 = frame.data[7] as u32 + 256 * frame.data[8] as u32 + 65536 * frame.data[9] as u32;
    let extra: u8 = match crc_extra(id) {
        Some(x) => x,
        None => {
            return None;
        },
    };
    let crc: u16 = crc_range(frame.data.as_slice(), 1, HEADER_LEN + n, extra);
    let given: u16 = frame.data[HEADER_LEN + n] as u16 + 256 * frame.data[HEADER_LEN + n + 1] as u16;
    proof {
        let s = frame.bytes();
        assert(frame.data@.subrange(1, HEADER_LEN + n) =~= s.subrange(1, HEADER_LEN + n));
        assert(frame.data@.subrange(HEADER_LEN as int, HEADER_LEN + n) =~= s.subrange(
            HEADER_LEN as int,
            HEADER_LEN + n,
        ));
    }
    if crc != given {
        return None;
    }
    Some((id, vstd::slice::slice_subrange(frame.data.as_slice(), HEADER_LEN, HEADER_LEN + n)))
}

/// Reading a frame gives back the message that was framed, with whatever follows
/// the frame ignored.
pub proof fn law_decode_inverts_encode(
    sys_id: u8,
    id: u32,
    seq: u8,
    payload: Seq<u8>,
    rest: Seq<u8>,
)
    requires
        can_frame(id, payload.len()),
    ensures
        unframed(framed(sys_id, id, seq, payload) + rest) == Some((id, payload)),
{
    reveal(framed);
    let n = payload.len() as int;
    let front = header(sys_id, id, seq, payload.len()) + payload;
    let crc = checksum(front.skip(1).push(extra_byte(id)->0));
    let s = framed(sys_id, id, seq, payload) + rest;
    assert(s.subrange(1, HEADER_LEN + n) =~= front.skip(1));
    assert(s.subrange(HEADER_LEN as int, HEADER_LEN + n) =~= payload);
    assert(le2_at(s, HEADER_LEN + n) == crc);
    assert(le3_at(s, 7) == id);
}

/// A frame whose checksum bytes were changed is refused.
pub proof fn law_wrong_checksum_is_refused(
    sys_id: u8,
    id: u32,
    seq: u8,
    payload: Seq<u8>,
    check: Seq<u8>,
)
    requires
        can_frame(id, payload.len()),
        check.len() == 2,
        framed(sys_id, id, seq, payload) != header(sys_id, id, seq, payload.len()) + payload
            + check,
    ensures
        unframed(header(sys_id, id, seq, payload.len()) + payload + check) is None,
{
    reveal(framed);
    let n = payload.len() as int;
    let front = header(sys_id, id, seq, payload.len()) + payload;
    let crc = checksum(front.skip(1).push(extra_byte(id)->0));
    let s = front + check;
    assert(s.subrange(1, HEADER_LEN + n) =~= front.skip(1));
    assert(le3_at(s, 7) == id);
    assert(s[HEADER_LEN + n] == check[0] && s[HEADER_LEN + n + 1] == check[1]);
    if le2_at(s, HEADER_LEN + n) == crc {
        assert(check =~= le2(crc));
    }
}

} // verus!
