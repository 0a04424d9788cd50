//! Telemetry: states turned into frames and queued for the ground.
//!
//! Framing happens once, when a state is taken in. The queue never blocks: where it
//! is full, the oldest frame makes room.

use super::mavlink::codec::{encode_heartbeat, encode_sys_status};
use super::mavlink::frame::{Frame, MAX_FRAME_LEN, SYS_ID};
use super::mavlink::msg_id;
use super::mavlink::state::{encode_attitude, encode_local_pos};
use crate::ring::Cursor;
use crate::vehicle::{Euler, VehicleState};
use vstd::prelude::*;

verus! {

/// The room of the queue, in frames.
pub const TELEM_RING_FRAMES: usize = 32;

/// The frames that wait, the number of the next report, the rate, the time since
/// the last report and the count of frames that had to make room.
pub struct TelemetryState {
    pub frames: Seq<Seq<u8>>,
    pub seq: u8,
    pub rate_hz: u32,
    pub tick: nat,
    pub dropped: nat,
}

/// The sum, held at the top of the type.
pub open spec fn held_sum(a: nat, b: nat) -> nat {
    if a + b <= u32::MAX {
        a + b
    } else {
        u32::MAX as nat
    }
}

/// The time between reports, in milliseconds.
pub open spec fn interval(rate_hz: u32) -> nat {
    if rate_hz == 0 {
        1000
    } else {
        1000nat / (rate_hz as nat)
    }
}

impl TelemetryState {
    pub open spec fn initial(rate_hz: u32) -> TelemetryState {
        TelemetryState { frames: Seq::empty(), seq: 0, rate_hz, tick: 0, dropped: 0 }
    }

    /// One more frame; where the queue is full, without the oldest.
    pub open spec fn queued(self, frame: Seq<u8>) -> TelemetryState {
        if self.frames.len() < TELEM_RING_FRAMES {
            TelemetryState { frames: self.frames.push(frame), ..self }
        } else {
            TelemetryState {
                frames: self.frames.drop_first().push(frame),
                dropped: held_sum(self.dropped, 1),
                ..self
            }
        }
    }

    /// Whether a report is due after `dt_ms` more.
    pub open spec fn due(self, dt_ms: u32) -> bool {
        held_sum(self.tick, dt_ms as nat) >= interval(self.rate_hz)
    }

    /// After `dt_ms` more: where a report is due, attitude and position are queued,
    /// and with every tenth report a heartbeat and a status.
    pub open spec fn updated(
        self,
        dt_ms: u32,
        state: VehicleState,
        euler: Euler,
        sensors_ok: bool,
    ) -> TelemetryState {
        if !self.due(dt_ms) {
            TelemetryState { tick: held_sum(self.tick, dt_ms as nat), ..self }
        } else {
            let started = TelemetryState {
                tick: 0,
                seq: if self.seq == 255 {
                    0
                } else {
                    (self.seq + 1) as u8
                },
                ..self
            };
            let moved = started.queued(
                super::mavlink::frame::framed(
                    SYS_ID,
                    msg_id::ATTITUDE,
                    self.seq,
                    super::mavlink::state::attitude_report(state, euler),
                ),
            ).queued(
                super::mavlink::frame::framed(
                    SYS_ID,
                    msg_id::LOCAL_POSITION_NED,
                    self.seq,
                    super::mavlink::state::local_pos_report(state),
                ),
            );
            if self.seq % 10 == 0 {
                moved.queued(
                    super::mavlink::frame::framed(
                        SYS_ID,
                        msg_id::HEARTBEAT,
                        self.seq,
                        super::mavlink::codec::heartbeat_payload(0, true),
                    ),
                ).queued(
                    super::mavlink::frame::framed(
                        SYS_ID,
                        msg_id::SYS_STATUS,
                        self.seq,
                        super::mavlink::codec::sys_status_payload(sensors_ok),
                    ),
                )
            } else {
                moved
            }
        }
    }
}

/// Turns states into queued frames.
pub struct Telemetry {
    ring: [Frame; 32],
    at: Cursor,
    seq: u8,
    rate_hz: u32,
    tick: u32,
    drop_count: u32,
}

impl View for Telemetry {
    type V = TelemetryState;

    closed spec fn view(&self) -> TelemetryState {
        TelemetryState {
            frames: self.waiting().map_values(|f: Frame| f.bytes()),
            seq: self.seq,
            rate_hz: self.rate_hz,
            tick: self.tick as nat,
            dropped: self.drop_count as nat,
        }
    }
}

impl Telemetry {
    spec fn waiting(&self) -> Seq<Frame> {
        crate::ring::contents(self.ring@, self.at.tail as int, self.at.count as nat)
    }

    #[verifier::type_invariant]
    spec fn inv(&self) -> bool {
        self.at.wf(TELEM_RING_FRAMES as int)
    }

    pub fn new(rate_hz: u32) -> (r: Telemetry)
        ensures
            r@ == TelemetryState::initial(rate_hz),
    {
        let frame: Frame = Frame::default();
        let r = Telemetry {
            ring: [frame; 32],
            at: Cursor::start(),
            seq: 0,
            rate_hz,
            tick: 0,
            drop_count: 0,
        };
        assert(r@.frames =~= Seq::<Seq<u8>>::empty());
        r
    }

    /// Takes in the state after `dt_ms` more, at the rate of the channel.
    pub fn update(&mut self, dt_ms: u32, state: &VehicleState, euler: &Euler, sensors_ok: bool)
        ensures
            final(self)@ == old(self)@.updated(dt_ms, *state, *euler, sensors_ok),
    {
        proof {
            use_type_invariant(&*self);
        }
        self.tick = self.tick.saturating_add(dt_ms);
        let rate: u32 = if self.rate_hz == 0 {
            1
        } else {
            self.rate_hz
        };
        let interval: u32 = 1000 / rate;
        if self.tick < interval {
            return;
        }
        self.tick = 0;
        let seq: u8 = self.seq;
        self.seq = seq.wrapping_add(1);
        let mut buf: [u8; MAX_FRAME_LEN] = [0u8; MAX_FRAME_LEN];
        let n1: usize = encode_attitude(state, euler, seq, &mut buf);
        self.push(&buf, n1);
        let n2: usize = encode_local_pos(state, seq, &mut buf);
        self.push(&buf, n2);
        if seq % 10 == 0 {
            let n3: usize = encode_heartbeat(0, true, seq, &mut buf);
            self.push(&buf, n3);
            let n4: usize = encode_sys_status(sensors_ok, seq, &mut buf);
            self.push(&buf, n4);
        }
    }

    fn push(&mut self, buf: &[u8; MAX_FRAME_LEN], len: usize)
        requires
            0 < len <= MAX_FRAME_LEN,
        ensures
            final(self)@ == old(self)@.queued(buf@.take(len as int)),
    {
        proof {
            use_type_invariant(&*self);
        }
        let frame: Frame = Frame::from_bytes(
            vstd::slice::slice_subrange(buf.as_slice(), 0, len),
        );
        assert(buf@.subrange(0, len as int) =~= buf@.take(len as int));
        if self.at.count < TELEM_RING_FRAMES {
            proof {
                crate::ring::lemma_append(
                    self.ring@,
                    self.at.tail as int,
                    self.at.count as nat,
                    frame,
                );
            }
            self.ring[self.at.head] = frame;
            self.at = self.at.pushed(TELEM_RING_FRAMES);
            assert(self@.frames =~= old(self)@.queued(buf@.take(len as int)).frames);
        } else {
            proof {
                crate::ring::lemma_replace(self.ring@, self.at.tail as int, frame);
            }
            self.ring[self.at.head] = frame;
            self.at = self.at.replaced(TELEM_RING_FRAMES);
            self.drop_count = self.drop_count.saturating_add(1);
            assert(self@.frames =~= old(self)@.queued(buf@.take(len as int)).frames);
        }
    }

    /// Takes the oldest frame, or the empty one where none waits.
    pub fn pop(&mut self) -> (r: Frame)
        ensures
            old(self)@.frames.len() == 0 ==> r.bytes() == Seq::<u8>::empty() && final(self)@
                == old(self)@,
            old(self)@.frames.len() > 0 ==> r.bytes() == old(self)@.frames[0] && final(self)@ == (
            TelemetryState { frames: old(self)@.frames.drop_first(), ..old(self)@ }),
    {
        proof {
            use_type_invariant(&*self);
        }
        if self.at.count == 0 {
            return Frame::default();
        }
        proof {
            crate::ring::lemma_remove(self.ring@, self.at.tail as int, self.at.count as nat);
        }
        let f: Frame = self.ring[self.at.tail];
        self.at = self.at.popped(TELEM_RING_FRAMES);
        assert(self@.frames =~= old(self)@.frames.drop_first());
        f
    }

    /// How many frames wait.
    pub fn pending(&self) -> (r: usize)
        ensures
            r == self@.frames.len(),
            r <= TELEM_RING_FRAMES,
    {
        proof {
            use_type_invariant(self);
        }
        self.at.count
    }

    /// How many frames had to make room.
    pub fn dropped(&self) -> (r: u32)
        ensures
            r == self@.dropped,
    {
        self.drop_count
    }
}

/// Queueing keeps the newest frame last, never holds more than the room, and
/// removes nothing but the oldest frame.
pub proof fn law_newest_frames_stay(t: TelemetryState, frame: Seq<u8>)
    requires
        t.frames.len() <= TELEM_RING_FRAMES,
    ensures
        t.queued(frame).frames.len() <= TELEM_RING_FRAMES,
        t.queued(frame).frames.last() == frame,
        t.queued(frame).frames.drop_last() == if t.frames.len() < TELEM_RING_FRAMES {
            t.frames
        } else {
            t.frames.drop_first()
        },
{
    assert(t.frames.push(frame).drop_last() =~= t.frames);
    if t.frames.len() == TELEM_RING_FRAMES {
        assert(t.frames.drop_first().push(frame).drop_last() =~= t.frames.drop_first());
    }
}

/// Every frame that can be read.
pub open spec fn all_readable(frames: Seq<Seq<u8>>) -> bool {
    forall|i: int|
        0 <= i < frames.len() ==> super::mavlink::frame::unframed(#[trigger] frames[i]) is Some
}

proof fn lemma_queued_readable(
    t: TelemetryState,
    sys_id: u8,
    id: u32,
    seq: u8,
    payload: Seq<u8>,
)
    requires
        all_readable(t.frames),
        t.frames.len() <= TELEM_RING_FRAMES,
        super::mavlink::frame::can_frame(id, payload.len()),
    ensures
        all_readable(t.queued(super::mavlink::frame::framed(sys_id, id, seq, payload)).frames),
        t.queued(super::mavlink::frame::framed(sys_id, id, seq, payload)).frames.len()
            <= TELEM_RING_FRAMES,
{
    let f = super::mavlink::frame::framed(sys_id, id, seq, payload);
    super::mavlink::frame::law_decode_inverts_encode(sys_id, id, seq, payload, Seq::empty());
    assert(f + Seq::<u8>::empty() =~= f);
    let q = t.queued(f).frames;
    assert forall|i: int| 0 <= i < q.len() implies super::mavlink::frame::unframed(
        #[trigger] q[i],
    ) is Some by {
        if i == q.len() - 1 {
            assert(q[i] == f);
        } else if t.frames.len() < TELEM_RING_FRAMES {
            assert(q[i] == t.frames[i]);
        } else {
            assert(q[i] == t.frames[i + 1]);
        }
    }
}

/// Whatever is queued can be read by the ground: a queue of readable frames stays
/// one under every report.
pub proof fn law_queued_frames_are_readable(
    t: TelemetryState,
    dt_ms: u32,
    state: VehicleState,
    euler: Euler,
    sensors_ok: bool,
)
    requires
        all_readable(t.frames),
        t.frames.len() <= TELEM_RING_FRAMES,
    ensures
        all_readable(t.updated(dt_ms, state, euler, sensors_ok).frames),
        t.updated(dt_ms, state, euler, sensors_ok).frames.len() <= TELEM_RING_FRAMES,
{
    if t.due(dt_ms) {
        let started = TelemetryState {
            tick: 0,
            seq: if t.seq == 255 {
                0
            } else {
                (t.seq + 1) as u8
            },
            ..t
        };
        let a = super::mavlink::state::attitude_report(state, euler);
        let p = super::mavlink::state::local_pos_report(state);
        let h = super::mavlink::codec::heartbeat_payload(0, true);
        let s = super::mavlink::codec::sys_status_payload(sensors_ok);
        lemma_queued_readable(started, SYS_ID, msg_id::ATTITUDE, t.seq, a);
        let one = started.queued(
            super::mavlink::frame::framed(SYS_ID, msg_id::ATTITUDE, t.seq, a),
        );
        lemma_queued_readable(one, SYS_ID, msg_id::LOCAL_POSITION_NED, t.seq, p);
        let two = one.queued(
            super::mavlink::frame::framed(SYS_ID, msg_id::LOCAL_POSITION_NED, t.seq, p),
        );
        if t.seq % 10 == 0 {
            lemma_queued_readable(two, SYS_ID, msg_id::HEARTBEAT, t.seq, h);
            let three = two.queued(
                super::mavlink::frame::framed(SYS_ID, msg_id::HEARTBEAT, t.seq, h),
            );
            lemma_queued_readable(three, SYS_ID, msg_id::SYS_STATUS, t.seq, s);
        }
    }
}

} // verus!
