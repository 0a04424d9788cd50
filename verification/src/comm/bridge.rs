//! Between the link and the flight controller: commands and parameter requests
//! come in, answers, parameters and telemetry go out.

use super::link::{Link, LoopbackLink, LOOPBACK_LEN};
use super::mavlink::codec::{decode_command_long, encode_command_ack, encode_param_value};
use super::mavlink::enums;
use super::mavlink::frame::{decode, Frame, MAX_FRAME_LEN, SYS_ID};
use super::mavlink::msg_id;
use super::telemetry::{Telemetry, TelemetryState};
use crate::single::Single;
use vstd::prelude::*;

verus! {

/// What the ground asks for.
#[derive(Clone, Copy, Debug, PartialEq)]
pub enum MavCommand {
    Arm,
    Disarm,
    /// Fly in the mode of this number, the low byte of what was sent.
    SetMode(u8),
    /// Take off to this altitude.
    Takeoff(Single),
    Land,
    Rtl,
    StartMission,
    /// Report all parameters.
    RequestParamList,
    /// A command that is not known here.
    Other(u16),
}

impl MavCommand {
    /// Whether the command can be carried out.
    pub fn is_supported(&self) -> (r: bool)
        ensures
            r == !(self is Other),
    {
        !matches!(self, MavCommand::Other(_))
    }
}

/// A table of parameters with their names, values and types.
pub trait ParamProvider {
    /// How many parameters there are, where an implementation says so.
    open spec fn count(&self) -> u16 {
        arbitrary()
    }

    open spec fn id_of(&self, idx: u16) -> Seq<u8> {
        arbitrary()
    }

    open spec fn value_of(&self, idx: u16) -> Single {
        arbitrary()
    }

    /// How many parameters there are.
    fn param_count(&self) -> (r: u16)
        ensures
            r == self.count(),
    ;

    /// The name of a parameter, filled up with zeros.
    fn param_id(&self, idx: u16) -> (r: [u8; 16])
        ensures
            r@ == self.id_of(idx),
    ;

    fn param_value(&self, idx: u16) -> (r: Single)
        ensures
            r == self.value_of(idx),
    ;

    /// The number of the type of a parameter; a number of 32 bits with a fraction where an
    /// implementation does not say otherwise.
    fn param_type(&self, idx: u16) -> (r: u8)
        default_ensures
            r == enums::MAV_PARAM_TYPE_REAL32,
    {
        enums::MAV_PARAM_TYPE_REAL32
    }
}

/// Whether `types` are type numbers that the table gives for its parameters.
pub open spec fn types_given<P: ParamProvider>(params: P, types: Seq<u8>) -> bool {
    &&& types.len() == params.count()
    &&& forall|i: int|
        0 <= i < types.len() ==> call_ensures(
            P::param_type,
            (&params, i as u16),
            #[trigger] types[i],
        )
}

/// What a command asks for.
pub open spec fn command_of(command: u16, params: Seq<Single>) -> MavCommand {
    if command == enums::MAV_CMD_COMPONENT_ARM_DISARM {
        if Single::of_ratio(1, 2).less(params[0]) {
            MavCommand::Arm
        } else {
            MavCommand::Disarm
        }
    } else if command == enums::MAV_CMD_NAV_TAKEOFF {
        MavCommand::Takeoff(params[6])
    } else if command == enums::MAV_CMD_NAV_LAND {
        MavCommand::Land
    } else if command == enums::MAV_CMD_NAV_RETURN_TO_LAUNCH {
        MavCommand::Rtl
    } else if command == enums::MAV_CMD_MISSION_START {
        MavCommand::StartMission
    } else if command == enums::MAV_CMD_DO_SET_MODE {
        MavCommand::SetMode((params[0].saturated(0, u32::MAX as int) % 256) as u8)
    } else {
        MavCommand::Other(command)
    }
}

/// The result reported for a command.
pub open spec fn result_of(cmd: MavCommand) -> u8 {
    if cmd is Other {
        enums::MAV_RESULT_UNSUPPORTED
    } else {
        enums::MAV_RESULT_ACCEPTED
    }
}

/// The sequence number `n` frames later.
pub open spec fn seq_after(seq: u8, n: nat) -> u8 {
    ((seq + n) % 256) as u8
}

/// The frames that report the first `n` parameters with their types, the first of them
/// numbered `seq`.
pub open spec fn param_frames<P: ParamProvider>(
    params: P,
    types: Seq<u8>,
    seq: u8,
    n: nat,
) -> Seq<Seq<u8>> {
    Seq::new(
        n,
        |i: int|
            super::mavlink::frame::framed(
                SYS_ID,
                msg_id::PARAM_VALUE,
                seq_after(seq, i as nat),
                super::mavlink::codec::param_value_payload(
                    params.id_of(i as u16),
                    params.value_of(i as u16),
                    types[i],
                    params.count(),
                    i as u16,
                ),
            ),
    )
}

/// The request in a frame, where there is one.
pub open spec fn request_in(frame: Seq<u8>) -> Option<MavCommand> {
    match super::mavlink::frame::unframed(frame) {
        None => None,
        Some((id, p)) => if id == msg_id::COMMAND_LONG && p.len() >= 33 {
            Some(
                command_of(
                    super::mavlink::frame::le2_at(p, 28) as u16,
                    Seq::new(7, |i: int| super::mavlink::codec::number_at(p, 4 * i)),
                ),
            )
        } else if id == msg_id::PARAM_REQUEST_LIST {
            Some(MavCommand::RequestParamList)
        } else {
            None
        },
    }
}

/// The frame that reports the result of a command, where a frame holds one.
pub open spec fn result_frames(frame: Seq<u8>, seq: u8) -> Seq<Seq<u8>> {
    match super::mavlink::frame::unframed(frame) {
        None => Seq::empty(),
        Some((id, p)) => if id == msg_id::COMMAND_LONG && p.len() >= 33 {
            seq![
                super::mavlink::frame::framed(
                    SYS_ID,
                    msg_id::COMMAND_ACK,
                    seq,
                    super::mavlink::codec::command_ack_payload(
                        super::mavlink::frame::le2_at(p, 28) as u16,
                        result_of(request_in(frame)->0),
                        0,
                        0,
                    ),
                ),
            ]
        } else {
            Seq::empty()
        },
    }
}

/// Whether sending `frames` in turn can take the link from `before` to `after`.
pub open spec fn sends_all<L: Link>(before: L, frames: Seq<Seq<u8>>, after: L) -> bool
    decreases frames.len(),
{
    if frames.len() == 0 {
        before == after
    } else {
        exists|mid: L, n: usize|
            sends_all(before, frames.drop_last(), mid) && #[trigger] L::sends(
                mid,
                frames.last(),
                after,
                n,
            )
    }
}

proof fn lemma_sends_one_more<L: Link>(
    before: L,
    frames: Seq<Seq<u8>>,
    mid: L,
    frame: Seq<u8>,
    after: L,
    n: usize,
)
    requires
        sends_all(before, frames, mid),
        L::sends(mid, frame, after, n),
    ensures
        sends_all(before, frames.push(frame), after),
{
    assert(frames.push(frame).drop_last() =~= frames);
    assert(frames.push(frame).last() == frame);
}

/// Whether reporting all parameters, the first of them numbered `seq`, can take the link
/// from `before` to `after`, with `next` the number of the frame after them.
pub open spec fn reports_all<L: Link, P: ParamProvider>(
    before: L,
    params: P,
    seq: u8,
    after: L,
    next: u8,
) -> bool {
    &&& next == seq_after(seq, params.count() as nat)
    &&& exists|types: Seq<u8>| #[trigger]
        types_given(params, types) && sends_all(
            before,
            param_frames(params, types, seq, params.count() as nat),
            after,
        )
}

/// Whether answering `frame` can take the link from `before` to `after`: a request for
/// parameters is answered with all of them, a command with its result, and everything
/// else with nothing. The first answer is numbered `seq`, and `next` is the number of the
/// frame after the answers.
pub open spec fn answers<L: Link, P: ParamProvider>(
    before: L,
    frame: Seq<u8>,
    params: P,
    seq: u8,
    after: L,
    next: u8,
) -> bool {
    if request_in(frame) == Some(MavCommand::RequestParamList) {
        reports_all(before, params, seq, after, next)
    } else {
        &&& sends_all(before, result_frames(frame, seq), after)
        &&& next == seq_after(seq, result_frames(frame, seq).len())
    }
}

/// Speaks with the ground over one link.
pub struct MavlinkBridge<L: Link> {
    link: L,
    seq: u8,
}

impl<L: Link> MavlinkBridge<L> {
    pub closed spec fn the_link(&self) -> L {
        self.link
    }

    /// The number of the next frame.
    pub closed spec fn next(&self) -> u8 {
        self.seq
    }

    pub fn new(link: L) -> (r: MavlinkBridge<L>)
        ensures
            r.the_link() == link,
            r.next() == 0,
    {
        MavlinkBridge { link, seq: 0 }
    }

    pub fn link(&self) -> (r: &L)
        ensures
            *r == self.the_link(),
    {
        &self.link
    }

    pub fn link_mut(&mut self) -> (r: &mut L)
        ensures
            *r == old(self).the_link(),
            final(self).the_link() == *final(r),
            final(self).next() == old(self).next(),
    {
        &mut self.link
    }

    /// Takes a frame off the link as it is.
    pub fn recv_raw(&mut self) -> (r: Frame)
        ensures
            L::receives(old(self).the_link(), final(self).the_link(), r.bytes()),
            final(self).next() == old(self).next(),
    {
        self.link.recv_frame()
    }

    fn next_seq(&mut self) -> (s: u8)
        ensures
            s == old(self).next(),
            final(self).next() == seq_after(s, 1),
            final(self).the_link() == old(self).the_link(),
    {
        let s: u8 = self.seq;
        self.seq = self.seq.wrapping_add(1);
        s
    }

    fn send_raw(&mut self, data: &[u8; MAX_FRAME_LEN], len: usize)
        requires
            0 < len <= MAX_FRAME_LEN,
        ensures
            exists|n: usize|
                #[trigger] L::sends(
                    old(self).the_link(),
                    data@.take(len as int),
                    final(self).the_link(),
                    n,
                ),
            final(self).next() == old(self).next(),
    {
        let frame: Frame = Frame::from_bytes(
            vstd::slice::slice_subrange(data.as_slice(), 0, len),
        );
        assert(data@.subrange(0, len as int) =~= data@.take(len as int));
        let n: usize = self.link.send_frame(&frame);
        assert(L::sends(old(self).the_link(), data@.take(len as int), self.the_link(), n));
    }

    /// Sends all telemetry that waits, and returns how many frames that were.
    pub fn drain_telemetry(&mut self, tel: &mut Telemetry) -> (n: usize)
        ensures
            n == old(tel)@.frames.len(),
            sends_all(old(self).the_link(), old(tel)@.frames, final(self).the_link()),
            final(self).next() == old(self).next(),
            final(tel)@ == (TelemetryState { frames: Seq::empty(), ..old(tel)@ }),
    {
        let mut n: usize = 0;
        let ghost all = old(tel)@.frames;
        let waiting: usize = tel.pending();
        assert(all.skip(0) =~= all);
        assert(tel@ == (TelemetryState { frames: all.skip(0), ..old(tel)@ }));
        while tel.pending() > 0
            invariant
                all == old(tel)@.frames,
                n <= all.len() == waiting,
                tel@ == (TelemetryState { frames: all.skip(n as int), ..old(tel)@ }),
                sends_all(old(self).the_link(), all.take(n as int), self.the_link()),
                self.next() == old(self).next(),
            decreases all.len() - n,
        {
            let ghost mid = self.the_link();
            let f: Frame = tel.pop();
            let sent: usize = self.link.send_frame(&f);
            proof {
                lemma_sends_one_more(
                    old(self).the_link(),
                    all.take(n as int),
                    mid,
                    all[n as int],
                    self.the_link(),
                    sent,
                );
                assert(all.take(n as int).push(all[n as int]) =~= all.take(n + 1));
                assert(all.skip(n as int).drop_first() =~= all.skip(n + 1));
            }
            n += 1;
        }
        assert(all.take(n as int) =~= all);
        assert(tel@.frames =~= Seq::empty());
        n
    }

    /// Carries out what a frame asks of the bridge: a command is answered with its
    /// result, a request for parameters with all of them. Returns the request;
    /// other frames are ignored.
    pub fn handle_frame<P: ParamProvider>(&mut self, frame: &Frame, params: &P) -> (r: Option<
        MavCommand,
    >)
        ensures
            r == request_in(frame.bytes()),
            answers(
                old(self).the_link(),
                frame.bytes(),
                *params,
                old(self).next(),
                final(self).the_link(),
                final(self).next(),
            ),
    {
        if frame.is_empty() {
            return None;
        }
        match decode(frame) {
            None => None,
            Some((id, payload)) => {
                if id == msg_id::COMMAND_LONG {
                    let cl = match decode_command_long(payload) {
                        Some(cl) => cl,
                        None => {
                            return None;
                        },
                    };
                    let cmd: MavCommand = match cl.command {
                        enums::MAV_CMD_COMPONENT_ARM_DISARM => {
                            if cl.params[0] > Single::ratio(1, 2) {
                                MavCommand::Arm
                            } else {
                                MavCommand::Disarm
                            }
                        },
                        enums::MAV_CMD_NAV_TAKEOFF => MavCommand::Takeoff(cl.params[6]),
                        enums::MAV_CMD_NAV_LAND => MavCommand::Land,
                        enums::MAV_CMD_NAV_RETURN_TO_LAUNCH => MavCommand::Rtl,
                        enums::MAV_CMD_MISSION_START => MavCommand::StartMission,
                        enums::MAV_CMD_DO_SET_MODE => MavCommand::SetMode(
                            (cl.params[0].to_u32() % 256) as u8,
                        ),
                        _ => MavCommand::Other(cl.command),
                    };
                    let result: u8 = if cmd.is_supported() {
                        enums::MAV_RESULT_ACCEPTED
                    } else {
                        enums::MAV_RESULT_UNSUPPORTED
                    };
                    self.send_command_ack(cl.command, result);
                    Some(cmd)
                } else if id == msg_id::PARAM_REQUEST_LIST {
                    self.stream_params(params);
                    Some(MavCommand::RequestParamList)
                } else {
                    None
                }
            },
        }
    }

    /// Takes a frame off the link and handles it, where one has come.
    pub fn poll<P: ParamProvider>(&mut self, params: &P) -> (r: Option<MavCommand>)
        ensures
            exists|mid: L, f: Seq<u8>| #[trigger]
                L::receives(old(self).the_link(), mid, f) && r == request_in(f) && answers(
                    mid,
                    f,
                    *params,
                    old(self).next(),
                    final(self).the_link(),
                    final(self).next(),
                ),
    {
        let f: Frame = self.link.recv_frame();
        let ghost mid = self.the_link();
        assert(L::receives(old(self).the_link(), mid, f.bytes()));
        if f.is_empty() {
            return None;
        }
        self.handle_frame(&f, params)
    }

    fn send_command_ack(&mut self, cmd: u16, result: u8)
        ensures
            sends_all(
                old(self).the_link(),
                seq![
                    super::mavlink::frame::framed(
                        SYS_ID,
                        msg_id::COMMAND_ACK,
                        old(self).next(),
                        super::mavlink::codec::command_ack_payload(cmd, result, 0, 0),
                    ),
                ],
                final(self).the_link(),
            ),
            final(self).next() == seq_after(old(self).next(), 1),
    {
        let mut buf: [u8; MAX_FRAME_LEN] = [0u8; MAX_FRAME_LEN];
        let seq: u8 = self.next_seq();
        let n: usize = encode_command_ack(cmd, result, 0, 0, seq, &mut buf);
        self.send_raw(&buf, n);
        proof {
            let f = super::mavlink::frame::framed(
                SYS_ID,
                msg_id::COMMAND_ACK,
                seq,
                super::mavlink::codec::command_ack_payload(cmd, result, 0, 0),
            );
            assert(buf@.take(n as int) =~= f);
            let sent = choose|k: usize|
                #[trigger] L::sends(old(self).the_link(), f, self.the_link(), k);
            lemma_sends_one_more(
                old(self).the_link(),
                Seq::empty(),
                old(self).the_link(),
                f,
                self.the_link(),
                sent,
            );
            assert(Seq::<Seq<u8>>::empty().push(f) =~= seq![f]);
        }
    }

    /// Sends all parameters in order.
    pub fn stream_params<P: ParamProvider>(&mut self, params: &P)
        ensures
            reports_all(
                old(self).the_link(),
                *params,
                old(self).next(),
                final(self).the_link(),
                final(self).next(),
            ),
    {
        let count: u16 = params.param_count();
        let mut buf: [u8; MAX_FRAME_LEN] = [0u8; MAX_FRAME_LEN];
        let mut idx: u16 = 0;
        let ghost first = old(self).next();
        let ghost mut types: Seq<u8> = Seq::empty();
        assert(param_frames(*params, types, first, 0) =~= Seq::<Seq<u8>>::empty());
        while idx < count
            invariant
                idx <= count,
                count == params.count(),
                first == old(self).next(),
                self.next() == seq_after(first, idx as nat),
                types.len() == idx,
                forall|i: int|
                    0 <= i < types.len() ==> call_ensures(
                        P::param_type,
                        (params, i as u16),
                        #[trigger] types[i],
                    ),
                sends_all(
                    old(self).the_link(),
                    param_frames(*params, types, first, idx as nat),
                    self.the_link(),
                ),
            decreases count - idx,
        {
            let ghost mid = self.the_link();
            let seq: u8 = self.next_seq();
            let id: [u8; 16] = params.param_id(idx);
            let ty: u8 = params.param_type(idx);
            let n: usize = encode_param_value(
                &id,
                params.param_value(idx),
                ty,
                count,
                idx,
                seq,
                &mut buf,
            );
            self.send_raw(&buf, n);
            proof {
                let more = types.push(ty);
                let frames = param_frames(*params, types, first, idx as nat);
                let f = param_frames(*params, more, first, (idx + 1) as nat)[idx as int];
                assert(buf@.take(n as int) =~= f);
                let sent = choose|k: usize| #[trigger] L::sends(mid, f, self.the_link(), k);
                lemma_sends_one_more(old(self).the_link(), frames, mid, f, self.the_link(), sent);
                assert(frames.push(f) =~= param_frames(*params, more, first, (idx + 1) as nat));
                types = more;
            }
            idx += 1;
        }
        assert(types_given(*params, types));
    }
}

/// Frames one behind the other.
pub open spec fn joined(frames: Seq<Seq<u8>>) -> Seq<u8>
    decreases frames.len(),
{
    if frames.len() == 0 {
        Seq::empty()
    } else {
        joined(frames.drop_last()) + frames.last()
    }
}

/// What is sent in turn over a loopback with room for it waits there in the order
/// of sending, nothing lost.
pub proof fn law_loopback_keeps_order(
    before: LoopbackLink,
    frames: Seq<Seq<u8>>,
    after: LoopbackLink,
)
    requires
        sends_all(before, frames, after),
        before@.len() + joined(frames).len() <= LOOPBACK_LEN,
    ensures
        after@ == before@ + joined(frames),
    decreases frames.len(),
{
    if frames.len() == 0 {
        assert(before@ + joined(frames) =~= before@);
    } else {
        let (mid, n): (LoopbackLink, usize) = choose|mid: LoopbackLink, n: usize|
            sends_all(before, frames.drop_last(), mid) && #[trigger] LoopbackLink::sends(
                mid,
                frames.last(),
                after,
                n,
            );
        law_loopback_keeps_order(before, frames.drop_last(), mid);
        assert(before@ + joined(frames.drop_last()) + frames.last() =~= before@ + joined(frames));
    }
}

/// Every command is answered with one frame, which carries the command's number
/// and says whether it can be carried out; frames that ask for nothing are not
/// answered.
pub proof fn law_command_is_answered(frame: Seq<u8>, seq: u8, p: Seq<u8>)
    requires
        super::mavlink::frame::unframed(frame) == Some((msg_id::COMMAND_LONG, p)),
        p.len() >= 33,
    ensures
        ({
            let answer = result_frames(frame, seq);
            let ack = super::mavlink::frame::unframed(answer[0])->0;
            &&& answer.len() == 1
            &&& super::mavlink::frame::unframed(answer[0]) is Some
            &&& ack.0 == msg_id::COMMAND_ACK
            &&& super::mavlink::frame::le2_at(ack.1, 0) == super::mavlink::frame::le2_at(p, 28)
            &&& ack.1[2] == enums::MAV_RESULT_UNSUPPORTED <==> request_in(frame)->0 is Other
            &&& ack.1[2] == enums::MAV_RESULT_ACCEPTED <==> !(request_in(frame)->0 is Other)
        }),
{
    let command = super::mavlink::frame::le2_at(p, 28) as u16;
    let payload = super::mavlink::codec::command_ack_payload(
        command,
        result_of(request_in(frame)->0),
        0,
        0,
    );
    let f = super::mavlink::frame::framed(SYS_ID, msg_id::COMMAND_ACK, seq, payload);
    super::mavlink::frame::law_decode_inverts_encode(
        SYS_ID,
        msg_id::COMMAND_ACK,
        seq,
        payload,
        Seq::empty(),
    );
    assert(f + Seq::<u8>::empty() =~= f);
    super::mavlink::codec::law_command_ack_round_trip(
        command,
        result_of(request_in(frame)->0),
        0,
        0,
    );
}

/// A frame that asks for nothing is answered with nothing.
pub proof fn law_no_request_no_answer<L: Link, P: ParamProvider>(
    before: L,
    frame: Seq<u8>,
    params: P,
    seq: u8,
    after: L,
    next: u8,
)
    requires
        request_in(frame) is None,
        answers(before, frame, params, seq, after, next),
    ensures
        after == before,
        next == seq,
{
}

/// A request for parameters is answered with one frame for each parameter, in order.
pub proof fn law_parameters_are_all_sent<P: ParamProvider>(
    params: P,
    types: Seq<u8>,
    seq: u8,
    idx: u16,
)
    requires
        types_given(params, types),
        idx < params.count(),
        params.id_of(idx).len() == 16,
    ensures
        ({
            let frames = param_frames(params, types, seq, params.count() as nat);
            &&& frames.len() == params.count()
            &&& super::mavlink::frame::unframed(frames[idx as int]) == Some(
                (
                    msg_id::PARAM_VALUE,
                    super::mavlink::codec::param_value_payload(
                        params.id_of(idx),
                        params.value_of(idx),
                        types[idx as int],
                        params.count(),
                        idx,
                    ),
                ),
            )
        }),
{
    let payload = super::mavlink::codec::param_value_payload(
        params.id_of(idx),
        params.value_of(idx),
        types[idx as int],
        params.count(),
        idx,
    );
    let f = super::mavlink::frame::framed(
        SYS_ID,
        msg_id::PARAM_VALUE,
        seq_after(seq, idx as nat),
        payload,
    );
    super::mavlink::frame::law_decode_inverts_encode(
        SYS_ID,
        msg_id::PARAM_VALUE,
        seq_after(seq, idx as nat),
        payload,
        Seq::empty(),
    );
    assert(f + Seq::<u8>::empty() =~= f);
    assert(param_frames(params, types, seq, params.count() as nat)[idx as int] == f);
}

} // verus!
