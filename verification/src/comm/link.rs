//! The physical link: whole frames in and out, however the bytes travel.

use super::mavlink::frame::{Frame, MAVLINK_MAGIC, MAX_FRAME_LEN};
use crate::ring::Cursor;
use vstd::prelude::*;

verus! {

/// A link that carries whole frames. What sending and receiving do to the link is
/// for each kind of link to say.
pub trait Link: Sized {
    /// Whether sending `frame` can take the link from `before` to `after` and
    /// report `n`.
    open spec fn sends(before: Self, frame: Seq<u8>, after: Self, n: usize) -> bool {
        true
    }

    /// Whether receiving can take the link from `before` to `after` and give
    /// `frame`, which is empty where nothing came.
    open spec fn receives(before: Self, after: Self, frame: Seq<u8>) -> bool {
        true
    }

    open spec fn is_healthy(self) -> bool {
        arbitrary()
    }

    /// Sends a frame and returns how many bytes were sent.
    fn send_frame(&mut self, frame: &Frame) -> (n: usize)
        ensures
            Self::sends(*old(self), frame.bytes(), *final(self), n),
    ;

    /// Takes a frame where a whole one has come, otherwise the empty one.
    fn recv_frame(&mut self) -> (r: Frame)
        ensures
            Self::receives(*old(self), *final(self), r.bytes()),
    ;

    /// Whether communication works.
    fn healthy(&self) -> (r: bool)
        ensures
            r == self.is_healthy(),
    ;
}

/// The room of the loopback, in bytes.
pub const LOOPBACK_LEN: usize = 1024;

/// A link that hands back what was sent. Where it is full, the oldest bytes make
/// room.
pub struct LoopbackLink {
    buf: [u8; 1024],
    at: Cursor,
    ok: bool,
}

impl View for LoopbackLink {
    type V = Seq<u8>;

    /// The bytes sent and not yet received.
    closed spec fn view(&self) -> Seq<u8> {
        crate::ring::contents(self.buf@, self.at.tail as int, self.at.count as nat)
    }
}

/// The latest bytes of `s`, as many as the loopback holds.
pub open spec fn kept(s: Seq<u8>) -> Seq<u8> {
    if s.len() <= LOOPBACK_LEN {
        s
    } else {
        s.skip(s.len() - LOOPBACK_LEN)
    }
}

/// The bytes from the first start byte on.
pub open spec fn from_magic(s: Seq<u8>) -> Seq<u8>
    decreases s.len(),
{
    if s.len() == 0 || s[0] == MAVLINK_MAGIC {
        s
    } else {
        from_magic(s.drop_first())
    }
}

/// The first whole frame of `s`, as far as its length tells, and what follows it.
/// Where the last frame is not whole, its bytes are lost.
pub open spec fn first_frame(s: Seq<u8>) -> (Seq<u8>, Seq<u8>) {
    let t = from_magic(s);
    if t.len() < 10 || t.len() < 12 + t[1] {
        (Seq::empty(), Seq::empty())
    } else {
        (t.take(12 + t[1]), t.skip(12 + t[1]))
    }
}

impl LoopbackLink {
    #[verifier::type_invariant]
    spec fn inv(&self) -> bool {
        &&& self.at.wf(LOOPBACK_LEN as int)
        &&& self.ok
    }

    pub fn new() -> (r: LoopbackLink)
        ensures
            r@ == Seq::<u8>::empty(),
    {
        let r = LoopbackLink { buf: [0u8; 1024], at: Cursor::start(), ok: true };
        assert(r@ =~= Seq::<u8>::empty());
        r
    }

    fn push_byte(&mut self, b: u8)
        ensures
            final(self)@ == kept(old(self)@.push(b)),
    {
        proof {
            use_type_invariant(&*self);
        }
        if self.at.count < LOOPBACK_LEN {
            proof {
                crate::ring::lemma_append(
                    self.buf@,
                    self.at.tail as int,
                    self.at.count as nat,
                    b,
                );
            }
            self.buf[self.at.head] = b;
            self.at = self.at.pushed(LOOPBACK_LEN);
        } else {
            proof {
                crate::ring::lemma_replace(self.buf@, self.at.tail as int, b);
                assert(self@.push(b).skip(1) =~= self@.drop_first().push(b));
            }
            self.buf[self.at.head] = b;
            self.at = self.at.replaced(LOOPBACK_LEN);
        }
    }

    fn pop_byte(&mut self) -> (r: Option<u8>)
        ensures
            old(self)@.len() == 0 ==> r is None && final(self)@ == old(self)@,
            old(self)@.len() > 0 ==> r == Some(old(self)@[0]) && final(self)@
                == old(self)@.drop_first(),
    {
        proof {
            use_type_invariant(&*self);
        }
        if self.at.count == 0 {
            return None;
        }
        proof {
            crate::ring::lemma_remove(self.buf@, self.at.tail as int, self.at.count as nat);
        }
        let b: u8 = self.buf[self.at.tail];
        self.at = self.at.popped(LOOPBACK_LEN);
        Some(b)
    }
}

impl Default for LoopbackLink {
    fn default() -> (r: LoopbackLink)
        ensures
            r@ == Seq::<u8>::empty(),
    {
        LoopbackLink::new()
    }
}

impl Link for LoopbackLink {
    open spec fn sends(before: LoopbackLink, frame: Seq<u8>, after: LoopbackLink, n: usize) -> bool {
        &&& after@ == kept(before@ + frame)
        &&& n == frame.len()
    }

    open spec fn receives(before: LoopbackLink, after: LoopbackLink, frame: Seq<u8>) -> bool {
        (frame, after@) == first_frame(before@)
    }

    open spec fn is_healthy(self) -> bool {
        true
    }

    fn send_frame(&mut self, frame: &Frame) -> (n: usize) {
        let n: usize = if frame.len <= MAX_FRAME_LEN {
            frame.len
        } else {
            MAX_FRAME_LEN
        };
        let ghost bytes = frame.bytes();
        let mut i: usize = 0;
        assert(old(self)@ + bytes.take(0) =~= old(self)@);
        proof {
            use_type_invariant(&*self);
        }
        while i < n
            invariant
                i <= n <= MAX_FRAME_LEN,
                n == bytes.len(),
                bytes == frame.bytes(),
                self@ == kept(old(self)@ + bytes.take(i as int)),
            decreases n - i,
        {
            let ghost s = old(self)@ + bytes.take(i as int);
            self.push_byte(frame.data[i]);
            proof {
                assert(s.push(bytes[i as int]) =~= old(self)@ + bytes.take(i + 1));
                lemma_kept_push(s, bytes[i as int]);
            }
            i += 1;
        }
        assert(bytes.take(n as int) =~= bytes);
        n
    }

    fn recv_frame(&mut self) -> (r: Frame) {
        let mut data: [u8; 280] = [0u8; 280];
        let mut len: usize = 0;
        let mut searching: bool = true;
        while searching
            invariant
                len <= 1,
                searching ==> len == 0 && from_magic(self@) == from_magic(old(self)@),
                !searching && len == 0 ==> self@.len() == 0 && from_magic(old(self)@).len() == 0,
                !searching && len == 1 ==> {
                    &&& from_magic(old(self)@) == seq![MAVLINK_MAGIC] + self@
                    &&& data@[0] == MAVLINK_MAGIC
                },
            decreases searching as int, self@.len(),
        {
            let ghost s = self@;
            match self.pop_byte() {
                Some(b) => {
                    if b == MAVLINK_MAGIC {
                        data[0] = b;
                        len = 1;
                        searching = false;
                        assert(seq![MAVLINK_MAGIC] + self@ =~= s);
                    }
                },
                None => {
                    searching = false;
                },
            }
        }
        if len == 0 {
            assert(self@ =~= Seq::empty());
            return Frame::default();
        }
        let ghost t = from_magic(old(self)@);
        assert(data@.take(1) =~= t.take(1));
        assert(self@ =~= t.skip(1));
        while len < 10
            invariant
                1 <= len <= 10,
                len <= t.len(),
                t == from_magic(old(self)@),
                data@.take(len as int) == t.take(len as int),
                self@ == t.skip(len as int),
            decreases 10 - len,
        {
            match self.pop_byte() {
                Some(b) => {
                    data[len] = b;
                    len += 1;
                    assert(data@.take(len as int) =~= t.take(len as int));
                    assert(self@ =~= t.skip(len as int));
                },
                None => {
                    assert(self@ =~= Seq::empty());
                    return Frame::default();
                },
            }
        }
        let total: usize = 12 + data[1] as usize;
        assert(data@.take(10)[1] == t.take(10)[1]);
        while len < total
            invariant
                10 <= len <= total,
                len <= t.len(),
                t == from_magic(old(self)@),
                total == 12 + t[1],
                data@.take(len as int) == t.take(len as int),
                self@ == t.skip(len as int),
            decreases total - len,
        {
            match self.pop_byte() {
                Some(b) => {
                    data[len] = b;
                    len += 1;
                    assert(data@.take(len as int) =~= t.take(len as int));
                    assert(self@ =~= t.skip(len as int));
                },
                None => {
                    assert(self@ =~= Seq::empty());
                    return Frame::default();
                },
            }
        }
        Frame { data, len }
    }

    fn healthy(&self) -> (r: bool) {
        proof {
            use_type_invariant(self);
        }
        self.ok
    }
}

/// A serial port whose transfers are not set up: every frame counts as sent, and none
/// comes.
pub struct UartLink {
    base: usize,
    ok: bool,
}

impl UartLink {
    /// The address of the port.
    pub closed spec fn port(self) -> usize {
        self.base
    }

    pub closed spec fn works(self) -> bool {
        self.ok
    }

    /// The port at the address `base`.
    pub fn new(base: usize) -> (r: UartLink)
        ensures
            r.port() == base,
            r.works(),
    {
        UartLink { base, ok: true }
    }
}

impl Link for UartLink {
    open spec fn sends(before: Self, frame: Seq<u8>, after: Self, n: usize) -> bool {
        after == before && n == frame.len()
    }

    open spec fn receives(before: Self, after: Self, frame: Seq<u8>) -> bool {
        after == before && frame.len() == 0
    }

    open spec fn is_healthy(self) -> bool {
        self.works()
    }

    fn send_frame(&mut self, frame: &Frame) -> (n: usize) {
        if frame.len <= MAX_FRAME_LEN {
            frame.len
        } else {
            MAX_FRAME_LEN
        }
    }

    fn recv_frame(&mut self) -> (r: Frame) {
        Frame::default()
    }

    fn healthy(&self) -> (r: bool) {
        self.ok
    }
}

proof fn lemma_kept_push(s: Seq<u8>, b: u8)
    ensures
        kept(kept(s).push(b)) == kept(s.push(b)),
{
    assert(kept(kept(s).push(b)) =~= kept(s.push(b)));
}

/// A frame that is sent first is received first, whole, and what was sent after it
/// stays.
pub proof fn law_first_sent_first_received(
    sys_id: u8,
    id: u32,
    seq: u8,
    payload: Seq<u8>,
    rest: Seq<u8>,
)
    requires
        super::mavlink::frame::can_frame(id, payload.len()),
    ensures
        first_frame(super::mavlink::frame::framed(sys_id, id, seq, payload) + rest) == (
            super::mavlink::frame::framed(sys_id, id, seq, payload),
            rest,
        ),
{
    reveal(super::mavlink::frame::framed);
    let f = super::mavlink::frame::framed(sys_id, id, seq, payload);
    let s = f + rest;
    assert(from_magic(s) == s);
    assert(s[1] == payload.len() as u8);
    assert(s.take(12 + s[1]) =~= f);
    assert(s.skip(12 + s[1]) =~= rest);
}

/// A frame sent over an empty loopback comes back as it was, and leaves the
/// loopback empty.
pub proof fn law_loopback_returns_frame(
    a: LoopbackLink,
    b: LoopbackLink,
    c: LoopbackLink,
    sys_id: u8,
    id: u32,
    seq: u8,
    payload: Seq<u8>,
    n: usize,
    received: Seq<u8>,
)
    requires
        super::mavlink::frame::can_frame(id, payload.len()),
        a@.len() == 0,
        LoopbackLink::sends(a, super::mavlink::frame::framed(sys_id, id, seq, payload), b, n),
        LoopbackLink::receives(b, c, received),
    ensures
        received == super::mavlink::frame::framed(sys_id, id, seq, payload),
        super::mavlink::frame::unframed(received) == Some((id, payload)),
        c@.len() == 0,
{
    reveal(super::mavlink::frame::framed);
    let f = super::mavlink::frame::framed(sys_id, id, seq, payload);
    assert(a@ + f =~= f);
    assert(f + Seq::<u8>::empty() =~= f);
    law_first_sent_first_received(sys_id, id, seq, payload, Seq::empty());
    super::mavlink::frame::law_decode_inverts_encode(sys_id, id, seq, payload, Seq::empty());
}

} // verus!
