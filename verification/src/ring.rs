//! Positions in a circular buffer.

use vstd::arithmetic::div_mod::*;
use vstd::prelude::*;

verus! {

/// Position `i` of a buffer of `cap` slots, for `i` within two rounds.
pub open spec fn wrap(i: int, cap: int) -> int {
    if i < cap {
        i
    } else {
        i - cap
    }
}

/// The `count` elements from slot `tail` on.
pub open spec fn contents<T>(buf: Seq<T>, tail: int, count: nat) -> Seq<T> {
    Seq::new(count, |i: int| buf[wrap(tail + i, buf.len() as int)])
}

/// The slot after `i`.
pub fn advance(i: usize, cap: usize) -> (r: usize)
    requires
        i < cap,
    ensures
        r == wrap(i + 1, cap as int),
        r < cap,
{
    if i + 1 < cap {
        proof {
            lemma_small_mod((i + 1) as nat, cap as nat);
        }
        (i + 1) % cap
    } else {
        0
    }
}

/// Where a circular buffer is written next, where it is read next, and how many
/// slots between are taken.
#[derive(Clone, Copy, Debug)]
pub struct Cursor {
    pub head: usize,
    pub tail: usize,
    pub count: usize,
}

impl Cursor {
    pub open spec fn wf(self, cap: int) -> bool {
        &&& self.count <= cap
        &&& cap > 0 ==> self.tail < cap
        &&& cap > 0 ==> self.head == wrap(self.tail + self.count, cap)
    }

    pub fn start() -> (r: Cursor)
        ensures
            r == (Cursor { head: 0, tail: 0, count: 0 }),
    {
        Cursor { head: 0, tail: 0, count: 0 }
    }

    /// After one slot was written.
    pub fn pushed(self, cap: usize) -> (r: Cursor)
        requires
            self.wf(cap as int),
            self.count < cap,
        ensures
            r.wf(cap as int),
            r.tail == self.tail,
            r.count == self.count + 1,
    {
        Cursor { head: advance(self.head, cap), tail: self.tail, count: self.count + 1 }
    }

    /// After one slot was read.
    pub fn popped(self, cap: usize) -> (r: Cursor)
        requires
            self.wf(cap as int),
            self.count > 0,
        ensures
            r.wf(cap as int),
            r.tail == wrap(self.tail + 1, cap as int),
            r.count == self.count - 1,
    {
        Cursor { head: self.head, tail: advance(self.tail, cap), count: self.count - 1 }
    }

    /// After the oldest slot of a full buffer was written over.
    pub fn replaced(self, cap: usize) -> (r: Cursor)
        requires
            self.wf(cap as int),
            self.count == cap,
            cap > 0,
        ensures
            r.wf(cap as int),
            r.tail == wrap(self.tail + 1, cap as int),
            r.count == cap,
    {
        Cursor { head: advance(self.head, cap), tail: advance(self.tail, cap), count: self.count }
    }
}

/// Writing behind the last element appends.
pub proof fn lemma_append<T>(buf: Seq<T>, tail: int, count: nat, x: T)
    requires
        0 <= tail < buf.len(),
        count < buf.len(),
    ensures
        contents(buf.update(wrap(tail + count, buf.len() as int), x), tail, count + 1) == contents(
            buf,
            tail,
            count,
        ).push(x),
{
    let cap = buf.len() as int;
    let new = buf.update(wrap(tail + count, cap), x);
    assert(contents(new, tail, count + 1) =~= contents(buf, tail, count).push(x));
}

/// Stepping over the first element removes it.
pub proof fn lemma_remove<T>(buf: Seq<T>, tail: int, count: nat)
    requires
        0 <= tail < buf.len(),
        0 < count <= buf.len(),
    ensures
        contents(buf, wrap(tail + 1, buf.len() as int), (count - 1) as nat) == contents(
            buf,
            tail,
            count,
        ).drop_first(),
        contents(buf, tail, count)[0] == buf[tail],
{
    assert(contents(buf, wrap(tail + 1, buf.len() as int), (count - 1) as nat) =~= contents(
        buf,
        tail,
        count,
    ).drop_first());
}

/// Writing over the first element of a full buffer drops it and appends.
pub proof fn lemma_replace<T>(buf: Seq<T>, tail: int, x: T)
    requires
        0 <= tail < buf.len(),
    ensures
        contents(buf.update(tail, x), wrap(tail + 1, buf.len() as int), buf.len()) == contents(
            buf,
            tail,
            buf.len(),
        ).drop_first().push(x),
{
    assert(contents(buf.update(tail, x), wrap(tail + 1, buf.len() as int), buf.len())
        =~= contents(buf, tail, buf.len()).drop_first().push(x));
}

} // verus!
