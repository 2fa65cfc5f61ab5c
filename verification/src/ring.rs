//! A byte ring between an interrupt and its clients: when it is full, the
//! oldest byte makes room for the newest.

use vstd::prelude::*;

verus! {

/// A ring of bytes. One place of its buffer always stays free.
pub struct Ring {
    buf: Vec<u8>,
    head: usize,
    tail: usize,
}

impl Ring {
    /// A sound ring.
    pub closed spec fn wf(&self) -> bool {
        &&& 2 <= self.buf@.len() <= 0x1_0000
        &&& self.head < self.buf@.len()
        &&& self.tail < self.buf@.len()
    }

    /// How many bytes it can hold.
    pub closed spec fn capacity(&self) -> nat {
        (self.buf@.len() - 1) as nat
    }

    spec fn count(&self) -> nat {
        (if self.head >= self.tail {
            self.head - self.tail
        } else {
            self.head + self.buf@.len() - self.tail
        }) as nat
    }

    spec fn place(&self, i: int) -> int {
        if self.tail + i < self.buf@.len() {
            self.tail + i
        } else {
            self.tail + i - self.buf@.len()
        }
    }

    /// The bytes it holds, the oldest first.
    pub closed spec fn view(&self) -> Seq<u8> {
        Seq::new(self.count(), |i: int| self.buf@[self.place(i)])
    }

    /// An empty ring with a buffer of `n` bytes.
    pub fn new(n: usize) -> (r: Ring)
        requires
            2 <= n <= 0x1_0000,
        ensures
            r.wf(),
            r.capacity() == n - 1,
            r@ == Seq::<u8>::empty(),
    {
        let mut buf: Vec<u8> = Vec::new();
        crate::text::append_zeros(&mut buf, n);
        let r = Ring { buf, head: 0, tail: 0 };
        assert(r@ =~= Seq::<u8>::empty());
        r
    }

    fn step(&self, i: usize) -> (r: usize)
        requires
            self.wf(),
            i < self.buf@.len(),
        ensures
            r == if i + 1 < self.buf@.len() {
                i + 1
            } else {
                0
            },
    {
        if i + 1 < self.buf.len() {
            i + 1
        } else {
            0
        }
    }

    /// Add a byte; the oldest goes when there is no room.
    pub fn push(&mut self, b: u8)
        requires
            old(self).wf(),
        ensures
            final(self).wf(),
            final(self).capacity() == old(self).capacity(),
            final(self)@ == if old(self)@.len() < old(self).capacity() {
                old(self)@.push(b)
            } else {
                old(self)@.drop_first().push(b)
            },
            final(self)@.len() <= final(self).capacity(),
    {
        let ghost before = self@;
        let next: usize = self.step(self.head);
        if next == self.tail {
            self.tail = self.step(self.tail);
        }
        self.buf.set(self.head, b);
        self.head = next;
        assert(self@ =~= if before.len() < old(self).capacity() {
            before.push(b)
        } else {
            before.drop_first().push(b)
        });
    }

    /// Take the oldest byte.
    pub fn pop(&mut self) -> (r: Option<u8>)
        requires
            old(self).wf(),
        ensures
            final(self).wf(),
            final(self).capacity() == old(self).capacity(),
            old(self)@.len() == 0 ==> r is None && final(self)@ == old(self)@,
            old(self)@.len() > 0 ==> r == Some(old(self)@[0]) && final(self)@
                == old(self)@.drop_first(),
    {
        if self.tail == self.head {
            assert(self@.len() == 0);
            None
        } else {
            let ghost before = self@;
            let b: u8 = self.buf[self.tail];
            assert(b == before[0]);
            self.tail = self.step(self.tail);
            assert(self@ =~= before.drop_first());
            Some(b)
        }
    }

    /// Add bytes one after the other.
    pub fn push_all(&mut self, s: &[u8])
        requires
            old(self).wf(),
            old(self)@.len() <= old(self).capacity(),
        ensures
            final(self).wf(),
            final(self).capacity() == old(self).capacity(),
            final(self)@ == newest(old(self)@ + s@, old(self).capacity()),
    {
        let ghost before = self@;
        let ghost cap = self.capacity();
        let mut i: usize = 0;
        assert(newest(before + s@.take(0), cap) =~= before);
        while i < s.len()
            invariant
                i <= s@.len(),
                self.wf(),
                self.capacity() == cap,
                cap >= 1,
                self@ == newest(before + s@.take(i as int), cap),
            decreases s@.len() - i,
        {
            self.push(s[i]);
            proof {
                pushing_keeps_the_newest(before + s@.take(i as int), s@[i as int], cap);
                assert((before + s@.take(i as int)).push(s@[i as int]) =~= before + s@.take(
                    i + 1,
                ));
            }
            i = i + 1;
        }
        assert(s@.take(i as int) =~= s@);
    }

    /// Take up to `n` of the oldest bytes.
    pub fn read(&mut self, n: usize) -> (v: Vec<u8>)
        requires
            old(self).wf(),
        ensures
            final(self).wf(),
            final(self).capacity() == old(self).capacity(),
            v@ == old(self)@.take(
                if n <= old(self)@.len() {
                    n as int
                } else {
                    old(self)@.len() as int
                },
            ),
            final(self)@ == old(self)@.skip(v@.len() as int),
    {
        let ghost before = self@;
        let mut v: Vec<u8> = Vec::new();
        let mut i: usize = 0;
        assert(before.skip(0) =~= before);
        while i < n
            invariant
                i <= n,
                i <= before.len(),
                self.wf(),
                self.capacity() == old(self).capacity(),
                before == old(self)@,
                v@ == before.take(i as int),
                self@ == before.skip(i as int),
            decreases n - i,
        {
            match self.pop() {
                Some(b) => {
                    v.push(b);
                    i = i + 1;
                    assert(v@ =~= before.take(i as int));
                    assert(self@ =~= before.skip(i as int));
                },
                None => {
                    return v;
                },
            }
        }
        v
    }
}

/// The last `n` of `s`, or all of it when it is shorter.
pub open spec fn newest(s: Seq<u8>, n: nat) -> Seq<u8> {
    if s.len() <= n {
        s
    } else {
        s.skip(s.len() - n)
    }
}

/// Whatever is pushed, the ring holds the newest bytes that it has room for, in
/// the order in which they came.
pub proof fn pushing_keeps_the_newest(s: Seq<u8>, b: u8, cap: nat)
    requires
        cap >= 1,
    ensures
        newest(s.push(b), cap) == if newest(s, cap).len() < cap {
            newest(s, cap).push(b)
        } else {
            newest(s, cap).drop_first().push(b)
        },
{
    let t = newest(s, cap);
    if t.len() < cap {
        assert(newest(s.push(b), cap) =~= t.push(b));
    } else {
        assert(newest(s.push(b), cap) =~= t.drop_first().push(b));
    }
}

} // verus!
