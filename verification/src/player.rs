//! Playing from a ring that a DMA channel reads in circles: where it reads, when
//! to refill, when to give a wedged channel up, and the reply to a player's
//! client.

use vstd::prelude::*;

verus! {

/// Time without progress after which a channel counts as wedged, in ms.
pub const STALL_MS: u64 = 500;

/// Polls between two looks at the clock.
pub const STALL_POLLS: u32 = 0x4_0000;

/// Watching a channel for progress. The clock is asked only now and then.
#[derive(Copy, Clone, Debug, PartialEq, Eq, Structural)]
pub struct StallWatch {
    pub polls: u32,
    pub last_progress: u64,
}

impl StallWatch {
    /// Begin to watch.
    pub fn new(now: u64) -> (w: StallWatch)
        ensures
            w == (StallWatch { polls: 0, last_progress: now }),
    {
        StallWatch { polls: 0, last_progress: now }
    }

    /// Count a poll; returns whether to look at the clock.
    pub fn poll(&mut self) -> (look: bool)
        ensures
            final(self).polls == (old(self).polls + 1) % 0x1_0000_0000,
            final(self).last_progress == old(self).last_progress,
            look == (final(self).polls % STALL_POLLS == 0),
    {
        self.polls = self.polls.wrapping_add(1);
        self.polls % STALL_POLLS == 0
    }

    /// Whether the channel is wedged at `now`.
    pub fn wedged(&self, now: u64) -> (r: bool)
        ensures
            r == ((now - self.last_progress) % 0x1_0000_0000_0000_0000 > STALL_MS),
    {
        now.wrapping_sub(self.last_progress) > STALL_MS
    }

    /// There was progress at `now`.
    pub fn progress(&mut self, now: u64)
        ensures
            *final(self) == (StallWatch { last_progress: now, ..*old(self) }),
    {
        self.last_progress = now;
    }
}

/// Counting how often the read pointer moves on to another part of the ring.
#[derive(Copy, Clone, Debug, PartialEq, Eq, Structural)]
pub struct Crossings {
    pub prev: u32,
    pub seen: u32,
    pub want: u32,
}

impl Crossings {
    /// Begin while the pointer is in `part`; done after `want` crossings.
    pub fn new(part: u32, want: u32) -> (c: Crossings)
        ensures
            c == (Crossings { prev: part, seen: 0, want }),
    {
        Crossings { prev: part, seen: 0, want }
    }

    /// The pointer is now in `part`; returns whether it crossed.
    pub fn see(&mut self, part: u32) -> (crossed: bool)
        requires
            old(self).seen < old(self).want,
        ensures
            crossed == (part != old(self).prev),
            *final(self) == (Crossings {
                prev: part,
                seen: (old(self).seen + (if crossed {
                    1int
                } else {
                    0
                })) as u32,
                ..*old(self)
            }),
    {
        if part != self.prev {
            self.prev = part;
            self.seen = self.seen + 1;
            true
        } else {
            false
        }
    }

    /// Whether enough crossings were seen.
    pub fn done(&self) -> (r: bool)
        ensures
            r == (self.seen >= self.want),
    {
        self.seen >= self.want
    }
}

/// The part of a ring at `base` that an address lies in, the address taken in
/// circles.
pub open spec fn part_of(addr: u32, base: u32, ring: u32, part: u32) -> int {
    (addr - base) % 0x1_0000_0000 % (ring as int) / (part as int)
}

/// Parts follow one another from the ring's base on, and the ring goes round:
/// an address `k` parts and less than one more from the base lies in part `k`,
/// also when a whole ring further on.
pub proof fn parts_follow_one_another(base: u32, ring: u32, part: u32, k: int, r: int)
    requires
        part > 0,
        0 <= k,
        0 <= r < part,
        k * part + r < ring,
        base + k * part + r <= u32::MAX,
    ensures
        part_of((base + k * part + r) as u32, base, ring, part) == k,
        base + k * part + r + ring <= u32::MAX ==> part_of(
            (base + k * part + r + ring) as u32,
            base,
            ring,
            part,
        ) == k,
{
    let off = k * part + r;
    assert(0 <= k * part) by (nonlinear_arith)
        requires
            0 <= k,
            part > 0,
    ;
    vstd::arithmetic::div_mod::lemma_small_mod(off as nat, ring as nat);
    vstd::arithmetic::div_mod::lemma_fundamental_div_mod_converse(off, part as int, k, r);
    vstd::arithmetic::div_mod::lemma_mod_add_multiples_vanish(off, ring as int);
    assert(k * part == part * k) by (nonlinear_arith);
}

/// The part of a ring at `base` that an address lies in.
pub fn ring_part(addr: u32, base: u32, ring: u32, part: u32) -> (r: u32)
    requires
        ring > 0,
        part > 0,
    ensures
        r == part_of(addr, base, ring, part),
{
    let off: u32 = addr.wrapping_sub(base);
    assert(off == (addr - base) % 0x1_0000_0000);
    off % ring / part
}

/// The first multiple of `size` at or after `base`: where an aligned ring begins
/// in a store of twice its size.
pub fn aligned(base: usize, size: usize) -> (r: usize)
    requires
        size > 0,
        base + size <= usize::MAX,
    ensures
        r % size == 0,
        base <= r < base + size,
{
    let over: usize = base % size;
    if over == 0 {
        base
    } else {
        assert(over <= base && over < size) by (nonlinear_arith)
            requires
                over == base % size,
                size > 0,
        ;
        let r: usize = base - over + size;
        assert(r % size == 0) by (nonlinear_arith)
            requires
                over == base % size,
                r == base - over + size,
                size > 0,
        ;
        r
    }
}

/// The aligned ring always fits the store.
pub proof fn ring_fits_the_store(base: int, r: int, size: int)
    requires
        base <= r < base + size,
    ensures
        r + size <= base + 2 * size,
{
}

/// Refilling the half of a ring that is not being played.
#[derive(Copy, Clone, Debug, PartialEq, Eq, Structural)]
pub struct HalfFill {
    pub last_filled: u32,
    pub refills: u32,
    pub underruns: u32,
    pub eof: bool,
}

/// The other half.
pub open spec fn other(half: u32) -> u32 {
    if half == 0 {
        1
    } else {
        0
    }
}

/// The half to refill while `live` is played: the other one, unless it was
/// refilled last.
pub open spec fn half_turn(h: HalfFill, live: u32) -> Option<u32> {
    if other(live) != h.last_filled {
        Some(other(live))
    } else {
        None
    }
}

impl HalfFill {
    /// Begin with both halves filled while `live` is played: the other one is
    /// not touched before the pointer has moved on.
    pub fn new(live: u32, eof: bool) -> (h: HalfFill)
        requires
            live < 2,
        ensures
            h == (HalfFill { last_filled: other(live), refills: 0, underruns: 0, eof }),
    {
        HalfFill { last_filled: 1 - live, refills: 0, underruns: 0, eof }
    }

    /// Which half to refill while `live` is played, if any.
    pub fn turn(&self, live: u32) -> (r: Option<u32>)
        requires
            live < 2,
        ensures
            r == half_turn(*self, live),
    {
        let far: u32 = 1 - live;
        if far != self.last_filled {
            Some(far)
        } else {
            None
        }
    }

    /// A half was refilled with `got` samples, and `live` is played now: when
    /// that is the half just written, the refill came too late.
    pub fn refilled(&mut self, far: u32, got: usize, live: u32)
        requires
            old(self).refills < u32::MAX,
            old(self).underruns <= old(self).refills,
        ensures
            final(self).last_filled == far,
            final(self).eof == (got == 0),
            final(self).refills == old(self).refills + 1,
            final(self).underruns == old(self).underruns + (if live == far {
                1int
            } else {
                0
            }),
            final(self).underruns <= final(self).refills,
    {
        self.eof = got == 0;
        self.last_filled = far;
        self.refills = self.refills + 1;
        if live == far {
            self.underruns = self.underruns + 1;
        }
    }
}

/// The half that is being played is never refilled, and while the pointer stays
/// in one half the other is refilled at most once.
pub proof fn playing_half_is_left_alone(h: HalfFill, live: u32)
    requires
        live < 2,
    ensures
        half_turn(h, live) != Some(live),
        half_turn(h, live) matches Some(far) ==> half_turn(
            HalfFill { last_filled: far, ..h },
            live,
        ) is None,
{
}

/// Refilling a ring chunk by chunk, behind the read pointer.
#[derive(Copy, Clone, Debug, PartialEq, Eq, Structural)]
pub struct ChunkFill {
    pub next: u32,
    pub chunks: u32,
    pub refills: u32,
    pub underruns: u32,
    pub eof: bool,
}

impl ChunkFill {
    /// Begin with all chunks filled.
    pub fn new(chunks: u32, eof: bool) -> (c: ChunkFill)
        requires
            chunks > 0,
        ensures
            c == (ChunkFill { next: 0, chunks, refills: 0, underruns: 0, eof }),
    {
        ChunkFill { next: 0, chunks, refills: 0, underruns: 0, eof }
    }

    /// Which chunk to refill while `live` is played, if any.
    pub fn turn(&self, live: u32) -> (r: Option<u32>)
        ensures
            r == if self.next != live {
                Some(self.next)
            } else {
                None
            },
    {
        if self.next != live {
            Some(self.next)
        } else {
            None
        }
    }

    /// The next chunk was refilled with `got` samples, and `live` is played now.
    pub fn refilled(&mut self, got: usize, live: u32)
        requires
            old(self).refills < u32::MAX,
            old(self).underruns <= old(self).refills,
            old(self).next < old(self).chunks,
        ensures
            final(self).chunks == old(self).chunks,
            final(self).next == (old(self).next + 1) % (old(self).chunks as int),
            final(self).next < final(self).chunks,
            final(self).eof == (got == 0),
            final(self).refills == old(self).refills + 1,
            final(self).underruns == old(self).underruns + (if live == old(self).next {
                1int
            } else {
                0
            }),
            final(self).underruns <= final(self).refills,
    {
        self.eof = got == 0;
        self.refills = self.refills + 1;
        if live == self.next {
            self.underruns = self.underruns + 1;
        }
        self.next = if self.next + 1 == self.chunks {
            0
        } else {
            self.next + 1
        };
        assert((old(self).next + 1) % (old(self).chunks as int) == self.next) by {
            if old(self).next + 1 < old(self).chunks {
                vstd::arithmetic::div_mod::lemma_small_mod(
                    (old(self).next + 1) as nat,
                    old(self).chunks as nat,
                );
            } else {
                vstd::arithmetic::div_mod::lemma_mod_self_0(old(self).chunks as int);
            }
        }
    }
}

/// `n` or `max`, whichever is less.
pub open spec fn at_most(n: u32, max: int) -> int {
    if n <= max {
        n as int
    } else {
        max
    }
}

/// A count is told as it is, as far as it fits.
pub proof fn counts_are_kept(n: u32, max: int)
    requires
        0 <= max,
    ensures
        0 <= at_most(n, max) <= max,
        n <= max ==> at_most(n, max) == n,
        n > max ==> at_most(n, max) == max,
{
}

/// The reply of a player: the rate, the underruns and the refills as far as
/// they fit, and whether a read failed.
pub open spec fn play_reply(rate: u32, underruns: u32, refills: u32, truncated: bool) -> u32 {
    (rate % 0x1_0000 + 0x1_0000 * at_most(underruns, 127) + (if truncated {
        0x80_0000int
    } else {
        0
    }) + 0x100_0000 * at_most(refills, 255)) as u32
}

/// Pack the reply of a player.
pub fn pack_play_reply(rate: u32, underruns: u32, refills: u32, truncated: bool) -> (r: u32)
    ensures
        r == play_reply(rate, underruns, refills, truncated),
{
    let u: u32 = if underruns <= 127 {
        underruns
    } else {
        127
    };
    let n: u32 = if refills <= 255 {
        refills
    } else {
        255
    };
    let t: u32 = if truncated {
        0x80_0000
    } else {
        0
    };
    rate % 0x1_0000 + 0x1_0000 * u + t + 0x100_0000 * n
}

/// A client takes the reply apart again: every field can be told from the
/// others.
pub proof fn play_reply_fields(rate: u32, underruns: u32, refills: u32, truncated: bool)
    ensures
        ({
            let r = play_reply(rate, underruns, refills, truncated);
            &&& r % 0x1_0000 == rate % 0x1_0000
            &&& r / 0x1_0000 % 0x80 == at_most(underruns, 127)
            &&& (r / 0x80_0000 % 2 == 1) == truncated
            &&& r / 0x100_0000 == at_most(refills, 255)
        }),
{
    let u = at_most(underruns, 127);
    let n = at_most(refills, 255);
    let t = if truncated {
        1int
    } else {
        0
    };
    let r = play_reply(rate, underruns, refills, truncated);
    assert(r == rate % 0x1_0000 + 0x1_0000 * (u + 0x80 * (t + 2 * n)));
    assert(r / 0x1_0000 == u + 0x80 * (t + 2 * n));
    assert(r / 0x80_0000 == t + 2 * n);
    assert(r / 0x100_0000 == n);
}

} // verus!
