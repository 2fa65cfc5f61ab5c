//! The mailbox between the two cores: a request word goes one way and its
//! answer comes back.

use crate::report;
use vstd::prelude::*;

verus! {

/// How often the mailbox is looked at before an answer is given up.
pub const REPLY_SPINS: u32 = 5_000_000;

/// The size of the buffer that both cores share, in words.
pub const SHARED_WORDS: usize = 1024;

/// What the second core leaves to show that it runs.
pub const BEAT_MAGIC: u32 = 0xbea7_1234;

/// Where an exchange stands.
#[derive(Copy, Clone, Debug, PartialEq, Eq, Structural)]
pub enum Phase {
    /// Words that nobody waits for are thrown away.
    Drain,
    /// The request waits for room.
    Room,
    /// The answer is waited for, and was not there so often.
    Reply { spins: u32 },
}

/// What the mailbox shows.
#[derive(Copy, Clone, Debug, PartialEq, Eq, Structural)]
pub struct Status {
    /// There is a word to read.
    pub valid: bool,
    /// There is room to write.
    pub ready: bool,
}

/// What to do with the mailbox.
#[derive(Copy, Clone, Debug, PartialEq, Eq, Structural)]
pub enum Act {
    /// Look at it again.
    Look,
    /// Read a word and forget it, then look again.
    Discard,
    /// Write the request, then look again.
    Write(u32),
    /// Read the answer: the exchange is over.
    Take,
    /// The exchange is over without an answer: report that there is none.
    GiveUp,
}

/// What a look leads to.
pub open spec fn exchanged(p: Phase, req: u32, s: Status) -> (Phase, Act) {
    match p {
        Phase::Drain => if s.valid {
            (Phase::Drain, Act::Discard)
        } else {
            (Phase::Room, Act::Look)
        },
        Phase::Room => if s.ready {
            (Phase::Reply { spins: 0 }, Act::Write(req))
        } else {
            (Phase::Room, Act::Look)
        },
        Phase::Reply { spins } => if s.valid {
            (p, Act::Take)
        } else if spins + 1 > REPLY_SPINS {
            (p, Act::GiveUp)
        } else {
            (Phase::Reply { spins: (spins + 1) as u32 }, Act::Look)
        },
    }
}

/// An exchange of one request and its answer.
#[derive(Copy, Clone, Debug, PartialEq, Eq, Structural)]
pub struct Exchange {
    /// The request.
    pub req: u32,
    /// Where it stands.
    pub phase: Phase,
}

impl Exchange {
    /// A sound exchange.
    pub open spec fn wf(self) -> bool {
        self.phase matches Phase::Reply { spins } ==> spins <= REPLY_SPINS
    }

    /// Begin an exchange.
    pub fn begin(req: u32) -> (r: Exchange)
        ensures
            r == (Exchange { req, phase: Phase::Drain }),
            r.wf(),
    {
        Exchange { req, phase: Phase::Drain }
    }

    /// Take a look at the mailbox.
    pub fn look(&mut self, s: Status) -> (a: Act)
        requires
            old(self).wf(),
        ensures
            final(self).wf(),
            final(self).req == old(self).req,
            (final(self).phase, a) == exchanged(old(self).phase, old(self).req, s),
    {
        match self.phase {
            Phase::Drain => {
                if s.valid {
                    Act::Discard
                } else {
                    self.phase = Phase::Room;
                    Act::Look
                }
            },
            Phase::Room => {
                if s.ready {
                    self.phase = Phase::Reply { spins: 0 };
                    Act::Write(self.req)
                } else {
                    Act::Look
                }
            },
            Phase::Reply { spins } => {
                if s.valid {
                    Act::Take
                } else if spins + 1 > REPLY_SPINS {
                    Act::GiveUp
                } else {
                    self.phase = Phase::Reply { spins: spins + 1 };
                    Act::Look
                }
            },
        }
    }
}

/// Request `i` of a timing run of `n`: the runs count up from zero.
pub fn bench_request(n: u32, i: u32) -> (r: Option<u32>)
    ensures
        r == if i < n {
            Some(i)
        } else {
            None
        },
{
    if i < n {
        Some(i)
    } else {
        None
    }
}

/// How long a timing run took, in milliseconds, modulo 2^32.
pub fn bench_time(start: u64, now: u64) -> (r: u32)
    requires
        start <= now,
    ensures
        r == (now - start) % 0x1_0000_0000,
{
    ((now - start) % 0x1_0000_0000) as u32
}

/// The sum of some words, modulo 2^32.
pub open spec fn sum(ws: Seq<u32>) -> u32
    decreases ws.len(),
{
    if ws.len() == 0 {
        0
    } else {
        ((sum(ws.drop_last()) + ws.last()) % 0x1_0000_0000) as u32
    }
}

/// How many words of the shared buffer a request with its top bit set speaks
/// of: its other bits are their size in bytes.
pub open spec fn bulk_words(req: u32) -> int {
    let bytes = req - 0x8000_0000;
    if bytes <= 4096 {
        bytes / 4
    } else {
        1024
    }
}

/// The answer to a request: twice the request and one, or the sum of what
/// was left in the shared buffer.
pub open spec fn answer(req: u32, buf: Seq<u32>) -> u32 {
    if req >= 0x8000_0000 {
        sum(buf.take(bulk_words(req)))
    } else {
        report::core1_answer(req)
    }
}

/// Answer a request of the other core.
pub fn respond(req: u32, buf: &[u32]) -> (r: u32)
    requires
        buf@.len() == SHARED_WORDS,
    ensures
        r == answer(req, buf@),
{
    if req < 0x8000_0000 {
        return 2 * req + 1;
    }
    let bytes: u32 = req - 0x8000_0000;
    let words: usize = if bytes <= 4096 {
        (bytes / 4) as usize
    } else {
        1024
    };
    let mut r: u32 = 0;
    let mut i: usize = 0;
    while i < words
        invariant
            i <= words <= 1024,
            buf@.len() == SHARED_WORDS,
            r == sum(buf@.take(i as int)),
        decreases words - i,
    {
        let ghost t = buf@.take(i + 1);
        assert(t.drop_last() =~= buf@.take(i as int));
        r = r.wrapping_add(buf[i]);
        i = i + 1;
    }
    r
}

/// The next beat of the second core.
pub fn next_beat(beat: u32) -> (r: u32)
    ensures
        r == (beat + 1) % 0x1_0000_0000,
{
    beat.wrapping_add(1)
}

/// What an exchange does upon a run of looks.
pub open spec fn run(p: Phase, req: u32, looks: Seq<Status>) -> Seq<Act>
    decreases looks.len(),
{
    if looks.len() == 0 {
        Seq::empty()
    } else {
        let (q, a) = exchanged(p, req, looks[0]);
        if a == Act::Take || a == Act::GiveUp {
            seq![a]
        } else {
            seq![a] + run(q, req, looks.skip(1))
        }
    }
}

/// The answer that is taken came after the request: whatever was in the
/// mailbox before is thrown away, and the request is written once.
pub proof fn answers_follow_the_request(req: u32, looks: Seq<Status>, k: int)
    requires
        0 <= k < run(Phase::Drain, req, looks).len(),
        run(Phase::Drain, req, looks)[k] == Act::Take,
    ensures
        exists|j: int|
            0 <= j < k && #[trigger] run(Phase::Drain, req, looks)[j] == Act::Write(req),
{
    takes_follow_a_write(Phase::Drain, req, looks, k);
}

proof fn takes_follow_a_write(p: Phase, req: u32, looks: Seq<Status>, k: int)
    requires
        p is Drain || p is Room,
        0 <= k < run(p, req, looks).len(),
        run(p, req, looks)[k] == Act::Take,
    ensures
        exists|j: int| 0 <= j < k && #[trigger] run(p, req, looks)[j] == Act::Write(req),
    decreases looks.len(),
{
    let (q, a) = exchanged(p, req, looks[0]);
    let rest = run(q, req, looks.skip(1));
    let all = run(p, req, looks);
    assert(all =~= seq![a] + rest);
    if a == Act::Write(req) {
        assert(all[0] == Act::Write(req));
    } else {
        assert(rest[k - 1] == Act::Take);
        takes_follow_a_write(q, req, looks.skip(1), k - 1);
        let j = choose|j: int| 0 <= j < k - 1 && #[trigger] rest[j] == Act::Write(req);
        assert(all[j + 1] == rest[j]);
    }
}

/// The responder's answer is the one that a stress run expects, for every
/// request that is no bulk request.
pub proof fn answers_are_expected(req: u32, buf: Seq<u32>)
    requires
        req < 0x8000_0000,
    ensures
        answer(req, buf) == 2 * req + 1,
{
}

/// A bulk request is answered with the sum of the words that it speaks of: none
/// give zero, and each further word counts on.
pub proof fn bulk_answers_count_on(n: int, buf: Seq<u32>)
    requires
        buf.len() == SHARED_WORDS,
        0 <= n < 1024,
    ensures
        answer(0x8000_0000, buf) == 0,
        answer((0x8000_0004 + 4 * n) as u32, buf) == (answer((0x8000_0000 + 4 * n) as u32, buf)
            + buf[n]) % 0x1_0000_0000,
        forall|r: u32| 0x8000_1000 <= r ==> #[trigger] answer(r, buf) == answer(0x8000_1000, buf),
{
    assert(buf.take(0) =~= Seq::empty());
    let t = buf.take(n + 1);
    assert(t.drop_last() =~= buf.take(n));
    assert(t.last() == buf[n]);
    assert(bulk_words((0x8000_0004 + 4 * n) as u32) == n + 1);
    assert(bulk_words((0x8000_0000 + 4 * n) as u32) == n);
}

/// A request that nobody answers is given up after five million looks, and not
/// before: it is looked for as often as is left.
pub proof fn silence_is_given_up(req: u32, spins: u32, looks: Seq<Status>)
    requires
        spins <= 5_000_000,
        looks.len() == 5_000_001 - spins,
        forall|i: int| 0 <= i < looks.len() ==> !(#[trigger] looks[i]).valid,
    ensures
        ({
            let acts = run(Phase::Reply { spins }, req, looks);
            &&& acts.len() == looks.len()
            &&& acts.last() == Act::GiveUp
            &&& forall|i: int| 0 <= i < acts.len() - 1 ==> #[trigger] acts[i] == Act::Look
        }),
    decreases looks.len(),
{
    let p = Phase::Reply { spins };
    let acts = run(p, req, looks);
    assert(!looks[0].valid);
    if spins < 5_000_000 {
        let rest = looks.skip(1);
        assert forall|i: int| 0 <= i < rest.len() implies !(#[trigger] rest[i]).valid by {
            assert(rest[i] == looks[i + 1]);
        }
        silence_is_given_up(req, (spins + 1) as u32, rest);
        let tail = run(Phase::Reply { spins: (spins + 1) as u32 }, req, rest);
        assert(acts =~= seq![Act::Look] + tail);
        assert(acts.last() == tail.last());
        assert forall|i: int| 0 <= i < acts.len() - 1 implies #[trigger] acts[i] == Act::Look by {
            if i > 0 {
                assert(acts[i] == tail[i - 1]);
            }
        }
    } else {
        assert(acts == seq![Act::GiveUp]);
    }
}

} // verus!
