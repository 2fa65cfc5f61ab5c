//! The S-Link bus: one wire, idle high, on which a frame is a long low mark
//! followed by one low mark for each bit of its bytes.

use vstd::prelude::*;

verus! {

/// The width of the mark that opens a frame, in microseconds.
pub const SYNC_US: u32 = 2400;

/// The width of a one.
pub const ONE_US: u32 = 1200;

/// The width of a zero.
pub const ZERO_US: u32 = 600;

/// How long the line is released after each mark.
pub const DELIM_US: u32 = 600;

/// How long the line is left quiet before a frame.
pub const LINE_READY_US: u32 = 3000;

/// How long the line is left idle between the frames of a flood.
pub const FLOOD_GAP_US: u32 = 5000;

/// A released line ends the frame after this long.
pub const FRAME_GAP_US: u32 = 3000;

/// A mark at least this wide opens a frame.
pub const T_SYNC: u32 = 1800;

/// A mark at least this wide, and narrower than an opening mark, is a one.
pub const T_ONE: u32 = 900;

/// A mark at least this wide, and narrower than a one, is a zero. A narrower
/// one is a glitch.
pub const T_ZERO: u32 = 300;

/// A mark is not measured beyond this width.
pub const T_CAP: u32 = 4000;

/// A stretch of time with the line driven low or released.
#[derive(Copy, Clone, Debug, PartialEq, Eq, Structural)]
pub struct Pulse {
    /// Driven low; otherwise released, and pulled high.
    pub low: bool,
    /// For how many microseconds.
    pub us: u32,
}

/// The weight of bit `i` of a byte, the most significant first.
pub open spec fn weight(i: int) -> int {
    if i == 0 {
        128
    } else if i == 1 {
        64
    } else if i == 2 {
        32
    } else if i == 3 {
        16
    } else if i == 4 {
        8
    } else if i == 5 {
        4
    } else if i == 6 {
        2
    } else {
        1
    }
}

/// The bits of some bytes, the most significant of each first.
pub open spec fn bits_of(bytes: Seq<u8>) -> Seq<bool> {
    Seq::new(8 * bytes.len(), |k: int| bytes[k / 8] as int / weight(k % 8) % 2 == 1)
}

/// The width of the mark for a bit.
pub open spec fn mark_us(bit: bool) -> u32 {
    if bit {
        ONE_US
    } else {
        ZERO_US
    }
}

/// One mark: low for its width, then released.
pub open spec fn mark(us: u32) -> Seq<Pulse> {
    seq![Pulse { low: true, us }, Pulse { low: false, us: DELIM_US }]
}

/// The marks of some bits.
pub open spec fn marks(bits: Seq<bool>) -> Seq<Pulse>
    decreases bits.len(),
{
    if bits.len() == 0 {
        Seq::empty()
    } else {
        marks(bits.drop_last()) + mark(mark_us(bits.last()))
    }
}

/// The pulses of a frame.
pub open spec fn frame(bytes: Seq<u8>) -> Seq<Pulse> {
    seq![Pulse { low: false, us: LINE_READY_US }] + mark(SYNC_US) + marks(bits_of(bytes))
}

fn push_mark(v: &mut Vec<Pulse>, us: u32)
    ensures
        final(v)@ == old(v)@ + mark(us),
{
    v.push(Pulse { low: true, us });
    v.push(Pulse { low: false, us: DELIM_US });
    assert(v@ =~= old(v)@ + mark(us));
}

fn weight_of(i: usize) -> (r: u8)
    requires
        i < 8,
    ensures
        r == weight(i as int),
{
    if i == 0 {
        128
    } else if i == 1 {
        64
    } else if i == 2 {
        32
    } else if i == 3 {
        16
    } else if i == 4 {
        8
    } else if i == 5 {
        4
    } else if i == 6 {
        2
    } else {
        1
    }
}

/// The pulses of a frame of some bytes.
pub fn frame_pulses(bytes: &[u8]) -> (v: Vec<Pulse>)
    requires
        bytes@.len() <= 3,
    ensures
        v@ == frame(bytes@),
{
    let mut v: Vec<Pulse> = Vec::new();
    v.push(Pulse { low: false, us: LINE_READY_US });
    push_mark(&mut v, SYNC_US);
    let ghost head = seq![Pulse { low: false, us: LINE_READY_US }] + mark(SYNC_US);
    let ghost bits = bits_of(bytes@);
    assert(v@ =~= head + marks(bits.take(0)));
    let mut k: usize = 0;
    while k < 8 * bytes.len()
        invariant
            bytes@.len() <= 3,
            k <= 8 * bytes@.len(),
            bits == bits_of(bytes@),
            v@ == head + marks(bits.take(k as int)),
        decreases 8 * bytes@.len() - k,
    {
        let bit: bool = bytes[k / 8] / weight_of(k % 8) % 2 == 1;
        push_mark(
            &mut v,
            if bit {
                ONE_US
            } else {
                ZERO_US
            },
        );
        proof {
            let t = bits.take(k + 1);
            assert(t.drop_last() =~= bits.take(k as int));
            assert(t.last() == bit);
            assert(v@ =~= head + marks(t));
        }
        k = k + 1;
    }
    assert(bits.take(k as int) =~= bits);
    v
}

/// The pulses by which the first `n` of three bytes are sent; more than
/// three are taken as three. The line is released afterwards.
pub fn send(b0: u8, b1: u8, b2: u8, n: u8) -> (v: Vec<Pulse>)
    ensures
        v@ == frame(seq![b0, b1, b2].take(if n < 3 {
            n as int
        } else {
            3
        })),
{
    let mut bytes: Vec<u8> = Vec::new();
    if n >= 1 {
        bytes.push(b0);
    }
    if n >= 2 {
        bytes.push(b1);
    }
    if n >= 3 {
        bytes.push(b2);
    }
    assert(bytes@ =~= seq![b0, b1, b2].take(if n < 3 {
        n as int
    } else {
        3
    }));
    frame_pulses(&bytes)
}

/// The self-checking frame with number `seq`.
pub open spec fn stress(seq: u8) -> Seq<u8> {
    seq![seq, seq ^ 0xa5, ((seq + 0x33) % 256) as u8]
}

/// The self-checking frame with number `seq`.
pub fn stress_frame(seq: u8) -> (r: [u8; 3])
    ensures
        r@ == stress(seq),
{
    let r = [seq, seq ^ 0xa5, seq.wrapping_add(0x33)];
    assert(r@ =~= stress(seq));
    r
}

/// Whether three bytes are a self-checking frame.
pub fn frame_valid(b0: u8, b1: u8, b2: u8) -> (r: bool)
    ensures
        r <==> seq![b0, b1, b2] == stress(b0),
{
    let f = stress_frame(b0);
    let r: bool = b1 == f[1] && b2 == f[2];
    proof {
        if r {
            assert(seq![b0, b1, b2] =~= stress(b0));
        } else {
            assert(seq![b0, b1, b2][1] == b1 && seq![b0, b1, b2][2] == b2);
        }
    }
    r
}

/// Frame `i` of a flood: the self-checking frames in turn, each followed by
/// an idle line.
pub open spec fn flood_frame(i: int) -> Seq<Pulse> {
    frame(stress((i % 256) as u8)).push(Pulse { low: false, us: FLOOD_GAP_US })
}

/// A flood of self-checking frames.
pub struct Flood {
    n: u32,
    sent: u32,
}

impl Flood {
    /// How many frames there are in all.
    pub closed spec fn total(&self) -> nat {
        self.n as nat
    }

    /// How many were sent.
    pub closed spec fn sent(&self) -> nat {
        self.sent as nat
    }

    /// A flood of `n` frames.
    pub fn begin(n: u32) -> (r: Flood)
        ensures
            r.total() == n,
            r.sent() == 0,
    {
        Flood { n, sent: 0 }
    }

    /// The pulses of the next frame, as long as there is one.
    pub fn next(&mut self) -> (r: Option<Vec<Pulse>>)
        ensures
            final(self).total() == old(self).total(),
            r is Some <==> old(self).sent() < old(self).total(),
            r matches Some(v) ==> v@ == flood_frame(old(self).sent() as int),
            final(self).sent() == old(self).sent() + if r is Some {
                1int
            } else {
                0
            },
    {
        if self.sent >= self.n {
            return None;
        }
        let f = stress_frame((self.sent % 256) as u8);
        let mut v: Vec<Pulse> = frame_pulses(&f);
        v.push(Pulse { low: false, us: FLOOD_GAP_US });
        self.sent = self.sent + 1;
        Some(v)
    }
}

/// The number that some bits write, the most significant first.
pub open spec fn value(bits: Seq<bool>) -> nat
    decreases bits.len(),
{
    if bits.len() == 0 {
        0
    } else {
        2 * value(bits.drop_last()) + if bits.last() {
            1nat
        } else {
            0
        }
    }
}

/// Byte `i` of a frame's bits, as far as they came.
pub open spec fn byte_of(bits: Seq<bool>, i: int) -> nat {
    if bits.len() <= 8 * i {
        0
    } else if bits.len() < 8 * i + 8 {
        value(bits.subrange(8 * i, bits.len() as int))
    } else {
        value(bits.subrange(8 * i, 8 * i + 8))
    }
}

/// A received frame as one word: the count of whole bytes in the top byte,
/// then the three bytes.
pub open spec fn word_of(bits: Seq<bool>) -> nat {
    bits.len() / 8 * 0x100_0000 + byte_of(bits, 0) * 0x1_0000 + byte_of(bits, 1) * 0x100 + byte_of(
        bits,
        2,
    )
}

proof fn value_fits(bits: Seq<bool>)
    requires
        bits.len() <= 8,
    ensures
        value(bits) < 256,
        bits.len() < 8 ==> value(bits) < 128,
        bits.len() < 7 ==> value(bits) < 64,
        bits.len() < 6 ==> value(bits) < 32,
        bits.len() < 5 ==> value(bits) < 16,
        bits.len() < 4 ==> value(bits) < 8,
        bits.len() < 3 ==> value(bits) < 4,
        bits.len() < 2 ==> value(bits) < 2,
        bits.len() < 1 ==> value(bits) < 1,
    decreases bits.len(),
{
    if bits.len() > 0 {
        value_fits(bits.drop_last());
    }
}

/// Byte `i` of `bits`.
fn read_byte(bits: &Vec<bool>, i: usize) -> (r: u8)
    requires
        bits@.len() <= 24,
        i < 3,
    ensures
        r == byte_of(bits@, i as int),
{
    let mut r: u8 = 0;
    let mut k: usize = 8 * i;
    while k < bits.len() && k < 8 * i + 8
        invariant
            bits@.len() <= 24,
            i < 3,
            8 * i <= k <= 8 * i + 8,
            k <= bits@.len() || k == 8 * i,
            k <= bits@.len() ==> r == value(bits@.subrange(8 * i, k as int)),
            k > bits@.len() ==> r == 0,
        decreases 24 - k,
    {
        proof {
            let s = bits@.subrange(8 * i, k as int);
            let t = bits@.subrange(8 * i, k + 1);
            value_fits(s);
            assert(t.drop_last() =~= s);
            assert(t.last() == bits@[k as int]);
        }
        r = 2 * r + if bits[k] {
            1
        } else {
            0
        };
        k = k + 1;
    }
    proof {
        if k <= bits@.len() && k == 8 * i {
            assert(bits@.subrange(8 * i, k as int).len() == 0);
        }
    }
    r
}

fn pack(bits: &Vec<bool>) -> (r: u32)
    requires
        bits@.len() <= 24,
    ensures
        r == word_of(bits@),
{
    let b0: u32 = read_byte(bits, 0) as u32;
    let b1: u32 = read_byte(bits, 1) as u32;
    let b2: u32 = read_byte(bits, 2) as u32;
    (bits.len() / 8) as u32 * 0x100_0000 + b0 * 0x1_0000 + b1 * 0x100 + b2
}

/// What a mark means.
#[derive(Copy, Clone, Debug, PartialEq, Eq, Structural)]
pub enum Symbol {
    /// The opening of a frame.
    Sync,
    /// A one.
    One,
    /// A zero.
    Zero,
    /// Noise.
    Glitch,
}

/// What a mark of a width means.
pub open spec fn symbol(us: u32) -> Symbol {
    if us >= T_SYNC {
        Symbol::Sync
    } else if us >= T_ONE {
        Symbol::One
    } else if us >= T_ZERO {
        Symbol::Zero
    } else {
        Symbol::Glitch
    }
}

/// What a mark of a width means.
pub fn classify(us: u32) -> (r: Symbol)
    ensures
        r == symbol(us),
{
    if us >= T_SYNC {
        Symbol::Sync
    } else if us >= T_ONE {
        Symbol::One
    } else if us >= T_ZERO {
        Symbol::Zero
    } else {
        Symbol::Glitch
    }
}

/// The bits of a frame after one more mark: an opening mark starts over and
/// a glitch adds nothing.
pub open spec fn heard(bits: Seq<bool>, us: u32) -> Seq<bool> {
    match symbol(us) {
        Symbol::Sync => Seq::empty(),
        Symbol::One => bits.push(true),
        Symbol::Zero => bits.push(false),
        Symbol::Glitch => bits,
    }
}

/// The bits of a frame after some more marks.
pub open spec fn heard_all(bits: Seq<bool>, ws: Seq<u32>) -> Seq<bool>
    decreases ws.len(),
{
    if ws.len() == 0 {
        bits
    } else {
        heard(heard_all(bits, ws.drop_last()), ws.last())
    }
}

/// The least and the greatest width of one kind of mark; zero for none.
#[derive(Copy, Clone, Debug, PartialEq, Eq, Structural)]
pub struct Extremes {
    /// The least.
    pub min: u32,
    /// The greatest.
    pub max: u32,
}

impl Extremes {
    /// With one more width.
    pub open spec fn with(self, w: u32) -> Extremes {
        Extremes {
            min: if self.min == 0 || w < self.min {
                w
            } else {
                self.min
            },
            max: if w > self.max {
                w
            } else {
                self.max
            },
        }
    }

    /// Count one more width in.
    pub fn note(&mut self, w: u32)
        ensures
            *final(self) == old(self).with(w),
    {
        if self.min == 0 || w < self.min {
            self.min = w;
        }
        if w > self.max {
            self.max = w;
        }
    }

    /// Both in one word, the least in its upper half.
    pub fn margin(&self) -> (r: u32)
        ensures
            r == self.min % 0x1_0000 * 0x1_0000 + self.max % 0x1_0000,
    {
        self.min % 0x1_0000 * 0x1_0000 + self.max % 0x1_0000
    }
}

/// The widths seen since they were last reset.
#[derive(Copy, Clone, Debug, PartialEq, Eq, Structural)]
pub struct Widths {
    /// Of ones.
    pub ones: Extremes,
    /// Of zeros.
    pub zeros: Extremes,
}

/// No widths.
pub open spec fn no_widths() -> Widths {
    Widths { ones: Extremes { min: 0, max: 0 }, zeros: Extremes { min: 0, max: 0 } }
}

impl Widths {
    /// No widths.
    pub fn new() -> (r: Widths)
        ensures
            r == no_widths(),
    {
        Widths { ones: Extremes { min: 0, max: 0 }, zeros: Extremes { min: 0, max: 0 } }
    }

    /// With one more mark.
    pub open spec fn with(self, us: u32) -> Widths {
        match symbol(us) {
            Symbol::One => Widths { ones: self.ones.with(us), ..self },
            Symbol::Zero => Widths { zeros: self.zeros.with(us), ..self },
            _ => self,
        }
    }
}

/// What the receiver waits for.
#[derive(Copy, Clone, Debug, PartialEq, Eq, Structural)]
pub enum Phase {
    /// For the line to fall: how long it has been waited, and for how long
    /// it is.
    Idle { waited: u32, limit: u32 },
    /// For the end of the opening mark, so far this wide.
    Opening { us: u32 },
    /// For the next mark, the line released for so long.
    Gap { us: u32 },
    /// For the end of a mark, so far this wide.
    Mark { us: u32 },
}

/// What to do next: wait, then look at the line again or take the frame.
#[derive(Copy, Clone, Debug, PartialEq, Eq, Structural)]
pub struct Step {
    /// How many microseconds to wait.
    pub wait_us: u32,
    /// The frame, where this was the last look; zero for none.
    pub done: Option<u32>,
}

/// The receiver of one frame.
pub struct Receiver {
    phase: Phase,
    bits: Vec<bool>,
}

/// The receiver as its contracts see it.
#[verifier::ext_equal]
pub struct Hearing {
    /// What it waits for.
    pub phase: Phase,
    /// The bits of the frame so far.
    pub bits: Seq<bool>,
}

/// A sound state: a frame that is complete is not waited for.
pub open spec fn sound(h: Hearing) -> bool {
    &&& h.bits.len() < 24
    &&& match h.phase {
        Phase::Idle { waited, limit } => h.bits.len() == 0 && waited % 100 == 0,
        Phase::Opening { us } => h.bits.len() == 0 && us <= T_CAP && us % 5 == 0,
        Phase::Gap { us } => us <= FRAME_GAP_US && us % 20 == 0,
        Phase::Mark { us } => us <= T_CAP && us % 5 == 0,
    }
}

/// The state before the first look, when a frame is waited for so many
/// milliseconds.
pub open spec fn hearing_start(timeout_ms: u32) -> Hearing {
    Hearing {
        phase: Phase::Idle {
            waited: 0,
            limit: if timeout_ms * 1000 <= u32::MAX {
                (timeout_ms * 1000) as u32
            } else {
                u32::MAX
            },
        },
        bits: Seq::empty(),
    }
}

/// After the opening mark: it must be wide enough, or it is noise.
pub open spec fn opened(us: u32, wait: u32) -> (Hearing, Step) {
    (
        Hearing { phase: Phase::Gap { us: 0 }, bits: Seq::empty() },
        Step {
            wait_us: wait,
            done: if us < T_SYNC {
                Some(0u32)
            } else {
                None
            },
        },
    )
}

/// After a mark of a frame: the third byte completes it.
pub open spec fn marked(bits: Seq<bool>, us: u32, wait: u32) -> (Hearing, Step) {
    let b = heard(bits, us);
    if b.len() == 24 {
        (
            Hearing { phase: Phase::Gap { us: 0 }, bits: Seq::empty() },
            Step { wait_us: wait, done: Some(word_of(b) as u32) },
        )
    } else {
        (
            Hearing { phase: Phase::Gap { us: 0 }, bits: b },
            Step { wait_us: wait, done: None },
        )
    }
}

/// What a look at the line does.
pub open spec fn looked(h: Hearing, high: bool) -> (Hearing, Step) {
    match h.phase {
        Phase::Idle { waited, limit } => if high {
            (
                Hearing { phase: Phase::Idle { waited: (waited + 100) as u32, limit }, ..h },
                Step {
                    wait_us: 100,
                    done: if waited + 100 >= limit {
                        Some(0u32)
                    } else {
                        None
                    },
                },
            )
        } else {
            (
                Hearing { phase: Phase::Opening { us: 0 }, ..h },
                Step { wait_us: 0, done: None },
            )
        },
        Phase::Opening { us } => if high {
            opened(us, 0)
        } else if us + 5 > T_CAP {
            opened((us + 5) as u32, 5)
        } else {
            (
                Hearing { phase: Phase::Opening { us: (us + 5) as u32 }, ..h },
                Step { wait_us: 5, done: None },
            )
        },
        Phase::Gap { us } => if !high {
            (
                Hearing { phase: Phase::Mark { us: 0 }, ..h },
                Step { wait_us: 0, done: None },
            )
        } else if us + 20 > FRAME_GAP_US {
            (
                Hearing { phase: Phase::Gap { us: 0 }, bits: Seq::empty() },
                Step { wait_us: 20, done: Some(word_of(h.bits) as u32) },
            )
        } else {
            (
                Hearing { phase: Phase::Gap { us: (us + 20) as u32 }, ..h },
                Step { wait_us: 20, done: None },
            )
        },
        Phase::Mark { us } => if high {
            marked(h.bits, us, 0)
        } else if us + 5 > T_CAP {
            marked(h.bits, (us + 5) as u32, 5)
        } else {
            (
                Hearing { phase: Phase::Mark { us: (us + 5) as u32 }, ..h },
                Step { wait_us: 5, done: None },
            )
        },
    }
}

/// The widths after a look at the line: a mark that ended is counted in.
pub open spec fn widths_after(h: Hearing, high: bool, w: Widths) -> Widths {
    match h.phase {
        Phase::Mark { us } => if high {
            w.with(us)
        } else if us + 5 > T_CAP {
            w.with((us + 5) as u32)
        } else {
            w
        },
        _ => w,
    }
}

/// Whether the time waited for a frame still fits its counter after one more
/// look.
pub open spec fn can_wait(h: Hearing) -> bool {
    h.phase matches Phase::Idle { waited, limit } ==> waited + 100 <= u32::MAX
}

impl Receiver {
    /// What it does, as its contracts see it.
    pub closed spec fn view(&self) -> Hearing {
        Hearing { phase: self.phase, bits: self.bits@ }
    }

    /// Wait for a frame, for up to `timeout_ms` milliseconds.
    pub fn begin(timeout_ms: u32) -> (r: Receiver)
        ensures
            r@ == hearing_start(timeout_ms),
            sound(r@),
            can_wait(r@),
    {
        let limit: u32 = if timeout_ms <= 4_294_967 {
            timeout_ms * 1000
        } else {
            u32::MAX
        };
        let r = Receiver { phase: Phase::Idle { waited: 0, limit }, bits: Vec::new() };
        assert(r@ =~= hearing_start(timeout_ms));
        r
    }

    /// Whether one more look is within the time that can be counted.
    pub fn may_look(&self) -> (r: bool)
        ensures
            r == can_wait(self@),
    {
        match self.phase {
            Phase::Idle { waited, .. } => waited <= u32::MAX - 100,
            _ => true,
        }
    }

    fn end_mark(&mut self, us: u32, wait: u32, widths: &mut Widths) -> (r: Step)
        requires
            old(self)@.bits.len() < 24,
        ensures
            sound(final(self)@),
            (final(self)@, r) == marked(old(self)@.bits, us, wait),
            *final(widths) == old(widths).with(us),
    {
        let ghost before = self@.bits;
        self.phase = Phase::Gap { us: 0 };
        match classify(us) {
            Symbol::Sync => {
                self.bits = Vec::new();
            },
            Symbol::One => {
                widths.ones.note(us);
                self.bits.push(true);
            },
            Symbol::Zero => {
                widths.zeros.note(us);
                self.bits.push(false);
            },
            Symbol::Glitch => {},
        }
        assert(self.bits@ =~= heard(before, us));
        if self.bits.len() == 24 {
            let w: u32 = pack(&self.bits);
            self.bits = Vec::new();
            assert(self@.bits =~= Seq::<bool>::empty());
            Step { wait_us: wait, done: Some(w) }
        } else {
            Step { wait_us: wait, done: None }
        }
    }

    /// Look at the line.
    pub fn look(&mut self, high: bool, widths: &mut Widths) -> (r: Step)
        requires
            sound(old(self)@),
            can_wait(old(self)@),
        ensures
            sound(final(self)@),
            (final(self)@, r) == looked(old(self)@, high),
            *final(widths) == widths_after(old(self)@, high, *old(widths)),
    {
        match self.phase {
            Phase::Idle { waited, limit } => {
                if high {
                    let waited: u32 = waited + 100;
                    self.phase = Phase::Idle { waited, limit };
                    Step {
                        wait_us: 100,
                        done: if waited >= limit {
                            Some(0)
                        } else {
                            None
                        },
                    }
                } else {
                    self.phase = Phase::Opening { us: 0 };
                    Step { wait_us: 0, done: None }
                }
            },
            Phase::Opening { us } => {
                let wait: u32 = if high {
                    0
                } else {
                    5
                };
                if high || us + 5 > T_CAP {
                    self.phase = Phase::Gap { us: 0 };
                    assert(self@.bits =~= Seq::<bool>::empty());
                    Step {
                        wait_us: wait,
                        done: if us + wait < T_SYNC {
                            Some(0)
                        } else {
                            None
                        },
                    }
                } else {
                    self.phase = Phase::Opening { us: us + 5 };
                    Step { wait_us: 5, done: None }
                }
            },
            Phase::Gap { us } => {
                if !high {
                    self.phase = Phase::Mark { us: 0 };
                    Step { wait_us: 0, done: None }
                } else if us + 20 > FRAME_GAP_US {
                    let w: u32 = pack(&self.bits);
                    self.phase = Phase::Gap { us: 0 };
                    self.bits = Vec::new();
                    assert(self@.bits =~= Seq::<bool>::empty());
                    Step { wait_us: 20, done: Some(w) }
                } else {
                    self.phase = Phase::Gap { us: us + 20 };
                    Step { wait_us: 20, done: None }
                }
            },
            Phase::Mark { us } => {
                if high {
                    self.end_mark(us, 0, widths)
                } else if us + 5 > T_CAP {
                    self.end_mark(us + 5, 5, widths)
                } else {
                    self.phase = Phase::Mark { us: us + 5 };
                    Step { wait_us: 5, done: None }
                }
            },
        }
    }
}

/// Whether a received frame is a whole self-checking one.
pub open spec fn good_frame(r: u32) -> bool {
    &&& r / 0x100_0000 == 3
    &&& seq![(r / 0x1_0000 % 256) as u8, (r / 256 % 256) as u8, (r % 256) as u8] == stress(
        (r / 0x1_0000 % 256) as u8,
    )
}

/// The count of the self-checking frames received.
#[derive(Copy, Clone, Debug, PartialEq, Eq, Structural)]
pub struct Soak {
    /// How many are waited for.
    pub n: u32,
    /// How many came in good order.
    pub good: u32,
    /// How many did not.
    pub bad: u32,
}

impl Soak {
    /// Wait for `n` frames.
    pub fn begin(n: u32) -> (r: Soak)
        ensures
            r == (Soak { n, good: 0, bad: 0 }),
    {
        Soak { n, good: 0, bad: 0 }
    }

    /// A sound count.
    pub open spec fn wf(self) -> bool {
        self.good + self.bad <= self.n
    }

    /// Whether there are more frames to wait for at time `now`.
    pub fn more(&self, now: u64, deadline: u64) -> (r: bool)
        requires
            self.wf(),
        ensures
            r <==> self.good + self.bad < self.n && now < deadline,
    {
        self.good + self.bad < self.n && now < deadline
    }

    /// Count what a receiver returned; zero is no frame.
    pub fn count(&mut self, r: u32)
        requires
            old(self).good + old(self).bad < old(self).n,
        ensures
            final(self).wf(),
            final(self).n == old(self).n,
            final(self).good == old(self).good + if r != 0 && good_frame(r) {
                1int
            } else {
                0
            },
            final(self).bad == old(self).bad + if r != 0 && !good_frame(r) {
                1int
            } else {
                0
            },
    {
        if r == 0 {
            return;
        }
        let b0: u8 = (r / 0x1_0000 % 256) as u8;
        let b1: u8 = (r / 256 % 256) as u8;
        let b2: u8 = (r % 256) as u8;
        if r / 0x100_0000 == 3 && frame_valid(b0, b1, b2) {
            self.good = self.good + 1;
        } else {
            self.bad = self.bad + 1;
        }
    }

    /// Both counts in one word, the bad in its upper half.
    pub fn result(&self) -> (r: u32)
        ensures
            r == self.bad % 0x1_0000 * 0x1_0000 + self.good % 0x1_0000,
    {
        self.bad % 0x1_0000 * 0x1_0000 + self.good % 0x1_0000
    }
}

proof fn one_more_bit(b: u8, s: Seq<bool>, k: int)
    requires
        s == bits_of(seq![b]),
        0 <= k < 8,
    ensures
        value(s.take(k + 1)) == 2 * value(s.take(k)) + b as int / weight(k) % 2,
{
    assert(s.take(k + 1).drop_last() =~= s.take(k));
    assert(s.take(k + 1).last() == s[k]);
    assert(k / 8 == 0 && k % 8 == k);
    assert(seq![b][0] == b);
}

proof fn byte_value(b: u8)
    ensures
        value(bits_of(seq![b])) == b,
{
    let s = bits_of(seq![b]);
    one_more_bit(b, s, 0);
    assert(value(s.take(1)) == b as int / 128);
    one_more_bit(b, s, 1);
    assert(value(s.take(2)) == b as int / 64);
    one_more_bit(b, s, 2);
    assert(value(s.take(3)) == b as int / 32);
    one_more_bit(b, s, 3);
    assert(value(s.take(4)) == b as int / 16);
    one_more_bit(b, s, 4);
    assert(value(s.take(5)) == b as int / 8);
    one_more_bit(b, s, 5);
    assert(value(s.take(6)) == b as int / 4);
    one_more_bit(b, s, 6);
    assert(value(s.take(7)) == b as int / 2);
    one_more_bit(b, s, 7);
    assert(s.take(8) =~= s);
}

/// The word of a frame names its bytes: the bits of up to three bytes read
/// back as those bytes, with their count on top.
#[verifier::spinoff_prover]
#[verifier::rlimit(60)]
pub proof fn word_names_the_bytes(bytes: Seq<u8>)
    requires
        bytes.len() <= 3,
    ensures
        word_of(bits_of(bytes)) == bytes.len() * 0x100_0000 + crate::words::at(bytes, 0) * 0x1_0000
            + crate::words::at(bytes, 1) * 0x100 + crate::words::at(bytes, 2),
{
    let bits = bits_of(bytes);
    assert forall|i: int| 0 <= i < bytes.len() implies byte_of(bits, i) == bytes[i] by {
        byte_value(bytes[i]);
        assert(bits.subrange(8 * i, 8 * i + 8) =~= bits_of(seq![bytes[i]]));
    }
    assert forall|i: int| bytes.len() <= i < 3 implies byte_of(bits, i) == 0 by {}
}

/// A mark whose width is off by no more than a fifth of its nominal width is
/// still taken for what it is.
pub proof fn a_fifth_off_is_still_heard(us: u32)
    ensures
        4 * SYNC_US <= 5 * us <= 6 * SYNC_US ==> symbol(us) == Symbol::Sync,
        4 * ONE_US <= 5 * us <= 6 * ONE_US ==> symbol(us) == Symbol::One,
        4 * ZERO_US <= 5 * us <= 6 * ZERO_US ==> symbol(us) == Symbol::Zero,
{
}

/// A frame is heard as it was sent, whatever the widths of its marks within
/// their bounds: ones below an opening mark, zeros below a one, neither as
/// narrow as a glitch. The nominal widths are within the bounds.
pub proof fn sent_frames_are_heard(bytes: Seq<u8>, ws: Seq<u32>)
    requires
        ws.len() == 8 * bytes.len(),
        forall|k: int|
            0 <= k < ws.len() ==> if bits_of(bytes)[k] {
                T_ONE <= #[trigger] ws[k] < T_SYNC
            } else {
                T_ZERO <= ws[k] < T_ONE
            },
    ensures
        heard_all(Seq::empty(), ws) == bits_of(bytes),
        symbol(ONE_US) == Symbol::One,
        symbol(ZERO_US) == Symbol::Zero,
        symbol(SYNC_US) == Symbol::Sync,
{
    heard_prefix(bits_of(bytes), ws, ws.len());
    assert(ws.take(ws.len() as int) =~= ws);
    assert(bits_of(bytes).take(ws.len() as int) =~= bits_of(bytes));
}

proof fn heard_prefix(bits: Seq<bool>, ws: Seq<u32>, n: nat)
    requires
        ws.len() == bits.len(),
        n <= ws.len(),
        forall|k: int|
            0 <= k < ws.len() ==> if bits[k] {
                T_ONE <= #[trigger] ws[k] < T_SYNC
            } else {
                T_ZERO <= ws[k] < T_ONE
            },
    ensures
        heard_all(Seq::empty(), ws.take(n as int)) == bits.take(n as int),
    decreases n,
{
    let t = ws.take(n as int);
    if n == 0 {
        assert(bits.take(0) =~= Seq::<bool>::empty());
    } else {
        heard_prefix(bits, ws, (n - 1) as nat);
        assert(t.drop_last() =~= ws.take(n - 1));
        assert(t.last() == ws[n - 1]);
        assert(bits.take(n as int) =~= bits.take(n - 1).push(bits[n - 1]));
    }
}

/// A self-checking frame counts as good when it is heard as it was sent.
pub proof fn stress_frames_are_good(seq: u8)
    ensures
        good_frame(word_of(bits_of(stress(seq))) as u32),
        word_of(bits_of(stress(seq))) <= u32::MAX,
{
    let f = stress(seq);
    word_names_the_bytes(f);
    word_fields(f[0], f[1], f[2], word_of(bits_of(f)) as u32);
    assert(seq![f[0], f[1], f[2]] =~= f);
}

proof fn word_fields(b0: u8, b1: u8, b2: u8, r: u32)
    requires
        r == 3 * 0x100_0000 + b0 * 0x1_0000 + b1 * 0x100 + b2,
    ensures
        r / 0x100_0000 == 3,
        r / 0x1_0000 % 256 == b0,
        r / 256 % 256 == b1,
        r % 256 == b2,
{
    let a = 768 + b0;
    let b = 256 * a + b1;
    assert(r == 256 * b + b2);
    assert(r / 256 == b);
    assert(b / 256 == a);
    assert(r / 0x1_0000 == a);
    assert(a / 256 == 3);
    assert(r / 0x100_0000 == 3);
}

/// While a frame is waited for no longer than its counter can count, the
/// receiver can always look again unless it is done.
pub proof fn waiting_is_counted(h: Hearing, high: bool)
    requires
        sound(h),
        can_wait(h),
        h.phase matches Phase::Idle { waited, limit } ==> limit <= 4_294_967_000,
        looked(h, high).1.done is None,
    ensures
        can_wait(looked(h, high).0),
{
}

/// The widths of the marks in some pulses: how long the line is low.
pub open spec fn marks_in(ps: Seq<Pulse>) -> Seq<u32>
    decreases ps.len(),
{
    if ps.len() == 0 {
        Seq::empty()
    } else if ps.last().low {
        marks_in(ps.drop_last()).push(ps.last().us)
    } else {
        marks_in(ps.drop_last())
    }
}

proof fn a_mark_is_seen(ps: Seq<Pulse>, us: u32)
    ensures
        marks_in(ps + mark(us)) == marks_in(ps).push(us),
{
    let all = ps + mark(us);
    reveal_with_fuel(marks_in, 3);
    assert(all.drop_last() =~= ps + seq![Pulse { low: true, us }]);
    assert(all.drop_last().drop_last() =~= ps);
}

proof fn bits_are_seen(ps: Seq<Pulse>, bits: Seq<bool>)
    ensures
        marks_in(ps + marks(bits)) == marks_in(ps) + Seq::new(
            bits.len(),
            |k: int| mark_us(bits[k]),
        ),
    decreases bits.len(),
{
    let ws = Seq::new(bits.len(), |k: int| mark_us(bits[k]));
    if bits.len() == 0 {
        assert(ps + marks(bits) =~= ps);
        assert(marks_in(ps) + ws =~= marks_in(ps));
    } else {
        let t = bits.drop_last();
        bits_are_seen(ps, t);
        assert(ps + marks(bits) =~= ps + marks(t) + mark(mark_us(bits.last())));
        a_mark_is_seen(ps + marks(t), mark_us(bits.last()));
        let wt = Seq::new(t.len(), |k: int| mark_us(t[k]));
        assert((marks_in(ps) + wt).push(mark_us(bits.last())) =~= marks_in(ps) + ws);
    }
}

proof fn an_opening_starts_over(before: Seq<bool>, ws: Seq<u32>)
    ensures
        heard_all(before, seq![SYNC_US] + ws) == heard_all(Seq::empty(), ws),
    decreases ws.len(),
{
    let all = seq![SYNC_US] + ws;
    if ws.len() == 0 {
        reveal_with_fuel(heard_all, 2);
        assert(all.drop_last() =~= Seq::empty());
        assert(all.last() == SYNC_US);
    } else {
        an_opening_starts_over(before, ws.drop_last());
        assert(all.drop_last() =~= seq![SYNC_US] + ws.drop_last());
        assert(all.last() == ws.last());
    }
}

/// What is sent is heard: the marks of a frame's pulses give back its bytes, bit
/// by bit, whatever was heard before.
#[verifier::spinoff_prover]
#[verifier::rlimit(60)]
pub proof fn frames_survive_the_line(bytes: Seq<u8>, before: Seq<bool>)
    ensures
        heard_all(before, marks_in(frame(bytes))) == bits_of(bytes),
{
    let bits = bits_of(bytes);
    let ws = Seq::new(bits.len(), |k: int| mark_us(bits[k]));
    let ready = seq![Pulse { low: false, us: LINE_READY_US }];
    reveal_with_fuel(marks_in, 2);
    assert(ready.drop_last() =~= Seq::empty());
    assert(marks_in(ready) =~= Seq::empty());
    a_mark_is_seen(ready, SYNC_US);
    bits_are_seen(ready + mark(SYNC_US), bits);
    assert(marks_in(frame(bytes)) =~= seq![SYNC_US] + ws);
    an_opening_starts_over(before, ws);
    sent_frames_are_heard(bytes, ws);
}

/// The extremes hold every width that was counted in: none is below the least or
/// above the greatest, and each of the two is one that was seen.
pub proof fn extremes_hold_their_widths(e: Extremes, w: u32)
    requires
        0 < e.min <= e.max,
        0 < w,
    ensures
        ({
            let f = e.with(w);
            &&& f.min <= w <= f.max
            &&& f.min <= e.min && e.max <= f.max
            &&& f.min == w || f.min == e.min
            &&& f.max == w || f.max == e.max
        }),
        ({
            let none = Extremes { min: 0, max: 0 };
            none.with(w) == (Extremes { min: w, max: w })
        }),
{
}

/// Ones are measured with ones and zeros with zeros.
pub proof fn widths_are_kept_apart(s: Widths, us: u32)
    ensures
        symbol(us) == Symbol::One ==> s.with(us).zeros == s.zeros && s.with(us).ones.max >= us,
        symbol(us) == Symbol::Zero ==> s.with(us).ones == s.ones && s.with(us).zeros.max >= us,
        symbol(us) != Symbol::One && symbol(us) != Symbol::Zero ==> s.with(us) == s,
{
}

} // verus!
