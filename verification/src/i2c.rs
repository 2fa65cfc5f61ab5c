//! The I2C block: as a controller it writes and reads byte by byte, and as a
//! target it serves a small window.

use crate::errors::I2cError;
use vstd::prelude::*;

verus! {

/// The clock of the block.
pub const CLK_HZ: u32 = 150_000_000;

/// How often a condition is looked at before the bus counts as stuck.
pub const SPIN_LIMIT: u32 = 2_000_000;

/// How long the data line is held after the clock falls, in clock cycles.
pub const SDA_HOLD: u16 = 46;

/// The interrupts of the target: a byte came, one is asked for, the
/// controller broke off.
pub const TARGET_INTERRUPTS: u32 = 0x64;

/// How the bus is clocked.
#[derive(Copy, Clone, Debug, PartialEq, Eq, Structural)]
pub struct Timing {
    /// In fast mode; otherwise in standard mode.
    pub fast: bool,
    /// How many cycles the clock is high.
    pub hcnt: u16,
    /// How many cycles the clock is low.
    pub lcnt: u16,
}

/// The cycles of one period at a speed in kilohertz, zero counting as one.
pub open spec fn period(khz: u32) -> int {
    CLK_HZ as int / (if khz == 0 {
        1000
    } else {
        khz * 1000
    })
}

/// The timing for a speed in kilohertz: low for three fifths of the period.
/// The counts are as wide as their registers.
pub open spec fn timing(khz: u32) -> Timing {
    let p = period(khz);
    Timing {
        fast: khz > 100,
        hcnt: ((p - p * 3 / 5) % 0x1_0000) as u16,
        lcnt: (p * 3 / 5 % 0x1_0000) as u16,
    }
}

/// The timing for a speed in kilohertz.
pub fn set_speed(khz: u32) -> (r: Timing)
    requires
        khz * 1000 <= u32::MAX,
    ensures
        r == timing(khz),
{
    let hz: u32 = if khz == 0 {
        1000
    } else {
        khz * 1000
    };
    proof {
        vstd::arithmetic::div_mod::lemma_div_is_ordered_by_denominator(
            CLK_HZ as int,
            1000,
            hz as int,
        );
    }
    let p: u32 = CLK_HZ / hz;
    assert(p <= 150_000);
    let low: u32 = p * 3 / 5;
    Timing {
        fast: hz > 100_000,
        hcnt: ((p - low) % 0x1_0000) as u16,
        lcnt: (low % 0x1_0000) as u16,
    }
}

/// A register access of a transfer.
#[derive(Copy, Clone, Debug, PartialEq, Eq, Structural)]
pub enum BusOp {
    /// Turn to the device at an address.
    Target(u8),
    /// Send a byte, and let go of the bus afterwards.
    Send { byte: u8, stop: bool },
    /// Ask for a byte, and let go of the bus afterwards.
    Fetch { stop: bool },
    /// Forget that the transfer was broken off.
    ClearAbort,
    /// Forget that the bus was let go.
    ClearStop,
}

/// What is looked at.
#[derive(Copy, Clone, Debug, PartialEq, Eq, Structural)]
pub enum Cond {
    /// Whether there is room for another command.
    Room,
    /// Whether a byte came.
    Data,
    /// Whether the bus was let go.
    Stop,
    /// Nothing but whether the transfer was broken off.
    Abort,
}

/// What was seen.
#[derive(Copy, Clone, Debug, PartialEq, Eq, Structural)]
pub struct Seen {
    /// The transfer was broken off.
    pub abort: bool,
    /// The condition holds.
    pub ready: bool,
    /// The byte that came, where one was waited for.
    pub byte: u8,
}

/// What is to be done next.
#[derive(Copy, Clone, Debug, PartialEq, Eq)]
pub enum Next {
    /// Look at a condition.
    Look(Cond),
    /// The transfer is over.
    Done(Result<(), I2cError>),
}

/// A transfer to or from one device.
pub struct Transfer {
    write: bool,
    data: Vec<u8>,
    want: usize,
    cond: Cond,
    i: usize,
    spins: u32,
}

/// A transfer as its contracts see it.
#[verifier::ext_equal]
pub struct Moving {
    /// Bytes go out; otherwise they come in.
    pub write: bool,
    /// The bytes that go out, or those that came in.
    pub data: Seq<u8>,
    /// How many bytes there are in all.
    pub want: nat,
    /// What is looked at.
    pub cond: Cond,
    /// How many commands were given.
    pub i: nat,
    /// How often the condition did not hold.
    pub spins: nat,
}

/// A sound transfer.
pub open spec fn sound(m: Moving) -> bool {
    &&& 1 <= m.want <= 256
    &&& m.spins < SPIN_LIMIT
    &&& if m.write {
        &&& m.data.len() == m.want
        &&& match m.cond {
            Cond::Room => m.i < m.want,
            Cond::Data => false,
            _ => m.i == m.want,
        }
    } else {
        &&& match m.cond {
            Cond::Room => m.i < m.want && m.data.len() == m.i,
            Cond::Data => 1 <= m.i <= m.want && m.data.len() == m.i - 1,
            _ => false,
        }
    }
}

/// The transfer that looks at another condition.
pub open spec fn looking(m: Moving, cond: Cond) -> Moving {
    Moving { cond, spins: 0, ..m }
}

/// What comes of what was seen: the transfer, the register accesses, and
/// what is to be done next.
pub open spec fn moved(m: Moving, s: Seen) -> (Moving, Seq<BusOp>, Next) {
    if s.abort {
        (m, seq![BusOp::ClearAbort], Next::Done(Err(I2cError::Nak)))
    } else if m.cond == Cond::Abort {
        (m, Seq::empty(), Next::Done(Ok(())))
    } else if !s.ready {
        if m.spins + 1 == SPIN_LIMIT {
            (m, Seq::empty(), Next::Done(Err(I2cError::Timeout)))
        } else {
            (
                Moving { spins: m.spins + 1, ..m },
                Seq::empty(),
                Next::Look(m.cond),
            )
        }
    } else if m.cond == Cond::Room && m.write {
        let last = m.i + 1 == m.want;
        let cond = if last {
            Cond::Stop
        } else {
            Cond::Room
        };
        (
            looking(Moving { i: m.i + 1, ..m }, cond),
            seq![BusOp::Send { byte: m.data[m.i as int], stop: last }],
            Next::Look(cond),
        )
    } else if m.cond == Cond::Room {
        (
            looking(Moving { i: m.i + 1, ..m }, Cond::Data),
            seq![BusOp::Fetch { stop: m.i + 1 == m.want }],
            Next::Look(Cond::Data),
        )
    } else if m.cond == Cond::Data {
        let m2 = Moving { data: m.data.push(s.byte), ..m };
        if m.i == m.want {
            (m2, seq![BusOp::ClearStop], Next::Done(Ok(())))
        } else {
            (looking(m2, Cond::Room), Seq::empty(), Next::Look(Cond::Room))
        }
    } else {
        (looking(m, Cond::Abort), seq![BusOp::ClearStop], Next::Look(Cond::Abort))
    }
}

impl Transfer {
    /// The transfer as its contracts see it.
    pub closed spec fn view(&self) -> Moving {
        Moving {
            write: self.write,
            data: self.data@,
            want: self.want as nat,
            cond: self.cond,
            i: self.i as nat,
            spins: self.spins as nat,
        }
    }

    /// A write of some bytes, after turning to their device.
    pub fn write(data: Vec<u8>) -> (r: Transfer)
        requires
            1 <= data@.len() <= 256,
        ensures
            r@ == (Moving {
                write: true,
                data: data@,
                want: data@.len(),
                cond: Cond::Room,
                i: 0,
                spins: 0,
            }),
            sound(r@),
    {
        let want: usize = data.len();
        Transfer { write: true, data, want, cond: Cond::Room, i: 0, spins: 0 }
    }

    /// A read of some bytes, after turning to their device.
    pub fn read(n: usize) -> (r: Transfer)
        requires
            1 <= n <= 256,
        ensures
            r@ == (Moving {
                write: false,
                data: Seq::empty(),
                want: n as nat,
                cond: Cond::Room,
                i: 0,
                spins: 0,
            }),
            sound(r@),
    {
        let r = Transfer {
            write: false,
            data: Vec::new(),
            want: n,
            cond: Cond::Room,
            i: 0,
            spins: 0,
        };
        assert(r@.data =~= Seq::<u8>::empty());
        r
    }

    /// Take what was seen.
    pub fn next(&mut self, s: Seen) -> (r: (Vec<BusOp>, Next))
        requires
            sound(old(self)@),
        ensures
            (final(self)@, r.0@, r.1) == moved(old(self)@, s),
            r.1 is Look ==> sound(final(self)@),
            r.1 matches Next::Look(c) ==> c == final(self)@.cond,
    {
        let mut ops: Vec<BusOp> = Vec::new();
        if s.abort {
            ops.push(BusOp::ClearAbort);
            assert(ops@ =~= seq![BusOp::ClearAbort]);
            return (ops, Next::Done(Err(I2cError::Nak)));
        }
        match self.cond {
            Cond::Abort => {
                return (ops, Next::Done(Ok(())));
            },
            _ => {},
        }
        if !s.ready {
            if self.spins + 1 == SPIN_LIMIT {
                return (ops, Next::Done(Err(I2cError::Timeout)));
            }
            self.spins = self.spins + 1;
            return (ops, Next::Look(self.cond));
        }
        match self.cond {
            Cond::Room => {
                let last: bool = self.i + 1 == self.want;
                if self.write {
                    ops.push(BusOp::Send { byte: self.data[self.i], stop: last });
                    self.cond = if last {
                        Cond::Stop
                    } else {
                        Cond::Room
                    };
                } else {
                    ops.push(BusOp::Fetch { stop: last });
                    self.cond = Cond::Data;
                }
                self.i = self.i + 1;
            },
            Cond::Data => {
                self.data.push(s.byte);
                if self.i == self.want {
                    ops.push(BusOp::ClearStop);
                    assert(ops@ =~= seq![BusOp::ClearStop]);
                    return (ops, Next::Done(Ok(())));
                }
                self.cond = Cond::Room;
            },
            _ => {
                ops.push(BusOp::ClearStop);
                self.cond = Cond::Abort;
            },
        }
        self.spins = 0;
        assert(ops@ =~= moved(old(self)@, s).1);
        (ops, Next::Look(self.cond))
    }

    /// The bytes that came in, or those that went out.
    pub fn bytes(&self) -> (r: &Vec<u8>)
        ensures
            r@ == self@.data,
    {
        &self.data
    }
}

/// Whether a device answers at an address, from a read of one byte.
pub fn probe(r: Result<(), I2cError>) -> (a: Result<bool, I2cError>)
    ensures
        r is Ok ==> a == Ok::<bool, I2cError>(true),
        r == Err::<(), I2cError>(I2cError::Nak) ==> a == Ok::<bool, I2cError>(false),
        r == Err::<(), I2cError>(I2cError::Timeout) ==> a == Err::<bool, I2cError>(
            I2cError::Timeout,
        ),
{
    match r {
        Ok(_) => Ok(true),
        Err(I2cError::Nak) => Ok(false),
        Err(e) => Err(e),
    }
}

/// A register access of the target.
#[derive(Copy, Clone, Debug, PartialEq, Eq, Structural)]
pub enum TargetOp {
    /// Forget that a byte was asked for.
    ClearRequest,
    /// Load a byte for the controller.
    Load(u8),
    /// Forget that the controller broke off.
    ClearAbort,
    /// Throw the bytes that came away.
    Drain,
}

/// The loads of a window.
pub open spec fn loads(w: Seq<u8>) -> Seq<TargetOp> {
    Seq::new(w.len(), |i: int| TargetOp::Load(w[i]))
}

/// What the target does upon an interrupt: a read is served the whole window
/// from its start.
pub open spec fn served(w: Seq<u8>, rd_req: bool, tx_abrt: bool, rx_full: bool) -> Seq<TargetOp> {
    (if rd_req {
        seq![TargetOp::ClearRequest] + loads(w)
    } else {
        Seq::empty()
    }) + (if tx_abrt {
        seq![TargetOp::ClearAbort]
    } else {
        Seq::empty()
    }) + (if rx_full {
        seq![TargetOp::Drain]
    } else {
        Seq::empty()
    })
}

/// The window that the target serves.
pub struct Window {
    bytes: Vec<u8>,
}

impl Window {
    /// The bytes served.
    pub closed spec fn view(&self) -> Seq<u8> {
        self.bytes@
    }

    /// Serve nothing.
    pub fn new() -> (r: Window)
        ensures
            r@ == Seq::<u8>::empty(),
    {
        Window { bytes: Vec::new() }
    }

    /// Serve up to sixteen bytes from now on.
    pub fn serve(&mut self, data: &[u8])
        requires
            data@.len() <= 16,
        ensures
            final(self)@ == data@,
    {
        let mut bytes: Vec<u8> = Vec::new();
        crate::text::append(&mut bytes, data);
        assert(bytes@ =~= data@);
        self.bytes = bytes;
    }

    /// What to do upon an interrupt.
    pub fn on_interrupt(&self, rd_req: bool, tx_abrt: bool, rx_full: bool) -> (v: Vec<TargetOp>)
        ensures
            v@ == served(self@, rd_req, tx_abrt, rx_full),
    {
        let mut v: Vec<TargetOp> = Vec::new();
        if rd_req {
            v.push(TargetOp::ClearRequest);
            let mut i: usize = 0;
            while i < self.bytes.len()
                invariant
                    i <= self.bytes@.len(),
                    v@ == seq![TargetOp::ClearRequest] + loads(self.bytes@).take(i as int),
                decreases self.bytes@.len() - i,
            {
                v.push(TargetOp::Load(self.bytes[i]));
                i = i + 1;
                assert(v@ =~= seq![TargetOp::ClearRequest] + loads(self.bytes@).take(i as int));
            }
            assert(loads(self.bytes@).take(i as int) =~= loads(self.bytes@));
        }
        if tx_abrt {
            v.push(TargetOp::ClearAbort);
        }
        if rx_full {
            v.push(TargetOp::Drain);
        }
        assert(v@ =~= served(self@, rd_req, tx_abrt, rx_full));
        v
    }
}

/// What a transfer does upon a run of looks: the transfer, all its register
/// accesses, and what is to be done after the last.
pub open spec fn run(m: Moving, looks: Seq<Seen>) -> (Moving, Seq<BusOp>, Next)
    decreases looks.len(),
{
    if looks.len() == 0 {
        (m, Seq::empty(), Next::Look(m.cond))
    } else {
        let (m1, ops, next) = moved(m, looks[0]);
        if next is Done {
            (m1, ops, next)
        } else {
            let (m2, more, end) = run(m1, looks.skip(1));
            (m2, ops + more, end)
        }
    }
}

/// The commands that send the bytes from place `i` on: the bus is let go
/// after the last of them, and only then.
pub open spec fn sends(data: Seq<u8>, i: int) -> Seq<BusOp> {
    Seq::new(
        (data.len() - i) as nat,
        |k: int| BusOp::Send { byte: data[i + k], stop: i + k + 1 == data.len() },
    )
}

/// The commands that fetch from place `i` on.
pub open spec fn fetches(want: nat, i: int) -> Seq<BusOp> {
    Seq::new((want - i) as nat, |k: int| BusOp::Fetch { stop: i + k + 1 == want })
}

/// A write that succeeds has sent each byte once and in order, and let go of
/// the bus after the last.
pub proof fn a_write_sends_the_bytes(m: Moving, looks: Seq<Seen>)
    requires
        sound(m),
        m.write,
        m.cond == Cond::Room,
        run(m, looks).2 == Next::Done(Ok(())),
    ensures
        run(m, looks).1 == sends(m.data, m.i as int).push(BusOp::ClearStop),
    decreases looks.len(),
{
    let (m1, ops, next) = moved(m, looks[0]);
    let rest = looks.skip(1);
    let all = run(m, looks).1;
    if m1.cond == Cond::Room {
        a_write_sends_the_bytes(m1, rest);
        if looks[0].ready {
            assert(all =~= sends(m.data, m.i as int).push(BusOp::ClearStop));
        } else {
            assert(all =~= run(m1, rest).1);
        }
    } else {
        a_stop_ends_the_write(m1, rest);
        assert(all =~= sends(m.data, m.i as int).push(BusOp::ClearStop));
    }
}

proof fn a_stop_ends_the_write(m: Moving, looks: Seq<Seen>)
    requires
        sound(m),
        m.write,
        m.cond == Cond::Stop,
        run(m, looks).2 == Next::Done(Ok(())),
    ensures
        run(m, looks).1 == seq![BusOp::ClearStop],
    decreases looks.len(),
{
    let (m1, ops, next) = moved(m, looks[0]);
    let rest = looks.skip(1);
    if m1.cond == Cond::Stop {
        a_stop_ends_the_write(m1, rest);
        assert(run(m, looks).1 =~= seq![BusOp::ClearStop]);
    } else {
        assert(run(m1, rest).2 == run(m, looks).2);
        assert(rest.len() > 0);
        assert(run(m1, rest).1 =~= Seq::<BusOp>::empty());
        assert(run(m, looks).1 =~= seq![BusOp::ClearStop]);
    }
}

/// A read that succeeds has asked for as many bytes as were wanted, let go of
/// the bus after the last, and holds as many.
pub proof fn a_read_gets_the_bytes(m: Moving, looks: Seq<Seen>)
    requires
        sound(m),
        !m.write,
        run(m, looks).2 == Next::Done(Ok(())),
    ensures
        run(m, looks).1 == fetches(m.want, m.i as int).push(BusOp::ClearStop),
        run(m, looks).0.data.len() == m.want,
    decreases looks.len(),
{
    let (m1, ops, next) = moved(m, looks[0]);
    let rest = looks.skip(1);
    let all = run(m, looks).1;
    if next is Done {
        assert(all =~= fetches(m.want, m.i as int).push(BusOp::ClearStop));
    } else {
        a_read_gets_the_bytes(m1, rest);
        assert(all =~= fetches(m.want, m.i as int).push(BusOp::ClearStop));
    }
}

/// How many looks a transfer can still take.
pub open spec fn left(m: Moving) -> int {
    let bytes = if m.write {
        m.want - m.i
    } else {
        2 * (m.want - m.i)
    };
    let steps = match m.cond {
        Cond::Room => bytes + 2,
        Cond::Data => bytes + 3,
        Cond::Stop => 2,
        Cond::Abort => 1,
    };
    2_000_000 * steps - m.spins
}

/// A transfer ends however the bus behaves: with each look fewer are left.
pub proof fn transfers_end(m: Moving, s: Seen)
    requires
        sound(m),
        moved(m, s).2 is Look,
    ensures
        sound(moved(m, s).0),
        0 < left(moved(m, s).0) < left(m),
{
}

/// The clock is as fast as was asked for: one high and one low phase take the whole
/// cycles of one period, three fifths of them low, and the fast mode is for more
/// than a hundred kilohertz.
pub proof fn clocks_keep_their_speed(khz: u32)
    requires
        4 <= khz <= 4_294_967,
    ensures
        ({
            let t = timing(khz);
            let p = t.hcnt + t.lcnt;
            &&& p * (1000 * khz) <= 150_000_000 < (p + 1) * (1000 * khz)
            &&& 5 * t.lcnt <= 3 * p < 5 * t.lcnt + 5
            &&& t.fast <==> khz > 100
        }),
{
    let p = period(khz);
    let d = khz as int * 1000;
    vstd::arithmetic::div_mod::lemma_fundamental_div_mod(150_000_000, d);
    vstd::arithmetic::div_mod::lemma_mod_bound(150_000_000, d);
    vstd::arithmetic::div_mod::lemma_div_is_ordered_by_denominator(150_000_000, 4000, d);
    vstd::arithmetic::div_mod::lemma_div_pos_is_pos(150_000_000, d);
    assert(d * p == p * (1000 * khz)) by (nonlinear_arith)
        requires
            d == khz as int * 1000,
    ;
    assert((p + 1) * (1000 * khz) == p * (1000 * khz) + 1000 * khz) by (nonlinear_arith);
    assert(0 <= p <= 37_500);
    assert(p * 3 / 5 < 0x1_0000);
}

} // verus!
