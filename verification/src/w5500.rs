//! WIZnet W5500 Ethernet controller in MACRAW mode: socket 0 moves raw frames.
//!
//! Every access is `[addr_hi][addr_lo][control][data..]` with the chip selected
//! throughout. The bus, the reset line and the delay each have a log of what was
//! asked of them, which every call extends. Each operation's contract tells what
//! it adds to those logs, and how its result comes from what the chip answered.

use crate::text::{append, copy_into};
use vstd::prelude::*;
use vstd::slice::slice_subrange;

verus! {

/// Accesses, first to last.
pub type Accesses = Seq<Access>;

/// Levels of a line, first to last.
pub type Levels = Seq<bool>;

/// Waiting times in microseconds, first to last.
pub type Waits = Seq<u32>;

/// The bus that the chip hangs on. The chip is selected for a whole access.
pub trait SpiDevice {
    /// The accesses that went over the bus so far.
    spec fn seen(&self) -> Accesses;

    /// Clock out `header`, then clock in `n` bytes.
    fn read(&mut self, header: [u8; 3], n: usize) -> (r: Vec<u8>)
        ensures
            r@.len() == n,
            final(self).seen() == old(self).seen().push(
                Access::Read { header: header@, data: r@ },
            ),
    ;

    /// Clock out `header`, then `data`.
    fn write(&mut self, header: [u8; 3], data: &[u8])
        ensures
            final(self).seen() == old(self).seen().push(
                Access::Write { header: header@, data: data@ },
            ),
    ;
}

/// The chip's reset line.
pub trait OutputPin {
    /// The levels that the line was driven to so far.
    spec fn driven(&self) -> Levels;

    fn set_low(&mut self)
        ensures
            final(self).driven() == old(self).driven().push(false),
    ;

    fn set_high(&mut self)
        ensures
            final(self).driven() == old(self).driven().push(true),
    ;
}

/// A way to wait.
pub trait DelayNs {
    /// The times waited so far.
    spec fn waited(&self) -> Waits;

    fn delay_us(&mut self, us: u32)
        ensures
            final(self).waited() == old(self).waited().push(us),
    ;
}

/// One access that a `ScriptedBus` saw.
#[derive(Debug, PartialEq, Eq)]
pub struct BusAccess {
    pub write: bool,
    pub header: [u8; 3],
    pub data: Vec<u8>,
}

impl View for BusAccess {
    type V = Access;

    open spec fn view(&self) -> Access {
        if self.write {
            Access::Write { header: self.header@, data: self.data@ }
        } else {
            Access::Read { header: self.header@, data: self.data@ }
        }
    }
}

/// A bus in memory that keeps a trace of its accesses. What is clocked in are
/// the bytes of `answers`, each once, and zeros after them.
pub struct ScriptedBus {
    pub answers: Vec<u8>,
    /// Read cursor into `answers`.
    pub pos: usize,
    pub trace: Vec<BusAccess>,
}

impl SpiDevice for ScriptedBus {
    open spec fn seen(&self) -> Accesses {
        self.trace@.map_values(|a: BusAccess| a@)
    }

    fn read(&mut self, header: [u8; 3], n: usize) -> (r: Vec<u8>)
        ensures
            final(self).answers@ == old(self).answers@,
            forall|i: int|
                0 <= i < n ==> #[trigger] r@[i] == if old(self).pos + i < old(self).answers@.len() {
                    old(self).answers@[old(self).pos + i]
                } else {
                    0
                },
    {
        let ghost start = self.pos as int;
        let mut r: Vec<u8> = Vec::new();
        let mut data: Vec<u8> = Vec::new();
        while r.len() < n
            invariant
                r@.len() <= n,
                data@ == r@,
                self.answers@ == old(self).answers@,
                self.trace@ == old(self).trace@,
                start == old(self).pos,
                start + r@.len() < self.answers@.len() ==> self.pos == start + r@.len(),
                start + r@.len() >= self.answers@.len() ==> self.pos >= self.answers@.len(),
                forall|i: int|
                    0 <= i < r@.len() ==> #[trigger] r@[i] == if start + i < self.answers@.len() {
                        self.answers@[start + i]
                    } else {
                        0
                    },
            decreases n - r@.len(),
        {
            let mut b: u8 = 0;
            if self.pos < self.answers.len() {
                b = self.answers[self.pos];
                self.pos = self.pos + 1;
            }
            r.push(b);
            data.push(b);
        }
        self.trace.push(BusAccess { write: false, header, data });
        assert(self.seen() =~= old(self).seen().push(Access::Read { header: header@, data: r@ }));
        r
    }

    fn write(&mut self, header: [u8; 3], data: &[u8])
        ensures
            final(self).answers@ == old(self).answers@,
            final(self).pos == old(self).pos,
    {
        let mut copy: Vec<u8> = Vec::new();
        append(&mut copy, data);
        assert(copy@ =~= data@);
        self.trace.push(BusAccess { write: true, header, data: copy });
        assert(self.seen() =~= old(self).seen().push(
            Access::Write { header: header@, data: data@ },
        ));
    }
}

/// A line that keeps a trace of its levels.
pub struct TracedPin {
    pub levels: Vec<bool>,
}

impl OutputPin for TracedPin {
    open spec fn driven(&self) -> Levels {
        self.levels@
    }

    fn set_low(&mut self) {
        self.levels.push(false);
    }

    fn set_high(&mut self) {
        self.levels.push(true);
    }
}

/// A delay that only notes how long it was asked to wait.
pub struct TracedDelay {
    pub waits: Vec<u32>,
}

impl DelayNs for TracedDelay {
    open spec fn waited(&self) -> Waits {
        self.waits@
    }

    fn delay_us(&mut self, us: u32) {
        self.waits.push(us);
    }
}

/// Largest Ethernet frame handled (1500 payload + 14 header).
pub const MTU: usize = 1514;

/// Outcome of a transmission.
#[derive(Copy, Clone, PartialEq, Eq, Structural)]
pub struct TxReport {
    /// The frame was accepted and sent.
    pub ok: bool,
    /// Always 1: the chip does its own retransmission.
    pub attempts: u8,
    /// The socket interrupt register as last read, for debugging.
    pub eir: u8,
}

/// Block select: common registers.
pub const BSB_COMMON: u8 = 0x00;

/// Block select: socket 0 registers.
pub const BSB_S0_REG: u8 = 0x01;

/// Block select: socket 0 transmit buffer.
pub const BSB_S0_TX: u8 = 0x02;

/// Block select: socket 0 receive buffer.
pub const BSB_S0_RX: u8 = 0x03;

/// Mode register.
pub const MR: u16 = 0x0000;

/// Source hardware address, 6 bytes.
pub const SHAR: u16 = 0x0009;

/// PHY configuration.
pub const PHYCFGR: u16 = 0x002E;

/// Chip version; reads 4.
pub const VERSIONR: u16 = 0x0039;

/// Socket mode.
pub const SN_MR: u16 = 0x0000;

/// Socket command.
pub const SN_CR: u16 = 0x0001;

/// Socket interrupt.
pub const SN_IR: u16 = 0x0002;

/// Socket status.
pub const SN_SR: u16 = 0x0003;

/// Socket receive buffer size, KiB.
pub const SN_RXBUF_SIZE: u16 = 0x001E;

/// Socket transmit buffer size, KiB.
pub const SN_TXBUF_SIZE: u16 = 0x001F;

/// Free transmit space, 2 bytes.
pub const SN_TX_FSR: u16 = 0x0020;

/// Transmit write pointer, 2 bytes.
pub const SN_TX_WR: u16 = 0x0024;

/// Received size, 2 bytes.
pub const SN_RX_RSR: u16 = 0x0026;

/// Receive read pointer, 2 bytes.
pub const SN_RX_RD: u16 = 0x0028;

/// Receive write pointer, 2 bytes.
pub const SN_RX_WR: u16 = 0x002A;

/// Software reset.
pub const MR_RST: u8 = 0x80;

/// MACRAW with the hardware-address filter, multicast and IPv6 blocked.
pub const SN_MR_RAW_FILTERED: u8 = 0xB4;

pub const CMD_OPEN: u8 = 0x01;

pub const CMD_SEND: u8 = 0x20;

pub const CMD_RECV: u8 = 0x40;

/// Socket status once opened in MACRAW.
pub const SR_MACRAW: u8 = 0x42;

pub const IR_SENDOK: u8 = 0x10;

pub const IR_TIMEOUT: u8 = 0x08;

/// Both of the interrupts that end a transmission.
pub const IR_SEND_OVER: u8 = 0x18;

/// PHY link bit.
pub const PHY_LINK: u8 = 0x01;

/// Bound on status polls, so that a dead chip cannot wedge the caller.
pub const SPIN_LIMIT: u32 = 200_000;

/// One thing that is done to the chip.
pub enum Access {
    /// Read `data` after sending `header`.
    Read { header: Seq<u8>, data: Seq<u8> },
    /// Wrote `data` after sending `header`.
    Write { header: Seq<u8>, data: Seq<u8> },
    /// Drove the reset line.
    Reset { high: bool },
    /// Waited.
    Wait { us: u32 },
}

/// The control byte: block select, direction, variable-length data.
pub open spec fn control(bsb: u8, write: bool) -> u8 {
    (8 * bsb + if write {
        4int
    } else {
        0int
    }) as u8
}

/// The three bytes that begin an access.
pub open spec fn header(bsb: u8, addr: u16, write: bool) -> Seq<u8> {
    [(addr / 0x100) as u8, (addr % 0x100) as u8, control(bsb, write)]@
}

/// Reading `data` at `addr`.
pub open spec fn reading(bsb: u8, addr: u16, data: Seq<u8>) -> Access {
    Access::Read { header: header(bsb, addr, false), data }
}

/// Writing `data` at `addr`.
pub open spec fn writing(bsb: u8, addr: u16, data: Seq<u8>) -> Access {
    Access::Write { header: header(bsb, addr, true), data }
}

/// The two bytes of a register value, high byte first.
pub open spec fn be_bytes(v: u16) -> Seq<u8> {
    [(v / 0x100) as u8, (v % 0x100) as u8]@
}

/// The value of two bytes, high byte first.
pub open spec fn be_value(s: Seq<u8>) -> u16 {
    (0x100 * s[0] + s[1]) as u16
}

/// The accesses of `t` that go over the bus.
pub open spec fn bus_of(t: Seq<Access>) -> Seq<Access>
    decreases t.len(),
{
    if t.len() == 0 {
        Seq::empty()
    } else {
        match t.last() {
            Access::Reset { .. } | Access::Wait { .. } => bus_of(t.drop_last()),
            a => bus_of(t.drop_last()).push(a),
        }
    }
}

/// The levels that the reset line is driven to in `t`.
pub open spec fn levels_of(t: Seq<Access>) -> Seq<bool>
    decreases t.len(),
{
    if t.len() == 0 {
        Seq::empty()
    } else {
        match t.last() {
            Access::Reset { high } => levels_of(t.drop_last()).push(high),
            _ => levels_of(t.drop_last()),
        }
    }
}

/// The times that are waited in `t`.
pub open spec fn waits_of(t: Seq<Access>) -> Seq<u32>
    decreases t.len(),
{
    if t.len() == 0 {
        Seq::empty()
    } else {
        match t.last() {
            Access::Wait { us } => waits_of(t.drop_last()).push(us),
            _ => waits_of(t.drop_last()),
        }
    }
}

/// The writes of `t`.
pub open spec fn writes_of(t: Seq<Access>) -> Seq<Access>
    decreases t.len(),
{
    if t.len() == 0 {
        Seq::empty()
    } else {
        match t.last() {
            Access::Write { header, data } => writes_of(t.drop_last()).push(t.last()),
            _ => writes_of(t.drop_last()),
        }
    }
}

/// Every part of `a + b` is that of `a`, then that of `b`.
proof fn parts_join(a: Seq<Access>, b: Seq<Access>)
    ensures
        bus_of(a + b) == bus_of(a) + bus_of(b),
        levels_of(a + b) == levels_of(a) + levels_of(b),
        waits_of(a + b) == waits_of(a) + waits_of(b),
        writes_of(a + b) == writes_of(a) + writes_of(b),
    decreases b.len(),
{
    if b.len() == 0 {
        assert(a + b =~= a);
    } else {
        assert((a + b).drop_last() =~= a + b.drop_last());
        parts_join(a, b.drop_last());
    }
}

/// The parts of a single thing done.
proof fn parts_of_one(x: Access)
    ensures
        bus_of(seq![x]) == if x is Read || x is Write {
            seq![x]
        } else {
            Seq::empty()
        },
        levels_of(seq![x]) == match x {
            Access::Reset { high } => seq![high],
            _ => Seq::empty(),
        },
        waits_of(seq![x]) == match x {
            Access::Wait { us } => seq![us],
            _ => Seq::empty(),
        },
        writes_of(seq![x]) == if x is Write {
            seq![x]
        } else {
            Seq::empty()
        },
{
    reveal_with_fuel(bus_of, 2);
    reveal_with_fuel(levels_of, 2);
    reveal_with_fuel(waits_of, 2);
    reveal_with_fuel(writes_of, 2);
    assert(seq![x].drop_last() =~= Seq::<Access>::empty());
    assert(bus_of(seq![x]) =~= if x is Read || x is Write {
        seq![x]
    } else {
        Seq::empty()
    });
    assert(levels_of(seq![x]) =~= match x {
        Access::Reset { high } => seq![high],
        _ => Seq::empty(),
    });
    assert(waits_of(seq![x]) =~= match x {
        Access::Wait { us } => seq![us],
        _ => Seq::empty(),
    });
    assert(writes_of(seq![x]) =~= if x is Write {
        seq![x]
    } else {
        Seq::empty()
    });
}

/// Whether all of `t` goes over the bus.
pub open spec fn on_bus(t: Seq<Access>) -> bool {
    forall|i: int| 0 <= i < t.len() ==> (#[trigger] t[i]) is Read || t[i] is Write
}

proof fn bus_alone(t: Seq<Access>)
    requires
        on_bus(t),
    ensures
        bus_of(t) == t,
        levels_of(t).len() == 0,
        waits_of(t).len() == 0,
    decreases t.len(),
{
    if t.len() > 0 {
        assert(on_bus(t.drop_last()));
        bus_alone(t.drop_last());
        assert(t[t.len() - 1] is Read || t[t.len() - 1] is Write);
        assert(t.drop_last().push(t.last()) =~= t);
    }
}

proof fn reads_write_nothing(t: Seq<Access>)
    requires
        forall|i: int| 0 <= i < t.len() ==> (#[trigger] t[i]) is Read,
    ensures
        writes_of(t).len() == 0,
    decreases t.len(),
{
    if t.len() > 0 {
        assert(t[t.len() - 1] is Read);
        reads_write_nothing(t.drop_last());
    }
}

/// What an access read.
pub open spec fn data_of(a: Access) -> Seq<u8> {
    match a {
        Access::Read { data, .. } => data,
        _ => Seq::empty(),
    }
}

/// Whether `a` reads `n` bytes at `addr`.
pub open spec fn reads(a: Access, bsb: u8, addr: u16, n: nat) -> bool {
    a == reading(bsb, addr, data_of(a)) && data_of(a).len() == n
}

/// `t` reads the 16-bit register at `addr` until two reads in a row agree, or
/// the poll bound is reached; `v` is what the last read gave.
#[verifier::opaque]
pub open spec fn settled(t: Seq<Access>, bsb: u8, addr: u16, v: u16) -> bool {
    &&& 2 <= t.len() <= SPIN_LIMIT + 1
    &&& forall|i: int| 0 <= i < t.len() ==> reads(#[trigger] t[i], bsb, addr, 2)
    &&& forall|i: int|
        0 <= i < t.len() - 2 ==> data_of(#[trigger] t[i]) != data_of(t[i + 1])
    &&& t.len() == SPIN_LIMIT + 1 || data_of(t[t.len() - 2]) == data_of(t[t.len() - 1])
    &&& v == be_value(data_of(t.last()))
}

/// W5500 driver over a bus and an optional active-low reset line.
pub struct W5500<SPI, RST> {
    spi: SPI,
    rst: Option<RST>,
    mac: [u8; 6],
    record: Ghost<Seq<Access>>,
}

/// Driving the reset line and waiting.
pub open spec fn held(high: bool, us: u32) -> Seq<Access> {
    seq![Access::Reset { high }, Access::Wait { us }]
}

/// A pulse on the reset line: 1 ms high, 500 us low, 2 ms high.
pub open spec fn reset_pulse() -> Seq<Access> {
    held(true, 1000) + held(false, 500) + held(true, 2000)
}

/// Programming the hardware address, giving all buffer memory to socket 0 and
/// opening it raw.
pub open spec fn setting_up(mac: Seq<u8>) -> Seq<Access> {
    seq![
        writing(BSB_COMMON, SHAR, mac),
        writing(BSB_S0_REG, SN_RXBUF_SIZE, seq![16u8]),
        writing(BSB_S0_REG, SN_TXBUF_SIZE, seq![16u8]),
    ] + shrink_others(7) + seq![
        writing(BSB_S0_REG, SN_MR, seq![SN_MR_RAW_FILTERED]),
        writing(BSB_S0_REG, SN_CR, seq![CMD_OPEN]),
    ]
}

/// What is done to bring the chip up, before the socket status is polled:
/// hardware reset (with a reset line), software reset, hardware address, all
/// buffer memory to socket 0, open socket 0 raw.
pub open spec fn bring_up(has_reset: bool, mac: Seq<u8>) -> Seq<Access> {
    (if has_reset {
        reset_pulse()
    } else {
        Seq::empty()
    }) + seq![writing(BSB_COMMON, MR, seq![MR_RST]), Access::Wait { us: 2000 }] + setting_up(mac)
}

/// How bringing the chip up shows on each of the three: the bus sees the
/// software reset, the set-up and the polls; the reset line, where there is one,
/// goes high, low and high; the delay holds after each level and after the
/// software reset.
pub proof fn bring_up_parts(has_reset: bool, mac: Seq<u8>, p: Seq<Access>)
    requires
        polls_open(p),
    ensures
        bus_of(bring_up(has_reset, mac) + p) == seq![writing(BSB_COMMON, MR, seq![MR_RST])]
            + setting_up(mac) + p,
        levels_of(bring_up(has_reset, mac) + p) == if has_reset {
            seq![true, false, true]
        } else {
            Seq::empty()
        },
        waits_of(bring_up(has_reset, mac) + p) == if has_reset {
            seq![1000u32, 500, 2000, 2000]
        } else {
            seq![2000u32]
        },
{
    let t = bring_up(has_reset, mac) + p;
    let first = if has_reset {
        reset_pulse()
    } else {
        Seq::empty()
    };
    let (x, y) = (writing(BSB_COMMON, MR, seq![MR_RST]), Access::Wait { us: 2000 });
    parts_join(bring_up(has_reset, mac), p);
    parts_join(first + seq![x, y], setting_up(mac));
    parts_join(first, seq![x, y]);
    assert(seq![x, y] =~= seq![x] + seq![y]);
    parts_join(seq![x], seq![y]);
    parts_of_one(x);
    parts_of_one(y);
    setting_up_on_bus(mac);
    bus_alone(setting_up(mac));
    bus_alone(p);
    if has_reset {
        parts_join(held(true, 1000) + held(false, 500), held(true, 2000));
        parts_join(held(true, 1000), held(false, 500));
        parts_of_held(true, 1000);
        parts_of_held(false, 500);
        parts_of_held(true, 2000);
    }
    assert(bus_of(t) =~= seq![x] + setting_up(mac) + p);
    assert(levels_of(t) =~= if has_reset {
        seq![true, false, true]
    } else {
        Seq::empty()
    });
    assert(waits_of(t) =~= if has_reset {
        seq![1000u32, 500, 2000, 2000]
    } else {
        seq![2000u32]
    });
}

proof fn parts_of_held(high: bool, us: u32)
    ensures
        bus_of(held(high, us)).len() == 0,
        levels_of(held(high, us)) == seq![high],
        waits_of(held(high, us)) == seq![us],
{
    let (x, y) = (Access::Reset { high }, Access::Wait { us });
    assert(held(high, us) =~= seq![x] + seq![y]);
    parts_join(seq![x], seq![y]);
    parts_of_one(x);
    parts_of_one(y);
}

/// Taking the buffers of sockets 1 to `n` down to nothing.
pub open spec fn shrink_others(n: nat) -> Seq<Access>
    decreases n,
{
    if n == 0 {
        Seq::empty()
    } else {
        shrink_others((n - 1) as nat) + seq![
            writing((4 * n + 1) as u8, SN_RXBUF_SIZE, seq![0u8]),
            writing((4 * n + 1) as u8, SN_TXBUF_SIZE, seq![0u8]),
        ]
    }
}

proof fn shrink_others_writes(n: nat)
    ensures
        forall|i: int| 0 <= i < shrink_others(n).len() ==> (#[trigger] shrink_others(n)[i]) is Write,
    decreases n,
{
    if n > 0 {
        shrink_others_writes((n - 1) as nat);
    }
}

proof fn setting_up_on_bus(mac: Seq<u8>)
    ensures
        on_bus(setting_up(mac)),
{
    shrink_others_writes(7);
}

/// `t` polls the socket status until it reads MACRAW, or the bound is reached.
pub open spec fn polls_open(t: Seq<Access>) -> bool {
    &&& 1 <= t.len() <= SPIN_LIMIT
    &&& forall|i: int| 0 <= i < t.len() ==> reads(#[trigger] t[i], BSB_S0_REG, SN_SR, 1)
    &&& forall|i: int| 0 <= i < t.len() - 1 ==> data_of(#[trigger] t[i])[0] != SR_MACRAW
    &&& t.len() == SPIN_LIMIT || data_of(t.last())[0] == SR_MACRAW
}

/// What is to be done with the packet at the front of the receive buffer.
#[derive(Copy, Clone, Debug, PartialEq, Eq, Structural)]
pub enum Packet {
    /// Its length makes no sense: throw away all that the buffer holds.
    Flush,
    /// It does not fit: move on to `next` without reading it.
    Skip { next: u16 },
    /// Read the frame of `len` bytes at `at`, then move on to `next`.
    Take { at: u16, len: u16, next: u16 },
}

/// The packet at the read pointer `rd` whose length field is `plen`, of `rsr`
/// bytes in the buffer, for a caller with room for `room` bytes. The length
/// counts its own two bytes.
pub open spec fn packet_of(rsr: u16, rd: u16, plen: u16, room: int) -> Packet {
    if plen < 2 || plen > rsr {
        Packet::Flush
    } else if plen - 2 > room {
        Packet::Skip { next: plus(rd, plen) }
    } else {
        Packet::Take { at: plus(rd, 2), len: (plen - 2) as u16, next: plus(rd, plen) }
    }
}

/// Decide on the packet that the chip has reported.
pub fn judge_packet(rsr: u16, rd: u16, plen: u16, room: usize) -> (p: Packet)
    ensures
        p == packet_of(rsr, rd, plen, room as int),
{
    if plen < 2 || plen > rsr {
        Packet::Flush
    } else if (plen - 2) as usize > room {
        Packet::Skip { next: rd.wrapping_add(plen) }
    } else {
        Packet::Take { at: rd.wrapping_add(2), len: plen - 2, next: rd.wrapping_add(plen) }
    }
}

/// `t` deals with a packet as was decided: `r` is the length of the frame that
/// stands at the front of the caller's buffer, if any.
pub open spec fn deals(
    t: Seq<Access>,
    p: Packet,
    r: Option<usize>,
    before: Seq<u8>,
    after: Seq<u8>,
) -> bool {
    match p {
        Packet::Flush => {
            &&& r is None
            &&& after == before
            &&& exists|s: Seq<Access>, wr: u16|
                #[trigger] settled(s, BSB_S0_REG, SN_RX_WR, wr) && t == s + release(wr)
        },
        Packet::Skip { next } => {
            &&& r is None
            &&& after == before
            &&& t == release(next)
        },
        Packet::Take { at, len, next } => {
            &&& r == Some(len as usize)
            &&& t.len() >= 1
            &&& reads(t[0], BSB_S0_RX, at, len as nat)
            &&& after == data_of(t[0]) + before.skip(len as int)
            &&& t.skip(1) == release(next)
        },
    }
}

/// What `receive` does once the chip has reported `rsr` bytes: nothing when
/// that is no packet; else the read pointer and the packet's length are read,
/// and the packet is dealt with.
pub open spec fn receives(
    t: Seq<Access>,
    rsr: u16,
    r: Option<usize>,
    before: Seq<u8>,
    after: Seq<u8>,
) -> bool {
    if rsr < 2 {
        t.len() == 0 && r is None && after == before
    } else {
        let rd = be_value(data_of(t[0]));
        let plen = be_value(data_of(t[1]));
        &&& t.len() >= 2
        &&& reads(t[0], BSB_S0_REG, SN_RX_RD, 2)
        &&& reads(t[1], BSB_S0_RX, rd, 2)
        &&& deals(t.skip(2), packet_of(rsr, rd, plen, before.len() as int), r, before, after)
    }
}

/// Moving the read pointer to `rd` and telling the chip.
pub open spec fn release(rd: u16) -> Seq<Access> {
    seq![
        writing(BSB_S0_REG, SN_RX_RD, be_bytes(rd)),
        writing(BSB_S0_REG, SN_CR, seq![CMD_RECV]),
    ]
}

/// 16-bit addition, modulo 2^16.
pub open spec fn plus(a: u16, b: u16) -> u16 {
    ((a + b) % 0x1_0000) as u16
}

/// The accesses of several polls, one after the other.
pub open spec fn joined(polls: Seq<Seq<Access>>) -> Seq<Access>
    decreases polls.len(),
{
    if polls.len() == 0 {
        Seq::empty()
    } else {
        joined(polls.drop_last()) + polls.last()
    }
}

/// Each of `polls` reads the free transmit space until it settles, on the value
/// of the same index in `free`.
pub open spec fn room_polls(polls: Seq<Seq<Access>>, free: Seq<u16>) -> bool {
    &&& polls.len() == free.len()
    &&& forall|i: int|
        0 <= i < free.len() ==> settled(#[trigger] polls[i], BSB_S0_REG, SN_TX_FSR, free[i])
}

/// The polls of waiting for room for `len` bytes: up to the first that shows
/// it, or up to the poll bound.
pub open spec fn waits_for_room(polls: Seq<Seq<Access>>, free: Seq<u16>, len: int) -> bool {
    &&& room_polls(polls, free)
    &&& 1 <= free.len() <= SPIN_LIMIT + 1
    &&& forall|i: int| 0 <= i < free.len() - 1 ==> #[trigger] free[i] < len
    &&& free.last() < len ==> free.len() == SPIN_LIMIT + 1
}

/// Handing a frame to the chip at the write pointer `wr` and telling it to
/// send.
pub open spec fn hand_over(wr_read: Access, frame: Seq<u8>) -> Seq<Access> {
    let wr = be_value(data_of(wr_read));
    seq![
        wr_read,
        writing(BSB_S0_TX, wr, frame),
        writing(BSB_S0_REG, SN_TX_WR, be_bytes(plus(wr, (frame.len() % 0x1_0000) as u16))),
        writing(BSB_S0_REG, SN_CR, seq![CMD_SEND]),
    ]
}

/// What the socket interrupt register says of a transmission; `None` while it is
/// under way.
pub open spec fn report_of(ir: u8) -> Option<TxReport> {
    if ir & IR_SEND_OVER != 0 {
        Some(TxReport { ok: ir & IR_SENDOK != 0, attempts: 1, eir: ir })
    } else {
        None
    }
}

/// What the socket interrupt register says of a transmission; `None` while it is
/// under way.
pub fn send_report(ir: u8) -> (r: Option<TxReport>)
    ensures
        r == report_of(ir),
{
    if ir & IR_SEND_OVER != 0 {
        Some(TxReport { ok: ir & IR_SENDOK != 0, attempts: 1, eir: ir })
    } else {
        None
    }
}

/// Whether a PHY configuration shows a link.
pub fn shows_link(phycfgr: u8) -> (r: bool)
    ensures
        r == (phycfgr & PHY_LINK != 0),
{
    phycfgr & PHY_LINK != 0
}

/// Whether a socket status is that of an open raw socket.
pub fn shows_macraw(sr: u8) -> (r: bool)
    ensures
        r == (sr == SR_MACRAW),
{
    sr == SR_MACRAW
}

/// The report of a transmission that was given up.
pub open spec fn given_up() -> TxReport {
    TxReport { ok: false, attempts: 1, eir: 0 }
}

/// What `transmit` does after the frame was handed over: poll the interrupt
/// register until the transmission is over and clear what fired, or give up at
/// the poll bound.
pub open spec fn awaits_send(t: Seq<Access>, r: TxReport) -> bool {
    let n = if t.len() > 0 && t.last() is Write {
        t.len() - 1
    } else {
        t.len() as int
    };
    &&& 1 <= n <= SPIN_LIMIT + 1
    &&& forall|i: int| 0 <= i < n ==> reads(#[trigger] t[i], BSB_S0_REG, SN_IR, 1)
    &&& forall|i: int| 0 <= i < n - 1 ==> report_of(data_of(#[trigger] t[i])[0]) is None
    &&& match report_of(data_of(t[n - 1])[0]) {
        Some(report) => {
            &&& r == report
            &&& t.len() == n + 1
            &&& t[n] == writing(BSB_S0_REG, SN_IR, seq![IR_SEND_OVER])
        },
        None => {
            &&& n == SPIN_LIMIT + 1
            &&& r == given_up()
            &&& t.len() == n
        },
    }
}

/// All of a transmission: wait for room, give up if none comes; else hand the
/// frame over and wait for the chip to send it.
pub open spec fn transmits(t: Seq<Access>, frame: Seq<u8>, r: TxReport) -> bool {
    let len = (frame.len() % 0x1_0000) as int;
    exists|w: Seq<Seq<Access>>, free: Seq<u16>|
        {
            &&& #[trigger] waits_for_room(w, free, len)
            &&& if free.last() < len {
                t == joined(w) && r == given_up()
            } else {
                exists|a: Access, p: Seq<Access>|
                    {
                        &&& #[trigger] reads(a, BSB_S0_REG, SN_TX_WR, 2)
                        &&& #[trigger] awaits_send(p, r)
                        &&& t == joined(w) + hand_over(a, frame) + p
                    }
            }
        }
}

proof fn settled_writes_nothing(s: Seq<Access>, bsb: u8, addr: u16, v: u16)
    requires
        settled(s, bsb, addr, v),
    ensures
        writes_of(s).len() == 0,
{
    reveal(settled);
    assert forall|i: int| 0 <= i < s.len() implies (#[trigger] s[i]) is Read by {
        assert(reads(s[i], bsb, addr, 2));
    }
    reads_write_nothing(s);
}

proof fn room_polls_write_nothing(w: Seq<Seq<Access>>, free: Seq<u16>)
    requires
        room_polls(w, free),
    ensures
        writes_of(joined(w)).len() == 0,
    decreases w.len(),
{
    if w.len() > 0 {
        let k = w.len() - 1;
        assert(settled(w[k], BSB_S0_REG, SN_TX_FSR, free[k]));
        assert(room_polls(w.drop_last(), free.drop_last())) by {
            assert forall|i: int| 0 <= i < k implies settled(
                #[trigger] w.drop_last()[i],
                BSB_S0_REG,
                SN_TX_FSR,
                free.drop_last()[i],
            ) by {
                assert(settled(w[i], BSB_S0_REG, SN_TX_FSR, free[i]));
            }
        }
        room_polls_write_nothing(w.drop_last(), free.drop_last());
        settled_writes_nothing(w[k], BSB_S0_REG, SN_TX_FSR, free[k]);
        parts_join(joined(w.drop_last()), w[k]);
    }
}

proof fn writes_of_two(x: Access, y: Access)
    ensures
        writes_of(seq![x, y]) == writes_of(seq![x]) + writes_of(seq![y]),
{
    assert(seq![x, y] =~= seq![x] + seq![y]);
    parts_join(seq![x], seq![y]);
}

proof fn releasing_writes(rd: u16)
    ensures
        writes_of(release(rd)) == release(rd),
{
    let x = writing(BSB_S0_REG, SN_RX_RD, be_bytes(rd));
    let y = writing(BSB_S0_REG, SN_CR, seq![CMD_RECV]);
    writes_of_two(x, y);
    parts_of_one(x);
    parts_of_one(y);
    assert(seq![x] + seq![y] =~= release(rd));
}

/// All that a reception writes: nothing without a packet; else the read pointer
/// and the receive command, once. The pointer moves past the packet, or to what
/// the chip gave as its write pointer when the packet's length makes no sense.
/// The caller's buffer changes only where a frame was put.
pub proof fn receiving_writes(
    t: Seq<Access>,
    rsr: u16,
    r: Option<usize>,
    before: Seq<u8>,
    after: Seq<u8>,
)
    requires
        receives(t, rsr, r, before, after),
    ensures
        rsr < 2 ==> writes_of(t).len() == 0,
        rsr >= 2 ==> match packet_of(
            rsr,
            be_value(data_of(t[0])),
            be_value(data_of(t[1])),
            before.len() as int,
        ) {
            Packet::Flush => exists|s: Seq<Access>, wr: u16|
                #[trigger] settled(s, BSB_S0_REG, SN_RX_WR, wr) && writes_of(t) == release(wr),
            Packet::Skip { next } => writes_of(t) == release(next),
            Packet::Take { next, .. } => writes_of(t) == release(next),
        },
        r is None ==> after == before,
        r matches Some(n) ==> n <= before.len() && after.len() == before.len() && after.skip(
            n as int,
        ) == before.skip(n as int),
{
    if rsr >= 2 {
        let (a, b) = (seq![t[0]], seq![t[1]]);
        let rest = t.skip(2);
        let p = packet_of(
            rsr,
            be_value(data_of(t[0])),
            be_value(data_of(t[1])),
            before.len() as int,
        );
        assert(t =~= a + b + rest);
        parts_join(a + b, rest);
        parts_join(a, b);
        parts_of_one(t[0]);
        parts_of_one(t[1]);
        assert(writes_of(t) =~= writes_of(rest));
        match p {
            Packet::Flush => {
                let (s, wr) = choose|s: Seq<Access>, wr: u16|
                    #[trigger] settled(s, BSB_S0_REG, SN_RX_WR, wr) && rest == s + release(wr);
                settled_writes_nothing(s, BSB_S0_REG, SN_RX_WR, wr);
                parts_join(s, release(wr));
                releasing_writes(wr);
                assert(writes_of(t) =~= release(wr));
            },
            Packet::Skip { next } => {
                releasing_writes(next);
            },
            Packet::Take { at, len, next } => {
                assert(rest =~= seq![rest[0]] + release(next));
                parts_join(seq![rest[0]], release(next));
                parts_of_one(rest[0]);
                releasing_writes(next);
                assert(writes_of(t) =~= release(next));
                assert(after.skip(len as int) =~= before.skip(len as int));
            },
        }
    }
}

/// All that a transmission writes: nothing when no room comes; else, in this
/// order, the frame at the chip's write pointer, the pointer moved past it, the
/// send command, and at last the interrupts that ended the transmission, if it
/// did end.
pub proof fn sending_writes(t: Seq<Access>, frame: Seq<u8>, r: TxReport)
    requires
        transmits(t, frame, r),
    ensures
        writes_of(t).len() == 0 && r == given_up() || exists|a: Access|
            {
                &&& #[trigger] reads(a, BSB_S0_REG, SN_TX_WR, 2)
                &&& writes_of(t) == hand_over(a, frame).skip(1) + if r == given_up() {
                    Seq::empty()
                } else {
                    seq![writing(BSB_S0_REG, SN_IR, seq![IR_SEND_OVER])]
                }
            },
{
    let len = (frame.len() % 0x1_0000) as int;
    let (w, free) = choose|w: Seq<Seq<Access>>, free: Seq<u16>|
        {
            &&& #[trigger] waits_for_room(w, free, len)
            &&& if free.last() < len {
                t == joined(w) && r == given_up()
            } else {
                exists|a: Access, p: Seq<Access>|
                    {
                        &&& #[trigger] reads(a, BSB_S0_REG, SN_TX_WR, 2)
                        &&& #[trigger] awaits_send(p, r)
                        &&& t == joined(w) + hand_over(a, frame) + p
                    }
            }
        };
    room_polls_write_nothing(w, free);
    if free.last() >= len {
        let (a, p) = choose|a: Access, p: Seq<Access>|
            {
                &&& #[trigger] reads(a, BSB_S0_REG, SN_TX_WR, 2)
                &&& #[trigger] awaits_send(p, r)
                &&& t == joined(w) + hand_over(a, frame) + p
            };
        let h = hand_over(a, frame);
        parts_join(joined(w) + h, p);
        parts_join(joined(w), h);
        handing_over_writes(a, frame);
        awaiting_writes(p, r);
        assert(writes_of(t) =~= h.skip(1) + writes_of(p));
    }
}

proof fn handing_over_writes(a: Access, frame: Seq<u8>)
    requires
        a is Read,
    ensures
        writes_of(hand_over(a, frame)) == hand_over(a, frame).skip(1),
{
    let h = hand_over(a, frame);
    writes_of_two(h[0], h[1]);
    writes_of_two(h[2], h[3]);
    parts_of_one(h[0]);
    parts_of_one(h[1]);
    parts_of_one(h[2]);
    parts_of_one(h[3]);
    assert(h =~= seq![h[0], h[1]] + seq![h[2], h[3]]);
    parts_join(seq![h[0], h[1]], seq![h[2], h[3]]);
    assert(writes_of(h) =~= h.skip(1));
}

proof fn awaiting_writes(p: Seq<Access>, r: TxReport)
    requires
        awaits_send(p, r),
    ensures
        writes_of(p) == if r == given_up() {
            Seq::empty()
        } else {
            seq![writing(BSB_S0_REG, SN_IR, seq![IR_SEND_OVER])]
        },
{
    assert(0u8 & IR_SEND_OVER == 0) by (bit_vector);
    let n = if p.last() is Write {
        p.len() - 1
    } else {
        p.len() as int
    };
    let polls = p.take(n);
    assert forall|i: int| 0 <= i < polls.len() implies (#[trigger] polls[i]) is Read by {
        assert(reads(p[i], BSB_S0_REG, SN_IR, 1));
    }
    reads_write_nothing(polls);
    if n < p.len() {
        assert(p =~= polls + seq![p[n]]);
        parts_join(polls, seq![p[n]]);
        parts_of_one(p[n]);
    } else {
        assert(p =~= polls);
    }
    assert(writes_of(p) =~= if r == given_up() {
        Seq::empty()
    } else {
        seq![writing(BSB_S0_REG, SN_IR, seq![IR_SEND_OVER])]
    });
}

/// A transmission succeeds only when the chip itself said so: the interrupt
/// register read with the SENDOK bit, and that reading is in the report.
pub proof fn success_is_the_chips_word(t: Seq<Access>, frame: Seq<u8>, r: TxReport)
    requires
        transmits(t, frame, r),
        r.ok,
    ensures
        t.contains(reading(BSB_S0_REG, SN_IR, seq![r.eir])),
        r.eir & IR_SENDOK != 0,
        r.attempts == 1,
{
    let len = (frame.len() % 0x1_0000) as int;
    let (w, free) = choose|w: Seq<Seq<Access>>, free: Seq<u16>|
        {
            &&& #[trigger] waits_for_room(w, free, len)
            &&& if free.last() < len {
                t == joined(w) && r == given_up()
            } else {
                exists|a: Access, p: Seq<Access>|
                    {
                        &&& #[trigger] reads(a, BSB_S0_REG, SN_TX_WR, 2)
                        &&& #[trigger] awaits_send(p, r)
                        &&& t == joined(w) + hand_over(a, frame) + p
                    }
            }
        };
    let (a, p) = choose|a: Access, p: Seq<Access>|
        {
            &&& #[trigger] reads(a, BSB_S0_REG, SN_TX_WR, 2)
            &&& #[trigger] awaits_send(p, r)
            &&& t == joined(w) + hand_over(a, frame) + p
        };
    let n = p.len() - 1;
    assert(reads(p[n - 1], BSB_S0_REG, SN_IR, 1));
    assert(data_of(p[n - 1]) =~= seq![r.eir]);
    let at = (joined(w) + hand_over(a, frame)).len() + n - 1;
    assert(t[at] == p[n - 1]);
}

/// From `a` to `b` the accesses `t` went over the bus, and nothing else changed.
pub open spec fn went<SPI: SpiDevice, RST: OutputPin>(
    a: W5500<SPI, RST>,
    b: W5500<SPI, RST>,
    t: Seq<Access>,
) -> bool {
    &&& b.bus() == a.bus() + t
    &&& b.levels() == a.levels()
    &&& b.log() == a.log() + t
    &&& b.address() == a.address()
    &&& b.has_reset() == a.has_reset()
}

/// From `a` to `b` all of `t` was done, in that order: what of it goes over the
/// bus is what the bus saw, its levels are those of the reset line, and its
/// waits those that took the delay from `w` to `v`.
pub open spec fn did<SPI: SpiDevice, RST: OutputPin>(
    a: W5500<SPI, RST>,
    w: Seq<u32>,
    b: W5500<SPI, RST>,
    v: Seq<u32>,
    t: Seq<Access>,
) -> bool {
    &&& b.bus() == a.bus() + bus_of(t)
    &&& b.levels() == a.levels() + levels_of(t)
    &&& v == w + waits_of(t)
    &&& b.log() == a.log() + t
    &&& b.address() == a.address()
    &&& b.has_reset() == a.has_reset()
}

proof fn went_on<SPI: SpiDevice, RST: OutputPin>(
    a: W5500<SPI, RST>,
    b: W5500<SPI, RST>,
    c: W5500<SPI, RST>,
    s: Seq<Access>,
    t: Seq<Access>,
)
    requires
        went(a, b, s),
        went(b, c, t),
    ensures
        went(a, c, s + t),
{
    assert(a.bus() + s + t =~= a.bus() + (s + t));
    assert(a.log() + s + t =~= a.log() + (s + t));
}

proof fn did_on<SPI: SpiDevice, RST: OutputPin>(
    a: W5500<SPI, RST>,
    w: Seq<u32>,
    b: W5500<SPI, RST>,
    v: Seq<u32>,
    c: W5500<SPI, RST>,
    u: Seq<u32>,
    s: Seq<Access>,
    t: Seq<Access>,
)
    requires
        did(a, w, b, v, s),
        did(b, v, c, u, t),
    ensures
        did(a, w, c, u, s + t),
{
    parts_join(s, t);
    assert(c.bus() =~= a.bus() + bus_of(s + t));
    assert(c.levels() =~= a.levels() + levels_of(s + t));
    assert(u =~= w + waits_of(s + t));
    assert(c.log() =~= a.log() + (s + t));
}

proof fn went_did<SPI: SpiDevice, RST: OutputPin>(
    a: W5500<SPI, RST>,
    b: W5500<SPI, RST>,
    w: Seq<u32>,
    t: Seq<Access>,
)
    requires
        went(a, b, t),
        on_bus(t),
    ensures
        did(a, w, b, w, t),
{
    bus_alone(t);
    assert(a.levels() =~= a.levels() + levels_of(t));
    assert(w =~= w + waits_of(t));
}

impl<SPI: SpiDevice, RST: OutputPin> W5500<SPI, RST> {
    /// The accesses that the bus saw.
    pub closed spec fn bus(&self) -> Seq<Access> {
        self.spi.seen()
    }

    /// The levels that the reset line was driven to; none without one.
    pub closed spec fn levels(&self) -> Seq<bool> {
        match self.rst {
            Some(pin) => pin.driven(),
            None => Seq::empty(),
        }
    }

    /// Accesses, levels and waits in the order in which the driver made them, as
    /// the driver notes it at each call: the bus, the reset line and the delay
    /// know nothing of one another, so none of their logs has the order between
    /// them. Each operation states what it adds here and to those logs.
    pub closed spec fn log(&self) -> Seq<Access> {
        self.record@
    }

    /// The hardware address that the chip is programmed with.
    pub closed spec fn address(&self) -> Seq<u8> {
        self.mac@
    }

    /// Whether there is a reset line.
    pub closed spec fn has_reset(&self) -> bool {
        self.rst is Some
    }

    /// Construct and initialise: reset, program the hardware address, hand all
    /// buffer memory to socket 0, and open it in MACRAW mode.
    pub fn new<D: DelayNs>(spi: SPI, rst: Option<RST>, delay: &mut D, mac: [u8; 6]) -> (dev: Self)
        ensures
            dev.address() == mac@,
            dev.has_reset() == rst is Some,
            exists|p: Seq<Access>|
                {
                    let t = bring_up(rst is Some, mac@) + p;
                    &&& #[trigger] polls_open(p)
                    &&& dev.bus() == spi.seen() + bus_of(t)
                    &&& rst matches Some(pin) ==> dev.levels() == pin.driven() + levels_of(t)
                    &&& final(delay).waited() == old(delay).waited() + waits_of(t)
                    &&& dev.log() == t
                },
    {
        let mut dev = W5500 { spi, rst, mac, record: Ghost(Seq::empty()) };
        let ghost start = dev;
        dev.init(delay);
        proof {
            let p = choose|p: Seq<Access>|
                #[trigger] polls_open(p) && did(
                    start,
                    old(delay).waited(),
                    dev,
                    delay.waited(),
                    bring_up(rst is Some, mac@) + p,
                );
            let t = bring_up(rst is Some, mac@) + p;
            assert(polls_open(p));
            assert(dev.log() =~= t);
        }
        dev
    }

    /// Full initialisation again, as the receive watchdog asks for.
    pub fn reinit<D: DelayNs>(&mut self, delay: &mut D)
        ensures
            exists|p: Seq<Access>|
                #[trigger] polls_open(p) && did(
                    *old(self),
                    old(delay).waited(),
                    *final(self),
                    final(delay).waited(),
                    bring_up(old(self).has_reset(), old(self).address()) + p,
                ),
    {
        self.init(delay);
    }

    /// Give the bus and the reset line back.
    pub fn free(self) -> (r: (SPI, Option<RST>))
        ensures
            r.0.seen() == self.bus(),
            r.1 is Some == self.has_reset(),
            r.1 matches Some(pin) ==> pin.driven() == self.levels(),
    {
        (self.spi, self.rst)
    }

    fn wait<D: DelayNs>(&mut self, delay: &mut D, us: u32)
        ensures
            did(
                *old(self),
                old(delay).waited(),
                *final(self),
                final(delay).waited(),
                seq![Access::Wait { us }],
            ),
    {
        delay.delay_us(us);
        self.record = Ghost(self.record@.push(Access::Wait { us }));
        proof {
            let t = seq![Access::Wait { us }];
            parts_of_one(Access::Wait { us });
            assert(self.bus() =~= old(self).bus() + bus_of(t));
            assert(self.levels() =~= old(self).levels() + levels_of(t));
            assert(delay.waited() =~= old(delay).waited() + waits_of(t));
            assert(self.log() =~= old(self).log() + t);
        }
    }

    fn drive_reset(&mut self, high: bool)
        requires
            old(self).has_reset(),
        ensures
            forall|w: Seq<u32>|
                #[trigger] did(*old(self), w, *final(self), w, seq![Access::Reset { high }]),
    {
        match &mut self.rst {
            Some(pin) => {
                if high {
                    pin.set_high();
                } else {
                    pin.set_low();
                }
            },
            None => {},
        }
        self.record = Ghost(self.record@.push(Access::Reset { high }));
        proof {
            let t = seq![Access::Reset { high }];
            parts_of_one(Access::Reset { high });
            assert(self.bus() =~= old(self).bus() + bus_of(t));
            assert(self.levels() =~= old(self).levels() + levels_of(t));
            assert(self.log() =~= old(self).log() + t);
            assert forall|w: Seq<u32>| #[trigger] did(*old(self), w, *self, w, t) by {
                assert(w =~= w + waits_of(t));
            }
        }
    }

    /// Pulse the reset line: 500 us low, between 1 ms and 2 ms high.
    fn hard_reset<D: DelayNs>(&mut self, delay: &mut D)
        requires
            old(self).has_reset(),
        ensures
            did(
                *old(self),
                old(delay).waited(),
                *final(self),
                final(delay).waited(),
                reset_pulse(),
            ),
    {
        self.pulse(delay, true, 1000);
        let ghost d1 = *self;
        let ghost w1 = delay.waited();
        self.pulse(delay, false, 500);
        let ghost d2 = *self;
        let ghost w2 = delay.waited();
        self.pulse(delay, true, 2000);
        proof {
            let (a, b, c) = (held(true, 1000), held(false, 500), held(true, 2000));
            did_on(*old(self), old(delay).waited(), d1, w1, d2, w2, a, b);
            did_on(*old(self), old(delay).waited(), d2, w2, *self, delay.waited(), a + b, c);
            assert(a + b + c =~= reset_pulse());
        }
    }

    fn pulse<D: DelayNs>(&mut self, delay: &mut D, high: bool, us: u32)
        requires
            old(self).has_reset(),
        ensures
            did(
                *old(self),
                old(delay).waited(),
                *final(self),
                final(delay).waited(),
                held(high, us),
            ),
    {
        let ghost w = delay.waited();
        self.drive_reset(high);
        let ghost d = *self;
        self.wait(delay, us);
        proof {
            let (a, b) = (seq![Access::Reset { high }], seq![Access::Wait { us }]);
            assert(did(*old(self), w, d, w, a));
            did_on(*old(self), w, d, w, *self, delay.waited(), a, b);
            assert(a + b =~= held(high, us));
        }
    }

    fn soft_reset<D: DelayNs>(&mut self, delay: &mut D)
        ensures
            did(
                *old(self),
                old(delay).waited(),
                *final(self),
                final(delay).waited(),
                seq![writing(BSB_COMMON, MR, seq![MR_RST]), Access::Wait { us: 2000 }],
            ),
    {
        let ghost w = delay.waited();
        self.write_u8(BSB_COMMON, MR, MR_RST);
        let ghost d = *self;
        self.wait(delay, 2000);
        proof {
            let a = seq![writing(BSB_COMMON, MR, seq![MR_RST])];
            let b = seq![Access::Wait { us: 2000 }];
            went_did(*old(self), d, w, a);
            did_on(*old(self), w, d, w, *self, delay.waited(), a, b);
            assert(a + b =~= seq![
                writing(BSB_COMMON, MR, seq![MR_RST]),
                Access::Wait { us: 2000 },
            ]);
        }
    }

    /// Program the hardware address, hand all buffer memory to socket 0, and
    /// open it.
    fn set_up(&mut self)
        ensures
            went(*old(self), *final(self), setting_up(old(self).address())),
    {
        let mac: [u8; 6] = self.mac;
        self.write(BSB_COMMON, SHAR, &mac);
        self.write_u8(BSB_S0_REG, SN_RXBUF_SIZE, 16);
        self.write_u8(BSB_S0_REG, SN_TXBUF_SIZE, 16);
        let ghost mid = *self;
        let mut n: u8 = 1;
        assert(mid.bus() + shrink_others(0) =~= mid.bus());
        assert(mid.log() + shrink_others(0) =~= mid.log());
        while n < 8
            invariant
                1 <= n <= 8,
                went(mid, *self, shrink_others((n - 1) as nat)),
            decreases 8 - n,
        {
            let bsb: u8 = 4 * n + 1;
            self.write_u8(bsb, SN_RXBUF_SIZE, 0);
            self.write_u8(bsb, SN_TXBUF_SIZE, 0);
            n = n + 1;
            assert(self.bus() =~= mid.bus() + shrink_others((n - 1) as nat));
            assert(self.log() =~= mid.log() + shrink_others((n - 1) as nat));
        }
        self.write_u8(BSB_S0_REG, SN_MR, SN_MR_RAW_FILTERED);
        self.write_u8(BSB_S0_REG, SN_CR, CMD_OPEN);
        assert(self.bus() =~= old(self).bus() + setting_up(mac@));
        assert(self.log() =~= old(self).log() + setting_up(mac@));
    }

    /// Poll the socket status until the socket is open.
    fn await_open(&mut self)
        ensures
            exists|p: Seq<Access>| #[trigger]
                polls_open(p) && went(*old(self), *final(self), p),
    {
        let ghost start = *self;
        let ghost mut p: Seq<Access> = Seq::empty();
        let mut k: u32 = 0;
        let mut open: bool = false;
        assert(start.bus() + p =~= start.bus());
        assert(start.log() + p =~= start.log());
        while k < SPIN_LIMIT && !open
            invariant
                k <= SPIN_LIMIT,
                went(start, *self, p),
                p.len() == k,
                k == 0 ==> !open,
                forall|i: int| 0 <= i < k ==> reads(#[trigger] p[i], BSB_S0_REG, SN_SR, 1),
                forall|i: int| 0 <= i < k - 1 ==> data_of(#[trigger] p[i])[0] != SR_MACRAW,
                k > 0 ==> open == (data_of(p[k - 1])[0] == SR_MACRAW),
            decreases SPIN_LIMIT - k,
        {
            let v: u8 = self.read_u8(BSB_S0_REG, SN_SR);
            proof {
                p = p.push(reading(BSB_S0_REG, SN_SR, seq![v]));
                assert(self.bus() =~= start.bus() + p);
                assert(self.log() =~= start.log() + p);
                assert(p[k as int] == reading(BSB_S0_REG, SN_SR, seq![v]));
            }
            open = shows_macraw(v);
            k = k + 1;
        }
        assert(polls_open(p));
    }

    fn init<D: DelayNs>(&mut self, delay: &mut D)
        ensures
            exists|p: Seq<Access>|
                #[trigger] polls_open(p) && did(
                    *old(self),
                    old(delay).waited(),
                    *final(self),
                    final(delay).waited(),
                    bring_up(old(self).has_reset(), old(self).address()) + p,
                ),
    {
        let ghost d0 = *self;
        let ghost w0 = delay.waited();
        let ghost first = if self.has_reset() {
            reset_pulse()
        } else {
            Seq::empty()
        };
        proof {
            assert(d0.bus() + Seq::<Access>::empty() =~= d0.bus());
            assert(d0.log() + Seq::<Access>::empty() =~= d0.log());
            assert(went(d0, d0, Seq::empty()));
            went_did(d0, d0, w0, Seq::empty());
        }
        if self.rst.is_some() {
            self.hard_reset(delay);
        }
        let ghost d1 = *self;
        let ghost w1 = delay.waited();
        self.soft_reset(delay);
        let ghost d2 = *self;
        let ghost w2 = delay.waited();
        self.set_up();
        let ghost d3 = *self;
        self.await_open();
        proof {
            let soft = seq![writing(BSB_COMMON, MR, seq![MR_RST]), Access::Wait { us: 2000 }];
            let rest = setting_up(d0.address());
            let p = choose|p: Seq<Access>| #[trigger] polls_open(p) && went(d3, *self, p);
            did_on(d0, w0, d1, w1, d2, w2, first, soft);
            setting_up_on_bus(d0.address());
            went_did(d2, d3, w2, rest);
            did_on(d0, w0, d2, w2, d3, w2, first + soft, rest);
            went_did(d3, *self, w2, p);
            did_on(d0, w0, d3, w2, *self, w2, first + soft + rest, p);
        }
    }

    /// Chip version register; reads 4 on a healthy chip.
    pub fn version(&mut self) -> (r: u8)
        ensures
            went(*old(self), *final(self), seq![reading(BSB_COMMON, VERSIONR, seq![r])]),
    {
        self.read_u8(BSB_COMMON, VERSIONR)
    }

    /// True if the PHY reports a link.
    pub fn is_link_up(&mut self) -> (r: bool)
        ensures
            exists|v: u8|
                #![trigger reading(BSB_COMMON, PHYCFGR, seq![v])]
                went(*old(self), *final(self), seq![reading(BSB_COMMON, PHYCFGR, seq![v])]) && r
                    == (v & PHY_LINK != 0),
    {
        let v: u8 = self.read_u8(BSB_COMMON, PHYCFGR);
        assert(went(*old(self), *self, seq![reading(BSB_COMMON, PHYCFGR, seq![v])]));
        shows_link(v)
    }

    /// True if socket 0 is still in MACRAW mode.
    pub fn in_macraw(&mut self) -> (r: bool)
        ensures
            exists|v: u8|
                #![trigger reading(BSB_S0_REG, SN_SR, seq![v])]
                went(*old(self), *final(self), seq![reading(BSB_S0_REG, SN_SR, seq![v])]) && r == (v
                    == SR_MACRAW),
    {
        let v: u8 = self.read_u8(BSB_S0_REG, SN_SR);
        assert(went(*old(self), *self, seq![reading(BSB_S0_REG, SN_SR, seq![v])]));
        shows_macraw(v)
    }

    /// Receive one Ethernet frame into `buf`, or `None` if there is none. Each
    /// packet in the chip's buffer is a 16-bit length, which counts itself, and
    /// the frame. A frame too big for `buf` is dropped.
    pub fn receive(&mut self, buf: &mut [u8]) -> (r: Option<usize>)
        ensures
            exists|s: Seq<Access>, rsr: u16, t: Seq<Access>|
                {
                    &&& #[trigger] settled(s, BSB_S0_REG, SN_RX_RSR, rsr)
                    &&& #[trigger] receives(t, rsr, r, old(buf)@, final(buf)@)
                    &&& went(*old(self), *final(self), s + t)
                },
    {
        let ghost d0 = *self;
        let rsr: u16 = self.read_u16_stable(BSB_S0_REG, SN_RX_RSR);
        let ghost s = choose|s: Seq<Access>|
            #[trigger] settled(s, BSB_S0_REG, SN_RX_RSR, rsr) && went(d0, *self, s);
        if rsr < 2 {
            proof {
                let t = Seq::<Access>::empty();
                assert(s + t =~= s);
                assert(receives(t, rsr, None, buf@, buf@));
            }
            return None;
        }
        let ghost d1 = *self;
        let r = self.take_packet(rsr, buf);
        proof {
            let t = choose|t: Seq<Access>|
                #[trigger] receives(t, rsr, r, old(buf)@, buf@) && went(d1, *self, t);
            went_on(d0, d1, *self, s, t);
        }
        r
    }

    /// Tell the chip that its buffer was read up to `to`.
    fn advance(&mut self, to: u16)
        ensures
            went(*old(self), *final(self), release(to)),
    {
        self.write_u16(BSB_S0_REG, SN_RX_RD, to);
        let ghost d = *self;
        self.write_u8(BSB_S0_REG, SN_CR, CMD_RECV);
        proof {
            let a = seq![writing(BSB_S0_REG, SN_RX_RD, be_bytes(to))];
            let b = seq![writing(BSB_S0_REG, SN_CR, seq![CMD_RECV])];
            went_on(*old(self), d, *self, a, b);
            assert(a + b =~= release(to));
        }
    }

    /// Throw away all that the chip's buffer holds, as its lengths make no
    /// sense.
    fn resync(&mut self)
        ensures
            exists|s: Seq<Access>, wr: u16|
                #[trigger] settled(s, BSB_S0_REG, SN_RX_WR, wr) && went(
                    *old(self),
                    *final(self),
                    s + release(wr),
                ),
    {
        let wr: u16 = self.read_u16_stable(BSB_S0_REG, SN_RX_WR);
        let ghost d = *self;
        let ghost s = choose|s: Seq<Access>|
            #[trigger] settled(s, BSB_S0_REG, SN_RX_WR, wr) && went(*old(self), d, s);
        self.advance(wr);
        proof {
            went_on(*old(self), d, *self, s, release(wr));
        }
    }

    /// Read the frame of `len` bytes at `at` into `buf`, and move on to `next`.
    fn read_frame(&mut self, at: u16, len: u16, next: u16, buf: &mut [u8])
        requires
            len <= old(buf)@.len(),
        ensures
            exists|t: Seq<Access>|
                #[trigger] deals(
                    t,
                    Packet::Take { at, len, next },
                    Some(len as usize),
                    old(buf)@,
                    final(buf)@,
                ) && went(*old(self), *final(self), t),
    {
        let frame = self.read(BSB_S0_RX, at, len as usize);
        let ghost d = *self;
        copy_into(buf, frame.as_slice());
        self.advance(next);
        proof {
            let a = seq![reading(BSB_S0_RX, at, frame@)];
            let t = a + release(next);
            went_on(*old(self), d, *self, a, release(next));
            assert(t[0] == reading(BSB_S0_RX, at, frame@));
            assert(t.skip(1) =~= release(next));
            assert(deals(
                t,
                Packet::Take { at, len, next },
                Some(len as usize),
                old(buf)@,
                buf@,
            ));
        }
    }

    /// Deal with the packet at the front of the chip's buffer.
    fn deal(&mut self, p: Packet, buf: &mut [u8]) -> (r: Option<usize>)
        requires
            p matches Packet::Take { len, .. } ==> len <= old(buf)@.len(),
        ensures
            exists|t: Seq<Access>|
                #[trigger] deals(t, p, r, old(buf)@, final(buf)@) && went(
                    *old(self),
                    *final(self),
                    t,
                ),
    {
        match p {
            Packet::Flush => {
                self.resync();
                proof {
                    let (s, wr) = choose|s: Seq<Access>, wr: u16|
                        #[trigger] settled(s, BSB_S0_REG, SN_RX_WR, wr) && went(
                            *old(self),
                            *self,
                            s + release(wr),
                        );
                    assert(deals(s + release(wr), p, None, buf@, buf@));
                }
                None
            },
            Packet::Skip { next } => {
                self.advance(next);
                assert(deals(release(next), p, None, buf@, buf@));
                None
            },
            Packet::Take { at, len, next } => {
                self.read_frame(at, len, next, buf);
                Some(len as usize)
            },
        }
    }

    /// Take the packet at the front of the chip's buffer, which holds `rsr`
    /// bytes.
    fn take_packet(&mut self, rsr: u16, buf: &mut [u8]) -> (r: Option<usize>)
        requires
            rsr >= 2,
        ensures
            exists|t: Seq<Access>|
                #[trigger] receives(t, rsr, r, old(buf)@, final(buf)@) && went(
                    *old(self),
                    *final(self),
                    t,
                ),
    {
        let rd: u16 = self.read_u16(BSB_S0_REG, SN_RX_RD);
        let ghost d1 = *self;
        let plen: u16 = self.read_u16(BSB_S0_RX, rd);
        let ghost d2 = *self;
        let p = judge_packet(rsr, rd, plen, buf.len());
        let r = self.deal(p, buf);
        proof {
            let a = seq![reading(BSB_S0_REG, SN_RX_RD, be_bytes(rd))];
            let b = seq![reading(BSB_S0_RX, rd, be_bytes(plen))];
            let t = choose|t: Seq<Access>|
                #[trigger] deals(t, p, r, old(buf)@, buf@) && went(d2, *self, t);
            went_on(*old(self), d1, d2, a, b);
            went_on(*old(self), d2, *self, a + b, t);
            let all = a + b + t;
            assert(all.skip(2) =~= t);
            assert(all[0] == a[0] && all[1] == b[0]);
            assert(receives(all, rsr, r, old(buf)@, buf@));
        }
        r
    }

    /// Poll the free transmit space until there is room for `len` bytes.
    fn await_room(&mut self, len: u16) -> (ok: bool)
        ensures
            exists|w: Seq<Seq<Access>>, free: Seq<u16>|
                #[trigger] waits_for_room(w, free, len as int) && ok == (free.last() >= len)
                    && went(*old(self), *final(self), joined(w)),
    {
        let ghost start = *self;
        let ghost mut w: Seq<Seq<Access>> = Seq::empty();
        let ghost mut free: Seq<u16> = Seq::empty();
        let mut spins: u32 = 0;
        assert(start.bus() + joined(w) =~= start.bus());
        assert(start.log() + joined(w) =~= start.log());
        loop
            invariant
                spins <= SPIN_LIMIT,
                free.len() == spins,
                room_polls(w, free),
                forall|i: int| 0 <= i < free.len() ==> #[trigger] free[i] < len,
                start == *old(self),
                went(start, *self, joined(w)),
            decreases SPIN_LIMIT - spins,
        {
            let ghost before = *self;
            let v: u16 = self.read_u16_stable(BSB_S0_REG, SN_TX_FSR);
            proof {
                let s = choose|s: Seq<Access>|
                    #[trigger] settled(s, BSB_S0_REG, SN_TX_FSR, v) && went(before, *self, s);
                let grown = w.push(s);
                assert(grown.drop_last() =~= w);
                went_on(start, before, *self, joined(w), s);
                w = grown;
                free = free.push(v);
                assert(room_polls(w, free));
            }
            if v >= len || spins == SPIN_LIMIT {
                assert(waits_for_room(w, free, len as int));
                return v >= len;
            }
            spins = spins + 1;
        }
    }

    /// Hand the frame to the chip and tell it to send.
    fn submit(&mut self, frame: &[u8], len: u16)
        requires
            len == frame@.len() % 0x1_0000,
        ensures
            exists|a: Access|
                #[trigger] reads(a, BSB_S0_REG, SN_TX_WR, 2) && went(
                    *old(self),
                    *final(self),
                    hand_over(a, frame@),
                ),
    {
        let wr: u16 = self.read_u16(BSB_S0_REG, SN_TX_WR);
        let ghost a = reading(BSB_S0_REG, SN_TX_WR, be_bytes(wr));
        assert(reads(a, BSB_S0_REG, SN_TX_WR, 2) && be_value(data_of(a)) == wr);
        self.write(BSB_S0_TX, wr, frame);
        self.write_u16(BSB_S0_REG, SN_TX_WR, wr.wrapping_add(len));
        self.write_u8(BSB_S0_REG, SN_CR, CMD_SEND);
        assert(self.bus() =~= old(self).bus() + hand_over(a, frame@));
        assert(self.log() =~= old(self).log() + hand_over(a, frame@));
    }

    /// Wait for the chip to send what it was handed.
    fn await_send(&mut self) -> (r: TxReport)
        ensures
            exists|p: Seq<Access>| #[trigger]
                awaits_send(p, r) && went(*old(self), *final(self), p),
    {
        let ghost start = *self;
        let ghost mut p: Seq<Access> = Seq::empty();
        let mut spins: u32 = 0;
        assert(start.bus() + p =~= start.bus());
        assert(start.log() + p =~= start.log());
        loop
            invariant
                spins <= SPIN_LIMIT,
                start == *old(self),
                went(start, *self, p),
                p.len() == spins,
                forall|i: int|
                    0 <= i < p.len() ==> reads(#[trigger] p[i], BSB_S0_REG, SN_IR, 1) && report_of(
                        data_of(p[i])[0],
                    ) is None,
            decreases SPIN_LIMIT - spins,
        {
            let ghost before = *self;
            let ir: u8 = self.read_u8(BSB_S0_REG, SN_IR);
            proof {
                let a = reading(BSB_S0_REG, SN_IR, seq![ir]);
                went_on(start, before, *self, p, seq![a]);
                assert(p + seq![a] =~= p.push(a));
                p = p.push(a);
                assert(p[spins as int] == a);
            }
            if let Some(r) = send_report(ir) {
                let ghost polled = *self;
                self.write_u8(BSB_S0_REG, SN_IR, IR_SEND_OVER);
                proof {
                    let a = writing(BSB_S0_REG, SN_IR, seq![IR_SEND_OVER]);
                    went_on(start, polled, *self, p, seq![a]);
                    let q = p.push(a);
                    assert(p + seq![a] =~= q);
                    assert(forall|i: int| 0 <= i < p.len() ==> q[i] == p[i]);
                    assert(awaits_send(q, r));
                }
                return r;
            }
            if spins == SPIN_LIMIT {
                let r = TxReport { ok: false, attempts: 1, eir: 0 };
                assert(p.last() == reading(BSB_S0_REG, SN_IR, seq![ir]));
                assert(awaits_send(p, r));
                return r;
            }
            spins = spins + 1;
        }
    }

    /// Transmit one complete Ethernet frame (the chip appends the frame check).
    pub fn transmit(&mut self, frame: &[u8]) -> (r: TxReport)
        ensures
            exists|t: Seq<Access>|
                #[trigger] transmits(t, frame@, r) && went(*old(self), *final(self), t),
    {
        let len: u16 = (frame.len() % 0x1_0000) as u16;
        let room: bool = self.await_room(len);
        let ghost d1 = *self;
        let ghost (w, free) = choose|w: Seq<Seq<Access>>, free: Seq<u16>|
            #[trigger] waits_for_room(w, free, len as int) && room == (free.last() >= len) && went(
                *old(self),
                d1,
                joined(w),
            );
        if !room {
            let r = TxReport { ok: false, attempts: 1, eir: 0 };
            assert(transmits(joined(w), frame@, r));
            return r;
        }
        self.submit(frame, len);
        let ghost d2 = *self;
        let r = self.await_send();
        proof {
            let a = choose|a: Access|
                #[trigger] reads(a, BSB_S0_REG, SN_TX_WR, 2) && went(d1, d2, hand_over(a, frame@));
            let p = choose|p: Seq<Access>| #[trigger] awaits_send(p, r) && went(d2, *self, p);
            went_on(*old(self), d1, d2, joined(w), hand_over(a, frame@));
            went_on(*old(self), d2, *self, joined(w) + hand_over(a, frame@), p);
            assert(transmits(joined(w) + hand_over(a, frame@) + p, frame@, r));
        }
        r
    }

    /// Receiver diagnostics: received size, socket interrupts, socket status,
    /// PHY configuration.
    pub fn rx_diag(&mut self) -> (r: (u16, u8, u8, u8))
        ensures
            went(
                *old(self),
                *final(self),
                seq![
                    reading(BSB_S0_REG, SN_RX_RSR, be_bytes(r.0)),
                    reading(BSB_S0_REG, SN_IR, seq![r.1]),
                    reading(BSB_S0_REG, SN_SR, seq![r.2]),
                    reading(BSB_COMMON, PHYCFGR, seq![r.3]),
                ],
            ),
    {
        let a: u16 = self.read_u16(BSB_S0_REG, SN_RX_RSR);
        let b: u8 = self.read_u8(BSB_S0_REG, SN_IR);
        let c: u8 = self.read_u8(BSB_S0_REG, SN_SR);
        let d: u8 = self.read_u8(BSB_COMMON, PHYCFGR);
        proof {
            let t = seq![
                reading(BSB_S0_REG, SN_RX_RSR, be_bytes(a)),
                reading(BSB_S0_REG, SN_IR, seq![b]),
                reading(BSB_S0_REG, SN_SR, seq![c]),
                reading(BSB_COMMON, PHYCFGR, seq![d]),
            ];
            assert(self.bus() =~= old(self).bus() + t);
            assert(self.log() =~= old(self).log() + t);
        }
        (a, b, c, d)
    }

    /// Control byte for a block select and direction.
    pub fn ctrl(bsb: u8, write: bool) -> (r: u8)
        requires
            bsb < 32,
        ensures
            r == control(bsb, write),
    {
        8 * bsb + if write {
            4
        } else {
            0
        }
    }

    fn read(&mut self, bsb: u8, addr: u16, n: usize) -> (r: Vec<u8>)
        requires
            bsb < 32,
        ensures
            r@.len() == n,
            went(*old(self), *final(self), seq![reading(bsb, addr, r@)]),
    {
        let h: [u8; 3] = [(addr / 0x100) as u8, (addr % 0x100) as u8, Self::ctrl(bsb, false)];
        let r = self.spi.read(h, n);
        self.record = Ghost(self.record@.push(Access::Read { header: h@, data: r@ }));
        assert(self.bus() =~= old(self).bus() + seq![reading(bsb, addr, r@)]);
        assert(self.log() =~= old(self).log() + seq![reading(bsb, addr, r@)]);
        r
    }

    fn write(&mut self, bsb: u8, addr: u16, data: &[u8])
        requires
            bsb < 32,
        ensures
            went(*old(self), *final(self), seq![writing(bsb, addr, data@)]),
    {
        let h: [u8; 3] = [(addr / 0x100) as u8, (addr % 0x100) as u8, Self::ctrl(bsb, true)];
        self.spi.write(h, data);
        self.record = Ghost(self.record@.push(Access::Write { header: h@, data: data@ }));
        assert(self.bus() =~= old(self).bus() + seq![writing(bsb, addr, data@)]);
        assert(self.log() =~= old(self).log() + seq![writing(bsb, addr, data@)]);
    }

    fn read_u8(&mut self, bsb: u8, addr: u16) -> (r: u8)
        requires
            bsb < 32,
        ensures
            went(*old(self), *final(self), seq![reading(bsb, addr, seq![r])]),
    {
        let b = self.read(bsb, addr, 1);
        assert(b@ =~= seq![b@[0]]);
        b[0]
    }

    fn write_u8(&mut self, bsb: u8, addr: u16, val: u8)
        requires
            bsb < 32,
        ensures
            went(*old(self), *final(self), seq![writing(bsb, addr, seq![val])]),
    {
        let b: [u8; 1] = [val];
        assert(b@ =~= seq![val]);
        self.write(bsb, addr, &b);
    }

    fn read_u16(&mut self, bsb: u8, addr: u16) -> (r: u16)
        requires
            bsb < 32,
        ensures
            went(*old(self), *final(self), seq![reading(bsb, addr, be_bytes(r))]),
            be_value(be_bytes(r)) == r,
    {
        let b = self.read(bsb, addr, 2);
        let r: u16 = 0x100 * (b[0] as u16) + b[1] as u16;
        assert(b@ =~= be_bytes(r));
        r
    }

    /// Read a register that the chip updates until two reads agree, or the poll
    /// bound is reached; returns the last value read.
    fn read_u16_stable(&mut self, bsb: u8, addr: u16) -> (r: u16)
        requires
            bsb < 32,
        ensures
            exists|s: Seq<Access>|
                #[trigger] settled(s, bsb, addr, r) && went(*old(self), *final(self), s),
    {
        let ghost start = *self;
        let mut a: u16 = self.read_u16(bsb, addr);
        let ghost mut s = seq![reading(bsb, addr, be_bytes(a))];
        let mut k: u32 = 0;
        let mut agree: bool = false;
        while k < SPIN_LIMIT && !agree
            invariant
                bsb < 32,
                k <= SPIN_LIMIT,
                start == *old(self),
                went(start, *self, s),
                s.len() == k + 1,
                agree ==> k >= 1,
                forall|i: int| 0 <= i < s.len() ==> reads(#[trigger] s[i], bsb, addr, 2),
                forall|i: int|
                    0 <= i < s.len() - 2 ==> data_of(#[trigger] s[i]) != data_of(s[i + 1]),
                k >= 1 ==> agree == (data_of(s[k - 1]) == data_of(s[k as int])),
                data_of(s[k as int]) == be_bytes(a),
                be_value(be_bytes(a)) == a,
            decreases SPIN_LIMIT - k,
        {
            let ghost before = *self;
            let b: u16 = self.read_u16(bsb, addr);
            let ghost old_s = s;
            proof {
                let x = reading(bsb, addr, be_bytes(b));
                went_on(start, before, *self, s, seq![x]);
                assert(s + seq![x] =~= s.push(x));
                s = s.push(x);
                assert(be_bytes(a) == be_bytes(b) ==> a == b);
                assert(s[k + 1] == x);
                assert(forall|i: int| 0 <= i < old_s.len() ==> s[i] == old_s[i]);
            }
            agree = a == b;
            a = b;
            k = k + 1;
        }
        reveal(settled);
        assert(settled(s, bsb, addr, a));
        a
    }

    fn write_u16(&mut self, bsb: u8, addr: u16, val: u16)
        requires
            bsb < 32,
        ensures
            went(*old(self), *final(self), seq![writing(bsb, addr, be_bytes(val))]),
    {
        let b: [u8; 2] = [(val / 0x100) as u8, (val % 0x100) as u8];
        self.write(bsb, addr, &b);
    }
}

/// The three bytes before an access can be taken apart: the address with its high
/// byte first, the block, the direction, and no fixed length. A register's two
/// bytes are read as they were written.
pub proof fn headers_can_be_taken_apart(bsb: u8, addr: u16, write: bool)
    requires
        bsb < 32,
    ensures
        ({
            let h = header(bsb, addr, write);
            &&& h.len() == 3
            &&& 0x100 * h[0] + h[1] == addr
            &&& h[2] / 8 == bsb
            &&& (h[2] / 4 % 2 == 1) == write
            &&& h[2] % 4 == 0
        }),
        be_value(be_bytes(addr)) == addr,
        0x100 * be_bytes(addr)[0] + be_bytes(addr)[1] == addr,
{
}

} // verus!
