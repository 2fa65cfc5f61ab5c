//! The Wi-Fi chip's control and data channels: request frames and their flow
//! control, Ethernet frames, the network scan, joining a network, and bringing
//! an access point up.

use crate::portal::JoinCreds;
use crate::text::{
    self, append, append_str, append_upper_hex, append_zeros, is_printable, same,
};
use crate::words::{self, get_byte, pack};
use vstd::prelude::*;

verus! {

/// Words of the receive buffer.
pub const FRAME_WORDS: usize = 512;

/// Status told when a request got no answer.
pub const NO_STATUS: u32 = 0xEEEE_EEEE;

/// How often the receiver is polled for credit.
pub const CREDIT_POLLS: u32 = 8000;

/// Cycles to spin after a poll for credit that gave nothing.
pub const CREDIT_PAUSE: u32 = 10_000;

/// Cycles to spin after a poll for an answer that gave nothing.
pub const ANSWER_PAUSE: u32 = 20_000;

/// How often it is polled for the answer to a request.
pub const ANSWER_POLLS: u32 = 3000;

/// How often it is polled for the answer to the LED request.
pub const LED_POLLS: u32 = 2000;

/// How often it is polled during a scan.
pub const SCAN_POLLS: u32 = 15_000;

/// The length of a waiting frame, from the status word: `None` when there is
/// none, or none long enough to have a header.
pub open spec fn waiting(status: u32) -> Option<u32> {
    let len = status / 0x200 % 0x800;
    if status / 0x100 % 2 == 0 || len < 12 {
        None
    } else {
        Some(len)
    }
}

/// The length of a waiting frame.
pub fn rx_length(status: u32) -> (r: Option<u32>)
    ensures
        r == waiting(status),
{
    let len: u32 = status / 0x200 % 0x800;
    if status / 0x100 % 2 == 0 || len < 12 {
        None
    } else {
        Some(len)
    }
}

/// The words to read for a frame of that length.
pub fn rx_words(len: u32) -> (n: usize)
    requires
        len < 0x800,
    ensures
        n == (len + 3) / 4,
        n <= FRAME_WORDS,
{
    ((len + 3) / 4) as usize
}

/// A received frame's header.
#[derive(Copy, Clone, Debug, PartialEq, Eq, Structural)]
pub struct RxInfo {
    /// Channel: 0 control, 1 events, 2 data.
    pub chan: u8,
    /// Status of a request; meaningless on other channels.
    pub status: u32,
    /// The last sequence number that may be sent.
    pub credit: u8,
    /// Which request is answered.
    pub id: u16,
}

/// A frame's header length, in bytes.
pub open spec fn header_len(fr: Seq<u32>) -> int {
    (fr[1] / 0x100_0000) as int
}

/// A frame's header.
pub open spec fn info_of(fr: Seq<u32>) -> RxInfo {
    let chan = (fr[1] / 0x100 % 0x100) as u8;
    let credit = (fr[2] / 0x100 % 0x100) as u8;
    let hl = header_len(fr) / 4;
    if chan == 0 {
        RxInfo { chan, status: fr[hl + 3], credit, id: (fr[hl + 2] / 0x1_0000) as u16 }
    } else {
        RxInfo { chan, status: NO_STATUS, credit, id: 0 }
    }
}

/// Read a frame's header.
pub fn rx_info(fr: &[u32]) -> (r: RxInfo)
    requires
        fr@.len() == FRAME_WORDS,
    ensures
        r == info_of(fr@),
{
    let chan: u8 = (fr[1] / 0x100 % 0x100) as u8;
    let credit: u8 = (fr[2] / 0x100 % 0x100) as u8;
    if chan == 0 {
        let hl: usize = (fr[1] / 0x100_0000 / 4) as usize;
        RxInfo { chan, status: fr[hl + 3], credit, id: (fr[hl + 2] / 0x1_0000) as u16 }
    } else {
        RxInfo { chan, status: NO_STATUS, credit, id: 0 }
    }
}

/// Flow control: the next sequence number, and the first that may not be sent.
#[derive(Copy, Clone, Debug, PartialEq, Eq, Structural)]
pub struct Flow {
    pub tx_seq: u8,
    pub credit: u8,
}

impl Flow {
    /// The state after power-on: one frame may be sent.
    pub fn new() -> (f: Flow)
        ensures
            f == (Flow { tx_seq: 0, credit: 1 }),
    {
        Flow { tx_seq: 0, credit: 1 }
    }

    /// Whether a frame may be sent.
    pub open spec fn open(self) -> bool {
        self.credit != self.tx_seq
    }

    /// The state after a received header: its credit counts when it is at most
    /// 20 ahead, on a channel that carries credit.
    pub open spec fn after(self, i: RxInfo) -> Flow {
        if i.chan < 3 && (i.credit - self.credit) % 256 <= 20 {
            Flow { credit: i.credit, ..self }
        } else {
            self
        }
    }

    /// The state after a frame was sent.
    pub open spec fn sent(self) -> Flow {
        Flow { tx_seq: ((self.tx_seq + 1) % 256) as u8, ..self }
    }

    /// Take the credit of a received header.
    pub fn take_credit(&mut self, i: RxInfo)
        ensures
            *final(self) == old(self).after(i),
    {
        let ahead: u8 = i.credit.wrapping_sub(self.credit);
        assert(ahead == (i.credit - self.credit) % 256);
        if i.chan < 3 && ahead <= 20 {
            self.credit = i.credit;
        }
    }

    fn count_sent(&mut self)
        ensures
            *final(self) == old(self).sent(),
    {
        self.tx_seq = self.tx_seq.wrapping_add(1);
    }
}

/// The length of a frame beside its complement.
pub open spec fn length_word(total: int) -> u32 {
    (total + 0x1_0000 * (0xFFFF - total)) as u32
}

/// A length and its complement always add up.
pub proof fn length_is_checked(total: int)
    requires
        0 <= total <= 0xFFFF,
    ensures
        length_word(total) % 0x1_0000 == total,
        length_word(total) % 0x1_0000 + length_word(total) / 0x1_0000 == 0xFFFF,
{
}

/// A control request.
pub struct Request {
    /// 2 sets, 0 gets.
    pub kind: u32,
    pub cmd: u32,
    pub id: u16,
    /// Interface: 0 station, 1 access point.
    pub iface: u32,
    /// The payload, in words.
    pub payload: Vec<u32>,
    /// The payload's length in bytes.
    pub len: u32,
}

/// A control request in the abstract.
#[verifier::ext_equal]
pub struct Wanted {
    pub kind: u32,
    pub cmd: u32,
    pub id: u16,
    pub iface: u32,
    pub payload: Seq<u32>,
    pub len: u32,
}

impl Request {
    /// What is requested.
    pub open spec fn view(&self) -> Wanted {
        Wanted {
            kind: self.kind,
            cmd: self.cmd,
            id: self.id,
            iface: self.iface,
            payload: self.payload@,
            len: self.len,
        }
    }
}

/// Words that a payload of that length takes.
pub open spec fn payload_words(len: u32) -> nat {
    ((len + 3) / 4) as nat
}

/// A request that fits the chip's frames.
pub open spec fn sound_request(w: Wanted) -> bool {
    &&& w.kind < 0x1000
    &&& w.iface < 0x10
    &&& w.len <= 1024
    &&& w.payload.len() == payload_words(w.len)
}

/// The frame of a request: the bus command, the length, the sequence number,
/// the request's header, and its payload.
pub open spec fn request_frame(w: Wanted, seq: u8) -> Seq<u32> {
    let total = 28 + w.len;
    seq![
        (0xE000_0000 + total) as u32,
        length_word(total),
        (0x0C00_0000 + seq) as u32,
        0u32,
        w.cmd,
        w.len,
        (w.kind + 0x1000 * w.iface + 0x1_0000 * w.id) as u32,
        0u32,
    ] + w.payload
}

impl Request {
    /// Build the frame of a request.
    pub fn frame(&self, seq: u8) -> (v: Vec<u32>)
        requires
            sound_request(self@),
        ensures
            v@ == request_frame(self@, seq),
    {
        let total: u32 = 28 + self.len;
        let mut v: Vec<u32> = Vec::new();
        v.push(0xE000_0000 + total);
        v.push(total + 0x1_0000 * (0xFFFF - total));
        v.push(0x0C00_0000 + seq as u32);
        v.push(0);
        v.push(self.cmd);
        v.push(self.len);
        v.push(self.kind + 0x1000 * self.iface + 0x1_0000 * (self.id as u32));
        v.push(0);
        v.extend_from_slice(self.payload.as_slice());
        assert(v@ =~= request_frame(self@, seq));
        v
    }
}

/// Where a request stands.
#[derive(Copy, Clone, Debug, PartialEq, Eq, Structural)]
pub enum Stage {
    /// Waiting for credit, polled this often.
    Credit { polls: u32 },
    /// Waiting for the answer, polled this often.
    Answer { polls: u32 },
    /// Answered, or not.
    Done { status: u32 },
}

/// What a request asks for next.
#[derive(Copy, Clone, Debug, PartialEq, Eq, Structural)]
pub enum Next {
    /// Spin for this many cycles, then poll the receiver.
    Poll { cycles: u32 },
    /// Spin for this many cycles, send the frame with this sequence number, then
    /// poll the receiver.
    Send { cycles: u32, seq: u8 },
    /// Spin for this many cycles; then it is over, with this status.
    Over { cycles: u32, status: u32 },
}

/// A request under way.
#[derive(Copy, Clone, Debug, PartialEq, Eq, Structural)]
pub struct Exchange {
    pub id: u16,
    pub limit: u32,
    pub stage: Stage,
}

/// A sound state of a request under way.
pub open spec fn sound_exchange(x: Exchange) -> bool {
    match x.stage {
        Stage::Credit { polls } => polls < CREDIT_POLLS && x.limit > 0,
        Stage::Answer { polls } => polls < x.limit,
        Stage::Done { .. } => true,
    }
}

/// Cycles to spin after a poll: none when it gave something.
pub open spec fn pause(got: Option<RxInfo>, cycles: u32) -> u32 {
    if got is None {
        cycles
    } else {
        0
    }
}

/// Send the frame after this many cycles and wait for the answer.
pub open spec fn go(x: Exchange, f: Flow, cycles: u32) -> (Exchange, Flow, Next) {
    (
        Exchange { stage: Stage::Answer { polls: 0 }, ..x },
        f.sent(),
        Next::Send { cycles, seq: f.tx_seq },
    )
}

/// Begin a request: send it, or wait for credit first.
pub open spec fn exchange_start(x: Exchange, f: Flow) -> (Exchange, Flow, Next) {
    if f.open() {
        go(x, f, 0)
    } else {
        (Exchange { stage: Stage::Credit { polls: 0 }, ..x }, f, Next::Poll { cycles: 0 })
    }
}

/// What follows when a poll gave this: every poll that gave nothing is followed
/// by a pause, the last one too. Without credit after all polls the request is
/// sent all the same.
pub open spec fn exchange_next(x: Exchange, f: Flow, got: Option<RxInfo>) -> (
    Exchange,
    Flow,
    Next,
) {
    let g = match got {
        Some(i) => f.after(i),
        None => f,
    };
    match x.stage {
        Stage::Credit { polls } => if g.open() || polls + 1 >= CREDIT_POLLS {
            go(x, g, pause(got, CREDIT_PAUSE))
        } else {
            (
                Exchange { stage: Stage::Credit { polls: (polls + 1) as u32 }, ..x },
                g,
                Next::Poll { cycles: pause(got, CREDIT_PAUSE) },
            )
        },
        Stage::Answer { polls } => match got {
            Some(i) if i.chan == 0 && i.id == x.id => (
                Exchange { stage: Stage::Done { status: i.status }, ..x },
                g,
                Next::Over { cycles: 0, status: i.status },
            ),
            _ => if polls + 1 >= x.limit {
                (
                    Exchange { stage: Stage::Done { status: NO_STATUS }, ..x },
                    g,
                    Next::Over { cycles: pause(got, ANSWER_PAUSE), status: NO_STATUS },
                )
            } else {
                (
                    Exchange { stage: Stage::Answer { polls: (polls + 1) as u32 }, ..x },
                    g,
                    Next::Poll { cycles: pause(got, ANSWER_PAUSE) },
                )
            },
        },
        Stage::Done { status } => (x, f, Next::Over { cycles: 0, status }),
    }
}

impl Exchange {
    fn go(&mut self, f: &mut Flow, cycles: u32) -> (n: Next)
        ensures
            (*final(self), *final(f), n) == go(*old(self), *old(f), cycles),
    {
        self.stage = Stage::Answer { polls: 0 };
        let seq: u8 = f.tx_seq;
        f.count_sent();
        Next::Send { cycles, seq }
    }

    /// Begin the request with that id: its answer is polled for `limit` times.
    pub fn start(id: u16, limit: u32, f: &mut Flow) -> (r: (Exchange, Next))
        requires
            limit > 0,
        ensures
            sound_exchange(r.0),
            (r.0, *final(f), r.1) == exchange_start(
                Exchange { id, limit, stage: Stage::Credit { polls: 0 } },
                *old(f),
            ),
    {
        let mut x = Exchange { id, limit, stage: Stage::Credit { polls: 0 } };
        if f.credit != f.tx_seq {
            let n = x.go(f, 0);
            (x, n)
        } else {
            (x, Next::Poll { cycles: 0 })
        }
    }

    /// Take what a poll gave and say what to do.
    pub fn next(&mut self, f: &mut Flow, got: Option<RxInfo>) -> (n: Next)
        requires
            sound_exchange(*old(self)),
        ensures
            sound_exchange(*final(self)),
            (*final(self), *final(f), n) == exchange_next(*old(self), *old(f), got),
    {
        match self.stage {
            Stage::Credit { polls } => {
                let cycles: u32 = match got {
                    Some(i) => {
                        f.take_credit(i);
                        0
                    },
                    None => CREDIT_PAUSE,
                };
                if f.credit != f.tx_seq || polls + 1 >= CREDIT_POLLS {
                    self.go(f, cycles)
                } else {
                    self.stage = Stage::Credit { polls: polls + 1 };
                    Next::Poll { cycles }
                }
            },
            Stage::Answer { polls } => {
                let mut cycles: u32 = ANSWER_PAUSE;
                if let Some(i) = got {
                    f.take_credit(i);
                    if i.chan == 0 && i.id == self.id {
                        self.stage = Stage::Done { status: i.status };
                        return Next::Over { cycles: 0, status: i.status };
                    }
                    cycles = 0;
                }
                if polls + 1 >= self.limit {
                    self.stage = Stage::Done { status: NO_STATUS };
                    Next::Over { cycles, status: NO_STATUS }
                } else {
                    self.stage = Stage::Answer { polls: polls + 1 };
                    Next::Poll { cycles }
                }
            },
            Stage::Done { status } => Next::Over { cycles: 0, status },
        }
    }
}

/// Polls that a request can still take.
pub open spec fn polls_left(x: Exchange) -> int {
    match x.stage {
        Stage::Credit { polls } => CREDIT_POLLS - polls + x.limit,
        Stage::Answer { polls } => x.limit - polls,
        Stage::Done { .. } => 0,
    }
}

/// A request always comes to an end: every poll leaves fewer to take.
pub proof fn requests_end(x: Exchange, f: Flow, got: Option<RxInfo>)
    requires
        sound_exchange(x),
        !(x.stage is Done),
    ensures
        polls_left(exchange_next(x, f, got).0) < polls_left(x),
        exchange_next(x, f, got).2 is Over <==> exchange_next(x, f, got).0.stage is Done,
{
}

/// A request's frame goes out exactly once, and the sequence number moves on
/// with it.
pub proof fn sending_moves_the_sequence(x: Exchange, f: Flow, got: Option<RxInfo>)
    requires
        sound_exchange(x),
    ensures
        exchange_next(x, f, got).2 is Send ==> {
            &&& x.stage is Credit
            &&& exchange_next(x, f, got).0.stage is Answer
            &&& exchange_next(x, f, got).1.tx_seq == (f.tx_seq + 1) % 256
        },
        !(exchange_next(x, f, got).2 is Send) ==> exchange_next(x, f, got).1.tx_seq == f.tx_seq,
{
}

/// The status of a request comes from the answer with its own id, on the
/// control channel.
pub proof fn answers_match_their_request(x: Exchange, f: Flow, got: Option<RxInfo>)
    requires
        sound_exchange(x),
        x.stage is Answer,
        exchange_next(x, f, got).2 is Over,
    ensures
        exchange_next(x, f, got).2->status == NO_STATUS || (got matches Some(i) && i.chan == 0
            && i.id == x.id && exchange_next(x, f, got).2->status == i.status),
{
}

/// Where a frame to send stands when the receiver was polled for credit.
#[derive(Copy, Clone, Debug, PartialEq, Eq, Structural)]
pub enum SendTurn {
    /// Spin for this many cycles, then poll again.
    Poll { cycles: u32 },
    /// Send the frame with this sequence number.
    Send { seq: u8 },
    /// There was no credit: the frame is dropped, after this many cycles.
    Drop { cycles: u32 },
}

/// Decide whether to send a data frame, after `polls` polls for credit, the last
/// of which gave this.
pub fn send_turn(f: &mut Flow, polls: u32, got: Option<RxInfo>) -> (t: SendTurn)
    requires
        polls <= CREDIT_POLLS,
    ensures
        ({
            let g = match got {
                Some(i) => old(f).after(i),
                None => *old(f),
            };
            let cycles = if polls > 0 {
                pause(got, CREDIT_PAUSE)
            } else {
                0
            };
            if g.open() {
                t == (SendTurn::Send { seq: g.tx_seq }) && *final(f) == g.sent()
            } else if polls >= CREDIT_POLLS {
                t == (SendTurn::Drop { cycles }) && *final(f) == g
            } else {
                t == (SendTurn::Poll { cycles }) && *final(f) == g
            }
        }),
{
    let mut cycles: u32 = 0;
    match got {
        Some(i) => f.take_credit(i),
        None => {
            if polls > 0 {
                cycles = CREDIT_PAUSE;
            }
        },
    }
    if f.credit != f.tx_seq {
        let seq: u8 = f.tx_seq;
        f.count_sent();
        SendTurn::Send { seq }
    } else if polls >= CREDIT_POLLS {
        SendTurn::Drop { cycles }
    } else {
        SendTurn::Poll { cycles }
    }
}

/// Bytes before the Ethernet frame.
pub const DATA_HEADER: usize = 18;

/// The longest Ethernet frame that fits the transmit buffer.
pub const ETH_MAX: usize = 1578;

/// The bytes of a data frame: its header, then the Ethernet frame.
pub open spec fn data_bytes(seq: u8, iface: u8, eth: Seq<u8>) -> Seq<u8> {
    let total = 18 + eth.len();
    seq![
        (total % 0x100) as u8,
        (total / 0x100) as u8,
        ((0xFFFF - total) % 0x100) as u8,
        ((0xFFFF - total) / 0x100) as u8,
        seq,
        2u8,
        0u8,
        14u8,
        0u8,
        0u8,
        0u8,
        0u8,
        0u8,
        0u8,
        0x20u8,
        0u8,
        iface,
        0u8,
    ] + eth
}

/// The words of a data frame: the bus command, then the bytes.
pub open spec fn data_frame(seq: u8, iface: u8, eth: Seq<u8>) -> Seq<u32> {
    let total = 18 + eth.len();
    seq![(0xE000_0000 + total) as u32] + words::packed(
        data_bytes(seq, iface, eth),
        ((total + 3) / 4) as nat,
    )
}

/// Build the frame that carries an Ethernet frame.
pub fn build_data_frame(seq: u8, iface: u8, eth: &[u8]) -> (v: Vec<u32>)
    requires
        eth@.len() <= ETH_MAX,
    ensures
        v@ == data_frame(seq, iface, eth@),
{
    let total: u32 = 18 + eth.len() as u32;
    let mut b: Vec<u8> = Vec::new();
    b.push((total % 0x100) as u8);
    b.push((total / 0x100) as u8);
    b.push(((0xFFFF - total) % 0x100) as u8);
    b.push(((0xFFFF - total) / 0x100) as u8);
    b.push(seq);
    b.push(2);
    b.push(0);
    b.push(14);
    append_zeros(&mut b, 6);
    b.push(0x20);
    b.push(0);
    b.push(iface);
    b.push(0);
    append(&mut b, eth);
    assert(b@ =~= data_bytes(seq, iface, eth@));
    let mut v: Vec<u32> = Vec::new();
    v.push(0xE000_0000 + total);
    let w = pack(b.as_slice(), ((total + 3) / 4) as usize);
    v.extend_from_slice(w.as_slice());
    assert(v@ =~= data_frame(seq, iface, eth@));
    v
}

/// Byte `p` of a buffer of words.
pub open spec fn frame_byte(fr: Seq<u32>, p: int) -> u8 {
    words::word_byte(fr[p / 4], p % 4)
}

fn byte_of(fr: &[u32], p: usize) -> (r: u8)
    requires
        p < 4 * fr.len(),
    ensures
        r == frame_byte(fr@, p as int),
{
    get_byte(fr[p / 4], p % 4)
}

/// Where the Ethernet frame begins: behind the header, the data header, and
/// what that says is in between.
pub open spec fn eth_start(fr: Seq<u32>) -> int {
    header_len(fr) + 4 + 4 * frame_byte(fr, header_len(fr) + 3)
}

/// The bytes of the Ethernet frame, at most `room`.
pub open spec fn eth_len(fr: Seq<u32>, room: int) -> int {
    let total = fr[0] % 0x1_0000;
    if total <= eth_start(fr) {
        0
    } else if total - eth_start(fr) <= room {
        total - eth_start(fr)
    } else {
        room
    }
}

/// Whether the frame lies within the receive buffer.
pub fn eth_fits(fr: &[u32], room: usize) -> (r: bool)
    requires
        fr@.len() == FRAME_WORDS,
        room <= 0x1_0000,
    ensures
        r == (eth_start(fr@) + eth_len(fr@, room as int) <= 4 * FRAME_WORDS),
{
    let hl: usize = (fr[1] / 0x100_0000) as usize;
    let start: usize = hl + 4 + 4 * (byte_of(fr, hl + 3) as usize);
    let total: usize = (fr[0] % 0x1_0000) as usize;
    let n: usize = if total <= start {
        0
    } else if total - start <= room {
        total - start
    } else {
        room
    };
    start + n <= 4 * FRAME_WORDS
}

/// Take the Ethernet frame, at most `room` bytes of it, out of a data frame.
/// Empty when the frame is on another channel, or too short to hold one.
pub fn recv_frame(fr: &[u32], room: usize) -> (v: Vec<u8>)
    requires
        fr@.len() == FRAME_WORDS,
        room <= 0x1_0000,
        info_of(fr@).chan == 2 ==> eth_start(fr@) + eth_len(fr@, room as int) <= 4 * FRAME_WORDS,
    ensures
        info_of(fr@).chan != 2 ==> v@ == Seq::<u8>::empty(),
        info_of(fr@).chan == 2 ==> v@ == Seq::new(
            eth_len(fr@, room as int) as nat,
            |i: int| frame_byte(fr@, eth_start(fr@) + i),
        ),
{
    let mut v: Vec<u8> = Vec::new();
    if rx_info(fr).chan != 2 {
        return v;
    }
    let hl: usize = (fr[1] / 0x100_0000) as usize;
    let start: usize = hl + 4 + 4 * (byte_of(fr, hl + 3) as usize);
    let total: usize = (fr[0] % 0x1_0000) as usize;
    let n: usize = if total <= start {
        0
    } else if total - start <= room {
        total - start
    } else {
        room
    };
    let mut i: usize = 0;
    while i < n
        invariant
            i <= n,
            n == eth_len(fr@, room as int),
            start == eth_start(fr@),
            start + n <= 4 * FRAME_WORDS,
            fr@.len() == FRAME_WORDS,
            v@ == Seq::new(i as nat, |j: int| frame_byte(fr@, eth_start(fr@) + j)),
        decreases n - i,
    {
        v.push(byte_of(fr, start + i));
        i = i + 1;
        assert(v@ =~= Seq::new(i as nat, |j: int| frame_byte(fr@, eth_start(fr@) + j)));
    }
    v
}

/// A frame that is sent and comes back with the same header is received as it
/// was: the Ethernet frame is the one that was sent.
#[verifier::spinoff_prover]
#[verifier::rlimit(50)]
pub proof fn frames_survive_the_channel(seq: u8, iface: u8, eth: Seq<u8>, fr: Seq<u32>)
    requires
        eth.len() <= ETH_MAX,
        eth.len() > 0,
        fr.len() == FRAME_WORDS,
        data_frame(seq, iface, eth).skip(1) == fr.take((18 + eth.len() + 3) as int / 4),
    ensures
        info_of(fr).chan == 2,
        eth_start(fr) == 18,
        eth_len(fr, ETH_MAX as int) == eth.len(),
        forall|i: int| 0 <= i < eth.len() ==> frame_byte(fr, eth_start(fr) + i) == eth[i],
{
    let b = data_bytes(seq, iface, eth);
    let n = ((18 + eth.len() + 3) / 4) as nat;
    let w = words::packed(b, n);
    assert(data_frame(seq, iface, eth).skip(1) =~= w);
    words::pack_then_unpack(b, n);
    let u = words::unpacked(w);
    assert forall|p: int| 0 <= p < b.len() implies frame_byte(fr, p) == b[p] by {
        assert(fr.take(n as int)[p / 4] == fr[p / 4]);
        assert(u.take(b.len() as int)[p] == u[p]);
    }
    assert(frame_byte(fr, 0) == b[0] && frame_byte(fr, 1) == b[1]);
    assert(frame_byte(fr, 5) == 2u8);
    assert(frame_byte(fr, 7) == 14u8);
    assert(frame_byte(fr, 17) == 0u8);
    assert(fr[1] / 0x100_0000 == 14);
    assert(fr[1] / 0x100 % 0x100 == 2);
    assert(fr[0] % 0x1_0000 == 18 + eth.len()) by {
        assert(fr[0] % 0x1_0000 == fr[0] % 0x100 + 0x100 * (fr[0] / 0x100 % 0x100));
    }
}

/// The hardware address in the answer to an address request.
pub open spec fn answered_mac(fr: Seq<u32>) -> Seq<u8> {
    let hl = header_len(fr) / 4;
    let w0 = fr[hl + 4];
    let w1 = fr[hl + 5];
    [
        words::word_byte(w0, 0),
        words::word_byte(w0, 1),
        words::word_byte(w0, 2),
        words::word_byte(w0, 3),
        words::word_byte(w1, 0),
        words::word_byte(w1, 1),
    ]@
}

/// The first two words of what an answer brings.
pub fn answer_words(fr: &[u32]) -> (r: (u32, u32))
    requires
        fr@.len() == FRAME_WORDS,
    ensures
        r == (fr@[header_len(fr@) / 4 + 4], fr@[header_len(fr@) / 4 + 5]),
{
    let hl: usize = (fr[1] / 0x100_0000 / 4) as usize;
    (fr[hl + 4], fr[hl + 5])
}

/// Take the hardware address out of the answer to an address request.
pub fn mac_from(fr: &[u32]) -> (r: [u8; 6])
    requires
        fr@.len() == FRAME_WORDS,
    ensures
        r@ == answered_mac(fr@),
{
    let (w0, w1): (u32, u32) = answer_words(fr);
    [
        get_byte(w0, 0),
        get_byte(w0, 1),
        get_byte(w0, 2),
        get_byte(w0, 3),
        get_byte(w1, 0),
        get_byte(w1, 1),
    ]
}

/// A request with a payload of bytes.
pub open spec fn byte_request(
    kind: u32,
    cmd: u32,
    id: u16,
    iface: u32,
    bytes: Seq<u8>,
    len: u32,
) -> Wanted {
    Wanted { kind, cmd, id, iface, payload: words::packed(bytes, payload_words(len)), len }
}

/// A request that sets one word.
pub open spec fn word_request(cmd: u32, id: u16, iface: u32, val: u32) -> Wanted {
    Wanted { kind: 2, cmd, id, iface, payload: seq![val], len: 4 }
}

/// The command that sets a named variable, and the one that gets it.
pub const SET_VAR: u32 = 0x107;

pub const GET_VAR: u32 = 0x106;

/// A name with the zero byte that ends it.
pub open spec fn cstr(name: &str) -> Seq<u8> {
    text::lit(name) + seq![0u8]
}

/// What a list of requests asks for.
pub open spec fn wants(v: Seq<Request>) -> Seq<Wanted> {
    Seq::new(v.len(), |i: int| v[i]@)
}

/// Whether every request of a list fits the chip's frames.
pub open spec fn all_sound(v: Seq<Request>) -> bool {
    forall|i: int| 0 <= i < v.len() ==> sound_request(#[trigger] v[i]@)
}

fn push_request(v: &mut Vec<Request>, r: Request)
    requires
        all_sound(old(v)@),
        sound_request(r@),
    ensures
        all_sound(final(v)@),
        wants(final(v)@) == wants(old(v)@) + seq![r@],
{
    v.push(r);
    assert(wants(v@) =~= wants(old(v)@) + seq![r@]);
}

fn make_bytes(kind: u32, cmd: u32, id: u16, iface: u32, bytes: &[u8], len: u32) -> (r: Request)
    requires
        len <= 1024,
        kind < 0x1000,
        iface < 0x10,
    ensures
        r@ == byte_request(kind, cmd, id, iface, bytes@, len),
        sound_request(r@),
{
    Request { kind, cmd, id, iface, payload: pack(bytes, ((len + 3) / 4) as usize), len }
}

fn make_word(cmd: u32, id: u16, iface: u32, val: u32) -> (r: Request)
    requires
        iface < 0x10,
    ensures
        r@ == word_request(cmd, id, iface, val),
        sound_request(r@),
{
    let mut payload: Vec<u32> = Vec::new();
    payload.push(val);
    assert(payload@ =~= seq![val]);
    Request { kind: 2, cmd, id, iface, payload, len: 4 }
}

fn named_bytes(name: &str) -> (v: Vec<u8>)
    ensures
        v@ == cstr(name),
{
    let mut v: Vec<u8> = Vec::new();
    append_str(&mut v, name);
    v.push(0);
    assert(v@ =~= cstr(name));
    v
}

/// The bytes of a 32-bit number, low byte first.
pub open spec fn le32(n: u32) -> Seq<u8> {
    [
        words::word_byte(n, 0),
        words::word_byte(n, 1),
        words::word_byte(n, 2),
        words::word_byte(n, 3),
    ]@
}

fn push_le32(v: &mut Vec<u8>, n: u32)
    ensures
        final(v)@ == old(v)@ + le32(n),
{
    v.push(get_byte(n, 0));
    v.push(get_byte(n, 1));
    v.push(get_byte(n, 2));
    v.push(get_byte(n, 3));
    assert(v@ =~= old(v)@ + le32(n));
}

/// Set a variable to one number.
pub open spec fn set_number(id: u16, iface: u32, name: &str, n: u32) -> Wanted {
    let bytes = cstr(name) + le32(n);
    byte_request(2, SET_VAR, id, iface, bytes, bytes.len() as u32)
}

/// Set a variable to two numbers.
pub open spec fn set_pair(id: u16, iface: u32, name: &str, a: u32, b: u32) -> Wanted {
    let bytes = cstr(name) + le32(a) + le32(b);
    byte_request(2, SET_VAR, id, iface, bytes, bytes.len() as u32)
}

fn make_number(id: u16, iface: u32, name: &str, n: u32) -> (r: Request)
    requires
        text::lit(name).len() <= 64,
        iface < 0x10,
    ensures
        r@ == set_number(id, iface, name, n),
        sound_request(r@),
{
    let mut v = named_bytes(name);
    push_le32(&mut v, n);
    make_bytes(2, SET_VAR, id, iface, v.as_slice(), v.len() as u32)
}

fn make_pair(id: u16, iface: u32, name: &str, a: u32, b: u32) -> (r: Request)
    requires
        text::lit(name).len() <= 64,
        iface < 0x10,
    ensures
        r@ == set_pair(id, iface, name, a, b),
        sound_request(r@),
{
    let mut v = named_bytes(name);
    push_le32(&mut v, a);
    push_le32(&mut v, b);
    make_bytes(2, SET_VAR, id, iface, v.as_slice(), v.len() as u32)
}

/// Load the regulatory data: flags and type, then the data, the whole always
/// of the same length.
pub open spec fn clm_bytes(clm: Seq<u8>) -> Seq<u8> {
    cstr("clmload") + le32(0x0002_1006) + le32(984) + le32(0) + clm
}

/// The request that loads the regulatory data.
pub fn clm_request(clm: &[u8]) -> (r: Request)
    requires
        clm@.len() <= 984,
    ensures
        r@ == byte_request(2, SET_VAR, 1, 0, clm_bytes(clm@), 1004),
        sound_request(r@),
{
    let mut v = named_bytes("clmload");
    push_le32(&mut v, 0x0002_1006);
    push_le32(&mut v, 984);
    push_le32(&mut v, 0);
    append(&mut v, clm);
    make_bytes(2, SET_VAR, 1, 0, v.as_slice(), 1004)
}

/// The address request.
pub open spec fn address_request(id: u16, iface: u32) -> Wanted {
    byte_request(0, GET_VAR, id, iface, cstr("cur_etheraddr"), 20)
}

/// Ask for the hardware address.
pub fn mac_request(id: u16, iface: u32) -> (r: Request)
    requires
        iface < 0x10,
    ensures
        r@ == address_request(id, iface),
        sound_request(r@),
{
    let v = named_bytes("cur_etheraddr");
    make_bytes(0, GET_VAR, id, iface, v.as_slice(), 20)
}

/// The requests that end the bring-up, before the address is asked for.
pub open spec fn control_wants() -> Seq<Wanted> {
    seq![
        set_number(5, 0, "bus:txglom", 0),
        set_number(6, 0, "apsta", 1),
        set_number(8, 0, "ampdu_ba_wsize", 8),
        set_number(9, 0, "ampdu_mpdu", 4),
        set_number(10, 0, "ampdu_rx_factor", 0),
    ]
}

proof fn name_lengths()
    ensures
        text::lit("bus:txglom").len() == 10,
        text::lit("apsta").len() == 5,
        text::lit("ampdu_ba_wsize").len() == 14,
        text::lit("ampdu_mpdu").len() == 10,
        text::lit("ampdu_rx_factor").len() == 15,
        text::lit("gpioout").len() == 7,
        text::lit("bss").len() == 3,
        text::lit("bsscfg:sup_wpa").len() == 14,
        text::lit("bsscfg:ssid").len() == 11,
        text::lit("bsscfg:wsec").len() == 11,
        text::lit("mfp").len() == 3,
        text::lit("2g_mrate").len() == 8,
        text::lit("country").len() == 7,
{
    reveal_strlit("bus:txglom");
    reveal_strlit("apsta");
    reveal_strlit("ampdu_ba_wsize");
    reveal_strlit("ampdu_mpdu");
    reveal_strlit("ampdu_rx_factor");
    reveal_strlit("gpioout");
    reveal_strlit("bss");
    reveal_strlit("bsscfg:sup_wpa");
    reveal_strlit("bsscfg:ssid");
    reveal_strlit("bsscfg:wsec");
    reveal_strlit("mfp");
    reveal_strlit("2g_mrate");
    reveal_strlit("country");
    vstd::utf8::is_ascii_chars_encode_utf8("bus:txglom"@);
    vstd::utf8::is_ascii_chars_encode_utf8("apsta"@);
    vstd::utf8::is_ascii_chars_encode_utf8("ampdu_ba_wsize"@);
    vstd::utf8::is_ascii_chars_encode_utf8("ampdu_mpdu"@);
    vstd::utf8::is_ascii_chars_encode_utf8("ampdu_rx_factor"@);
    vstd::utf8::is_ascii_chars_encode_utf8("gpioout"@);
    vstd::utf8::is_ascii_chars_encode_utf8("bss"@);
    vstd::utf8::is_ascii_chars_encode_utf8("bsscfg:sup_wpa"@);
    vstd::utf8::is_ascii_chars_encode_utf8("bsscfg:ssid"@);
    vstd::utf8::is_ascii_chars_encode_utf8("bsscfg:wsec"@);
    vstd::utf8::is_ascii_chars_encode_utf8("mfp"@);
    vstd::utf8::is_ascii_chars_encode_utf8("2g_mrate"@);
    vstd::utf8::is_ascii_chars_encode_utf8("country"@);
}

/// The requests that end the bring-up.
pub fn control_script() -> (v: Vec<Request>)
    ensures
        wants(v@) == control_wants(),
        all_sound(v@),
{
    proof {
        name_lengths();
    }
    let mut v: Vec<Request> = Vec::new();
    push_request(&mut v, make_number(5, 0, "bus:txglom", 0));
    push_request(&mut v, make_number(6, 0, "apsta", 1));
    push_request(&mut v, make_number(8, 0, "ampdu_ba_wsize", 8));
    push_request(&mut v, make_number(9, 0, "ampdu_mpdu", 4));
    push_request(&mut v, make_number(10, 0, "ampdu_rx_factor", 0));
    assert(wants(v@) =~= control_wants());
    v
}

/// The request that sets the chip's LED.
pub fn led_request(on: bool) -> (r: Request)
    ensures
        r@ == set_pair(
            20,
            0,
            "gpioout",
            1,
            if on {
                1
            } else {
                0
            },
        ),
        sound_request(r@),
        sets_pair(
            r@,
            0,
            "gpioout",
            1,
            if on {
                1
            } else {
                0
            },
        ),
{
    proof {
        name_lengths();
        pair_is_set(20, 0, "gpioout", 1, 1);
        pair_is_set(20, 0, "gpioout", 1, 0);
    }
    make_pair(
        20,
        0,
        "gpioout",
        1,
        if on {
            1
        } else {
            0
        },
    )
}

/// `n` bytes of ones.
pub open spec fn ones(n: nat) -> Seq<u8> {
    Seq::new(n, |i: int| 0xffu8)
}

fn append_ones(v: &mut Vec<u8>, n: usize)
    ensures
        final(v)@ == old(v)@ + ones(n as nat),
{
    let ghost start = v@;
    let mut i: usize = 0;
    while i < n
        invariant
            i <= n,
            v@ == start + ones(i as nat),
        decreases n - i,
    {
        v.push(0xff);
        i = i + 1;
        assert(v@ =~= start + ones(i as nat));
    }
}

/// The events that are wanted: scan results among them.
pub open spec fn event_mask() -> Seq<u8> {
    cstr("bsscfg:event_msgs") + text::zeros(4) + [0x49u8, 0x10, 0x01, 0, 0, 0x40, 0, 0, 0x20, 0, 1]@
        + text::zeros(7)
}

/// The scan: version 1, start, an id, any network, any address, any type, and
/// the defaults for all else.
pub open spec fn scan_bytes() -> Seq<u8> {
    cstr("escan") + le32(1) + [1u8, 0, 0x34, 0x12]@ + text::zeros(36) + ones(6) + [2u8, 0]@ + ones(16)
        + text::zeros(6)
}

/// The requests that start a scan: choose the events, switch the radio on, scan.
pub open spec fn scan_wants() -> Seq<Wanted> {
    seq![
        byte_request(2, SET_VAR, 8, 0, event_mask(), 40),
        byte_request(2, 2, 9, 0, Seq::empty(), 0),
        byte_request(2, SET_VAR, 10, 0, scan_bytes(), 80),
    ]
}

/// The requests that start a scan.
pub fn scan_script() -> (v: Vec<Request>)
    ensures
        wants(v@) == scan_wants(),
        all_sound(v@),
{
    let mut evt = named_bytes("bsscfg:event_msgs");
    append_zeros(&mut evt, 4);
    append(&mut evt, [0x49u8, 0x10, 0x01, 0, 0, 0x40, 0, 0, 0x20, 0, 1].as_slice());
    append_zeros(&mut evt, 7);
    let mut esc = named_bytes("escan");
    push_le32(&mut esc, 1);
    append(&mut esc, [1u8, 0, 0x34, 0x12].as_slice());
    append_zeros(&mut esc, 36);
    append_ones(&mut esc, 6);
    append(&mut esc, [2u8, 0].as_slice());
    append_ones(&mut esc, 16);
    append_zeros(&mut esc, 6);
    let none: Vec<u8> = Vec::new();
    let mut v: Vec<Request> = Vec::new();
    push_request(&mut v, make_bytes(2, SET_VAR, 8, 0, evt.as_slice(), 40));
    push_request(&mut v, make_bytes(2, 2, 9, 0, none.as_slice(), 0));
    push_request(&mut v, make_bytes(2, SET_VAR, 10, 0, esc.as_slice(), 80));
    assert(wants(v@) =~= scan_wants());
    v
}

/// Bytes that the list of networks may take.
pub const LIST_LEN: usize = 384;

/// The networks heard during a scan.
pub struct Networks {
    pub names: Vec<Vec<u8>>,
    /// Bytes of the list: every name and a line end.
    pub len: usize,
    /// Result frames so far.
    pub events: u32,
}

/// The names of a list.
pub open spec fn names_of(v: Seq<Vec<u8>>) -> Seq<Seq<u8>> {
    Seq::new(v.len(), |i: int| v[i]@)
}

/// The list as text, one name on a line.
pub open spec fn list_text(names: Seq<Seq<u8>>) -> Seq<u8>
    decreases names.len(),
{
    if names.len() == 0 {
        Seq::empty()
    } else {
        list_text(names.drop_last()) + names.last() + seq![10u8]
    }
}

/// A name that can be listed.
pub open spec fn good_name(s: Seq<u8>) -> bool {
    &&& 1 <= s.len() <= 32
    &&& forall|i: int| 0 <= i < s.len() ==> text::printable(#[trigger] s[i])
}

/// No name is listed twice.
pub open spec fn no_doubles(names: Seq<Seq<u8>>) -> bool {
    forall|i: int, j: int| 0 <= i < j < names.len() ==> names[i] != names[j]
}

/// The network name in a result frame: its length stands 110 bytes behind the
/// header. `None` when the length or a character is not one of a name.
pub open spec fn heard_name(fr: Seq<u32>) -> Option<Seq<u8>> {
    let lp = header_len(fr) + 110;
    let name = Seq::new(frame_byte(fr, lp) as nat, |i: int| frame_byte(fr, lp + 1 + i));
    if good_name(name) {
        Some(name)
    } else {
        None
    }
}

/// The list `had` after a result frame: its network is listed, unless it is
/// listed already or does not fit.
pub open spec fn listed(had: Seq<Seq<u8>>, fr: Seq<u32>) -> Seq<Seq<u8>> {
    match heard_name(fr) {
        Some(s) if !had.contains(s) && list_text(had).len() + s.len() < LIST_LEN => had.push(s),
        _ => had,
    }
}

/// A frame's network name.
pub fn heard_network(fr: &[u32]) -> (r: Option<Vec<u8>>)
    requires
        fr@.len() == FRAME_WORDS,
    ensures
        match heard_name(fr@) {
            Some(s) => r matches Some(v) && v@ == s,
            None => r is None,
        },
{
    let lp: usize = (fr[1] / 0x100_0000) as usize + 110;
    let n: usize = byte_of(fr, lp) as usize;
    let ghost name = Seq::new(n as nat, |i: int| frame_byte(fr@, lp + 1 + i));
    if n < 1 || n > 32 {
        return None;
    }
    let mut v: Vec<u8> = Vec::new();
    let mut i: usize = 0;
    while i < n
        invariant
            i <= n <= 32,
            lp == header_len(fr@) + 110,
            n == frame_byte(fr@, lp as int),
            fr@.len() == FRAME_WORDS,
            name == Seq::new(n as nat, |i: int| frame_byte(fr@, lp + 1 + i)),
            v@ == name.take(i as int),
            forall|j: int| 0 <= j < i ==> text::printable(#[trigger] name[j]),
        decreases n - i,
    {
        let c: u8 = byte_of(fr, lp + 1 + i);
        assert(c == name[i as int]);
        if !is_printable(c) {
            assert(!good_name(name));
            return None;
        }
        v.push(c);
        i = i + 1;
        assert(v@ =~= name.take(i as int));
    }
    assert(v@ =~= name);
    Some(v)
}

impl Networks {
    /// A sound list: only good names, none twice, and no longer than it may be.
    pub open spec fn wf(&self) -> bool {
        &&& self.len == list_text(names_of(self.names@)).len()
        &&& self.len <= LIST_LEN
        &&& no_doubles(names_of(self.names@))
        &&& forall|i: int|
            0 <= i < self.names@.len() ==> good_name(#[trigger] names_of(self.names@)[i])
    }

    /// Nothing heard yet.
    pub fn new() -> (n: Networks)
        ensures
            n.wf(),
            names_of(n.names@) == Seq::<Seq<u8>>::empty(),
            n.events == 0,
    {
        let n = Networks { names: Vec::new(), len: 0, events: 0 };
        assert(names_of(n.names@) =~= Seq::<Seq<u8>>::empty());
        n
    }

    fn knows(&self, name: &[u8]) -> (r: bool)
        ensures
            r == names_of(self.names@).contains(name@),
    {
        let mut i: usize = 0;
        while i < self.names.len()
            invariant
                i <= self.names@.len(),
                forall|j: int| 0 <= j < i ==> names_of(self.names@)[j] != name@,
            decreases self.names@.len() - i,
        {
            if same(self.names[i].as_slice(), name) {
                assert(names_of(self.names@)[i as int] == name@);
                return true;
            }
            i = i + 1;
        }
        false
    }

    /// Take in a result frame: its network is listed, unless it is listed
    /// already or does not fit.
    pub fn hear(&mut self, fr: &[u32])
        requires
            old(self).wf(),
            fr@.len() == FRAME_WORDS,
            old(self).events < u32::MAX,
        ensures
            final(self).wf(),
            final(self).events == old(self).events + 1,
            names_of(final(self).names@) == listed(names_of(old(self).names@), fr@),
    {
        self.events = self.events + 1;
        let ghost had = names_of(self.names@);
        if let Some(name) = heard_network(fr) {
            if !self.knows(name.as_slice()) && self.len + name.len() < LIST_LEN {
                let n: usize = name.len();
                let ghost s = name@;
                self.names.push(name);
                self.len = self.len + n + 1;
                proof {
                    let now = names_of(self.names@);
                    assert(now =~= had.push(s));
                    assert(now.drop_last() =~= had);
                    assert forall|i: int, j: int| 0 <= i < j < now.len() implies now[i]
                        != now[j] by {
                        assert(now[i] == had[i]);
                        assert(had.contains(had[i]));
                    }
                    assert forall|i: int| 0 <= i < self.names@.len() implies good_name(
                        #[trigger] names_of(self.names@)[i],
                    ) by {
                        if i < had.len() {
                            assert(good_name(had[i]));
                        }
                    }
                }
            }
        }
    }

    /// The list as text, packed into the words from which the portal's form is
    /// built.
    pub fn packed_list(&self) -> (v: Vec<u32>)
        requires
            self.wf(),
        ensures
            v@ == words::packed(list_text(names_of(self.names@)), 100),
    {
        let mut t: Vec<u8> = Vec::new();
        let mut i: usize = 0;
        let ghost names = names_of(self.names@);
        assert(names.take(0) =~= Seq::<Seq<u8>>::empty());
        while i < self.names.len()
            invariant
                i <= self.names@.len(),
                names == names_of(self.names@),
                t@ == list_text(names.take(i as int)),
            decreases self.names@.len() - i,
        {
            assert(names.take(i + 1).drop_last() =~= names.take(i as int));
            append(&mut t, self.names[i].as_slice());
            t.push(10);
            i = i + 1;
            assert(t@ =~= list_text(names.take(i as int)));
        }
        assert(names.take(i as int) =~= names);
        pack(t.as_slice(), 100)
    }
}

/// A scan under way: what was heard, and how often the radio was polled.
pub struct Scan {
    pub heard: Networks,
    pub polls: u32,
}

impl Scan {
    /// A sound scan: no more results than polls, and no more polls than there
    /// are to be.
    pub open spec fn wf(&self) -> bool {
        &&& self.heard.wf()
        &&& self.heard.events <= self.polls <= SCAN_POLLS
    }

    /// Begin, with nothing heard yet.
    pub fn new() -> (s: Scan)
        ensures
            s.wf(),
            s.polls == 0,
            s.heard.events == 0,
            names_of(s.heard.names@) == Seq::<Seq<u8>>::empty(),
    {
        Scan { heard: Networks::new(), polls: 0 }
    }

    /// Whether the scan is over.
    pub fn done(&self) -> (r: bool)
        ensures
            r == (self.polls >= SCAN_POLLS),
    {
        self.polls >= SCAN_POLLS
    }

    /// Take what a poll gave: the header of the frame `fr`, if one came. Its
    /// credit is taken, and a frame of the event channel is a result. Returns
    /// how many cycles to wait before the next poll.
    pub fn turn(&mut self, flow: &mut Flow, got: Option<RxInfo>, fr: &[u32]) -> (cycles: u32)
        requires
            old(self).wf(),
            old(self).polls < SCAN_POLLS,
            fr@.len() == FRAME_WORDS,
        ensures
            final(self).wf(),
            final(self).polls == old(self).polls + 1,
            match got {
                Some(info) => {
                    let result = info.chan == 1;
                    &&& cycles == 0
                    &&& *final(flow) == old(flow).after(info)
                    &&& final(self).heard.events == old(self).heard.events + if result {
                        1int
                    } else {
                        0int
                    }
                    &&& names_of(final(self).heard.names@) == if result {
                        listed(names_of(old(self).heard.names@), fr@)
                    } else {
                        names_of(old(self).heard.names@)
                    }
                },
                None => {
                    &&& cycles == 8_000
                    &&& *final(flow) == *old(flow)
                    &&& final(self).heard == old(self).heard
                },
            },
    {
        self.polls = self.polls + 1;
        match got {
            Some(info) => {
                flow.take_credit(info);
                if info.chan == 1 {
                    self.heard.hear(fr);
                }
                0
            },
            None => 8_000,
        }
    }
}

/// The passphrase record: its length, a mark that it is one, and 64 bytes.
pub open spec fn pmk_bytes(c: JoinCreds) -> Seq<u8> {
    le32(c.pass_len | 0x1_0000) + clipped(c.pass@, c.pass_len, 64)
}

/// The network record: the name's length, and 32 bytes.
pub open spec fn ssid_bytes(c: JoinCreds) -> Seq<u8> {
    le32(c.ssid_len) + clipped(c.ssid@, c.ssid_len, 32)
}

/// The first `len` bytes of `s`, filled up with zeros to `n`.
pub open spec fn clipped(s: Seq<u8>, len: u32, n: nat) -> Seq<u8> {
    Seq::new(
        n,
        |i: int|
            if i < len && i < s.len() {
                s[i]
            } else {
                0u8
            },
    )
}

fn append_clipped(v: &mut Vec<u8>, s: &[u8], len: u32, n: usize)
    ensures
        final(v)@ == old(v)@ + clipped(s@, len, n as nat),
{
    let ghost start = v@;
    let ghost all = clipped(s@, len, n as nat);
    let mut i: usize = 0;
    assert(start =~= start + all.take(0));
    while i < n
        invariant
            i <= n,
            all == clipped(s@, len, n as nat),
            v@ == start + all.take(i as int),
        decreases n - i,
    {
        if (i as u64) < len as u64 && i < s.len() {
            v.push(s[i]);
        } else {
            v.push(0);
        }
        i = i + 1;
        assert(v@ =~= start + all.take(i as int));
    }
    assert(all.take(i as int) =~= all);
}

/// The requests that join a network as a station: the access point goes down,
/// the supplicant comes up, then security, passphrase and name.
pub open spec fn join_wants(c: JoinCreds) -> Seq<Wanted> {
    seq![
        set_pair(60, 0, "bss", 1, 0),
        set_pair(61, 0, "bsscfg:sup_wpa", 0, 1),
        word_request(134, 62, 0, 0x04),
        word_request(20, 63, 0, 1),
        word_request(22, 64, 0, 0),
        word_request(165, 65, 0, 0x80),
        byte_request(2, 268, 66, 0, pmk_bytes(c), 68),
        byte_request(2, 26, 67, 0, ssid_bytes(c), 36),
    ]
}

/// The requests that join a network.
pub fn join_script(c: &JoinCreds) -> (v: Vec<Request>)
    ensures
        wants(v@) == join_wants(*c),
        all_sound(v@),
{
    proof {
        name_lengths();
    }
    let mut pmk: Vec<u8> = Vec::new();
    push_le32(&mut pmk, c.pass_len | 0x1_0000);
    append_clipped(&mut pmk, c.pass.as_slice(), c.pass_len, 64);
    assert(pmk@ =~= pmk_bytes(*c));
    let mut ssid: Vec<u8> = Vec::new();
    push_le32(&mut ssid, c.ssid_len);
    append_clipped(&mut ssid, c.ssid.as_slice(), c.ssid_len, 32);
    assert(ssid@ =~= ssid_bytes(*c));
    let mut v: Vec<Request> = Vec::new();
    push_request(&mut v, make_pair(60, 0, "bss", 1, 0));
    push_request(&mut v, make_pair(61, 0, "bsscfg:sup_wpa", 0, 1));
    push_request(&mut v, make_word(134, 62, 0, 0x04));
    push_request(&mut v, make_word(20, 63, 0, 1));
    push_request(&mut v, make_word(22, 64, 0, 0));
    push_request(&mut v, make_word(165, 65, 0, 0x80));
    push_request(&mut v, make_bytes(2, 268, 66, 0, pmk.as_slice(), 68));
    push_request(&mut v, make_bytes(2, 26, 67, 0, ssid.as_slice(), 36));
    assert(wants(v@) =~= join_wants(*c));
    v
}

/// Ask which network the interface is associated with.
pub fn bssid_request(id: u16, iface: u32) -> (r: Request)
    requires
        iface < 0x10,
    ensures
        r@ == byte_request(0, 23, id, iface, Seq::empty(), 6),
        sound_request(r@),
{
    let none: Vec<u8> = Vec::new();
    assert(none@ =~= Seq::<u8>::empty());
    make_bytes(0, 23, id, iface, none.as_slice(), 6)
}

/// How often an association is polled, and how often in a row it must stand.
pub const JOIN_POLLS: u32 = 40;

pub const JOIN_STABLE: u32 = 4;

/// An association being polled.
#[derive(Copy, Clone, Debug, PartialEq, Eq, Structural)]
pub struct JoinPoll {
    /// Polls so far.
    pub polls: u32,
    /// Polls in a row that found it.
    pub stable: u32,
}

/// What a poll of the association tells.
#[derive(Copy, Clone, Debug, PartialEq, Eq, Structural)]
pub enum Joined {
    /// Poll again.
    NotYet,
    /// Connected.
    Yes,
    /// Wrong password, not found, or out of time.
    No,
}

impl JoinPoll {
    /// Not polled yet.
    pub fn new() -> (p: JoinPoll)
        ensures
            p == (JoinPoll { polls: 0, stable: 0 }),
    {
        JoinPoll { polls: 0, stable: 0 }
    }

    /// Take the status of a poll: connected once it stood four times in a row.
    pub fn poll(&mut self, status: u32) -> (j: Joined)
        requires
            old(self).polls < JOIN_POLLS,
            old(self).stable < JOIN_STABLE,
        ensures
            final(self).polls == old(self).polls + 1,
            final(self).stable == if status == 0 {
                old(self).stable + 1
            } else {
                0
            },
            j == if final(self).stable >= JOIN_STABLE {
                Joined::Yes
            } else if final(self).polls >= JOIN_POLLS {
                Joined::No
            } else {
                Joined::NotYet
            },
    {
        self.polls = self.polls + 1;
        if status == 0 {
            self.stable = self.stable + 1;
        } else {
            self.stable = 0;
        }
        if self.stable >= JOIN_STABLE {
            Joined::Yes
        } else if self.polls >= JOIN_POLLS {
            Joined::No
        } else {
            Joined::NotYet
        }
    }
}

/// The interface of the access point.
pub const IFACE_AP: u8 = 1;

/// The interface of the station.
pub const IFACE_STA: u8 = 0;

/// The interface on which Ethernet frames go out.
#[derive(Copy, Clone, Debug, PartialEq, Eq, Structural)]
pub struct TxIface {
    pub iface: u8,
}

impl TxIface {
    /// That of the access point, until a network is joined.
    pub fn new() -> (t: TxIface)
        ensures
            t == (TxIface { iface: IFACE_AP }),
    {
        TxIface { iface: IFACE_AP }
    }

    /// Take what a poll of the association told: once connected, frames go out on
    /// the station's interface.
    pub fn take_join(&mut self, j: Joined)
        ensures
            *final(self) == if j == Joined::Yes {
                TxIface { iface: IFACE_STA }
            } else {
                *old(self)
            },
    {
        if j == Joined::Yes {
            self.iface = IFACE_STA;
        }
    }
}

/// How many of the last statuses were zero.
pub open spec fn zeros_at_end(s: Seq<u32>) -> nat
    decreases s.len(),
{
    if s.len() == 0 || s.last() != 0 {
        0
    } else {
        zeros_at_end(s.drop_last()) + 1
    }
}

/// The stable count is the number of zeros at the end of all statuses so far,
/// so an association counts only when its last four polls all found it.
pub proof fn stable_means_in_a_row(s: Seq<u32>, status: u32)
    ensures
        zeros_at_end(s.push(status)) == if status == 0 {
            zeros_at_end(s) + 1
        } else {
            0
        },
{
    assert(s.push(status).drop_last() =~= s);
}

/// The board's network name: a prefix and its id in upper-case hexadecimal.
pub fn board_ssid(id: u64) -> (v: Vec<u8>)
    ensures
        v@ == text::lit("hubris-") + text::upper_hex(id as nat, 16),
{
    let mut v: Vec<u8> = Vec::new();
    append_str(&mut v, "hubris-");
    append_upper_hex(&mut v, id, 16);
    assert(v@ =~= text::lit("hubris-") + text::upper_hex(id as nat, 16));
    v
}

/// The bytes that set the access point's name: the interface, the name's
/// length, and 32 bytes.
pub open spec fn ap_ssid_bytes(ssid: Seq<u8>) -> Seq<u8> {
    cstr("bsscfg:ssid") + le32(1) + le32(ssid.len() as u32) + clipped(ssid, ssid.len() as u32, 32)
}

/// The bytes that set the country: any, any revision.
pub open spec fn country_bytes() -> Seq<u8> {
    cstr("country") + le32(0x5858) + le32(0xFFFF_FFFF) + le32(0x5858)
}

/// The requests that bring an open access point up, up to the last one, whose
/// status tells whether it is.
pub open spec fn ap_wants(ssid: Seq<u8>) -> Seq<Wanted> {
    seq![
        byte_request(2, SET_VAR, 40, 0, country_bytes(), 20),
        byte_request(2, 2, 41, 0, Seq::empty(), 0),
        set_number(42, 0, "ampdu_ba_wsize", 2),
        byte_request(2, SET_VAR, 43, 0, ap_ssid_bytes(ssid), 52),
        word_request(30, 44, 0, 6),
        set_pair(45, 0, "bsscfg:wsec", 1, 0),
        set_number(46, 1, "mfp", 0),
        word_request(110, 47, 1, 1),
        set_number(48, 1, "2g_mrate", 22),
        word_request(78, 49, 1, 1),
        set_pair(50, 0, "bss", 1, 1),
    ]
}

/// The requests that bring an open access point up.
pub fn ap_script(ssid: &[u8]) -> (v: Vec<Request>)
    requires
        ssid@.len() <= 32,
    ensures
        wants(v@) == ap_wants(ssid@),
        all_sound(v@),
{
    proof {
        name_lengths();
    }
    let mut country = named_bytes("country");
    push_le32(&mut country, 0x5858);
    push_le32(&mut country, 0xFFFF_FFFF);
    push_le32(&mut country, 0x5858);
    let mut name = named_bytes("bsscfg:ssid");
    push_le32(&mut name, 1);
    push_le32(&mut name, ssid.len() as u32);
    append_clipped(&mut name, ssid, ssid.len() as u32, 32);
    let none: Vec<u8> = Vec::new();
    assert(none@ =~= Seq::<u8>::empty());
    let mut v: Vec<Request> = Vec::new();
    push_request(&mut v, make_bytes(2, SET_VAR, 40, 0, country.as_slice(), 20));
    push_request(&mut v, make_bytes(2, 2, 41, 0, none.as_slice(), 0));
    push_request(&mut v, make_number(42, 0, "ampdu_ba_wsize", 2));
    push_request(&mut v, make_bytes(2, SET_VAR, 43, 0, name.as_slice(), 52));
    push_request(&mut v, make_word(30, 44, 0, 6));
    push_request(&mut v, make_pair(45, 0, "bsscfg:wsec", 1, 0));
    push_request(&mut v, make_number(46, 1, "mfp", 0));
    push_request(&mut v, make_word(110, 47, 1, 1));
    push_request(&mut v, make_number(48, 1, "2g_mrate", 22));
    push_request(&mut v, make_word(78, 49, 1, 1));
    push_request(&mut v, make_pair(50, 0, "bss", 1, 1));
    assert(wants(v@) =~= ap_wants(ssid@));
    v
}

/// The 32-bit number at `i` of a byte string, low byte first.
pub open spec fn number_at(b: Seq<u8>, i: int) -> int {
    b[i] + 0x100 * b[i + 1] + 0x1_0000 * b[i + 2] + 0x100_0000 * b[i + 3]
}

proof fn le32_value(n: u32)
    ensures
        le32(n).len() == 4,
        number_at(le32(n), 0) == n,
{
}

proof fn payload_bytes(bytes: Seq<u8>, len: u32)
    requires
        bytes.len() <= len <= 1024,
    ensures
        ({
            let b = words::unpacked(words::packed(bytes, payload_words(len)));
            &&& len <= b.len()
            &&& b.take(bytes.len() as int) == bytes
            &&& forall|k: int| bytes.len() <= k < b.len() ==> #[trigger] b[k] == 0
        }),
{
    words::pack_then_unpack(bytes, payload_words(len));
}

/// A request that sets a variable carries its name, ended by a zero byte, and
/// behind it the number, low byte first.
#[verifier::spinoff_prover]
#[verifier::rlimit(50)]
pub proof fn numbers_are_carried(id: u16, iface: u32, name: &str, n: u32)
    requires
        text::lit(name).len() <= 64,
    ensures
        ({
            let w = set_number(id, iface, name, n);
            let b = words::unpacked(w.payload);
            let k = text::lit(name).len() as int;
            &&& w.kind == 2
            &&& w.cmd == SET_VAR
            &&& w.id == id
            &&& w.iface == iface
            &&& w.len == k + 5
            &&& b.take(k) == text::lit(name)
            &&& b[k] == 0
            &&& number_at(b, k + 1) == n
        }),
{
    let bytes = cstr(name) + le32(n);
    let k = text::lit(name).len() as int;
    payload_bytes(bytes, bytes.len() as u32);
    le32_value(n);
    let b = words::unpacked(set_number(id, iface, name, n).payload);
    assert(b.take(k) =~= bytes.take(k));
    assert(bytes.take(k) =~= text::lit(name));
    assert forall|j: int| 0 <= j < bytes.len() implies b[j] == bytes[j] by {
        assert(b[j] == b.take(bytes.len() as int)[j]);
    }
    assert(bytes[k + 1] == le32(n)[0] && bytes[k + 2] == le32(n)[1] && bytes[k + 3] == le32(n)[2]
        && bytes[k + 4] == le32(n)[3]);
}

/// A request that sets a variable to two numbers carries its name, ended by a
/// zero byte, and behind it the two, in this order.
#[verifier::spinoff_prover]
#[verifier::rlimit(50)]
pub proof fn pairs_are_carried(id: u16, iface: u32, name: &str, x: u32, y: u32)
    requires
        text::lit(name).len() <= 64,
    ensures
        ({
            let w = set_pair(id, iface, name, x, y);
            let b = words::unpacked(w.payload);
            let k = text::lit(name).len() as int;
            &&& w.kind == 2
            &&& w.cmd == SET_VAR
            &&& w.id == id
            &&& w.iface == iface
            &&& w.len == k + 9
            &&& b.take(k) == text::lit(name)
            &&& b[k] == 0
            &&& number_at(b, k + 1) == x
            &&& number_at(b, k + 5) == y
        }),
{
    let bytes = cstr(name) + le32(x) + le32(y);
    let k = text::lit(name).len() as int;
    payload_bytes(bytes, bytes.len() as u32);
    le32_value(x);
    le32_value(y);
    let b = words::unpacked(set_pair(id, iface, name, x, y).payload);
    assert(b.take(k) =~= bytes.take(k));
    assert(bytes.take(k) =~= text::lit(name));
    assert forall|j: int| 0 <= j < bytes.len() implies b[j] == bytes[j] by {
        assert(b[j] == b.take(bytes.len() as int)[j]);
    }
    assert(bytes[k + 1] == le32(x)[0] && bytes[k + 2] == le32(x)[1] && bytes[k + 3] == le32(x)[2]
        && bytes[k + 4] == le32(x)[3]);
    assert(bytes[k + 5] == le32(y)[0] && bytes[k + 6] == le32(y)[1] && bytes[k + 7] == le32(y)[2]
        && bytes[k + 8] == le32(y)[3]);
}

/// Whether a request sets the variable `name` to `x` and `y` on an interface, as
/// the chip reads it.
#[verifier::opaque]
pub open spec fn sets_pair(w: Wanted, iface: u32, name: &str, x: int, y: int) -> bool {
    let b = words::unpacked(w.payload);
    let k = text::lit(name).len() as int;
    &&& w.kind == 2
    &&& w.cmd == 263
    &&& w.iface == iface
    &&& w.len == k + 9
    &&& b.take(k) == text::lit(name)
    &&& b[k] == 0
    &&& number_at(b, k + 1) == x
    &&& number_at(b, k + 5) == y
}

/// Whether a request sets the variable `name` to `n` on an interface, as the chip
/// reads it.
#[verifier::opaque]
pub open spec fn sets_number(w: Wanted, iface: u32, name: &str, n: int) -> bool {
    let b = words::unpacked(w.payload);
    let k = text::lit(name).len() as int;
    &&& w.kind == 2
    &&& w.cmd == 263
    &&& w.iface == iface
    &&& w.len == k + 5
    &&& b.take(k) == text::lit(name)
    &&& b[k] == 0
    &&& number_at(b, k + 1) == n
}

/// Whether a request gives the chip a record of a length, a mark and a text in a
/// field of `room` bytes.
#[verifier::opaque]
pub open spec fn gives_record(w: Wanted, cmd: u32, mark: int, s: Seq<u8>, room: int) -> bool {
    let b = words::unpacked(w.payload);
    &&& w.kind == 2
    &&& w.cmd == cmd
    &&& w.iface == 0
    &&& w.len == 4 + room
    &&& b[0] + 0x100 * b[1] == s.len()
    &&& b[2] + 0x100 * b[3] == mark
    &&& b.subrange(4, 4 + s.len() as int) == s
    &&& forall|k: int| 4 + s.len() <= k < 4 + room ==> #[trigger] b[k] == 0
}

#[verifier::spinoff_prover]
#[verifier::rlimit(50)]
proof fn records_are_carried(s: Seq<u8>, buf: Seq<u8>, n: u32, head: u32, room: nat)
    requires
        n == s.len(),
        s.len() <= room <= 64,
        s.len() <= buf.len(),
        buf.take(s.len() as int) == s,
        head == s.len() || head == s.len() + 0x1_0000,
    ensures
        ({
            let b = words::unpacked(
                words::packed(le32(head) + clipped(buf, n, room), payload_words((4 + room) as u32)),
            );
            &&& b[0] + 0x100 * b[1] == s.len()
            &&& b[2] + 0x100 * b[3] == head / 0x1_0000
            &&& b.subrange(4, 4 + s.len() as int) == s
            &&& forall|k: int| 4 + s.len() <= k < 4 + room ==> #[trigger] b[k] == 0
        }),
{
    let bytes = le32(head) + clipped(buf, n, room);
    payload_bytes(bytes, (4 + room) as u32);
    le32_value(head);
    let b = words::unpacked(words::packed(bytes, payload_words((4 + room) as u32)));
    assert forall|j: int| 0 <= j < bytes.len() implies b[j] == bytes[j] by {
        assert(b[j] == b.take(bytes.len() as int)[j]);
    }
    assert(bytes[0] == le32(head)[0] && bytes[1] == le32(head)[1] && bytes[2] == le32(head)[2]
        && bytes[3] == le32(head)[3]);
    assert forall|k: int| 0 <= k < s.len() implies b[4 + k] == s[k] by {
        assert(bytes[4 + k] == clipped(buf, n, room)[k]);
        assert(buf[k] == buf.take(s.len() as int)[k]);
    }
    assert(b.subrange(4, 4 + s.len() as int) =~= s);
    assert forall|k: int| 4 + s.len() <= k < 4 + room implies #[trigger] b[k] == 0 by {
        assert(bytes[k] == clipped(buf, n, room)[k - 4]);
    }
}

proof fn pair_is_set(id: u16, iface: u32, name: &str, x: u32, y: u32)
    requires
        text::lit(name).len() <= 64,
    ensures
        sets_pair(set_pair(id, iface, name, x, y), iface, name, x as int, y as int),
{
    reveal(sets_pair);
    pairs_are_carried(id, iface, name, x, y);
}

proof fn number_is_set(id: u16, iface: u32, name: &str, n: u32)
    requires
        text::lit(name).len() <= 64,
    ensures
        sets_number(set_number(id, iface, name, n), iface, name, n as int),
{
    reveal(sets_number);
    numbers_are_carried(id, iface, name, n);
}

#[verifier::spinoff_prover]
#[verifier::rlimit(50)]
proof fn join_is_set_up(c: JoinCreds)
    ensures
        sets_pair(join_wants(c)[0], 0, "bss", 1, 0),
        sets_pair(join_wants(c)[1], 0, "bsscfg:sup_wpa", 0, 1),
{
    name_lengths();
    pair_is_set(60, 0, "bss", 1, 0);
    pair_is_set(61, 0, "bsscfg:sup_wpa", 0, 1);
}

#[verifier::spinoff_prover]
#[verifier::rlimit(50)]
proof fn passphrases_are_carried(c: JoinCreds, pass: Seq<u8>)
    requires
        pass.len() <= 64,
        c.pass_len == pass.len(),
        pass.len() <= c.pass@.len(),
        c.pass@.take(pass.len() as int) == pass,
    ensures
        gives_record(join_wants(c)[6], 268, 1, pass, 64),
{
    let n = c.pass_len;
    assert(n | 0x1_0000 == n + 0x1_0000) by (bit_vector)
        requires
            n <= 64,
    ;
    reveal(gives_record);
    records_are_carried(pass, c.pass@, c.pass_len, (n + 0x1_0000) as u32, 64);
    assert(join_wants(c)[6] == byte_request(2, 268, 66, 0, pmk_bytes(c), 68));
}

#[verifier::spinoff_prover]
#[verifier::rlimit(50)]
proof fn names_are_carried(c: JoinCreds, ssid: Seq<u8>)
    requires
        ssid.len() <= 32,
        c.ssid_len == ssid.len(),
        ssid.len() <= c.ssid@.len(),
        c.ssid@.take(ssid.len() as int) == ssid,
    ensures
        gives_record(join_wants(c)[7], 26, 0, ssid, 32),
{
    reveal(gives_record);
    records_are_carried(ssid, c.ssid@, c.ssid_len, c.ssid_len, 32);
    assert(join_wants(c)[7] == byte_request(2, 26, 67, 0, ssid_bytes(c), 36));
}

/// Joining uses the credentials as what they are: of all requests exactly one
/// gives a passphrase, and that is the password behind its length and the mark
/// of a passphrase; exactly one, the last, gives a network name, and that is the
/// name behind its length. Before, the access point goes down, the supplicant
/// comes up, and the link is set to AES with WPA2, an access point's network and
/// open authentication.
#[verifier::spinoff_prover]
#[verifier::rlimit(50)]
pub proof fn joining_uses_the_credentials(c: JoinCreds, ssid: Seq<u8>, pass: Seq<u8>)
    requires
        ssid.len() <= 32,
        pass.len() <= 64,
        c.ssid_len == ssid.len(),
        c.pass_len == pass.len(),
        ssid.len() <= c.ssid@.len(),
        pass.len() <= c.pass@.len(),
        c.ssid@.take(ssid.len() as int) == ssid,
        c.pass@.take(pass.len() as int) == pass,
    ensures
        ({
            let w = join_wants(c);
            &&& w.len() == 8
            &&& forall|i: int| 0 <= i < 8 ==> ((#[trigger] w[i]).cmd == 268) == (i == 6)
            &&& forall|i: int| 0 <= i < 8 ==> ((#[trigger] w[i]).cmd == 26) == (i == 7)
            &&& gives_record(w[6], 268, 1, pass, 64)
            &&& gives_record(w[7], 26, 0, ssid, 32)
            &&& sets_pair(w[0], 0, "bss", 1, 0)
            &&& sets_pair(w[1], 0, "bsscfg:sup_wpa", 0, 1)
            &&& w[2].cmd == 134 && w[2].payload == seq![4u32]
            &&& w[3].cmd == 20 && w[3].payload == seq![1u32]
            &&& w[4].cmd == 22 && w[4].payload == seq![0u32]
            &&& w[5].cmd == 165 && w[5].payload == seq![0x80u32]
        }),
{
    let w = join_wants(c);
    join_is_set_up(c);
    passphrases_are_carried(c, pass);
    names_are_carried(c, ssid);
    assert forall|i: int| 0 <= i < 8 implies ((#[trigger] w[i]).cmd == 268) == (i == 6) by {}
    assert forall|i: int| 0 <= i < 8 implies ((#[trigger] w[i]).cmd == 26) == (i == 7) by {}
}

/// The access point opens under the name that it is given, in the clear, on
/// channel 6 and on its own interface, and comes up last.
#[verifier::spinoff_prover]
#[verifier::rlimit(50)]
pub proof fn the_access_point_opens_under_its_name(ssid: Seq<u8>)
    requires
        ssid.len() <= 32,
    ensures
        ({
            let w = ap_wants(ssid);
            let b = words::unpacked(w[3].payload);
            &&& w.len() == 11
            &&& w[3].cmd == 263 && w[3].len == 52
            &&& b.take(11) == text::lit("bsscfg:ssid") && b[11] == 0
            &&& number_at(b, 12) == 1
            &&& number_at(b, 16) == ssid.len()
            &&& b.subrange(20, 20 + ssid.len() as int) == ssid
            &&& forall|k: int| 20 + ssid.len() <= k < 52 ==> #[trigger] b[k] == 0
            &&& w[1].cmd == 2
            &&& sets_number(w[2], 0, "ampdu_ba_wsize", 2)
            &&& w[4].cmd == 30 && w[4].payload == seq![6u32]
            &&& sets_pair(w[5], 0, "bsscfg:wsec", 1, 0)
            &&& sets_number(w[6], 1, "mfp", 0)
            &&& w[7].cmd == 110 && w[7].iface == 1 && w[7].payload == seq![1u32]
            &&& sets_number(w[8], 1, "2g_mrate", 22)
            &&& w[9].cmd == 78 && w[9].iface == 1 && w[9].payload == seq![1u32]
            &&& sets_pair(w[10], 0, "bss", 1, 1)
        }),
{
    name_lengths();
    number_is_set(42, 0, "ampdu_ba_wsize", 2);
    pair_is_set(45, 0, "bsscfg:wsec", 1, 0);
    number_is_set(46, 1, "mfp", 0);
    number_is_set(48, 1, "2g_mrate", 22);
    pair_is_set(50, 0, "bss", 1, 1);
    let bytes = ap_ssid_bytes(ssid);
    payload_bytes(bytes, 52);
    le32_value(1);
    le32_value(ssid.len() as u32);
    let b = words::unpacked(ap_wants(ssid)[3].payload);
    assert forall|j: int| 0 <= j < bytes.len() implies b[j] == bytes[j] by {
        assert(b[j] == b.take(bytes.len() as int)[j]);
    }
    assert(bytes.take(11) =~= text::lit("bsscfg:ssid"));
    assert(b.take(11) =~= bytes.take(11));
    assert(bytes[12] == le32(1)[0] && bytes[13] == le32(1)[1] && bytes[14] == le32(1)[2]
        && bytes[15] == le32(1)[3]);
    let l = le32(ssid.len() as u32);
    assert(bytes[16] == l[0] && bytes[17] == l[1] && bytes[18] == l[2] && bytes[19] == l[3]);
    let body = clipped(ssid, ssid.len() as u32, 32);
    assert forall|k: int| 0 <= k < 32 implies bytes[20 + k] == body[k] by {}
    assert(b.subrange(20, 20 + ssid.len() as int) =~= ssid);
    assert forall|k: int| 20 + ssid.len() <= k < 52 implies #[trigger] b[k] == 0 by {
        assert(bytes[20 + (k - 20)] == body[k - 20]);
    }
}

/// A request's frame can be taken apart again: its length and that length's
/// complement, the sequence number, the command, the payload's length, the kind,
/// interface and id of the request, and the payload.
pub proof fn requests_can_be_taken_apart(w: Wanted, seq: u8)
    requires
        sound_request(w),
    ensures
        ({
            let f = request_frame(w, seq);
            let total = 28 + w.len;
            &&& f.len() == 8 + w.payload.len()
            &&& f[1] % 0x1_0000 == total
            &&& f[1] / 0x1_0000 == 0xFFFF - total
            &&& f[0] % 0x800 == total
            &&& f[2] % 0x100 == seq
            &&& f[4] == w.cmd
            &&& f[5] == w.len
            &&& f[6] % 0x1000 == w.kind
            &&& f[6] / 0x1000 % 0x10 == w.iface
            &&& f[6] / 0x1_0000 == w.id
            &&& f.skip(8) == w.payload
        }),
{
    let f = request_frame(w, seq);
    length_is_checked((28 + w.len) as int);
    assert(f.skip(8) =~= w.payload);
    assert(f[6] == w.kind + 0x1000 * (w.iface + 0x10 * w.id));
    assert(f[6] / 0x1000 == w.iface + 0x10 * w.id);
}

/// The header of a received frame is read by its bytes: the channel is byte 5,
/// the credit byte 9, and where the data begin byte 7.
pub proof fn headers_are_read_by_their_bytes(fr: Seq<u32>)
    requires
        fr.len() == FRAME_WORDS,
    ensures
        ({
            let b = words::unpacked(fr);
            &&& info_of(fr).chan == b[5]
            &&& info_of(fr).credit == b[9]
            &&& header_len(fr) == b[7]
        }),
{
    let b = words::unpacked(fr);
    assert(b[5] == words::word_byte(fr[1], 1));
    assert(b[9] == words::word_byte(fr[2], 1));
    assert(b[7] == words::word_byte(fr[1], 3));
}

/// A frame is waiting when its flag is set and it is long enough for a header;
/// its length stands above the flag.
pub proof fn waiting_frames_are_seen(low: u32, flag: bool, len: u32, high: u32)
    requires
        low < 0x100,
        len < 0x800,
        high < 0x1000,
    ensures
        waiting(
            (low + 0x100 * (if flag {
                1int
            } else {
                0
            }) + 0x200 * len + 0x10_0000 * high) as u32,
        ) == if flag && len >= 12 {
            Some(len)
        } else {
            None
        },
{
    let f = if flag {
        1int
    } else {
        0
    };
    let s = low + 0x100 * (f + 2 * (len + 0x800 * high));
    assert(s / 0x100 == f + 2 * (len + 0x800 * high));
    assert(s / 0x200 == len + 0x800 * high);
}

/// The bring-up ends with one frame at a time, both interfaces at once, and the
/// sizes of what the radio gathers.
#[verifier::spinoff_prover]
#[verifier::rlimit(50)]
pub proof fn the_bring_up_sets_its_variables()
    ensures
        control_wants().len() == 5,
        sets_number(control_wants()[0], 0, "bus:txglom", 0),
        sets_number(control_wants()[1], 0, "apsta", 1),
        sets_number(control_wants()[2], 0, "ampdu_ba_wsize", 8),
        sets_number(control_wants()[3], 0, "ampdu_mpdu", 4),
        sets_number(control_wants()[4], 0, "ampdu_rx_factor", 0),
{
    name_lengths();
    number_is_set(5, 0, "bus:txglom", 0);
    number_is_set(6, 0, "apsta", 1);
    number_is_set(8, 0, "ampdu_ba_wsize", 8);
    number_is_set(9, 0, "ampdu_mpdu", 4);
    number_is_set(10, 0, "ampdu_rx_factor", 0);
}

/// The address is asked for under its name, of the interface and under the id
/// that are given, and the request asks and sets nothing.
pub proof fn addresses_are_asked_for(id: u16, iface: u32)
    ensures
        ({
            let w = address_request(id, iface);
            let b = words::unpacked(w.payload);
            &&& w.kind == 0 && w.cmd == 262 && w.id == id && w.iface == iface && w.len == 20
            &&& b.take(13) == text::lit("cur_etheraddr")
            &&& b[13] == 0
        }),
{
    reveal_strlit("cur_etheraddr");
    vstd::utf8::is_ascii_chars_encode_utf8("cur_etheraddr"@);
    let bytes = cstr("cur_etheraddr");
    payload_bytes(bytes, 20);
    let b = words::unpacked(address_request(id, iface).payload);
    assert(bytes.take(13) =~= text::lit("cur_etheraddr"));
    assert(b.take(13) =~= b.take(14).take(13));
    assert(b[13] == b.take(14)[13]);
}

/// The regulatory data is loaded whole, behind its name, the flags, the length
/// and no checksum.
#[verifier::spinoff_prover]
#[verifier::rlimit(50)]
pub proof fn regulatory_data_is_carried(clm: Seq<u8>)
    requires
        clm.len() <= 984,
    ensures
        ({
            let b = words::unpacked(byte_request(2, SET_VAR, 1, 0, clm_bytes(clm), 1004).payload);
            &&& b.take(7) == text::lit("clmload")
            &&& b[7] == 0
            &&& number_at(b, 8) == 0x0002_1006
            &&& number_at(b, 12) == 984
            &&& number_at(b, 16) == 0
            &&& b.subrange(20, 20 + clm.len() as int) == clm
        }),
{
    reveal_strlit("clmload");
    vstd::utf8::is_ascii_chars_encode_utf8("clmload"@);
    let bytes = clm_bytes(clm);
    payload_bytes(bytes, 1004);
    let b = words::unpacked(byte_request(2, SET_VAR, 1, 0, bytes, 1004).payload);
    le32_value(0x0002_1006);
    le32_value(984);
    le32_value(0);
    assert forall|j: int| 0 <= j < bytes.len() implies b[j] == bytes[j] by {
        assert(b[j] == b.take(bytes.len() as int)[j]);
    }
    assert(bytes.take(7) =~= text::lit("clmload"));
    assert(b.take(7) =~= bytes.take(7));
    let f = le32(0x0002_1006);
    let n = le32(984);
    let z = le32(0);
    assert(bytes[8] == f[0] && bytes[9] == f[1] && bytes[10] == f[2] && bytes[11] == f[3]);
    assert(bytes[12] == n[0] && bytes[13] == n[1] && bytes[14] == n[2] && bytes[15] == n[3]);
    assert(bytes[16] == z[0] && bytes[17] == z[1] && bytes[18] == z[2] && bytes[19] == z[3]);
    assert(b.subrange(20, 20 + clm.len() as int) =~= clm);
}

/// A result frame gives the network name that stands in it: behind the header and
/// 110 bytes come its length and the name.
#[verifier::spinoff_prover]
#[verifier::rlimit(50)]
pub proof fn names_are_heard(fr: Seq<u32>, name: Seq<u8>)
    requires
        fr.len() == FRAME_WORDS,
        good_name(name),
        ({
            let b = words::unpacked(fr);
            let p = b[7] as int + 110;
            &&& b[p] == name.len()
            &&& b.subrange(p + 1, p + 1 + name.len()) == name
        }),
    ensures
        heard_name(fr) == Some(name),
{
    headers_are_read_by_their_bytes(fr);
    let b = words::unpacked(fr);
    let p = b[7] as int + 110;
    assert(frame_byte(fr, p) == b[p]);
    let heard = Seq::new(frame_byte(fr, p) as nat, |i: int| frame_byte(fr, p + 1 + i));
    assert forall|i: int| 0 <= i < name.len() implies heard[i] == name[i] by {
        assert(b.subrange(p + 1, p + 1 + name.len())[i] == b[p + 1 + i]);
    }
    assert(heard =~= name);
}

/// The address in an answer stands in six bytes, sixteen behind the header.
#[verifier::spinoff_prover]
#[verifier::rlimit(50)]
pub proof fn addresses_are_read_by_their_bytes(fr: Seq<u32>)
    requires
        fr.len() == FRAME_WORDS,
    ensures
        ({
            let b = words::unpacked(fr);
            let p = b[7] as int / 4 * 4 + 16;
            answered_mac(fr) == b.subrange(p, p + 6)
        }),
{
    headers_are_read_by_their_bytes(fr);
    let b = words::unpacked(fr);
    let k = b[7] as int / 4;
    let p = 4 * k + 16;
    assert(b[p] == words::word_byte(fr[k + 4], 0));
    assert(b[p + 1] == words::word_byte(fr[k + 4], 1));
    assert(b[p + 2] == words::word_byte(fr[k + 4], 2));
    assert(b[p + 3] == words::word_byte(fr[k + 4], 3));
    assert(b[p + 4] == words::word_byte(fr[k + 5], 0));
    assert(b[p + 5] == words::word_byte(fr[k + 5], 1));
    assert(answered_mac(fr) =~= b.subrange(p, p + 6));
}

#[verifier::spinoff_prover]
#[verifier::rlimit(50)]
proof fn scan_events()
    ensures
        ({
            let b = words::unpacked(scan_wants()[0].payload);
            &&& b.take(17) == text::lit("bsscfg:event_msgs") && b[17] == 0
            &&& number_at(b, 18) == 0
            &&& b[30] == 0x20
        }),
{
    assert(text::lit("bsscfg:event_msgs").len() == 17) by {
        reveal_strlit("bsscfg:event_msgs");
        vstd::utf8::is_ascii_chars_encode_utf8("bsscfg:event_msgs"@);
    }
    let e = event_mask();
    payload_bytes(e, 40);
    let b = words::unpacked(words::packed(e, payload_words(40)));
    assert forall|j: int| 0 <= j < 40 implies b[j] == e[j] by {
        assert(b[j] == b.take(40)[j]);
    }
    assert(e.take(17) =~= text::lit("bsscfg:event_msgs"));
    assert(b.take(17) =~= e.take(17));
    assert(e[17] == 0);
    let m = [0x49u8, 0x10, 0x01, 0, 0, 0x40, 0, 0, 0x20, 0, 1]@;
    let front = cstr("bsscfg:event_msgs") + text::zeros(4);
    assert(front.len() == 22);
    assert(e[30] == (front + m)[30]);
    assert((front + m)[30] == m[8]);
    assert(e[30] == 0x20);
    assert(e[18] == 0 && e[19] == 0 && e[20] == 0 && e[21] == 0);
    assert(scan_wants()[0].payload == words::packed(e, payload_words(40)));
}

#[verifier::spinoff_prover]
#[verifier::rlimit(50)]
proof fn scan_order()
    ensures
        ({
            let b = words::unpacked(scan_wants()[2].payload);
            &&& b.take(5) == text::lit("escan") && b[5] == 0
            &&& number_at(b, 6) == 1
            &&& b[10] == 1 && b[11] == 0
            &&& number_at(b, 14) == 0
            &&& forall|i: int| 50 <= i < 56 ==> #[trigger] b[i] == 0xff
        }),
{
    assert(text::lit("escan").len() == 5) by {
        reveal_strlit("escan");
        vstd::utf8::is_ascii_chars_encode_utf8("escan"@);
    }
    let x = scan_bytes();
    assert(x.len() == 80);
    payload_bytes(x, 80);
    let d = words::unpacked(words::packed(x, payload_words(80)));
    assert forall|j: int| 0 <= j < 80 implies d[j] == x[j] by {
        assert(d[j] == d.take(80)[j]);
    }
    assert(x.take(5) =~= text::lit("escan"));
    assert(d.take(5) =~= x.take(5));
    assert(x[5] == 0);
    le32_value(1);
    assert(x[6] == le32(1)[0] && x[7] == le32(1)[1] && x[8] == le32(1)[2] && x[9] == le32(1)[3]);
    assert(x[10] == 1 && x[11] == 0);
    assert(x[14] == 0 && x[15] == 0 && x[16] == 0 && x[17] == 0);
    assert forall|i: int| 50 <= i < 56 implies #[trigger] d[i] == 0xff by {
        assert(x[i] == 0xff);
    }
    assert(scan_wants()[2].payload == words::packed(x, payload_words(80)));
}

/// A scan is started for any network, and its results are among the events that
/// are asked for: they are event 69.
pub proof fn scans_hear_their_results()
    ensures
        scan_wants().len() == 3,
        ({
            let w = scan_wants()[0];
            let b = words::unpacked(w.payload);
            &&& w.kind == 2 && w.cmd == 263
            &&& b.take(17) == text::lit("bsscfg:event_msgs") && b[17] == 0
            &&& number_at(b, 18) == 0
            &&& b[22 + 69int / 8] as int / 0x20 % 2 == 1
        }),
        scan_wants()[1].kind == 2 && scan_wants()[1].cmd == 2,
        ({
            let w = scan_wants()[2];
            let b = words::unpacked(w.payload);
            &&& w.kind == 2 && w.cmd == 263
            &&& b.take(5) == text::lit("escan") && b[5] == 0
            &&& number_at(b, 6) == 1
            &&& b[10] == 1 && b[11] == 0
            &&& number_at(b, 14) == 0
            &&& forall|i: int| 50 <= i < 56 ==> #[trigger] b[i] == 0xff
        }),
{
    scan_events();
    scan_order();
}

} // verus!
