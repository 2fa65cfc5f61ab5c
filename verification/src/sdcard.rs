//! microSD in SPI mode: the power-on handshake and single-block transfers, as
//! machines that say which bus operations come next and take in what the card
//! answered.

use crate::errors::SdError;
use crate::text;
use vstd::prelude::*;

verus! {

/// Clock divider pair for the handshake (about 295 kHz).
pub const INIT_CPSDVSR: u8 = 254;

pub const INIT_SCR: u8 = 1;

/// Clock divider pair for data transfers (25 MHz).
pub const DATA_CPSDVSR: u8 = 6;

pub const DATA_SCR: u8 = 0;

/// Bytes polled for a command's response.
pub const R1_POLLS: u32 = 8;

/// Attempts to bring the card into its idle state.
pub const CMD0_RETRIES: u32 = 16;

/// Attempts to bring the card out of its idle state.
pub const ACMD41_RETRIES: u32 = 2000;

/// Bytes polled for a data-start token.
pub const TOKEN_POLLS: u32 = 100_000;

/// Bytes polled for the end of a block's programming.
pub const WRITE_BUSY: u32 = 2_000_000;

/// Passes without progress after which a block transfer is given up.
pub const SPIN_LIMIT: u32 = 1_000_000;

/// One SD block.
pub const BLOCK_LEN: usize = 512;

/// Depth of the controller's FIFOs.
pub const FIFO_DEPTH: usize = 8;

/// Token that precedes a data block.
pub const TOKEN_START: u8 = 0xFE;

/// Byte clocked out to clock one in.
pub const FILLER: u8 = 0xFF;

/// Status bit: block addressing.
pub const STATUS_CCS: u32 = 1;

/// Status bit: SD version 2.
pub const STATUS_V2: u32 = 2;

/// One operation on the bus.
#[derive(Copy, Clone, PartialEq, Eq, Structural)]
pub enum BusOp {
    /// Set the clock divider.
    SetClock { cpsdvsr: u8, scr: u8 },
    /// Select the card.
    CsLow,
    /// Deselect the card.
    CsHigh,
    /// Clock out a byte and drop what comes in.
    Send(u8),
    /// Wait about a millisecond.
    DelayMs,
}

/// What the machine wants to hear next.
#[derive(Copy, Clone, PartialEq, Eq, Structural)]
pub enum Expect {
    /// The response to a command.
    R1,
    /// Four more response bytes.
    Four,
    /// Nothing: the card is ready, with this status word.
    Ready(u32),
    /// Nothing: the handshake failed.
    Failed(SdError),
}

/// What the card answered.
#[derive(Copy, Clone, PartialEq, Eq, Structural)]
pub enum Reply {
    R1(u8),
    Four(u8, u8, u8, u8),
}

/// Where the handshake stands: which answer it waits for.
#[derive(Copy, Clone, PartialEq, Eq, Structural)]
pub enum InitState {
    /// CMD0, with this many attempts left after this one.
    GoIdle { left: u32 },
    /// CMD8.
    IfCond,
    /// The voltage and pattern that CMD8 echoes.
    IfCondEcho,
    /// CMD55 ahead of CMD41.
    AppCmd { v2: bool, left: u32 },
    /// CMD41.
    OpCond { v2: bool, left: u32 },
    /// CMD58.
    ReadOcr { v2: bool },
    /// The operating-conditions register.
    Ocr { v2: bool },
    /// CMD16.
    BlockLen { v2: bool },
    /// Over.
    Over,
}

/// The bytes of a command: one filler, the command index, the argument, the
/// CRC.
pub open spec fn command_bytes(cmd: u8, arg: u32, crc: u8) -> Seq<u8> {
    seq![
        FILLER,
        0x40 | cmd,
        (arg / 0x100_0000) as u8,
        (arg / 0x1_0000 % 0x100) as u8,
        (arg / 0x100 % 0x100) as u8,
        (arg % 0x100) as u8,
        crc,
    ]
}

/// Sending `bytes`, one operation each.
pub open spec fn sends(bytes: Seq<u8>) -> Seq<BusOp> {
    Seq::new(bytes.len(), |i: int| BusOp::Send(bytes[i]))
}

/// The operations that send a command.
pub open spec fn command_ops(cmd: u8, arg: u32, crc: u8) -> Seq<BusOp> {
    sends(command_bytes(cmd, arg, crc))
}

fn push_op(v: &mut Vec<BusOp>, op: BusOp)
    ensures
        final(v)@ == old(v)@ + seq![op],
{
    v.push(op);
    assert(v@ =~= old(v)@ + seq![op]);
}

fn push_command(v: &mut Vec<BusOp>, cmd: u8, arg: u32, crc: u8)
    ensures
        final(v)@ == old(v)@ + command_ops(cmd, arg, crc),
{
    v.push(BusOp::Send(FILLER));
    v.push(BusOp::Send(0x40 | cmd));
    v.push(BusOp::Send((arg / 0x100_0000) as u8));
    v.push(BusOp::Send((arg / 0x1_0000 % 0x100) as u8));
    v.push(BusOp::Send((arg / 0x100 % 0x100) as u8));
    v.push(BusOp::Send((arg % 0x100) as u8));
    v.push(BusOp::Send(crc));
    assert(v@ =~= old(v)@ + command_ops(cmd, arg, crc));
}

/// A machine's next move: operations to perform, then what to report back.
pub struct Step {
    pub state: InitState,
    pub ops: Vec<BusOp>,
    pub expect: Expect,
}

/// A move in the abstract.
pub struct Move {
    pub state: InitState,
    pub ops: Seq<BusOp>,
    pub expect: Expect,
}

impl Step {
    /// The move that this step is.
    pub open spec fn view(&self) -> Move {
        Move { state: self.state, ops: self.ops@, expect: self.expect }
    }
}

/// Give up: deselect the card and report `e`.
pub open spec fn failing(e: SdError) -> Move {
    Move {
        state: InitState::Over,
        ops: seq![BusOp::CsHigh],
        expect: Expect::Failed(e),
    }
}

/// Send a command and wait for its response in `state`.
pub open spec fn asking(state: InitState, cmd: u8, arg: u32, crc: u8) -> Move {
    Move { state, ops: command_ops(cmd, arg, crc), expect: Expect::R1 }
}

/// Wait for four response bytes in `state`.
pub open spec fn reading(state: InitState) -> Move {
    Move { state, ops: Seq::empty(), expect: Expect::Four }
}

/// The status word of a card.
pub open spec fn status_word(ccs: bool, v2: bool) -> u32 {
    (if ccs {
        STATUS_CCS
    } else {
        0
    } + if v2 {
        STATUS_V2
    } else {
        0
    }) as u32
}

/// Success: deselect, one trailing byte, switch to the data clock.
pub open spec fn succeeding(ccs: bool, v2: bool) -> Move {
    Move {
        state: InitState::Over,
        ops: seq![
            BusOp::CsHigh,
            BusOp::Send(FILLER),
            BusOp::SetClock { cpsdvsr: DATA_CPSDVSR, scr: DATA_SCR },
        ],
        expect: Expect::Ready(status_word(ccs, v2)),
    }
}

/// The first move: the handshake clock, at least 74 clocks with the card
/// deselected, then CMD0.
pub open spec fn first_move() -> Move {
    Move {
        state: InitState::GoIdle { left: (CMD0_RETRIES - 1) as u32 },
        ops: seq![BusOp::SetClock { cpsdvsr: INIT_CPSDVSR, scr: INIT_SCR }, BusOp::CsHigh] + sends(
            Seq::new(10, |i: int| FILLER),
        ) + seq![BusOp::CsLow] + command_ops(0, 0, 0x95),
        expect: Expect::R1,
    }
}

/// The argument of CMD41: the host supports high capacity, said to version 2
/// cards only.
pub open spec fn op_cond_arg(v2: bool) -> u32 {
    if v2 {
        0x4000_0000
    } else {
        0
    }
}

/// The move that follows when `reply` comes in `state`; `None` for a reply that
/// the state does not wait for.
pub open spec fn next_move(state: InitState, reply: Reply) -> Option<Move> {
    match (state, reply) {
        (InitState::GoIdle { left }, Reply::R1(r)) => Some(
            if r == 0x01 {
                asking(InitState::IfCond, 8, 0x1AA, 0x87)
            } else if left > 0 {
                asking(InitState::GoIdle { left: (left - 1) as u32 }, 0, 0, 0x95)
            } else {
                failing(SdError::Init)
            },
        ),
        (InitState::IfCond, Reply::R1(r)) => Some(
            if r == 0x01 {
                reading(InitState::IfCondEcho)
            } else if r != 0xFF && r & 0x04 != 0 {
                asking(
                    InitState::AppCmd { v2: false, left: (ACMD41_RETRIES - 1) as u32 },
                    55,
                    0,
                    0x01,
                )
            } else {
                failing(SdError::Init)
            },
        ),
        (InitState::IfCondEcho, Reply::Four(_, _, c, d)) => Some(
            if c == 0x01 && d == 0xAA {
                asking(
                    InitState::AppCmd { v2: true, left: (ACMD41_RETRIES - 1) as u32 },
                    55,
                    0,
                    0x01,
                )
            } else {
                failing(SdError::Init)
            },
        ),
        (InitState::AppCmd { v2, left }, Reply::R1(_)) => Some(
            asking(InitState::OpCond { v2, left }, 41, op_cond_arg(v2), 0x01),
        ),
        (InitState::OpCond { v2, left }, Reply::R1(r)) => Some(
            if r == 0x00 {
                asking(InitState::ReadOcr { v2 }, 58, 0, 0x01)
            } else if left > 0 {
                Move {
                    state: InitState::AppCmd { v2, left: (left - 1) as u32 },
                    ops: seq![BusOp::DelayMs] + command_ops(55, 0, 0x01),
                    expect: Expect::R1,
                }
            } else {
                Move {
                    ops: seq![BusOp::DelayMs] + seq![BusOp::CsHigh],
                    ..failing(SdError::Timeout)
                }
            },
        ),
        (InitState::ReadOcr { v2 }, Reply::R1(r)) => Some(
            if r == 0x00 {
                reading(InitState::Ocr { v2 })
            } else {
                failing(SdError::Cmd)
            },
        ),
        (InitState::Ocr { v2 }, Reply::Four(a, _, _, _)) => Some(
            if a & 0x40 != 0 {
                succeeding(true, v2)
            } else {
                asking(InitState::BlockLen { v2 }, 16, 512, 0x01)
            },
        ),
        (InitState::BlockLen { v2 }, Reply::R1(r)) => Some(
            if r == 0x00 {
                succeeding(false, v2)
            } else {
                failing(SdError::Cmd)
            },
        ),
        _ => None,
    }
}

fn fail(e: SdError) -> (s: Step)
    ensures
        s@ == failing(e),
{
    let mut ops: Vec<BusOp> = Vec::new();
    push_op(&mut ops, BusOp::CsHigh);
    assert(ops@ =~= seq![BusOp::CsHigh]);
    Step { state: InitState::Over, ops, expect: Expect::Failed(e) }
}

fn ask(state: InitState, cmd: u8, arg: u32, crc: u8) -> (s: Step)
    ensures
        s@ == asking(state, cmd, arg, crc),
{
    let mut ops: Vec<BusOp> = Vec::new();
    push_command(&mut ops, cmd, arg, crc);
    assert(ops@ =~= command_ops(cmd, arg, crc));
    Step { state, ops, expect: Expect::R1 }
}

fn read_four(state: InitState) -> (s: Step)
    ensures
        s@ == reading(state),
{
    Step { state, ops: Vec::new(), expect: Expect::Four }
}

fn succeed(ccs: bool, v2: bool) -> (s: Step)
    ensures
        s@ == succeeding(ccs, v2),
{
    let mut ops: Vec<BusOp> = Vec::new();
    ops.push(BusOp::CsHigh);
    ops.push(BusOp::Send(FILLER));
    ops.push(BusOp::SetClock { cpsdvsr: DATA_CPSDVSR, scr: DATA_SCR });
    assert(ops@ =~= succeeding(ccs, v2).ops);
    let status: u32 = if ccs {
        STATUS_CCS
    } else {
        0
    } + if v2 {
        STATUS_V2
    } else {
        0
    };
    Step { state: InitState::Over, ops, expect: Expect::Ready(status) }
}

/// Start the SPI-mode power-on handshake.
pub fn init_start() -> (s: Step)
    ensures
        s@ == first_move(),
{
    let mut ops: Vec<BusOp> = Vec::new();
    ops.push(BusOp::SetClock { cpsdvsr: INIT_CPSDVSR, scr: INIT_SCR });
    ops.push(BusOp::CsHigh);
    let mut i: usize = 0;
    while i < 10
        invariant
            i <= 10,
            ops@ == seq![BusOp::SetClock { cpsdvsr: INIT_CPSDVSR, scr: INIT_SCR }, BusOp::CsHigh]
                + sends(Seq::new(i as nat, |i: int| FILLER)),
        decreases 10 - i,
    {
        ops.push(BusOp::Send(FILLER));
        i = i + 1;
        assert(ops@ =~= seq![
            BusOp::SetClock { cpsdvsr: INIT_CPSDVSR, scr: INIT_SCR },
            BusOp::CsHigh,
        ] + sends(Seq::new(i as nat, |i: int| FILLER)));
    }
    push_op(&mut ops, BusOp::CsLow);
    push_command(&mut ops, 0, 0, 0x95);
    Step { state: InitState::GoIdle { left: CMD0_RETRIES - 1 }, ops, expect: Expect::R1 }
}

/// Go on with the handshake once the card has answered.
pub fn init_next(state: InitState, reply: Reply) -> (s: Step)
    requires
        next_move(state, reply) is Some,
    ensures
        Some(s@) == next_move(state, reply),
{
    match (state, reply) {
        (InitState::GoIdle { left }, Reply::R1(r)) => {
            if r == 0x01 {
                ask(InitState::IfCond, 8, 0x1AA, 0x87)
            } else if left > 0 {
                ask(InitState::GoIdle { left: left - 1 }, 0, 0, 0x95)
            } else {
                fail(SdError::Init)
            }
        },
        (InitState::IfCond, Reply::R1(r)) => {
            if r == 0x01 {
                read_four(InitState::IfCondEcho)
            } else if r != 0xFF && r & 0x04 != 0 {
                ask(InitState::AppCmd { v2: false, left: ACMD41_RETRIES - 1 }, 55, 0, 0x01)
            } else {
                fail(SdError::Init)
            }
        },
        (InitState::IfCondEcho, Reply::Four(_, _, c, d)) => {
            if c == 0x01 && d == 0xAA {
                ask(InitState::AppCmd { v2: true, left: ACMD41_RETRIES - 1 }, 55, 0, 0x01)
            } else {
                fail(SdError::Init)
            }
        },
        (InitState::AppCmd { v2, left }, Reply::R1(_)) => {
            let hcs: u32 = if v2 {
                0x4000_0000
            } else {
                0
            };
            ask(InitState::OpCond { v2, left }, 41, hcs, 0x01)
        },
        (InitState::OpCond { v2, left }, Reply::R1(r)) => {
            if r == 0x00 {
                ask(InitState::ReadOcr { v2 }, 58, 0, 0x01)
            } else if left > 0 {
                let mut ops: Vec<BusOp> = Vec::new();
                push_op(&mut ops, BusOp::DelayMs);
                push_command(&mut ops, 55, 0, 0x01);
                assert(ops@ =~= seq![BusOp::DelayMs] + command_ops(55, 0, 0x01));
                Step { state: InitState::AppCmd { v2, left: left - 1 }, ops, expect: Expect::R1 }
            } else {
                let mut ops: Vec<BusOp> = Vec::new();
                push_op(&mut ops, BusOp::DelayMs);
                push_op(&mut ops, BusOp::CsHigh);
                assert(ops@ =~= seq![BusOp::DelayMs] + seq![BusOp::CsHigh]);
                Step { state: InitState::Over, ops, expect: Expect::Failed(SdError::Timeout) }
            }
        },
        (InitState::ReadOcr { v2 }, Reply::R1(r)) => {
            if r == 0x00 {
                read_four(InitState::Ocr { v2 })
            } else {
                fail(SdError::Cmd)
            }
        },
        (InitState::Ocr { v2 }, Reply::Four(a, _, _, _)) => {
            if a & 0x40 != 0 {
                succeed(true, v2)
            } else {
                ask(InitState::BlockLen { v2 }, 16, 512, 0x01)
            }
        },
        (InitState::BlockLen { v2 }, Reply::R1(r)) => {
            if r == 0x00 {
                succeed(false, v2)
            } else {
                fail(SdError::Cmd)
            }
        },
        _ => fail(SdError::Init),
    }
}

/// Whether the handshake is over.
pub open spec fn is_over(e: Expect) -> bool {
    e is Ready || e is Failed
}

/// However the handshake ends, it ends with the card deselected: the only
/// select operation of the last move is a deselect.
pub proof fn init_ends_deselected(state: InitState, reply: Reply)
    requires
        next_move(state, reply) matches Some(m) && is_over(m.expect),
    ensures
        next_move(state, reply)->0.ops.contains(BusOp::CsHigh),
        !next_move(state, reply)->0.ops.contains(BusOp::CsLow),
{
    let m = next_move(state, reply)->0;
    if m.ops[0] == BusOp::CsHigh {
    } else {
        assert(m.ops[1] == BusOp::CsHigh);
    }
}

/// Before the end the card stays selected: no move in between touches the
/// select line or the clock.
pub proof fn init_keeps_the_card_selected(state: InitState, reply: Reply)
    requires
        next_move(state, reply) matches Some(m) && !is_over(m.expect),
    ensures
        forall|i: int|
            0 <= i < next_move(state, reply)->0.ops.len() ==> {
                let op = #[trigger] next_move(state, reply)->0.ops[i];
                op is Send || op is DelayMs
            },
{
}

/// How many answers the handshake can still ask for.
pub open spec fn answers_left(state: InitState) -> nat {
    match state {
        InitState::GoIdle { left } => (left + 1 + 2 + 2 * ACMD41_RETRIES + 3) as nat,
        InitState::IfCond => (2 + 2 * ACMD41_RETRIES + 3) as nat,
        InitState::IfCondEcho => (1 + 2 * ACMD41_RETRIES + 3) as nat,
        InitState::AppCmd { v2, left } => (2 * left + 5) as nat,
        InitState::OpCond { v2, left } => (2 * left + 4) as nat,
        InitState::ReadOcr { v2 } => 3,
        InitState::Ocr { v2 } => 2,
        InitState::BlockLen { v2 } => 1,
        InitState::Over => 0,
    }
}

/// The handshake is bounded: every answer leaves fewer to ask for, so it ends
/// after at most 4021 answers whatever the card says.
pub proof fn init_is_bounded(state: InitState, reply: Reply)
    requires
        next_move(state, reply) is Some,
    ensures
        answers_left(next_move(state, reply)->0.state) < answers_left(state),
        is_over(next_move(state, reply)->0.expect) <==> next_move(state, reply)->0.state
            == InitState::Over,
        answers_left(first_move().state) == 4021,
{
}

/// A card is found ready only after its last answer: it addresses blocks, or
/// it took the block length.
pub proof fn ready_only_after_the_last_answer(state: InitState, reply: Reply)
    requires
        next_move(state, reply) matches Some(m) && m.expect is Ready,
    ensures
        (state is Ocr && (reply matches Reply::Four(ocr, _, _, _) && ocr & 0x40 != 0)) || (
        state is BlockLen && reply == Reply::R1(0)),
{
}

/// The whole handshake on a list of answers: the last move reached.
pub open spec fn run(m: Move, replies: Seq<Reply>) -> Option<Move>
    decreases replies.len(),
{
    if replies.len() == 0 {
        Some(m)
    } else {
        match next_move(m.state, replies[0]) {
            Some(n) => run(n, replies.skip(1)),
            None => None,
        }
    }
}

/// One answer to CMD0 each.
pub open spec fn idle_replies(idle: Seq<u8>) -> Seq<Reply> {
    Seq::new(idle.len(), |i: int| Reply::R1(idle[i]))
}

/// One pair of answers to CMD55 and CMD41 each.
pub open spec fn busy_replies(busy: Seq<(u8, u8)>) -> Seq<Reply> {
    Seq::new(
        2 * busy.len(),
        |i: int|
            if i % 2 == 0 {
                Reply::R1(busy[i / 2].0)
            } else {
                Reply::R1(busy[i / 2].1)
            },
    )
}

/// The answers of a card that comes up: it goes idle after `idle` other
/// answers, tells its version, leaves the idle state after `busy` other
/// answers, and reports its addressing.
pub open spec fn good_answers(idle: Seq<u8>, v2: bool, busy: Seq<(u8, u8)>, ocr: u8) -> Seq<Reply> {
    idle_replies(idle) + seq![Reply::R1(1)] + version_replies(v2) + busy_replies(busy)
        + final_replies(ocr)
}

proof fn run_split(m: Move, a: Seq<Reply>, b: Seq<Reply>)
    ensures
        run(m, a + b) == match run(m, a) {
            Some(n) => run(n, b),
            None => None,
        },
    decreases a.len(),
{
    if a.len() == 0 {
        assert(a + b =~= b);
    } else {
        assert((a + b)[0] == a[0]);
        assert((a + b).skip(1) =~= a.skip(1) + b);
        match next_move(m.state, a[0]) {
            Some(n) => run_split(n, a.skip(1), b),
            None => {},
        }
    }
}

proof fn run_idle(m: Move, idle: Seq<u8>)
    requires
        m.state matches InitState::GoIdle { left } && idle.len() <= left,
        forall|i: int| 0 <= i < idle.len() ==> idle[i] != 1,
    ensures
        run(m, idle_replies(idle)) matches Some(n) && n.state
            == (InitState::GoIdle { left: (m.state->GoIdle_left - idle.len()) as u32 }),
    decreases idle.len(),
{
    let rs = idle_replies(idle);
    if idle.len() > 0 {
        let n = next_move(m.state, rs[0])->0;
        run_idle(n, idle.skip(1));
        assert(rs.skip(1) =~= idle_replies(idle.skip(1)));
    }
}

proof fn run_busy(m: Move, v2: bool, busy: Seq<(u8, u8)>)
    requires
        m.state matches InitState::AppCmd { v2: w, left } && w == v2 && busy.len() <= left,
        forall|i: int| 0 <= i < busy.len() ==> (#[trigger] busy[i]).1 != 0,
    ensures
        run(
            m,
            busy_replies(busy),
        ) matches Some(n) && n.state == (InitState::AppCmd {
            v2,
            left: (m.state->AppCmd_left - busy.len()) as u32,
        }),
    decreases busy.len(),
{
    let rs = busy_replies(busy);
    reveal_with_fuel(run, 3);
    if busy.len() > 0 {
        let n = next_move(m.state, rs[0])->0;
        let n2 = next_move(n.state, rs[1])->0;
        run_busy(n2, v2, busy.skip(1));
        let rest = busy_replies(busy.skip(1));
        assert(rs.skip(1).skip(1) =~= rest) by {
            assert forall|i: int| 0 <= i < rest.len() implies rs.skip(1).skip(1)[i]
                == rest[i] by {
                assert(rs.skip(1).skip(1)[i] == rs[i + 2]);
                assert((i + 2) % 2 == i % 2 && (i + 2) / 2 == i / 2 + 1);
            }
        }
        assert(rs.skip(1)[0] == rs[1]);
    }
}

/// What a card says of its version.
pub open spec fn version_replies(v2: bool) -> Seq<Reply> {
    if v2 {
        seq![Reply::R1(1), Reply::Four(0, 0, 1, 0xAA)]
    } else {
        seq![Reply::R1(5)]
    }
}

/// What a card says once it has left the idle state.
pub open spec fn final_replies(ocr: u8) -> Seq<Reply> {
    seq![Reply::R1(1), Reply::R1(0), Reply::R1(0), Reply::Four(ocr, 0, 0, 0)] + (if ocr & 0x40
        != 0 {
        Seq::empty()
    } else {
        seq![Reply::R1(0)]
    })
}

proof fn run_one(m: Move, r: Reply)
    ensures
        run(m, seq![r]) == next_move(m.state, r),
{
    reveal_with_fuel(run, 2);
    assert(seq![r].skip(1) =~= Seq::empty());
}

proof fn run_version(m: Move, v2: bool)
    requires
        m.state == InitState::IfCond,
    ensures
        run(m, version_replies(v2)) matches Some(n) && n.state == (InitState::AppCmd {
            v2,
            left: (ACMD41_RETRIES - 1) as u32,
        }),
{
    assert(5u8 & 0x04 != 0) by (bit_vector);
    if v2 {
        let a = seq![Reply::R1(1)];
        let b = seq![Reply::Four(0, 0, 1, 0xAA)];
        run_one(m, a[0]);
        run_split(m, a, b);
        run_one(run(m, a)->0, b[0]);
        assert(version_replies(v2) =~= a + b);
    } else {
        run_one(m, Reply::R1(5));
    }
}

proof fn run_last(m: Move, ocr: u8)
    requires
        m.state is AppCmd,
    ensures
        run(m, final_replies(ocr)) matches Some(n) && n.expect == Expect::Ready(
            status_word(ocr & 0x40 != 0, m.state->AppCmd_v2),
        ),
{
    let a = seq![Reply::R1(1)];
    let b = seq![Reply::R1(0)];
    let d = seq![Reply::Four(ocr, 0, 0, 0)];
    run_one(m, a[0]);
    let m1 = next_move(m.state, a[0])->0;
    run_one(m1, b[0]);
    let m2 = next_move(m1.state, b[0])->0;
    run_one(m2, b[0]);
    let m3 = next_move(m2.state, b[0])->0;
    run_one(m3, d[0]);
    let m4 = next_move(m3.state, d[0])->0;
    run_split(m, a, b);
    run_split(m, a + b, b);
    run_split(m, a + b + b, d);
    if ocr & 0x40 != 0 {
        assert(final_replies(ocr) =~= a + b + b + d);
    } else {
        run_one(m4, b[0]);
        run_split(m, a + b + b + d, b);
        assert(final_replies(ocr) =~= a + b + b + d + b);
    }
}

/// A card that comes up within the retry budgets is found ready, and its status
/// word tells its version and addressing.
pub proof fn good_card_is_ready(idle: Seq<u8>, v2: bool, busy: Seq<(u8, u8)>, ocr: u8)
    requires
        idle.len() < CMD0_RETRIES,
        forall|i: int| 0 <= i < idle.len() ==> idle[i] != 1,
        busy.len() < ACMD41_RETRIES,
        forall|i: int| 0 <= i < busy.len() ==> (#[trigger] busy[i]).1 != 0,
    ensures
        run(first_move(), good_answers(idle, v2, busy, ocr)) matches Some(m) && m.expect
            == Expect::Ready(status_word(ocr & 0x40 != 0, v2)),
{
    let m0 = first_move();
    let a = idle_replies(idle);
    let b = seq![Reply::R1(1)];
    let c = version_replies(v2);
    let d = busy_replies(busy);
    run_idle(m0, idle);
    let m1 = run(m0, a)->0;
    run_one(m1, b[0]);
    run_split(m0, a, b);
    let m2 = run(m1, b)->0;
    run_version(m2, v2);
    run_split(m0, a + b, c);
    let m3 = run(m2, c)->0;
    run_busy(m3, v2, busy);
    run_split(m0, a + b + c, d);
    let m4 = run(m3, d)->0;
    run_last(m4, ocr);
    run_split(m0, a + b + c + d, final_replies(ocr));
}

/// The poll for a response, with this many bytes read so far.
#[derive(Copy, Clone, PartialEq, Eq, Structural)]
pub struct R1Poll {
    pub read: u32,
}

impl R1Poll {
    /// Start polling.
    pub fn new() -> (p: R1Poll)
        ensures
            p.read == 0,
    {
        R1Poll { read: 0 }
    }

    /// Take in a polled byte: the response, which has its top bit clear, or
    /// `None` when another byte is to be read. Without a response in all polls
    /// it is 0xFF.
    pub fn take(&mut self, b: u8) -> (r: Option<u8>)
        requires
            old(self).read < R1_POLLS,
        ensures
            final(self).read == old(self).read + 1,
            r == if b & 0x80 == 0 {
                Some(b)
            } else if old(self).read + 1 == R1_POLLS {
                Some(FILLER)
            } else {
                None
            },
    {
        self.read = self.read + 1;
        if b & 0x80 == 0 {
            Some(b)
        } else if self.read == R1_POLLS {
            Some(FILLER)
        } else {
            None
        }
    }
}

/// What the driver knows of the card.
#[derive(Copy, Clone, PartialEq, Eq, Structural)]
pub struct Card {
    /// Block rather than byte addressing.
    pub ccs: bool,
    /// SD version 2.
    pub v2: bool,
    /// A handshake has succeeded.
    pub ready: bool,
}

impl Card {
    /// Nothing is known yet.
    pub fn new() -> (c: Card)
        ensures
            c == (Card { ccs: false, v2: false, ready: false }),
    {
        Card { ccs: false, v2: false, ready: false }
    }

    /// A handshake begins: the card is not ready until it succeeds.
    pub fn begin_init(&mut self)
        ensures
            *final(self) == (Card { ready: false, ..*old(self) }),
    {
        self.ready = false;
    }

    /// Record how a handshake ended.
    pub fn end_init(&mut self, e: Expect) -> (r: Result<u32, SdError>)
        requires
            is_over(e),
        ensures
            match e {
                Expect::Ready(s) => r == Ok::<u32, SdError>(s) && *final(self) == (Card {
                    ccs: s % 2 == 1,
                    v2: s / 2 % 2 == 1,
                    ready: true,
                }),
                Expect::Failed(f) => r == Err::<u32, SdError>(f) && *final(self) == *old(self),
                _ => true,
            },
    {
        match e {
            Expect::Ready(s) => {
                self.ccs = s % 2 == 1;
                self.v2 = s / 2 % 2 == 1;
                self.ready = true;
                Ok(s)
            },
            Expect::Failed(f) => Err(f),
            _ => Err(SdError::Init),
        }
    }

    /// The address of a block: its number, or its first byte (modulo 2^32) on a
    /// byte-addressed card.
    pub open spec fn address(self, block: u32) -> u32 {
        if self.ccs {
            block
        } else {
            ((block * 512) % 0x1_0000_0000) as u32
        }
    }

    /// The address that a command names for `block`.
    pub fn address_of(&self, block: u32) -> (r: u32)
        ensures
            r == self.address(block),
    {
        if self.ccs {
            block
        } else {
            ((block as u64 * 512) % 0x1_0000_0000) as u32
        }
    }
}

/// The recorded card matches the status word that the handshake reported.
pub proof fn card_matches_status(ccs: bool, v2: bool)
    ensures
        (status_word(ccs, v2) % 2 == 1) == ccs,
        (status_word(ccs, v2) / 2 % 2 == 1) == v2,
{
}

/// Where a block read stands.
#[derive(Copy, Clone, PartialEq, Eq, Structural)]
pub enum ReadState {
    /// CMD17 was sent.
    Command,
    /// Waiting for the start token, with this many polls left after this one.
    Token { left: u32 },
    /// The block is being transferred.
    Data,
    /// Over.
    Over,
}

/// What a block read wants next.
#[derive(Copy, Clone, PartialEq, Eq, Structural)]
pub enum ReadWant {
    /// The response to the command.
    R1,
    /// One polled byte.
    Byte,
    /// The transfer of one block.
    Block,
    /// Nothing: the block was read.
    Done,
    /// Nothing: the read failed.
    Failed(SdError),
}

/// The next move of a block read.
pub struct ReadStep {
    pub state: ReadState,
    pub ops: Vec<BusOp>,
    pub want: ReadWant,
}

/// The next move of a block read in the abstract.
#[verifier::ext_equal]
pub struct ReadMove {
    pub state: ReadState,
    pub ops: Seq<BusOp>,
    pub want: ReadWant,
}

impl ReadStep {
    /// The move.
    pub open spec fn view(&self) -> ReadMove {
        ReadMove { state: self.state, ops: self.ops@, want: self.want }
    }
}

/// What a block read is told.
pub enum ReadReply {
    /// The response to the command.
    R1(u8),
    /// A polled byte.
    Byte(u8),
    /// Whether the whole block was transferred.
    Block(bool),
}

/// Deselecting the card.
pub open spec fn deselect() -> Seq<BusOp> {
    seq![BusOp::CsHigh]
}

/// Nothing to do on the bus.
pub open spec fn no_ops() -> Seq<BusOp> {
    Seq::empty()
}

/// A read that fails deselects the card.
pub open spec fn read_failed(e: SdError) -> ReadMove {
    ReadMove { state: ReadState::Over, ops: deselect(), want: ReadWant::Failed(e) }
}

/// One move of a block read: the command must be taken, then the start token
/// must come before the polls run out, and after the block come two bytes of
/// CRC. A reply that nothing asked for has no move.
pub open spec fn read_move(state: ReadState, reply: ReadReply) -> Option<ReadMove> {
    match (state, reply) {
        (ReadState::Command, ReadReply::R1(r)) => Some(
            if r == 0 {
                ReadMove {
                    state: ReadState::Token { left: (TOKEN_POLLS - 1) as u32 },
                    ops: no_ops(),
                    want: ReadWant::Byte,
                }
            } else {
                read_failed(SdError::Cmd)
            },
        ),
        (ReadState::Token { left }, ReadReply::Byte(b)) => Some(
            if b == TOKEN_START {
                ReadMove { state: ReadState::Data, ops: no_ops(), want: ReadWant::Block }
            } else if b != FILLER {
                read_failed(SdError::DataError)
            } else if left > 0 {
                ReadMove {
                    state: ReadState::Token { left: (left - 1) as u32 },
                    ops: no_ops(),
                    want: ReadWant::Byte,
                }
            } else {
                read_failed(SdError::Timeout)
            },
        ),
        (ReadState::Data, ReadReply::Block(complete)) => Some(
            if complete {
                ReadMove {
                    state: ReadState::Over,
                    ops: seq![
                        BusOp::Send(FILLER),
                        BusOp::Send(FILLER),
                        BusOp::CsHigh,
                        BusOp::Send(FILLER),
                    ],
                    want: ReadWant::Done,
                }
            } else {
                read_failed(SdError::Timeout)
            },
        ),
        _ => None,
    }
}

/// Whether a block read is over.
pub open spec fn read_is_over(w: ReadWant) -> bool {
    w is Done || w is Failed
}

/// How many replies a block read can still ask for.
pub open spec fn read_replies_left(state: ReadState) -> nat {
    match state {
        ReadState::Command => (TOKEN_POLLS + 2) as nat,
        ReadState::Token { left } => (left + 2) as nat,
        ReadState::Data => 1,
        ReadState::Over => 0,
    }
}

/// A block read keeps the card selected until it is over, deselects it however
/// it ends, and is over after a bounded number of replies, whatever they are.
pub proof fn reads_end_deselected(state: ReadState, reply: ReadReply)
    requires
        read_move(state, reply) is Some,
    ensures
        ({
            let m = read_move(state, reply)->0;
            &&& read_is_over(m.want) <==> m.ops.contains(BusOp::CsHigh)
            &&& read_is_over(m.want) <==> m.state == ReadState::Over
            &&& !m.ops.contains(BusOp::CsLow)
            &&& read_replies_left(m.state) < read_replies_left(state)
        }),
{
    let m = read_move(state, reply)->0;
    if m.want is Done {
        assert(m.ops[2] == BusOp::CsHigh);
    } else if m.want is Failed {
        assert(m.ops[0] == BusOp::CsHigh);
    }
}

/// Start reading `block`: select the card and send CMD17.
pub fn read_start(card: &Card, block: u32) -> (s: ReadStep)
    ensures
        !card.ready ==> s.state == ReadState::Over && s.ops@ == Seq::<BusOp>::empty() && s.want
            == ReadWant::Failed(SdError::NotInitialized),
        card.ready ==> s.state == ReadState::Command && s.ops@ == seq![BusOp::CsLow] + command_ops(
            17,
            card.address(block),
            0x01,
        ) && s.want == ReadWant::R1,
{
    let mut ops: Vec<BusOp> = Vec::new();
    if !card.ready {
        return ReadStep {
            state: ReadState::Over,
            ops,
            want: ReadWant::Failed(SdError::NotInitialized),
        };
    }
    push_op(&mut ops, BusOp::CsLow);
    push_command(&mut ops, 17, card.address_of(block), 0x01);
    assert(ops@ =~= seq![BusOp::CsLow] + command_ops(17, card.address(block), 0x01));
    ReadStep { state: ReadState::Command, ops, want: ReadWant::R1 }
}

fn read_fail(e: SdError) -> (s: ReadStep)
    ensures
        s@ == read_failed(e),
{
    let mut ops: Vec<BusOp> = Vec::new();
    ops.push(BusOp::CsHigh);
    assert(ops@ =~= deselect());
    ReadStep { state: ReadState::Over, ops, want: ReadWant::Failed(e) }
}

/// Take in the response to CMD17.
pub fn read_on_r1(r: u8) -> (s: ReadStep)
    ensures
        Some(s@) == read_move(ReadState::Command, ReadReply::R1(r)),
{
    if r != 0x00 {
        read_fail(SdError::Cmd)
    } else {
        ReadStep {
            state: ReadState::Token { left: TOKEN_POLLS - 1 },
            ops: Vec::new(),
            want: ReadWant::Byte,
        }
    }
}

/// Take in a byte polled for the start token: the token starts the transfer, a
/// filler means waiting, anything else is an error token.
pub fn read_on_byte(left: u32, b: u8) -> (s: ReadStep)
    ensures
        Some(s@) == read_move(ReadState::Token { left }, ReadReply::Byte(b)),
{
    if b == TOKEN_START {
        ReadStep { state: ReadState::Data, ops: Vec::new(), want: ReadWant::Block }
    } else if b != FILLER {
        read_fail(SdError::DataError)
    } else if left > 0 {
        ReadStep {
            state: ReadState::Token { left: left - 1 },
            ops: Vec::new(),
            want: ReadWant::Byte,
        }
    } else {
        read_fail(SdError::Timeout)
    }
}

/// Take in how the transfer went: clock out the two CRC bytes, deselect, one
/// trailing byte; or give up on a stalled bus.
pub fn read_on_block(complete: bool) -> (s: ReadStep)
    ensures
        Some(s@) == read_move(ReadState::Data, ReadReply::Block(complete)),
{
    if !complete {
        return read_fail(SdError::Timeout);
    }
    let mut ops: Vec<BusOp> = Vec::new();
    ops.push(BusOp::Send(FILLER));
    ops.push(BusOp::Send(FILLER));
    ops.push(BusOp::CsHigh);
    ops.push(BusOp::Send(FILLER));
    assert(ops@ =~= seq![
        BusOp::Send(FILLER),
        BusOp::Send(FILLER),
        BusOp::CsHigh,
        BusOp::Send(FILLER),
    ]);
    ReadStep { state: ReadState::Over, ops, want: ReadWant::Done }
}

/// Where a block write stands.
#[derive(Copy, Clone, PartialEq, Eq, Structural)]
pub enum WriteState {
    /// CMD24 was sent.
    Command,
    /// The block is being transferred.
    Data,
    /// Waiting for the data response, with this many polls left after this
    /// one.
    Response { left: u32 },
    /// Waiting for the card to be busy and then done, with this many polls left
    /// after this one.
    Busy { seen: bool, left: u32 },
    /// Over.
    Over,
}

/// What a block write wants next.
#[derive(Copy, Clone, PartialEq, Eq, Structural)]
pub enum WriteWant {
    /// The response to the command.
    R1,
    /// The transfer of one block.
    Block,
    /// One polled byte.
    Byte,
    /// Nothing: the block was written.
    Done,
    /// Nothing: the write failed.
    Failed(SdError),
}

/// The next move of a block write.
pub struct WriteStep {
    pub state: WriteState,
    pub ops: Vec<BusOp>,
    pub want: WriteWant,
}

/// The next move of a block write in the abstract.
#[verifier::ext_equal]
pub struct WriteMove {
    pub state: WriteState,
    pub ops: Seq<BusOp>,
    pub want: WriteWant,
}

impl WriteStep {
    /// The move.
    pub open spec fn view(&self) -> WriteMove {
        WriteMove { state: self.state, ops: self.ops@, want: self.want }
    }
}

/// What a block write is told.
pub enum WriteReply {
    /// The response to the command.
    R1(u8),
    /// Whether the whole block was transferred.
    Block(bool),
    /// A polled byte.
    Byte(u8),
}

/// A write that fails deselects the card.
pub open spec fn write_failed(e: SdError) -> WriteMove {
    WriteMove { state: WriteState::Over, ops: deselect(), want: WriteWant::Failed(e) }
}

/// Poll once more, in a state.
pub open spec fn write_polls(state: WriteState) -> WriteMove {
    WriteMove { state, ops: no_ops(), want: WriteWant::Byte }
}

/// One move of a block write: the command must be taken, a gap byte and the
/// start token go before the block and two bytes of CRC after it, the card's
/// response must accept it (its low five bits are 5), and the card must be seen
/// busy and then done before the polls run out. A reply that nothing asked for
/// has no move.
pub open spec fn write_move(state: WriteState, reply: WriteReply) -> Option<WriteMove> {
    match (state, reply) {
        (WriteState::Command, WriteReply::R1(r)) => Some(
            if r == 0 {
                WriteMove {
                    state: WriteState::Data,
                    ops: seq![BusOp::Send(FILLER), BusOp::Send(TOKEN_START)],
                    want: WriteWant::Block,
                }
            } else {
                write_failed(SdError::Cmd)
            },
        ),
        (WriteState::Data, WriteReply::Block(complete)) => Some(
            if complete {
                WriteMove {
                    state: WriteState::Response { left: (R1_POLLS - 1) as u32 },
                    ops: seq![BusOp::Send(FILLER), BusOp::Send(FILLER)],
                    want: WriteWant::Byte,
                }
            } else {
                write_failed(SdError::Timeout)
            },
        ),
        (WriteState::Response { left }, WriteReply::Byte(b)) => Some(
            if b == FILLER && left > 0 {
                write_polls(WriteState::Response { left: (left - 1) as u32 })
            } else if b % 32 == 5 {
                write_polls(WriteState::Busy { seen: false, left: (WRITE_BUSY - 1) as u32 })
            } else {
                write_failed(SdError::DataError)
            },
        ),
        (WriteState::Busy { seen, left }, WriteReply::Byte(b)) => Some(
            if b != 0 && seen {
                WriteMove {
                    state: WriteState::Over,
                    ops: seq![BusOp::CsHigh, BusOp::Send(FILLER)],
                    want: WriteWant::Done,
                }
            } else if left > 0 {
                write_polls(WriteState::Busy { seen: seen || b == 0, left: (left - 1) as u32 })
            } else {
                write_failed(SdError::Timeout)
            },
        ),
        _ => None,
    }
}

/// Whether a block write is over.
pub open spec fn write_is_over(w: WriteWant) -> bool {
    w is Done || w is Failed
}

/// How many replies a block write can still ask for.
pub open spec fn write_replies_left(state: WriteState) -> nat {
    match state {
        WriteState::Command => (R1_POLLS + WRITE_BUSY + 2) as nat,
        WriteState::Data => (R1_POLLS + WRITE_BUSY + 1) as nat,
        WriteState::Response { left } => (left + 1 + WRITE_BUSY) as nat,
        WriteState::Busy { left, .. } => (left + 1) as nat,
        WriteState::Over => 0,
    }
}

/// A block write keeps the card selected until it is over, deselects it however
/// it ends, and is over after a bounded number of replies, whatever they are.
pub proof fn writes_end_deselected(state: WriteState, reply: WriteReply)
    requires
        write_move(state, reply) is Some,
    ensures
        ({
            let m = write_move(state, reply)->0;
            &&& write_is_over(m.want) <==> m.ops.contains(BusOp::CsHigh)
            &&& write_is_over(m.want) <==> m.state == WriteState::Over
            &&& !m.ops.contains(BusOp::CsLow)
            &&& write_replies_left(m.state) < write_replies_left(state)
        }),
{
    let m = write_move(state, reply)->0;
    if write_is_over(m.want) {
        assert(m.ops[0] == BusOp::CsHigh);
    }
}

/// Where polled bytes take a write that waits for the card to be done.
pub open spec fn polled(state: WriteState, bytes: Seq<u8>) -> WriteMove
    decreases bytes.len(),
{
    if bytes.len() == 0 {
        write_polls(state)
    } else {
        let m = polled(state, bytes.drop_last());
        match write_move(m.state, WriteReply::Byte(bytes.last())) {
            Some(next) => next,
            None => m,
        }
    }
}

/// A bus that is dead, and so never shows the card busy, is not taken for a
/// finished write: the polls run out, and the write has timed out.
pub proof fn a_dead_bus_times_out(left: u32, bytes: Seq<u8>)
    requires
        bytes.len() == left + 1,
        forall|i: int| 0 <= i < bytes.len() ==> #[trigger] bytes[i] != 0,
    ensures
        polled(WriteState::Busy { seen: false, left }, bytes) == write_failed(SdError::Timeout),
{
    dead_polls(left, bytes.drop_last());
}

proof fn dead_polls(left: u32, bytes: Seq<u8>)
    requires
        bytes.len() <= left,
        forall|i: int| 0 <= i < bytes.len() ==> #[trigger] bytes[i] != 0,
    ensures
        polled(WriteState::Busy { seen: false, left }, bytes) == write_polls(
            WriteState::Busy { seen: false, left: (left - bytes.len()) as u32 },
        ),
    decreases bytes.len(),
{
    if bytes.len() > 0 {
        dead_polls(left, bytes.drop_last());
    }
}

/// A card that is busy for a while and then done, before the polls run out, has
/// finished the write.
pub proof fn a_busy_card_finishes(left: u32, bytes: Seq<u8>, last: u8)
    requires
        0 < bytes.len() <= left,
        forall|i: int| 0 <= i < bytes.len() ==> #[trigger] bytes[i] == 0,
        last != 0,
    ensures
        polled(WriteState::Busy { seen: false, left }, bytes.push(last)).want == WriteWant::Done,
{
    busy_polls(left, bytes);
    assert(bytes.push(last).drop_last() =~= bytes);
}

proof fn busy_polls(left: u32, bytes: Seq<u8>)
    requires
        bytes.len() <= left,
        forall|i: int| 0 <= i < bytes.len() ==> #[trigger] bytes[i] == 0,
    ensures
        polled(WriteState::Busy { seen: false, left }, bytes) == write_polls(
            WriteState::Busy { seen: bytes.len() > 0, left: (left - bytes.len()) as u32 },
        ),
    decreases bytes.len(),
{
    if bytes.len() > 0 {
        busy_polls(left, bytes.drop_last());
    }
}

/// The 512 bytes that are sent for `src`: cut off or padded with zeros.
pub open spec fn padded_block(src: Seq<u8>) -> Seq<u8> {
    if src.len() >= 512 {
        src.take(512)
    } else {
        src + text::zeros((512 - src.len()) as nat)
    }
}

/// Pad a short block with zeros, cut off a long one.
pub fn pad_block(src: &[u8]) -> (r: Vec<u8>)
    ensures
        r@ == padded_block(src@),
        r@.len() == BLOCK_LEN,
{
    let mut r: Vec<u8> = Vec::new();
    if src.len() >= BLOCK_LEN {
        text::append(&mut r, vstd::slice::slice_subrange(src, 0, BLOCK_LEN));
    } else {
        text::append(&mut r, src);
        text::append_zeros(&mut r, BLOCK_LEN - src.len());
    }
    assert(r@ =~= padded_block(src@));
    r
}

/// Start writing `block`: select the card and send CMD24.
pub fn write_start(card: &Card, block: u32) -> (s: WriteStep)
    ensures
        !card.ready ==> s.state == WriteState::Over && s.ops@ == Seq::<BusOp>::empty() && s.want
            == WriteWant::Failed(SdError::NotInitialized),
        card.ready ==> s.state == WriteState::Command && s.ops@ == seq![BusOp::CsLow]
            + command_ops(24, card.address(block), 0x01) && s.want == WriteWant::R1,
{
    let mut ops: Vec<BusOp> = Vec::new();
    if !card.ready {
        return WriteStep {
            state: WriteState::Over,
            ops,
            want: WriteWant::Failed(SdError::NotInitialized),
        };
    }
    push_op(&mut ops, BusOp::CsLow);
    push_command(&mut ops, 24, card.address_of(block), 0x01);
    assert(ops@ =~= seq![BusOp::CsLow] + command_ops(24, card.address(block), 0x01));
    WriteStep { state: WriteState::Command, ops, want: WriteWant::R1 }
}

fn write_fail(e: SdError) -> (s: WriteStep)
    ensures
        s@ == write_failed(e),
{
    let mut ops: Vec<BusOp> = Vec::new();
    ops.push(BusOp::CsHigh);
    assert(ops@ =~= deselect());
    WriteStep { state: WriteState::Over, ops, want: WriteWant::Failed(e) }
}

/// Take in the response to CMD24: one gap byte and the start token come before
/// the block.
pub fn write_on_r1(r: u8) -> (s: WriteStep)
    ensures
        Some(s@) == write_move(WriteState::Command, WriteReply::R1(r)),
{
    if r != 0x00 {
        return write_fail(SdError::Cmd);
    }
    let mut ops: Vec<BusOp> = Vec::new();
    ops.push(BusOp::Send(FILLER));
    ops.push(BusOp::Send(TOKEN_START));
    assert(ops@ =~= seq![BusOp::Send(FILLER), BusOp::Send(TOKEN_START)]);
    WriteStep { state: WriteState::Data, ops, want: WriteWant::Block }
}

/// Take in how the transfer went: two CRC bytes follow a complete block.
pub fn write_on_block(complete: bool) -> (s: WriteStep)
    ensures
        Some(s@) == write_move(WriteState::Data, WriteReply::Block(complete)),
{
    if !complete {
        return write_fail(SdError::Timeout);
    }
    let mut ops: Vec<BusOp> = Vec::new();
    ops.push(BusOp::Send(FILLER));
    ops.push(BusOp::Send(FILLER));
    assert(ops@ =~= seq![BusOp::Send(FILLER), BusOp::Send(FILLER)]);
    WriteStep { state: WriteState::Response { left: R1_POLLS - 1 }, ops, want: WriteWant::Byte }
}

/// Take in a byte polled for the data response. Fillers are waited for; the
/// block was accepted when the low five bits of the response are 5.
pub fn write_on_response(left: u32, b: u8) -> (s: WriteStep)
    ensures
        Some(s@) == write_move(WriteState::Response { left }, WriteReply::Byte(b)),
{
    if b == FILLER && left > 0 {
        WriteStep {
            state: WriteState::Response { left: left - 1 },
            ops: Vec::new(),
            want: WriteWant::Byte,
        }
    } else if b % 32 != 5 {
        write_fail(SdError::DataError)
    } else {
        WriteStep {
            state: WriteState::Busy { seen: false, left: WRITE_BUSY - 1 },
            ops: Vec::new(),
            want: WriteWant::Byte,
        }
    }
}

/// Take in a byte polled while the card programs the block. The card must be
/// seen busy (zero) before it counts as done, so that a dead bus is not taken
/// for a finished write.
pub fn write_on_busy(seen: bool, left: u32, b: u8) -> (s: WriteStep)
    ensures
        Some(s@) == write_move(WriteState::Busy { seen, left }, WriteReply::Byte(b)),
{
    if b != 0 && seen {
        let mut ops: Vec<BusOp> = Vec::new();
        ops.push(BusOp::CsHigh);
        ops.push(BusOp::Send(FILLER));
        assert(ops@ =~= seq![BusOp::CsHigh, BusOp::Send(FILLER)]);
        WriteStep { state: WriteState::Over, ops, want: WriteWant::Done }
    } else if left > 0 {
        WriteStep {
            state: WriteState::Busy { seen: seen || b == 0, left: left - 1 },
            ops: Vec::new(),
            want: WriteWant::Byte,
        }
    } else {
        write_fail(SdError::Timeout)
    }
}

/// A block transfer through the controller's FIFOs: how many bytes were put in,
/// how many were taken out, and how many passes in a row took none out.
#[derive(Copy, Clone, PartialEq, Eq, Structural)]
pub struct Pipeline {
    pub n: usize,
    pub tx: usize,
    pub rx: usize,
    pub spins: u32,
}

impl Pipeline {
    /// Bytes in flight never exceed the FIFO depth, and none is taken out that
    /// was not put in.
    pub open spec fn sound(&self) -> bool {
        &&& self.rx <= self.tx <= self.n
        &&& self.tx - self.rx <= FIFO_DEPTH
        &&& self.spins <= SPIN_LIMIT
    }

    /// Start a transfer of `n` bytes.
    pub fn new(n: usize) -> (p: Pipeline)
        ensures
            p == (Pipeline { n, tx: 0, rx: 0, spins: 0 }),
            p.sound(),
    {
        Pipeline { n, tx: 0, rx: 0, spins: 0 }
    }

    /// Whether the transfer is complete.
    pub fn complete(&self) -> (r: bool)
        ensures
            r == (self.rx >= self.n),
    {
        self.rx >= self.n
    }

    /// Whether another byte may be put in, given room in the transmit FIFO.
    pub fn may_send(&self) -> (r: bool)
        requires
            self.sound(),
        ensures
            r == (self.tx < self.n && self.tx - self.rx < FIFO_DEPTH),
    {
        self.tx < self.n && self.tx - self.rx < FIFO_DEPTH
    }

    /// A byte was put in; returns its index.
    pub fn sent(&mut self) -> (i: usize)
        requires
            old(self).sound(),
            old(self).tx < old(self).n,
            old(self).tx - old(self).rx < FIFO_DEPTH,
        ensures
            i == old(self).tx,
            *final(self) == (Pipeline { tx: (old(self).tx + 1) as usize, ..*old(self) }),
            final(self).sound(),
    {
        let i: usize = self.tx;
        self.tx = self.tx + 1;
        i
    }

    /// Whether a byte may be taken out, given one in the receive FIFO.
    pub fn may_receive(&self) -> (r: bool)
        ensures
            r == (self.rx < self.tx),
    {
        self.rx < self.tx
    }

    /// A byte was taken out; returns its index.
    pub fn received(&mut self) -> (i: usize)
        requires
            old(self).sound(),
            old(self).rx < old(self).tx,
        ensures
            i == old(self).rx,
            i < old(self).n,
            *final(self) == (Pipeline { rx: (old(self).rx + 1) as usize, ..*old(self) }),
            final(self).sound(),
    {
        let i: usize = self.rx;
        self.rx = self.rx + 1;
        i
    }

    /// End a pass that began with `before` bytes taken out. Returns false when
    /// too many passes in a row made no progress.
    pub fn end_pass(&mut self, before: usize) -> (go_on: bool)
        requires
            old(self).sound(),
        ensures
            final(self).sound(),
            old(self).rx != before ==> go_on && *final(self) == (Pipeline {
                spins: 0,
                ..*old(self)
            }),
            old(self).rx == before && old(self).spins < SPIN_LIMIT ==> go_on && *final(self)
                == (Pipeline { spins: (old(self).spins + 1) as u32, ..*old(self) }),
            old(self).rx == before && old(self).spins == SPIN_LIMIT ==> !go_on && *final(self)
                == *old(self),
    {
        if self.rx == before {
            if self.spins >= SPIN_LIMIT {
                return false;
            }
            self.spins = self.spins + 1;
        } else {
            self.spins = 0;
        }
        true
    }
}

/// A block-addressed card is addressed by blocks, and a byte-addressed one by the
/// first byte of each: the next block is 512 further on.
pub proof fn blocks_are_addressed_in_order(c: Card, block: u32)
    requires
        block < u32::MAX,
    ensures
        c.address(0) == 0,
        c.ccs ==> c.address((block + 1) as u32) == c.address(block) + 1,
        !c.ccs ==> c.address((block + 1) as u32) == (c.address(block) + 512) % 0x1_0000_0000,
{
}

/// A command can be taken apart again: its number behind the start bits, its
/// argument with the high byte first, and the checksum last.
pub proof fn commands_can_be_taken_apart(cmd: u8, arg: u32, crc: u8)
    requires
        cmd < 64,
    ensures
        ({
            let b = command_bytes(cmd, arg, crc);
            &&& b.len() == 7
            &&& b[0] == 0xff
            &&& b[1] / 64 == 1 && b[1] % 64 == cmd
            &&& 0x100_0000 * b[2] + 0x1_0000 * b[3] + 0x100 * b[4] + b[5] == arg
            &&& b[6] == crc
        }),
{
    assert(0x40u8 | cmd == 0x40 + cmd) by (bit_vector)
        requires
            cmd < 64,
    ;
    assert(arg == arg / 0x100 * 0x100 + arg % 0x100);
    assert(arg / 0x100 == arg / 0x1_0000 * 0x100 + arg / 0x100 % 0x100);
    assert(arg / 0x1_0000 == arg / 0x100_0000 * 0x100 + arg / 0x1_0000 % 0x100);
}

/// A block that is written holds what was given, from its start on, and zeros
/// behind.
pub proof fn blocks_hold_what_was_given(src: Seq<u8>, i: int)
    requires
        0 <= i < 512,
    ensures
        padded_block(src).len() == 512,
        padded_block(src)[i] == if i < src.len() {
            src[i]
        } else {
            0
        },
{
}

} // verus!
