//! The throughput benches: how a total goes over a bus in pieces, and what is
//! said of it.

use crate::report::{self, bench_report, i2c_theoretical};
use crate::text::{self, append_str};
use vstd::prelude::*;

verus! {

/// Bytes per bus when all buses are measured.
pub const ALL_BYTES: u32 = 4096;

/// The largest piece over UART and SPI.
pub const PIECE: u32 = 256;

/// The largest piece over I2C.
pub const I2C_PIECE: u32 = 32;

/// Theoretical bytes per second of UART and SPI.
pub const UART_RATE: u32 = 11520;

pub const SPI_RATE: u32 = 187500;

/// How long received bytes are counted, in milliseconds.
pub const RX_WINDOW: u32 = 3000;

/// A total on its way over a bus.
#[derive(Copy, Clone, Debug, PartialEq, Eq, Structural)]
pub struct Bench {
    pub total: u32,
    pub piece: u32,
    /// Bytes that went over.
    pub done: u32,
    /// Whether a piece failed.
    pub failed: bool,
}

/// The piece that is next, while there is one.
pub open spec fn piece_of(b: Bench) -> Option<int> {
    if b.failed || b.done >= b.total {
        None
    } else if b.total - b.done <= b.piece {
        Some(b.total - b.done)
    } else {
        Some(b.piece as int)
    }
}

/// The bench after the next piece went over or failed.
pub open spec fn moved(b: Bench, ok: bool) -> Bench {
    match piece_of(b) {
        Some(n) => if ok {
            Bench { done: (b.done + n) as u32, ..b }
        } else {
            Bench { failed: true, ..b }
        },
        None => b,
    }
}

/// The bench after `n` good pieces.
pub open spec fn moved_times(b: Bench, n: nat) -> Bench
    decreases n,
{
    if n == 0 {
        b
    } else {
        moved(moved_times(b, (n - 1) as nat), true)
    }
}

impl Bench {
    /// No more went over than the total, in pieces that hold something.
    pub open spec fn wf(&self) -> bool {
        self.done <= self.total && self.piece > 0
    }

    /// Nothing went over yet.
    pub fn begin(total: u32, piece: u32) -> (b: Bench)
        requires
            piece > 0,
        ensures
            b == (Bench { total, piece, done: 0, failed: false }),
            b.wf(),
    {
        Bench { total, piece, done: 0, failed: false }
    }

    /// How much to send or read next; nothing once all went over or a piece
    /// failed.
    pub fn next(&self) -> (n: Option<u32>)
        requires
            self.wf(),
        ensures
            match n {
                Some(k) => piece_of(*self) == Some(k as int) && 0 < k <= self.piece,
                None => piece_of(*self) is None,
            },
    {
        if self.failed || self.done >= self.total {
            None
        } else {
            Some(report::next_piece(self.done, self.total, self.piece))
        }
    }

    /// The next piece went over, or failed.
    pub fn moved(&mut self, ok: bool)
        requires
            old(self).wf(),
        ensures
            final(self).wf(),
            *final(self) == moved(*old(self), ok),
    {
        match self.next() {
            Some(n) => {
                if ok {
                    self.done = self.done + n;
                } else {
                    self.failed = true;
                }
            },
            None => {},
        }
    }
}

/// After `n` good pieces exactly `n` pieces went over, or everything did.
pub proof fn pieces_add_up(total: u32, piece: u32, n: nat)
    requires
        piece > 0,
    ensures
        ({
            let b = moved_times(Bench { total, piece, done: 0, failed: false }, n);
            &&& !b.failed
            &&& b.total == total && b.piece == piece
            &&& b.done == if n * piece <= total {
                n * piece
            } else {
                total as int
            }
            &&& piece_of(b) is None <==> n * piece >= total
        }),
    decreases n,
{
    if n > 0 {
        pieces_add_up(total, piece, (n - 1) as nat);
        assert(n * piece == (n - 1) * piece + piece) by (nonlinear_arith)
            requires
                n > 0,
        ;
    } else {
        assert(n * piece == 0) by (nonlinear_arith)
            requires
                n == 0,
        ;
    }
}

/// A piece that fails ends the bench.
pub proof fn a_failure_ends_the_bench(b: Bench, n: nat)
    requires
        b.wf(),
        piece_of(b) is Some,
    ensures
        moved_times(moved(b, false), n) == (Bench { failed: true, ..b }),
    decreases n,
{
    if n > 0 {
        a_failure_ends_the_bench(b, (n - 1) as nat);
    }
}

/// What is said of the I2C bus: its rate, or that the target did not answer.
pub open spec fn i2c_text(label: &str, missing: &str, b: Bench, ms: u32, khz: u32) -> Seq<u8> {
    if b.failed {
        text::lit(missing)
    } else {
        report::bench_report_text(text::lit(label), b.total, ms, (1000 * khz / 9) as u32)
    }
}

fn i2c_line(label: &str, missing: &str, b: &Bench, ms: u32, khz: u32) -> (v: Vec<u8>)
    requires
        !b.failed ==> 100 * report::bytes_per_second(b.total, ms) <= u32::MAX,
        !b.failed ==> khz <= 4_294_967,
    ensures
        v@ == i2c_text(label, missing, *b, ms, khz),
{
    if b.failed {
        let mut v: Vec<u8> = Vec::new();
        append_str(&mut v, missing);
        assert(v@ =~= text::lit(missing));
        v
    } else {
        bench_report(label, b.total, ms, i2c_theoretical(khz))
    }
}

/// The reply to an I2C bench.
pub fn i2c_bench_reply(b: &Bench, ms: u32, khz: u32) -> (v: Vec<u8>)
    requires
        !b.failed ==> 100 * report::bytes_per_second(b.total, ms) <= u32::MAX,
        !b.failed ==> khz <= 4_294_967,
    ensures
        v@ == i2c_text("i2c: ", "i2c bench: read error (target present?)\r\n", *b, ms, khz),
{
    i2c_line("i2c: ", "i2c bench: read error (target present?)\r\n", b, ms, khz)
}

/// The I2C line of the table of all buses, when a target was given.
pub fn i2c_all_line(b: &Bench, ms: u32, khz: u32) -> (v: Vec<u8>)
    requires
        !b.failed ==> 100 * report::bytes_per_second(b.total, ms) <= u32::MAX,
        !b.failed ==> khz <= 4_294_967,
    ensures
        v@ == i2c_text("  i2c:   ", "  i2c:   no target at that address\r\n", *b, ms, khz),
{
    i2c_line("  i2c:   ", "  i2c:   no target at that address\r\n", b, ms, khz)
}

/// The I2C line of the table of all buses, when no target was given.
pub fn i2c_all_untried() -> (v: Vec<u8>)
    ensures
        v@ == text::lit("  i2c:   (give a target addr: `bench all 42`)\r\n"),
{
    let mut v: Vec<u8> = Vec::new();
    append_str(&mut v, "  i2c:   (give a target addr: `bench all 42`)\r\n");
    assert(v@ =~= text::lit("  i2c:   (give a target addr: `bench all 42`)\r\n"));
    v
}

/// A bus that was measured.
#[derive(Copy, Clone, Debug, PartialEq, Eq, Structural)]
pub enum Bus {
    UartOut,
    UartIn,
    Spi,
    /// In the table of all buses.
    UartInTable,
    SpiInTable,
}

/// How a bus is named in its report, and its theoretical rate.
pub open spec fn bus_label(bus: Bus) -> (Seq<u8>, u32) {
    match bus {
        Bus::UartOut => (text::lit("uart tx: "), UART_RATE),
        Bus::UartIn => (text::lit("uart rx: "), UART_RATE),
        Bus::Spi => (text::lit("spi: "), SPI_RATE),
        Bus::UartInTable => (text::lit("  uart:  "), UART_RATE),
        Bus::SpiInTable => (text::lit("  spi:   "), SPI_RATE),
    }
}

/// The report on a bus that does not refuse a piece.
pub fn bus_report(bus: Bus, bytes: u32, ms: u32) -> (v: Vec<u8>)
    requires
        100 * report::bytes_per_second(bytes, ms) <= u32::MAX,
    ensures
        v@ == report::bench_report_text(bus_label(bus).0, bytes, ms, bus_label(bus).1),
{
    match bus {
        Bus::UartOut => bench_report("uart tx: ", bytes, ms, UART_RATE),
        Bus::UartIn => bench_report("uart rx: ", bytes, ms, UART_RATE),
        Bus::Spi => bench_report("spi: ", bytes, ms, SPI_RATE),
        Bus::UartInTable => bench_report("  uart:  ", bytes, ms, UART_RATE),
        Bus::SpiInTable => bench_report("  spi:   ", bytes, ms, SPI_RATE),
    }
}

/// Whether a rate can be reported: its hundredfold fits 32 bits.
pub fn reportable(bytes: u32, ms: u32) -> (r: bool)
    ensures
        r == (100 * report::bytes_per_second(bytes, ms) <= u32::MAX),
{
    if ms == 0 {
        return true;
    }
    let bps: u64 = ((bytes as u64) * 1000 / (ms as u64)) % 0x1_0000_0000;
    assert(bps == report::bytes_per_second(bytes, ms));
    bps * 100 <= 0xffff_ffff
}

/// A search of a card for printable text, block by block.
#[derive(Copy, Clone, Debug, PartialEq, Eq, Structural)]
pub struct Find {
    pub start: u32,
    pub count: u32,
    /// Blocks searched.
    pub at: u32,
    /// Runs found.
    pub hits: u64,
    /// Whether a block could not be read.
    pub stopped: bool,
}

/// The block that is next, while there is one.
pub open spec fn block_of(f: Find) -> Option<int> {
    if f.stopped || f.at >= f.count {
        None
    } else {
        Some((f.start + f.at) % 0x1_0000_0000)
    }
}

/// The search after the next block was read, or could not be.
pub open spec fn searched(f: Find, block: Option<Seq<u8>>) -> Find {
    if block_of(f) is None {
        f
    } else {
        match block {
            Some(s) => Find {
                at: (f.at + 1) as u32,
                hits: (f.hits + report::runs_count(s, s.len() as int)) as u64,
                ..f
            },
            None => Find { stopped: true, ..f },
        }
    }
}

/// What is said of the next block.
pub open spec fn search_text(f: Find, block: Option<Seq<u8>>) -> Seq<u8> {
    match block_of(f) {
        None => Seq::empty(),
        Some(b) => match block {
            Some(s) => report::runs_text(b as u32, s, s.len() as int),
            None => report::find_error_text(b as u32),
        },
    }
}

impl Find {
    /// A block holds at most one run per byte.
    pub open spec fn wf(&self) -> bool {
        self.at <= self.count && self.hits <= 513 * self.at
    }

    /// Search `count` blocks from `start` on.
    pub fn begin(start: u32, count: u32) -> (f: Find)
        ensures
            f == (Find { start, count, at: 0, hits: 0, stopped: false }),
            f.wf(),
    {
        Find { start, count, at: 0, hits: 0, stopped: false }
    }

    /// The block to read next; none once all were searched or one could not be
    /// read. Block numbers wrap.
    pub fn next(&self) -> (b: Option<u32>)
        ensures
            match b {
                Some(k) => block_of(*self) == Some(k as int),
                None => block_of(*self) is None,
            },
    {
        if self.stopped || self.at >= self.count {
            None
        } else {
            Some(self.start.wrapping_add(self.at))
        }
    }

    /// The next block was read, or could not be; returns what is said of it.
    pub fn feed(&mut self, block: Option<&[u8]>) -> (v: Vec<u8>)
        requires
            old(self).wf(),
            block is Some ==> block->0@.len() <= 512,
        ensures
            final(self).wf(),
            *final(self) == searched(*old(self), match block {
                Some(s) => Some(s@),
                None => None,
            }),
            v@ == search_text(*old(self), match block {
                Some(s) => Some(s@),
                None => None,
            }),
    {
        match self.next() {
            None => Vec::new(),
            Some(b) => match block {
                Some(s) => {
                    let (v, n) = report::find_runs(b, s);
                    self.at = self.at + 1;
                    self.hits = self.hits + n as u64;
                    v
                },
                None => {
                    self.stopped = true;
                    report::find_error(b)
                },
            },
        }
    }

    /// What ends the search.
    pub fn finish(&self) -> (v: Vec<u8>)
        ensures
            v@ == report::find_done_text(self.hits),
    {
        report::find_done(self.hits)
    }
}

/// The search after the first `n` of these blocks were read.
pub open spec fn searched_all(f: Find, blocks: Seq<Seq<u8>>, n: nat) -> Find
    decreases n,
{
    if n == 0 {
        f
    } else {
        searched(searched_all(f, blocks, (n - 1) as nat), Some(blocks[n - 1]))
    }
}

/// The runs in the first `n` of these blocks.
pub open spec fn runs_in(blocks: Seq<Seq<u8>>, n: nat) -> nat
    decreases n,
{
    if n == 0 {
        0
    } else {
        runs_in(blocks, (n - 1) as nat) + report::runs_count(
            blocks[n - 1],
            blocks[n - 1].len() as int,
        )
    }
}

/// A search counts the runs of every block it read, and asks for consecutive
/// blocks until it has all of them.
pub proof fn search_counts_every_run(start: u32, count: u32, blocks: Seq<Seq<u8>>, n: nat)
    requires
        n <= blocks.len(),
        n <= count,
        forall|i: int| 0 <= i < blocks.len() ==> (#[trigger] blocks[i]).len() <= 512,
    ensures
        ({
            let f = searched_all(
                Find { start, count, at: 0, hits: 0, stopped: false },
                blocks,
                n,
            );
            &&& f.hits == runs_in(blocks, n)
            &&& block_of(f) == if n < count {
                Some((start + n) % 0x1_0000_0000)
            } else {
                None
            }
        }),
        runs_in(blocks, n) <= 513 * n,
    decreases n,
{
    if n > 0 {
        search_counts_every_run(start, count, blocks, (n - 1) as nat);
        let s = blocks[n - 1];
        report::runs_are_few(s, s.len() as int);
        let f = searched_all(
            Find { start, count, at: 0, hits: 0, stopped: false },
            blocks,
            (n - 1) as nat,
        );
        search_keeps_its_range(start, count, blocks, (n - 1) as nat);
    }
}

proof fn search_keeps_its_range(start: u32, count: u32, blocks: Seq<Seq<u8>>, n: nat)
    requires
        n <= count,
    ensures
        ({
            let f = searched_all(
                Find { start, count, at: 0, hits: 0, stopped: false },
                blocks,
                n,
            );
            f.start == start && f.count == count && f.at == n && !f.stopped
        }),
    decreases n,
{
    if n > 0 {
        search_keeps_its_range(start, count, blocks, (n - 1) as nat);
    }
}

/// The theoretical rates are those of the lines: the UART takes ten bits a byte at
/// 115200 baud, and the SPI bus eight at one and a half megahertz.
pub proof fn rates_are_those_of_the_lines()
    ensures
        bus_label(Bus::UartOut).1 * 10 == 115_200,
        bus_label(Bus::UartIn).1 * 10 == 115_200,
        bus_label(Bus::UartInTable).1 * 10 == 115_200,
        bus_label(Bus::Spi).1 * 8 == 1_500_000,
        bus_label(Bus::SpiInTable).1 * 8 == 1_500_000,
{
}

} // verus!
