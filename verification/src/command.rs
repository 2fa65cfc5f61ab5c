//! The shell's command language: what each line asks for.

use crate::console::{
    self, parse_hex_bytes, parse_hex_u32, parse_hex_u8, parse_number, parse_u32, parse_u8,
    split_words, subcommand_rest, trim_start,
};
use crate::text::{self, append, append_str, same};
use vstd::prelude::*;
use vstd::slice::slice_subrange;

verus! {

/// What the onboard LED is told to do.
#[derive(Copy, Clone, Debug, PartialEq, Eq, Structural)]
pub enum LedVerb {
    On,
    Off,
    Toggle,
    Blink,
    /// No such verb.
    Unknown,
}

/// What a GPIO pin is told to do.
#[derive(Copy, Clone, Debug, PartialEq, Eq, Structural)]
pub enum PinVerb {
    Out,
    In,
    High,
    Low,
    Toggle,
    Read,
    PullUp,
    PullDown,
    PullNone,
}

/// What the Wi-Fi driver is asked.
#[derive(Copy, Clone, Debug, PartialEq, Eq, Structural)]
pub enum WifiVerb {
    Mac,
    Status,
    On,
    Off,
    Scan,
    Ap,
}

/// What a command line asks for. Byte strings travel beside it.
#[allow(inconsistent_fields)]
#[derive(Copy, Clone, Debug, PartialEq, Eq, Structural)]
pub enum Verb {
    /// An empty line.
    Nothing,
    /// Print the data.
    Say,
    /// Print the help text.
    Help,
    /// Run the self-tests.
    Status,
    /// Print the time since boot.
    Ticks,
    /// Measure the UART and SPI buses.
    BenchAll,
    /// Measure these, and the I2C bus against a target.
    BenchAllI2c { addr: u8 },
    /// Send a number to core 1.
    Core1 { n: u32 },
    Core1Stress { count: u32 },
    Core1Speed { n: u32 },
    Core1Bulk { len: u32, iters: u32 },
    Core1Pipe { iters: u32 },
    /// Dim the LED.
    LedDim { pct: u8 },
    Led { verb: LedVerb },
    Gpio { verb: PinVerb, pin: u8 },
    /// Send the data and a line end.
    UartSend,
    UartRecv,
    UartBench { n: u32 },
    UartRxBench,
    /// Exchange the data.
    SpiXfer,
    SpiRole { peripheral: bool },
    /// Stage the data as the peripheral's response.
    SpiLoad,
    SpiRecv,
    SpiBench { n: u32 },
    I2cScan,
    I2cRead { addr: u8, count: u8 },
    /// Write the data.
    I2cWrite { addr: u8 },
    /// Serve the data as a target.
    I2cTarget { addr: u8 },
    I2cSpeed { khz: u32 },
    I2cBench { addr: u8, n: u32 },
    FlashErase { off: u32 },
    /// Program the data.
    FlashWrite { off: u32 },
    FlashRead { off: u32, count: u8 },
    /// Look up a boot-ROM code; the name holds its two characters.
    Rom { code: u16 },
    Temp,
    AdcRead { ch: u8 },
    Wifi { verb: WifiVerb },
    Slot,
    /// Receive an image over the console.
    Update { size: u32, crc: u32 },
    /// Receive an image over UART.
    UartUpdate { size: u32, crc: u32 },
    /// Send the own image over UART.
    Push { size: u32 },
    SlinkSend { b0: u8, b1: u8, b2: u8, n: u8 },
    SlinkListen { ms: u32 },
    SlinkFlood { n: u32 },
    SlinkSoak { n: u32, ms: u32 },
    /// Set the colour LED.
    Rgb { grb: u32 },
    RtcGet,
    RtcSet { packed: u64 },
    SdInit,
    SdRead { block: u32 },
    SdFind { start: u32, count: u32 },
    SdLs,
    /// Print the named file.
    SdCat,
    SdDf,
    /// Write the data to the named file.
    SdWrite,
    /// Delete the named file.
    SdRm,
    /// Fault on purpose.
    Crash,
    Reboot { bootsel: u8 },
}

/// A parsed command line.
pub struct Command {
    pub verb: Verb,
    /// A file name, or a boot-ROM code.
    pub name: Vec<u8>,
    /// Text to print, or bytes to send, write or serve.
    pub data: Vec<u8>,
}

/// A parsed command line in the abstract.
#[verifier::ext_equal]
pub struct Request {
    pub verb: Verb,
    pub name: Seq<u8>,
    pub data: Seq<u8>,
}

impl Command {
    /// What the command asks for.
    pub open spec fn view(&self) -> Request {
        Request { verb: self.verb, name: self.name@, data: self.data@ }
    }
}

/// A request that needs no byte string.
pub open spec fn plain(verb: Verb) -> Request {
    Request { verb, name: Seq::empty(), data: Seq::empty() }
}

/// A request with data.
pub open spec fn carrying(verb: Verb, data: Seq<u8>) -> Request {
    Request { verb, name: Seq::empty(), data }
}

/// A request with a name.
pub open spec fn named(verb: Verb, name: Seq<u8>) -> Request {
    Request { verb, name, data: Seq::empty() }
}

/// A request to print a text.
pub open spec fn say(msg: &str) -> Request {
    carrying(Verb::Say, text::lit(msg))
}

/// Whether the word at `k` is `s`.
pub open spec fn word_is(ws: Seq<Seq<u8>>, k: int, s: &str) -> bool {
    0 <= k < ws.len() && ws[k] == text::lit(s)
}

/// The number at word `k`, if there is one.
pub open spec fn num_at(ws: Seq<Seq<u8>>, k: int, radix: nat, max: nat) -> Option<nat> {
    if 0 <= k < ws.len() {
        console::number(ws[k], radix, max)
    } else {
        None
    }
}

/// The decimal number at word `k`, or `d`.
pub open spec fn u32_or(ws: Seq<Seq<u8>>, k: int, d: u32) -> u32 {
    match num_at(ws, k, 10, 0xFFFF_FFFF) {
        Some(n) => n as u32,
        None => d,
    }
}

/// The decimal number that `s` spells, or `d`.
pub open spec fn text_or(s: Seq<u8>, d: u32) -> u32 {
    match console::number(s, 10, 0xFFFF_FFFF) {
        Some(n) => n as u32,
        None => d,
    }
}

fn cmd_plain(verb: Verb) -> (c: Command)
    ensures
        c@ == plain(verb),
{
    let c = Command { verb, name: Vec::new(), data: Vec::new() };
    assert(c@ =~= plain(verb));
    c
}

fn cmd_carrying(verb: Verb, data: Vec<u8>) -> (c: Command)
    ensures
        c@ == carrying(verb, data@),
{
    let c = Command { verb, name: Vec::new(), data };
    assert(c@ =~= carrying(verb, data@));
    c
}

fn copied(s: &[u8]) -> (v: Vec<u8>)
    ensures
        v@ == s@,
{
    let mut v: Vec<u8> = Vec::new();
    append(&mut v, s);
    assert(v@ =~= s@);
    v
}

fn cmd_named(verb: Verb, name: &[u8]) -> (c: Command)
    ensures
        c@ == named(verb, name@),
{
    let c = Command { verb, name: copied(name), data: Vec::new() };
    assert(c@ =~= named(verb, name@));
    c
}

fn cmd_say(msg: &str) -> (c: Command)
    ensures
        c@ == say(msg),
{
    cmd_carrying(Verb::Say, copied(msg.as_bytes()))
}

fn is_word(ws: &Vec<Vec<u8>>, k: usize, s: &str) -> (r: bool)
    ensures
        r == word_is(console::texts(ws@), k as int, s),
{
    k < ws.len() && same(ws[k].as_slice(), s.as_bytes())
}

fn u32_at(ws: &Vec<Vec<u8>>, k: usize) -> (r: Option<u32>)
    ensures
        r == match num_at(console::texts(ws@), k as int, 10, 0xFFFF_FFFF) {
            Some(n) => Some(n as u32),
            None => None,
        },
{
    if k < ws.len() {
        parse_u32(ws[k].as_slice())
    } else {
        None
    }
}

fn u8_at(ws: &Vec<Vec<u8>>, k: usize) -> (r: Option<u8>)
    ensures
        r == match num_at(console::texts(ws@), k as int, 10, 255) {
            Some(n) => Some(n as u8),
            None => None,
        },
{
    if k < ws.len() {
        parse_u8(ws[k].as_slice())
    } else {
        None
    }
}

fn hex_u8_at(ws: &Vec<Vec<u8>>, k: usize) -> (r: Option<u8>)
    ensures
        r == match num_at(console::texts(ws@), k as int, 16, 255) {
            Some(n) => Some(n as u8),
            None => None,
        },
{
    if k < ws.len() {
        parse_hex_u8(ws[k].as_slice())
    } else {
        None
    }
}

fn hex_u32_at(ws: &Vec<Vec<u8>>, k: usize) -> (r: Option<u32>)
    ensures
        r == match num_at(console::texts(ws@), k as int, 16, 0xFFFF_FFFF) {
            Some(n) => Some(n as u32),
            None => None,
        },
{
    if k < ws.len() {
        parse_hex_u32(ws[k].as_slice())
    } else {
        None
    }
}

/// A count at word `k`, at most `cap`.
pub open spec fn count_at(ws: Seq<Seq<u8>>, k: int, cap: u8) -> Option<u8> {
    match num_at(ws, k, 10, usize::MAX as nat) {
        Some(n) => Some(
            if n < cap {
                n as u8
            } else {
                cap
            },
        ),
        None => None,
    }
}

fn read_count(ws: &Vec<Vec<u8>>, k: usize, cap: u8) -> (r: Option<u8>)
    ensures
        r == count_at(console::texts(ws@), k as int, cap),
{
    if k < ws.len() {
        match parse_number(ws[k].as_slice(), 10, usize::MAX as u64) {
            Some(n) => Some(
                if n < cap as u64 {
                    n as u8
                } else {
                    cap
                },
            ),
            None => None,
        }
    } else {
        None
    }
}

fn number_or(ws: &Vec<Vec<u8>>, k: usize, d: u32) -> (r: u32)
    ensures
        r == u32_or(console::texts(ws@), k as int, d),
{
    match u32_at(ws, k) {
        Some(n) => n,
        None => d,
    }
}

fn rest_number_or(line: &[u8], verb: &str, d: u32) -> (r: u32)
    ensures
        r == text_or(console::rest_after(line@, text::lit(verb)), d),
{
    match parse_u32(subcommand_rest(line, verb.as_bytes())) {
        Some(n) => n,
        None => d,
    }
}

/// `bench all [addr]`.
pub open spec fn bench_request(ws: Seq<Seq<u8>>) -> Request {
    if !word_is(ws, 1, "all") {
        say("usage: bench all [i2c-target-hex-addr]\r\n")
    } else {
        match num_at(ws, 2, 16, 255) {
            Some(a) => plain(Verb::BenchAllI2c { addr: a as u8 }),
            None => plain(Verb::BenchAll),
        }
    }
}

/// Parse `bench`.
pub fn cmd_bench(ws: &Vec<Vec<u8>>) -> (c: Command)
    ensures
        c@ == bench_request(console::texts(ws@)),
        within_bounds(c@),
{
    if !is_word(ws, 1, "all") {
        return cmd_say("usage: bench all [i2c-target-hex-addr]\r\n");
    }
    match hex_u8_at(ws, 2) {
        Some(addr) => cmd_plain(Verb::BenchAllI2c { addr }),
        None => cmd_plain(Verb::BenchAll),
    }
}

/// `core1 <n> | stress | speed | bulk | pipe`.
pub open spec fn core1_request(ws: Seq<Seq<u8>>) -> Request {
    if word_is(ws, 1, "stress") {
        plain(Verb::Core1Stress { count: u32_or(ws, 2, 2000) })
    } else if word_is(ws, 1, "speed") {
        plain(Verb::Core1Speed { n: u32_or(ws, 2, 1_000_000) })
    } else if word_is(ws, 1, "bulk") {
        plain(Verb::Core1Bulk { len: u32_or(ws, 2, 4096), iters: u32_or(ws, 3, 50_000) })
    } else if word_is(ws, 1, "pipe") {
        plain(Verb::Core1Pipe { iters: u32_or(ws, 2, 100_000) })
    } else {
        match num_at(ws, 1, 10, 0xFFFF_FFFF) {
            Some(n) => plain(Verb::Core1 { n: n as u32 }),
            None => say("usage: core1 <n> | core1 stress <count>\r\n"),
        }
    }
}

/// Parse `core1`.
pub fn cmd_core1(ws: &Vec<Vec<u8>>) -> (c: Command)
    ensures
        c@ == core1_request(console::texts(ws@)),
        within_bounds(c@),
{
    if is_word(ws, 1, "stress") {
        return cmd_plain(Verb::Core1Stress { count: number_or(ws, 2, 2000) });
    }
    if is_word(ws, 1, "speed") {
        return cmd_plain(Verb::Core1Speed { n: number_or(ws, 2, 1_000_000) });
    }
    if is_word(ws, 1, "bulk") {
        return cmd_plain(
            Verb::Core1Bulk { len: number_or(ws, 2, 4096), iters: number_or(ws, 3, 50_000) },
        );
    }
    if is_word(ws, 1, "pipe") {
        return cmd_plain(Verb::Core1Pipe { iters: number_or(ws, 2, 100_000) });
    }
    match u32_at(ws, 1) {
        Some(n) => cmd_plain(Verb::Core1 { n }),
        None => cmd_say("usage: core1 <n> | core1 stress <count>\r\n"),
    }
}

/// `led dim <pct> | on | off | toggle | blink`; alone, it toggles.
pub open spec fn led_request(ws: Seq<Seq<u8>>) -> Request {
    if word_is(ws, 1, "dim") {
        match num_at(ws, 2, 10, 100) {
            Some(p) => plain(Verb::LedDim { pct: p as u8 }),
            None => say("usage: led dim <0-100>\r\n"),
        }
    } else if word_is(ws, 1, "on") {
        plain(Verb::Led { verb: LedVerb::On })
    } else if word_is(ws, 1, "off") {
        plain(Verb::Led { verb: LedVerb::Off })
    } else if ws.len() <= 1 || word_is(ws, 1, "toggle") {
        plain(Verb::Led { verb: LedVerb::Toggle })
    } else if word_is(ws, 1, "blink") {
        plain(Verb::Led { verb: LedVerb::Blink })
    } else {
        plain(Verb::Led { verb: LedVerb::Unknown })
    }
}

proof fn percent_is_a_byte(s: Seq<u8>)
    ensures
        console::number(s, 10, 100) == match console::number(s, 10, 255) {
            Some(n) if n <= 100 => Some(n),
            _ => None,
        },
{
}

/// Parse `led`.
pub fn cmd_led(ws: &Vec<Vec<u8>>) -> (c: Command)
    ensures
        c@ == led_request(console::texts(ws@)),
        within_bounds(c@),
{
    if is_word(ws, 1, "dim") {
        proof {
            if ws@.len() > 2 {
                percent_is_a_byte(ws@[2]@);
            }
        }
        return match u8_at(ws, 2) {
            Some(pct) => {
                if pct <= 100 {
                    cmd_plain(Verb::LedDim { pct })
                } else {
                    cmd_say("usage: led dim <0-100>\r\n")
                }
            },
            None => cmd_say("usage: led dim <0-100>\r\n"),
        };
    }
    let verb = if is_word(ws, 1, "on") {
        LedVerb::On
    } else if is_word(ws, 1, "off") {
        LedVerb::Off
    } else if ws.len() <= 1 || is_word(ws, 1, "toggle") {
        LedVerb::Toggle
    } else if is_word(ws, 1, "blink") {
        LedVerb::Blink
    } else {
        LedVerb::Unknown
    };
    cmd_plain(Verb::Led { verb })
}

/// `gpio <verb> <pin> [pull]`.
pub open spec fn gpio_request(ws: Seq<Seq<u8>>) -> Request {
    let usage = say("usage: gpio out|in|hi|lo|toggle|read|pull <pin>\r\n");
    if ws.len() <= 2 {
        usage
    } else {
        match num_at(ws, 2, 10, 255) {
            None => say("bad pin\r\n"),
            Some(p) => {
                let pin = p as u8;
                if word_is(ws, 1, "pull") {
                    if word_is(ws, 3, "up") {
                        plain(Verb::Gpio { verb: PinVerb::PullUp, pin })
                    } else if word_is(ws, 3, "down") {
                        plain(Verb::Gpio { verb: PinVerb::PullDown, pin })
                    } else if word_is(ws, 3, "none") {
                        plain(Verb::Gpio { verb: PinVerb::PullNone, pin })
                    } else {
                        say("usage: gpio pull <pin> up|down|none\r\n")
                    }
                } else if word_is(ws, 1, "out") {
                    plain(Verb::Gpio { verb: PinVerb::Out, pin })
                } else if word_is(ws, 1, "in") {
                    plain(Verb::Gpio { verb: PinVerb::In, pin })
                } else if word_is(ws, 1, "hi") {
                    plain(Verb::Gpio { verb: PinVerb::High, pin })
                } else if word_is(ws, 1, "lo") {
                    plain(Verb::Gpio { verb: PinVerb::Low, pin })
                } else if word_is(ws, 1, "toggle") {
                    plain(Verb::Gpio { verb: PinVerb::Toggle, pin })
                } else if word_is(ws, 1, "read") {
                    plain(Verb::Gpio { verb: PinVerb::Read, pin })
                } else {
                    usage
                }
            },
        }
    }
}

/// Parse `gpio`.
pub fn cmd_gpio(ws: &Vec<Vec<u8>>) -> (c: Command)
    ensures
        c@ == gpio_request(console::texts(ws@)),
        within_bounds(c@),
{
    if ws.len() <= 2 {
        return cmd_say("usage: gpio out|in|hi|lo|toggle|read|pull <pin>\r\n");
    }
    let pin: u8 = match u8_at(ws, 2) {
        Some(p) => p,
        None => return cmd_say("bad pin\r\n"),
    };
    let verb = if is_word(ws, 1, "pull") {
        if is_word(ws, 3, "up") {
            PinVerb::PullUp
        } else if is_word(ws, 3, "down") {
            PinVerb::PullDown
        } else if is_word(ws, 3, "none") {
            PinVerb::PullNone
        } else {
            return cmd_say("usage: gpio pull <pin> up|down|none\r\n");
        }
    } else if is_word(ws, 1, "out") {
        PinVerb::Out
    } else if is_word(ws, 1, "in") {
        PinVerb::In
    } else if is_word(ws, 1, "hi") {
        PinVerb::High
    } else if is_word(ws, 1, "lo") {
        PinVerb::Low
    } else if is_word(ws, 1, "toggle") {
        PinVerb::Toggle
    } else if is_word(ws, 1, "read") {
        PinVerb::Read
    } else {
        return cmd_say("usage: gpio out|in|hi|lo|toggle|read|pull <pin>\r\n");
    };
    cmd_plain(Verb::Gpio { verb, pin })
}

/// `uart send <text> | recv | bench [n] | rxbench`.
pub open spec fn uart_request(line: Seq<u8>, ws: Seq<Seq<u8>>) -> Request {
    if word_is(ws, 1, "send") {
        carrying(Verb::UartSend, console::rest_after(line, text::lit("send")))
    } else if word_is(ws, 1, "recv") {
        plain(Verb::UartRecv)
    } else if word_is(ws, 1, "bench") {
        plain(
            Verb::UartBench {
                n: text_or(console::rest_after(line, text::lit("bench")), 4096),
            },
        )
    } else if word_is(ws, 1, "rxbench") {
        plain(Verb::UartRxBench)
    } else {
        say("usage: uart send <text> | recv | bench [n] | rxbench\r\n")
    }
}

/// Parse `uart`.
pub fn cmd_uart(line: &[u8], ws: &Vec<Vec<u8>>) -> (c: Command)
    ensures
        c@ == uart_request(line@, console::texts(ws@)),
        within_bounds(c@),
{
    if is_word(ws, 1, "send") {
        let rest = copied(subcommand_rest(line, "send".as_bytes()));
        return cmd_carrying(Verb::UartSend, rest);
    }
    if is_word(ws, 1, "recv") {
        return cmd_plain(Verb::UartRecv);
    }
    if is_word(ws, 1, "bench") {
        return cmd_plain(Verb::UartBench { n: rest_number_or(line, "bench", 4096) });
    }
    if is_word(ws, 1, "rxbench") {
        return cmd_plain(Verb::UartRxBench);
    }
    cmd_say("usage: uart send <text> | recv | bench [n] | rxbench\r\n")
}

/// `spi xfer <hex..> | role <role> | load <hex..> | recv | bench [n]`.
pub open spec fn spi_request(line: Seq<u8>, ws: Seq<Seq<u8>>) -> Request {
    if word_is(ws, 1, "xfer") {
        match console::hex_bytes(console::rest_after(line, text::lit("xfer")), 32) {
            None => say("bad hex (e.g. spi xfer a5 5a 3c)\r\n"),
            Some(b) => if b.len() == 0 {
                say("usage: spi xfer <hex bytes>\r\n")
            } else {
                carrying(Verb::SpiXfer, b)
            },
        }
    } else if word_is(ws, 1, "role") {
        let rest = console::rest_after(line, text::lit("role"));
        if rest == text::lit("peripheral") {
            plain(Verb::SpiRole { peripheral: true })
        } else if rest == text::lit("controller") {
            plain(Verb::SpiRole { peripheral: false })
        } else {
            say("usage: spi role controller|peripheral\r\n")
        }
    } else if word_is(ws, 1, "load") {
        match console::hex_bytes(console::rest_after(line, text::lit("load")), 8) {
            None => say("bad hex (max 8 bytes)\r\n"),
            Some(b) => carrying(Verb::SpiLoad, b),
        }
    } else if word_is(ws, 1, "recv") {
        plain(Verb::SpiRecv)
    } else if word_is(ws, 1, "bench") {
        plain(
            Verb::SpiBench { n: text_or(console::rest_after(line, text::lit("bench")), 4096) },
        )
    } else {
        say("usage: spi xfer|role|load|recv|bench ...\r\n")
    }
}

/// Parse `spi`.
pub fn cmd_spi(line: &[u8], ws: &Vec<Vec<u8>>) -> (c: Command)
    ensures
        c@ == spi_request(line@, console::texts(ws@)),
        within_bounds(c@),
{
    if is_word(ws, 1, "xfer") {
        return match parse_hex_bytes(subcommand_rest(line, "xfer".as_bytes()), 32) {
            None => cmd_say("bad hex (e.g. spi xfer a5 5a 3c)\r\n"),
            Some(b) => {
                if b.len() == 0 {
                    cmd_say("usage: spi xfer <hex bytes>\r\n")
                } else {
                    cmd_carrying(Verb::SpiXfer, b)
                }
            },
        };
    }
    if is_word(ws, 1, "role") {
        let rest = subcommand_rest(line, "role".as_bytes());
        if same(rest, "peripheral".as_bytes()) {
            return cmd_plain(Verb::SpiRole { peripheral: true });
        }
        if same(rest, "controller".as_bytes()) {
            return cmd_plain(Verb::SpiRole { peripheral: false });
        }
        return cmd_say("usage: spi role controller|peripheral\r\n");
    }
    if is_word(ws, 1, "load") {
        return match parse_hex_bytes(subcommand_rest(line, "load".as_bytes()), 8) {
            None => cmd_say("bad hex (max 8 bytes)\r\n"),
            Some(b) => cmd_carrying(Verb::SpiLoad, b),
        };
    }
    if is_word(ws, 1, "recv") {
        return cmd_plain(Verb::SpiRecv);
    }
    if is_word(ws, 1, "bench") {
        return cmd_plain(Verb::SpiBench { n: rest_number_or(line, "bench", 4096) });
    }
    cmd_say("usage: spi xfer|role|load|recv|bench ...\r\n")
}

/// `i2c scan | read | write | target | speed | bench`.
pub open spec fn i2c_request(ws: Seq<Seq<u8>>) -> Request {
    let addr = num_at(ws, 2, 16, 255);
    if word_is(ws, 1, "scan") {
        plain(Verb::I2cScan)
    } else if word_is(ws, 1, "read") {
        match (addr, count_at(ws, 3, 32)) {
            (Some(a), Some(count)) => plain(Verb::I2cRead { addr: a as u8, count }),
            _ => say("usage: i2c read <hex-addr> <count<=32>\r\n"),
        }
    } else if word_is(ws, 1, "write") {
        match addr {
            None => say("usage: i2c write <hex-addr> <hex bytes>\r\n"),
            Some(a) => if ws.len() <= 3 {
                say("bad hex (e.g. i2c write 42 00ff10)\r\n")
            } else {
                match console::hex_bytes(ws[3], 32) {
                    None => say("bad hex (e.g. i2c write 42 00ff10)\r\n"),
                    Some(b) => carrying(Verb::I2cWrite { addr: a as u8 }, b),
                }
            },
        }
    } else if word_is(ws, 1, "target") {
        match addr {
            None => say("usage: i2c target <hex-addr> <hex bytes<=16>\r\n"),
            Some(a) => if ws.len() <= 3 {
                say("usage: i2c target <hex-addr> <hex bytes<=16>\r\n")
            } else {
                match console::hex_bytes(ws[3], 16) {
                    None => say("bad hex (e.g. i2c target 42 48554252495321)\r\n"),
                    Some(b) => carrying(Verb::I2cTarget { addr: a as u8 }, b),
                }
            },
        }
    } else if word_is(ws, 1, "speed") {
        match num_at(ws, 2, 10, 0xFFFF_FFFF) {
            None => say("usage: i2c speed <khz: 100|400|1000>\r\n"),
            Some(khz) => plain(Verb::I2cSpeed { khz: khz as u32 }),
        }
    } else if word_is(ws, 1, "bench") {
        match addr {
            None => say("usage: i2c bench <hex-addr> [n]\r\n"),
            Some(a) => plain(Verb::I2cBench { addr: a as u8, n: u32_or(ws, 3, 4096) }),
        }
    } else {
        say("usage: i2c scan|read|write|target|speed|bench\r\n")
    }
}

/// Parse `i2c`.
pub fn cmd_i2c(ws: &Vec<Vec<u8>>) -> (c: Command)
    ensures
        c@ == i2c_request(console::texts(ws@)),
        within_bounds(c@),
{
    if is_word(ws, 1, "scan") {
        return cmd_plain(Verb::I2cScan);
    }
    if is_word(ws, 1, "read") {
        return match (hex_u8_at(ws, 2), read_count(ws, 3, 32)) {
            (Some(addr), Some(count)) => cmd_plain(Verb::I2cRead { addr, count }),
            _ => cmd_say("usage: i2c read <hex-addr> <count<=32>\r\n"),
        };
    }
    if is_word(ws, 1, "write") {
        let addr: u8 = match hex_u8_at(ws, 2) {
            Some(a) => a,
            None => return cmd_say("usage: i2c write <hex-addr> <hex bytes>\r\n"),
        };
        if ws.len() <= 3 {
            return cmd_say("bad hex (e.g. i2c write 42 00ff10)\r\n");
        }
        return match parse_hex_bytes(ws[3].as_slice(), 32) {
            None => cmd_say("bad hex (e.g. i2c write 42 00ff10)\r\n"),
            Some(b) => cmd_carrying(Verb::I2cWrite { addr }, b),
        };
    }
    if is_word(ws, 1, "target") {
        let addr: u8 = match hex_u8_at(ws, 2) {
            Some(a) => a,
            None => return cmd_say("usage: i2c target <hex-addr> <hex bytes<=16>\r\n"),
        };
        if ws.len() <= 3 {
            return cmd_say("usage: i2c target <hex-addr> <hex bytes<=16>\r\n");
        }
        return match parse_hex_bytes(ws[3].as_slice(), 16) {
            None => cmd_say("bad hex (e.g. i2c target 42 48554252495321)\r\n"),
            Some(b) => cmd_carrying(Verb::I2cTarget { addr }, b),
        };
    }
    if is_word(ws, 1, "speed") {
        return match u32_at(ws, 2) {
            None => cmd_say("usage: i2c speed <khz: 100|400|1000>\r\n"),
            Some(khz) => cmd_plain(Verb::I2cSpeed { khz }),
        };
    }
    if is_word(ws, 1, "bench") {
        return match hex_u8_at(ws, 2) {
            None => cmd_say("usage: i2c bench <hex-addr> [n]\r\n"),
            Some(addr) => cmd_plain(Verb::I2cBench { addr, n: number_or(ws, 3, 4096) }),
        };
    }
    cmd_say("usage: i2c scan|read|write|target|speed|bench\r\n")
}

/// `flash erase <off> | write <off> <hex..> | read <off> [n]`.
pub open spec fn flash_request(ws: Seq<Seq<u8>>) -> Request {
    let off = num_at(ws, 2, 16, 0xFFFF_FFFF);
    if word_is(ws, 1, "erase") {
        match off {
            None => say("bad offset (hex, 4K-aligned)\r\n"),
            Some(o) => plain(Verb::FlashErase { off: o as u32 }),
        }
    } else if word_is(ws, 1, "write") {
        match off {
            None => say("bad offset (hex)\r\n"),
            Some(o) => if ws.len() <= 3 {
                say("bad hex (e.g. flash write 3f0000 deadbeef)\r\n")
            } else {
                match console::hex_bytes(ws[3], 64) {
                    None => say("bad hex (e.g. flash write 3f0000 deadbeef)\r\n"),
                    Some(b) => if b.len() == 0 {
                        say("no data\r\n")
                    } else {
                        carrying(Verb::FlashWrite { off: o as u32 }, b)
                    },
                }
            },
        }
    } else if !word_is(ws, 1, "read") {
        say("usage: flash read|erase|write <hex-off> ...\r\n")
    } else {
        match off {
            None => say("bad offset (hex, e.g. flash read 160)\r\n"),
            Some(o) => if ws.len() <= 3 {
                plain(Verb::FlashRead { off: o as u32, count: 64 })
            } else {
                match count_at(ws, 3, 64) {
                    Some(count) => plain(Verb::FlashRead { off: o as u32, count }),
                    None => say("bad count (decimal, max 64)\r\n"),
                }
            },
        }
    }
}

/// Parse `flash`.
pub fn cmd_flash(ws: &Vec<Vec<u8>>) -> (c: Command)
    ensures
        c@ == flash_request(console::texts(ws@)),
        within_bounds(c@),
{
    let off = hex_u32_at(ws, 2);
    if is_word(ws, 1, "erase") {
        return match off {
            None => cmd_say("bad offset (hex, 4K-aligned)\r\n"),
            Some(off) => cmd_plain(Verb::FlashErase { off }),
        };
    }
    if is_word(ws, 1, "write") {
        let off: u32 = match off {
            Some(o) => o,
            None => return cmd_say("bad offset (hex)\r\n"),
        };
        if ws.len() <= 3 {
            return cmd_say("bad hex (e.g. flash write 3f0000 deadbeef)\r\n");
        }
        return match parse_hex_bytes(ws[3].as_slice(), 64) {
            None => cmd_say("bad hex (e.g. flash write 3f0000 deadbeef)\r\n"),
            Some(b) => {
                if b.len() == 0 {
                    cmd_say("no data\r\n")
                } else {
                    cmd_carrying(Verb::FlashWrite { off }, b)
                }
            },
        };
    }
    if !is_word(ws, 1, "read") {
        return cmd_say("usage: flash read|erase|write <hex-off> ...\r\n");
    }
    let off: u32 = match off {
        Some(o) => o,
        None => return cmd_say("bad offset (hex, e.g. flash read 160)\r\n"),
    };
    if ws.len() <= 3 {
        return cmd_plain(Verb::FlashRead { off, count: 64 });
    }
    match read_count(ws, 3, 64) {
        Some(count) => cmd_plain(Verb::FlashRead { off, count }),
        None => cmd_say("bad count (decimal, max 64)\r\n"),
    }
}

/// `rom <CC>`.
pub open spec fn rom_request(ws: Seq<Seq<u8>>) -> Request {
    if ws.len() <= 1 || ws[1].len() != 2 {
        say("usage: rom <2-char code>, e.g. rom FO\r\n")
    } else {
        named(Verb::Rom { code: (ws[1][0] + 256 * ws[1][1]) as u16 }, ws[1])
    }
}

/// Parse `rom`.
pub fn cmd_rom(ws: &Vec<Vec<u8>>) -> (c: Command)
    ensures
        c@ == rom_request(console::texts(ws@)),
        within_bounds(c@),
{
    if ws.len() <= 1 || ws[1].len() != 2 {
        return cmd_say("usage: rom <2-char code>, e.g. rom FO\r\n");
    }
    let code: u16 = ws[1][0] as u16 + 256 * (ws[1][1] as u16);
    cmd_named(Verb::Rom { code }, ws[1].as_slice())
}

/// `adc read <ch>`.
pub open spec fn adc_request(ws: Seq<Seq<u8>>) -> Request {
    match num_at(ws, 2, 10, 255) {
        Some(ch) if word_is(ws, 1, "read") => plain(Verb::AdcRead { ch: ch as u8 }),
        _ => say("usage: adc read <0-4>\r\n"),
    }
}

/// Parse `adc`.
pub fn cmd_adc(ws: &Vec<Vec<u8>>) -> (c: Command)
    ensures
        c@ == adc_request(console::texts(ws@)),
        within_bounds(c@),
{
    if is_word(ws, 1, "read") {
        if let Some(ch) = u8_at(ws, 2) {
            return cmd_plain(Verb::AdcRead { ch });
        }
    }
    cmd_say("usage: adc read <0-4>\r\n")
}

/// `wifi mac|status|on|off|scan|ap`.
pub open spec fn wifi_request(ws: Seq<Seq<u8>>) -> Request {
    if word_is(ws, 1, "mac") {
        plain(Verb::Wifi { verb: WifiVerb::Mac })
    } else if word_is(ws, 1, "status") {
        plain(Verb::Wifi { verb: WifiVerb::Status })
    } else if word_is(ws, 1, "on") {
        plain(Verb::Wifi { verb: WifiVerb::On })
    } else if word_is(ws, 1, "off") {
        plain(Verb::Wifi { verb: WifiVerb::Off })
    } else if word_is(ws, 1, "scan") {
        plain(Verb::Wifi { verb: WifiVerb::Scan })
    } else if word_is(ws, 1, "ap") {
        plain(Verb::Wifi { verb: WifiVerb::Ap })
    } else {
        say("usage: wifi mac|status|on|off|scan|ap\r\n")
    }
}

/// Parse `wifi`.
pub fn cmd_wifi(ws: &Vec<Vec<u8>>) -> (c: Command)
    ensures
        c@ == wifi_request(console::texts(ws@)),
        within_bounds(c@),
{
    let verb = if is_word(ws, 1, "mac") {
        WifiVerb::Mac
    } else if is_word(ws, 1, "status") {
        WifiVerb::Status
    } else if is_word(ws, 1, "on") {
        WifiVerb::On
    } else if is_word(ws, 1, "off") {
        WifiVerb::Off
    } else if is_word(ws, 1, "scan") {
        WifiVerb::Scan
    } else if is_word(ws, 1, "ap") {
        WifiVerb::Ap
    } else {
        return cmd_say("usage: wifi mac|status|on|off|scan|ap\r\n");
    };
    cmd_plain(Verb::Wifi { verb })
}

/// The largest image: the 256 KiB load window.
pub const IMAGE_MAX: u32 = 0x4_0000;

/// The size and checksum of an image, if both are there and the size is in
/// range.
pub open spec fn update_args(ws: Seq<Seq<u8>>) -> Option<(u32, u32)> {
    match (num_at(ws, 1, 16, 0xFFFF_FFFF), num_at(ws, 2, 16, 0xFFFF_FFFF)) {
        (Some(size), Some(crc)) if 0 < size <= IMAGE_MAX => Some((size as u32, crc as u32)),
        _ => None,
    }
}

/// Parse and range-check the size and checksum of an image.
pub fn parse_update_args(ws: &Vec<Vec<u8>>) -> (r: Option<(u32, u32)>)
    ensures
        r == update_args(console::texts(ws@)),
{
    match (hex_u32_at(ws, 1), hex_u32_at(ws, 2)) {
        (Some(size), Some(crc)) => {
            if size == 0 || size > IMAGE_MAX {
                None
            } else {
                Some((size, crc))
            }
        },
        _ => None,
    }
}

/// `slink send <hex> <hex> [hex] | listen [ms] | flood [n] | soak [n] [ms]`.
pub open spec fn slink_request(ws: Seq<Seq<u8>>) -> Request {
    if word_is(ws, 1, "send") {
        match (num_at(ws, 2, 16, 255), num_at(ws, 3, 16, 255)) {
            (Some(a), Some(b)) => match num_at(ws, 4, 16, 255) {
                Some(c) => plain(
                    Verb::SlinkSend { b0: a as u8, b1: b as u8, b2: c as u8, n: 3 },
                ),
                None => plain(Verb::SlinkSend { b0: a as u8, b1: b as u8, b2: 0, n: 2 }),
            },
            _ => say("usage: slink send <hex> <hex> [hex]\r\n"),
        }
    } else if word_is(ws, 1, "listen") {
        plain(Verb::SlinkListen { ms: u32_or(ws, 2, 5000) })
    } else if word_is(ws, 1, "flood") {
        plain(Verb::SlinkFlood { n: u32_or(ws, 2, 256) })
    } else if word_is(ws, 1, "soak") {
        plain(Verb::SlinkSoak { n: u32_or(ws, 2, 256), ms: u32_or(ws, 3, 60000) })
    } else {
        say("usage: slink send <hex..> | listen [ms] | flood <n> | soak <n> [ms]\r\n")
    }
}

/// Parse `slink`.
pub fn cmd_slink(ws: &Vec<Vec<u8>>) -> (c: Command)
    ensures
        c@ == slink_request(console::texts(ws@)),
        within_bounds(c@),
{
    if is_word(ws, 1, "send") {
        return match (hex_u8_at(ws, 2), hex_u8_at(ws, 3)) {
            (Some(b0), Some(b1)) => match hex_u8_at(ws, 4) {
                Some(b2) => cmd_plain(Verb::SlinkSend { b0, b1, b2, n: 3 }),
                None => cmd_plain(Verb::SlinkSend { b0, b1, b2: 0, n: 2 }),
            },
            _ => cmd_say("usage: slink send <hex> <hex> [hex]\r\n"),
        };
    }
    if is_word(ws, 1, "listen") {
        return cmd_plain(Verb::SlinkListen { ms: number_or(ws, 2, 5000) });
    }
    if is_word(ws, 1, "flood") {
        return cmd_plain(Verb::SlinkFlood { n: number_or(ws, 2, 256) });
    }
    if is_word(ws, 1, "soak") {
        return cmd_plain(
            Verb::SlinkSoak { n: number_or(ws, 2, 256), ms: number_or(ws, 3, 60000) },
        );
    }
    cmd_say("usage: slink send <hex..> | listen [ms] | flood <n> | soak <n> [ms]\r\n")
}

/// `rgb <r> <g> <b>`, packed in the LED's wire order (green, red, blue).
pub open spec fn rgb_request(ws: Seq<Seq<u8>>) -> Request {
    match (num_at(ws, 1, 10, 255), num_at(ws, 2, 10, 255), num_at(ws, 3, 10, 255)) {
        (Some(r), Some(g), Some(b)) => plain(
            Verb::Rgb { grb: (0x1_0000 * g + 0x100 * r + b) as u32 },
        ),
        _ => say("usage: rgb <r> <g> <b> (0-255)\r\n"),
    }
}

/// Parse `rgb`.
pub fn cmd_rgb(ws: &Vec<Vec<u8>>) -> (c: Command)
    ensures
        c@ == rgb_request(console::texts(ws@)),
        within_bounds(c@),
{
    match (u8_at(ws, 1), u8_at(ws, 2), u8_at(ws, 3)) {
        (Some(r), Some(g), Some(b)) => cmd_plain(
            Verb::Rgb { grb: 0x1_0000 * (g as u32) + 0x100 * (r as u32) + b as u32 },
        ),
        _ => cmd_say("usage: rgb <r> <g> <b> (0-255)\r\n"),
    }
}

/// The clock's fields in one word: second, minute, hour, date, month, weekday
/// and year, from the lowest byte up.
pub open spec fn packed_time(
    ss: u8,
    min: u8,
    hh: u8,
    dd: u8,
    mm: u8,
    weekday: u8,
    yy: u8,
) -> nat {
    (ss + 0x100 * min + 0x1_0000 * hh + 0x100_0000 * dd + 0x1_0000_0000 * mm + 0x100_0000_0000
        * weekday + 0x1_0000_0000_0000 * yy) as nat
}

/// `rtc [get] | set <YY> <MM> <DD> <HH> <MM> <SS> [weekday]`.
pub open spec fn rtc_request(ws: Seq<Seq<u8>>) -> Request {
    if ws.len() <= 1 || word_is(ws, 1, "get") {
        plain(Verb::RtcGet)
    } else if word_is(ws, 1, "set") {
        let weekday = match num_at(ws, 8, 10, 255) {
            Some(d) => d as u8,
            None => 1,
        };
        match (
            num_at(ws, 2, 10, 255),
            num_at(ws, 3, 10, 255),
            num_at(ws, 4, 10, 255),
            num_at(ws, 5, 10, 255),
            num_at(ws, 6, 10, 255),
            num_at(ws, 7, 10, 255),
        ) {
            (Some(yy), Some(mm), Some(dd), Some(hh), Some(min), Some(ss)) => plain(
                Verb::RtcSet {
                    packed: packed_time(
                        ss as u8,
                        min as u8,
                        hh as u8,
                        dd as u8,
                        mm as u8,
                        weekday,
                        yy as u8,
                    ) as u64,
                },
            ),
            _ => say("usage: rtc set <YY> <MM> <DD> <HH> <MM> <SS> [weekday]\r\n"),
        }
    } else {
        say("usage: rtc [get] | rtc set <YY> <MM> <DD> <HH> <MM> <SS> [weekday]\r\n")
    }
}

/// Parse `rtc`.
pub fn cmd_rtc(ws: &Vec<Vec<u8>>) -> (c: Command)
    ensures
        c@ == rtc_request(console::texts(ws@)),
        within_bounds(c@),
{
    if ws.len() <= 1 || is_word(ws, 1, "get") {
        return cmd_plain(Verb::RtcGet);
    }
    if !is_word(ws, 1, "set") {
        return cmd_say(
            "usage: rtc [get] | rtc set <YY> <MM> <DD> <HH> <MM> <SS> [weekday]\r\n",
        );
    }
    let weekday: u8 = match u8_at(ws, 8) {
        Some(d) => d,
        None => 1,
    };
    match (
        u8_at(ws, 2),
        u8_at(ws, 3),
        u8_at(ws, 4),
        u8_at(ws, 5),
        u8_at(ws, 6),
        u8_at(ws, 7),
    ) {
        (Some(yy), Some(mm), Some(dd), Some(hh), Some(min), Some(ss)) => {
            let packed: u64 = ss as u64 + 0x100 * (min as u64) + 0x1_0000 * (hh as u64)
                + 0x100_0000 * (dd as u64) + 0x1_0000_0000 * (mm as u64) + 0x100_0000_0000 * (
            weekday as u64) + 0x1_0000_0000_0000 * (yy as u64);
            cmd_plain(Verb::RtcSet { packed })
        },
        _ => cmd_say("usage: rtc set <YY> <MM> <DD> <HH> <MM> <SS> [weekday]\r\n"),
    }
}

/// The file name and the body of `sd write <name> <text..>`.
pub open spec fn write_args(rest: Seq<u8>) -> (Seq<u8>, Seq<u8>) {
    let k = console::past_word(rest, 0);
    if k < rest.len() {
        let tail = rest.skip(k + console::space_at(rest, k));
        (rest.take(k), tail.skip(console::past_spaces(tail, 0)))
    } else {
        (rest, Seq::empty())
    }
}

/// `sd init | read <block> | find <start> <count> | ls | cat <name> | df |
/// write <name> <text> | rm <name>`.
pub open spec fn sd_request(line: Seq<u8>, ws: Seq<Seq<u8>>) -> Request {
    if word_is(ws, 1, "init") {
        plain(Verb::SdInit)
    } else if word_is(ws, 1, "read") {
        match num_at(ws, 2, 10, 0xFFFF_FFFF) {
            Some(b) => plain(Verb::SdRead { block: b as u32 }),
            None => say("usage: sd read <block>\r\n"),
        }
    } else if word_is(ws, 1, "find") {
        match (num_at(ws, 2, 10, 0xFFFF_FFFF), num_at(ws, 3, 10, 0xFFFF_FFFF)) {
            (Some(s), Some(n)) => plain(Verb::SdFind { start: s as u32, count: n as u32 }),
            _ => say("usage: sd find <start-block> <count>\r\n"),
        }
    } else if word_is(ws, 1, "ls") {
        plain(Verb::SdLs)
    } else if word_is(ws, 1, "cat") {
        if ws.len() <= 2 {
            say("usage: sd cat <name>\r\n")
        } else {
            named(Verb::SdCat, ws[2])
        }
    } else if word_is(ws, 1, "df") {
        plain(Verb::SdDf)
    } else if word_is(ws, 1, "write") {
        let (name, body) = write_args(console::rest_after(line, text::lit("write")));
        if name.len() == 0 {
            say("usage: sd write <name> <text...>\r\n")
        } else {
            Request { verb: Verb::SdWrite, name, data: body }
        }
    } else if word_is(ws, 1, "rm") {
        if ws.len() <= 2 {
            say("usage: sd rm <name>\r\n")
        } else {
            named(Verb::SdRm, ws[2])
        }
    } else {
        carrying(
            Verb::Say,
            text::lit("usage: sd init | read <block> | find <start> <count>") + text::lit(
                " | ls | cat <name> | df | write <name> <text> | rm <name>",
            ) + text::lit("\r\n"),
        )
    }
}

fn sd_write(rest: &[u8]) -> (c: Command)
    ensures
        c@ == ({
            let (name, body) = write_args(rest@);
            if name.len() == 0 {
                say("usage: sd write <name> <text...>\r\n")
            } else {
                (Request { verb: Verb::SdWrite, name, data: body })
            }
        }),
{
    let k: usize = console::word_end(rest, 0);
    if k < rest.len() {
        let name = copied(slice_subrange(rest, 0, k));
        let n: usize = console::space_len(rest, k);
        let tail = slice_subrange(rest, k + n, rest.len());
        assert(name@ == rest@.take(k as int));
        assert(tail@ == rest@.skip(k + n));
        let body = copied(trim_start(tail));
        if name.len() == 0 {
            return cmd_say("usage: sd write <name> <text...>\r\n");
        }
        let c = Command { verb: Verb::SdWrite, name, data: body };
        assert(c@ =~= Request { verb: Verb::SdWrite, name: name@, data: body@ });
        c
    } else {
        if rest.len() == 0 {
            return cmd_say("usage: sd write <name> <text...>\r\n");
        }
        cmd_named(Verb::SdWrite, rest)
    }
}

/// Parse `sd`.
pub fn cmd_sd(line: &[u8], ws: &Vec<Vec<u8>>) -> (c: Command)
    ensures
        c@ == sd_request(line@, console::texts(ws@)),
        within_bounds(c@),
{
    if is_word(ws, 1, "init") {
        return cmd_plain(Verb::SdInit);
    }
    if is_word(ws, 1, "read") {
        return match u32_at(ws, 2) {
            Some(block) => cmd_plain(Verb::SdRead { block }),
            None => cmd_say("usage: sd read <block>\r\n"),
        };
    }
    if is_word(ws, 1, "find") {
        return match (u32_at(ws, 2), u32_at(ws, 3)) {
            (Some(start), Some(count)) => cmd_plain(Verb::SdFind { start, count }),
            _ => cmd_say("usage: sd find <start-block> <count>\r\n"),
        };
    }
    if is_word(ws, 1, "ls") {
        return cmd_plain(Verb::SdLs);
    }
    if is_word(ws, 1, "cat") {
        if ws.len() <= 2 {
            return cmd_say("usage: sd cat <name>\r\n");
        }
        return cmd_named(Verb::SdCat, ws[2].as_slice());
    }
    if is_word(ws, 1, "df") {
        return cmd_plain(Verb::SdDf);
    }
    if is_word(ws, 1, "write") {
        return sd_write(subcommand_rest(line, "write".as_bytes()));
    }
    if is_word(ws, 1, "rm") {
        if ws.len() <= 2 {
            return cmd_say("usage: sd rm <name>\r\n");
        }
        return cmd_named(Verb::SdRm, ws[2].as_slice());
    }
    let mut v: Vec<u8> = Vec::new();
    append_str(&mut v, "usage: sd init | read <block> | find <start> <count>");
    append_str(&mut v, " | ls | cat <name> | df | write <name> <text> | rm <name>");
    append_str(&mut v, "\r\n");
    assert(v@ =~= text::lit("usage: sd init | read <block> | find <start> <count>") + text::lit(
        " | ls | cat <name> | df | write <name> <text> | rm <name>",
    ) + text::lit("\r\n"));
    cmd_carrying(Verb::Say, v)
}

/// `reboot [bootsel]`.
pub open spec fn reboot_request(ws: Seq<Seq<u8>>) -> Request {
    if word_is(ws, 1, "bootsel") {
        plain(Verb::Reboot { bootsel: 1 })
    } else if ws.len() <= 1 {
        plain(Verb::Reboot { bootsel: 0 })
    } else {
        say("usage: reboot [bootsel]\r\n")
    }
}

/// Parse `reboot`.
pub fn cmd_reboot(ws: &Vec<Vec<u8>>) -> (c: Command)
    ensures
        c@ == reboot_request(console::texts(ws@)),
        within_bounds(c@),
{
    if is_word(ws, 1, "bootsel") {
        return cmd_plain(Verb::Reboot { bootsel: 1 });
    }
    if ws.len() <= 1 {
        return cmd_plain(Verb::Reboot { bootsel: 0 });
    }
    cmd_say("usage: reboot [bootsel]\r\n")
}

/// The commands that move images, or `None` if the first word is none of them.
pub open spec fn image_request(ws: Seq<Seq<u8>>) -> Option<Request> {
    if word_is(ws, 0, "update") {
        Some(
            match update_args(ws) {
                Some((size, crc)) => plain(Verb::Update { size, crc }),
                None => say("usage: update <size-hex> <crc32-hex>\r\n"),
            },
        )
    } else if word_is(ws, 0, "uart-update") {
        Some(
            match update_args(ws) {
                Some((size, crc)) => plain(Verb::UartUpdate { size, crc }),
                None => say("usage: uart-update <size-hex> <crc32-hex>\r\n"),
            },
        )
    } else if word_is(ws, 0, "push") {
        Some(
            match update_args(ws) {
                Some((size, _)) => plain(Verb::Push { size }),
                None => say("usage: push <size-hex> <crc32-hex>\r\n"),
            },
        )
    } else {
        None
    }
}

/// Parse the commands that move images.
pub fn cmd_image(ws: &Vec<Vec<u8>>) -> (c: Option<Command>)
    ensures
        match image_request(console::texts(ws@)) {
            Some(r) => c matches Some(x) && x@ == r && within_bounds(x@),
            None => c is None,
        },
{
    if is_word(ws, 0, "update") {
        return Some(
            match parse_update_args(ws) {
                Some((size, crc)) => cmd_plain(Verb::Update { size, crc }),
                None => cmd_say("usage: update <size-hex> <crc32-hex>\r\n"),
            },
        );
    }
    if is_word(ws, 0, "uart-update") {
        return Some(
            match parse_update_args(ws) {
                Some((size, crc)) => cmd_plain(Verb::UartUpdate { size, crc }),
                None => cmd_say("usage: uart-update <size-hex> <crc32-hex>\r\n"),
            },
        );
    }
    if is_word(ws, 0, "push") {
        return Some(
            match parse_update_args(ws) {
                Some((size, _)) => cmd_plain(Verb::Push { size }),
                None => cmd_say("usage: push <size-hex> <crc32-hex>\r\n"),
            },
        );
    }
    None
}

/// What a command line asks for, picked by its first word.
pub open spec fn picked_request(line: Seq<u8>) -> Request {
    let ws = console::words_of(line);
    if ws.len() == 0 {
        plain(Verb::Nothing)
    } else if word_is(ws, 0, "help") {
        plain(Verb::Help)
    } else if word_is(ws, 0, "status") {
        plain(Verb::Status)
    } else if word_is(ws, 0, "ticks") {
        plain(Verb::Ticks)
    } else if word_is(ws, 0, "bench") {
        bench_request(ws)
    } else if word_is(ws, 0, "core1") {
        core1_request(ws)
    } else if word_is(ws, 0, "led") {
        led_request(ws)
    } else if word_is(ws, 0, "gpio") {
        gpio_request(ws)
    } else if word_is(ws, 0, "uart") {
        uart_request(line, ws)
    } else if word_is(ws, 0, "spi") {
        spi_request(line, ws)
    } else if word_is(ws, 0, "i2c") {
        i2c_request(ws)
    } else if word_is(ws, 0, "flash") {
        flash_request(ws)
    } else if word_is(ws, 0, "rom") {
        rom_request(ws)
    } else if word_is(ws, 0, "temp") {
        plain(Verb::Temp)
    } else if word_is(ws, 0, "adc") {
        adc_request(ws)
    } else if word_is(ws, 0, "wifi") {
        wifi_request(ws)
    } else if word_is(ws, 0, "slot") {
        plain(Verb::Slot)
    } else if image_request(ws) is Some {
        image_request(ws)->0
    } else if word_is(ws, 0, "slink") {
        slink_request(ws)
    } else if word_is(ws, 0, "rgb") {
        rgb_request(ws)
    } else if word_is(ws, 0, "rtc") {
        rtc_request(ws)
    } else if word_is(ws, 0, "sd") {
        sd_request(line, ws)
    } else if word_is(ws, 0, "crash") {
        plain(Verb::Crash)
    } else if word_is(ws, 0, "reboot") {
        reboot_request(ws)
    } else {
        carrying(
            Verb::Say,
            text::lit("unknown command: ") + ws[0] + text::lit(" (try `help`)\r\n"),
        )
    }
}

/// What a command line asks for.
#[verifier::opaque]
pub open spec fn request_of(line: Seq<u8>) -> Request {
    picked_request(line)
}

/// Whether a request stays within the drivers' buffers and ranges.
pub open spec fn within_bounds(r: Request) -> bool {
    match r.verb {
        Verb::LedDim { pct } => pct <= 100,
        Verb::SpiXfer => 0 < r.data.len() <= 32,
        Verb::SpiLoad => r.data.len() <= 8,
        Verb::I2cRead { count, .. } => count <= 32,
        Verb::I2cWrite { .. } => r.data.len() <= 32,
        Verb::I2cTarget { .. } => r.data.len() <= 16,
        Verb::FlashWrite { .. } => 0 < r.data.len() <= 64,
        Verb::FlashRead { count, .. } => count <= 64,
        Verb::Rom { .. } => r.name.len() == 2,
        Verb::Update { size, .. } => 0 < size <= IMAGE_MAX,
        Verb::UartUpdate { size, .. } => 0 < size <= IMAGE_MAX,
        Verb::Push { size } => 0 < size <= IMAGE_MAX,
        Verb::SlinkSend { n, .. } => n == 2 || n == 3,
        Verb::Rgb { grb } => grb < 0x100_0000,
        Verb::SdWrite => r.name.len() > 0,
        Verb::Reboot { bootsel } => bootsel <= 1,
        _ => true,
    }
}

/// Find out what a command line asks for. Whatever is typed, the request stays
/// within the drivers' buffers and ranges.
pub fn dispatch(line: &[u8]) -> (c: Command)
    ensures
        c@ == request_of(line@),
        c@ == picked_request(line@),
        within_bounds(c@),
{
    reveal(request_of);
    let ws = split_words(line);
    if ws.len() == 0 {
        return cmd_plain(Verb::Nothing);
    }
    if is_word(&ws, 0, "help") {
        return cmd_plain(Verb::Help);
    }
    if is_word(&ws, 0, "status") {
        return cmd_plain(Verb::Status);
    }
    if is_word(&ws, 0, "ticks") {
        return cmd_plain(Verb::Ticks);
    }
    if is_word(&ws, 0, "bench") {
        return cmd_bench(&ws);
    }
    if is_word(&ws, 0, "core1") {
        return cmd_core1(&ws);
    }
    if is_word(&ws, 0, "led") {
        return cmd_led(&ws);
    }
    if is_word(&ws, 0, "gpio") {
        return cmd_gpio(&ws);
    }
    if is_word(&ws, 0, "uart") {
        return cmd_uart(line, &ws);
    }
    if is_word(&ws, 0, "spi") {
        return cmd_spi(line, &ws);
    }
    if is_word(&ws, 0, "i2c") {
        return cmd_i2c(&ws);
    }
    if is_word(&ws, 0, "flash") {
        return cmd_flash(&ws);
    }
    if is_word(&ws, 0, "rom") {
        return cmd_rom(&ws);
    }
    if is_word(&ws, 0, "temp") {
        return cmd_plain(Verb::Temp);
    }
    if is_word(&ws, 0, "adc") {
        return cmd_adc(&ws);
    }
    if is_word(&ws, 0, "wifi") {
        return cmd_wifi(&ws);
    }
    if is_word(&ws, 0, "slot") {
        return cmd_plain(Verb::Slot);
    }
    if let Some(c) = cmd_image(&ws) {
        return c;
    }
    if is_word(&ws, 0, "slink") {
        return cmd_slink(&ws);
    }
    if is_word(&ws, 0, "rgb") {
        return cmd_rgb(&ws);
    }
    if is_word(&ws, 0, "rtc") {
        return cmd_rtc(&ws);
    }
    if is_word(&ws, 0, "sd") {
        return cmd_sd(line, &ws);
    }
    if is_word(&ws, 0, "crash") {
        return cmd_plain(Verb::Crash);
    }
    if is_word(&ws, 0, "reboot") {
        return cmd_reboot(&ws);
    }
    let mut v: Vec<u8> = Vec::new();
    append_str(&mut v, "unknown command: ");
    append(&mut v, ws[0].as_slice());
    append_str(&mut v, " (try `help`)\r\n");
    assert(v@ =~= text::lit("unknown command: ") + ws@[0]@ + text::lit(" (try `help`)\r\n"));
    cmd_carrying(Verb::Say, v)
}

proof fn command_names()
    ensures
        text::lit("help").len() == 4,
        text::lit("help")[0] == 104,
        text::lit("help")[1] == 101,
        text::lit("help")[2] == 108,
        text::lit("status").len() == 6,
        text::lit("status")[0] == 115,
        text::lit("status")[1] == 116,
        text::lit("status")[2] == 97,
        text::lit("ticks").len() == 5,
        text::lit("ticks")[0] == 116,
        text::lit("ticks")[1] == 105,
        text::lit("ticks")[2] == 99,
        text::lit("bench").len() == 5,
        text::lit("bench")[0] == 98,
        text::lit("bench")[1] == 101,
        text::lit("bench")[2] == 110,
        text::lit("core1").len() == 5,
        text::lit("core1")[0] == 99,
        text::lit("core1")[1] == 111,
        text::lit("core1")[2] == 114,
        text::lit("led").len() == 3,
        text::lit("led")[0] == 108,
        text::lit("led")[1] == 101,
        text::lit("led")[2] == 100,
        text::lit("gpio").len() == 4,
        text::lit("gpio")[0] == 103,
        text::lit("gpio")[1] == 112,
        text::lit("gpio")[2] == 105,
        text::lit("uart").len() == 4,
        text::lit("uart")[0] == 117,
        text::lit("uart")[1] == 97,
        text::lit("uart")[2] == 114,
        text::lit("spi").len() == 3,
        text::lit("spi")[0] == 115,
        text::lit("spi")[1] == 112,
        text::lit("spi")[2] == 105,
        text::lit("i2c").len() == 3,
        text::lit("i2c")[0] == 105,
        text::lit("i2c")[1] == 50,
        text::lit("i2c")[2] == 99,
        text::lit("flash").len() == 5,
        text::lit("flash")[0] == 102,
        text::lit("flash")[1] == 108,
        text::lit("flash")[2] == 97,
        text::lit("rom").len() == 3,
        text::lit("rom")[0] == 114,
        text::lit("rom")[1] == 111,
        text::lit("rom")[2] == 109,
        text::lit("temp").len() == 4,
        text::lit("temp")[0] == 116,
        text::lit("temp")[1] == 101,
        text::lit("temp")[2] == 109,
        text::lit("adc").len() == 3,
        text::lit("adc")[0] == 97,
        text::lit("adc")[1] == 100,
        text::lit("adc")[2] == 99,
        text::lit("wifi").len() == 4,
        text::lit("wifi")[0] == 119,
        text::lit("wifi")[1] == 105,
        text::lit("wifi")[2] == 102,
        text::lit("slot").len() == 4,
        text::lit("slot")[0] == 115,
        text::lit("slot")[1] == 108,
        text::lit("slot")[2] == 111,
        text::lit("update").len() == 6,
        text::lit("update")[0] == 117,
        text::lit("update")[1] == 112,
        text::lit("update")[2] == 100,
        text::lit("uart-update").len() == 11,
        text::lit("uart-update")[0] == 117,
        text::lit("uart-update")[1] == 97,
        text::lit("uart-update")[2] == 114,
        text::lit("push").len() == 4,
        text::lit("push")[0] == 112,
        text::lit("push")[1] == 117,
        text::lit("push")[2] == 115,
        text::lit("slink").len() == 5,
        text::lit("slink")[0] == 115,
        text::lit("slink")[1] == 108,
        text::lit("slink")[2] == 105,
        text::lit("rgb").len() == 3,
        text::lit("rgb")[0] == 114,
        text::lit("rgb")[1] == 103,
        text::lit("rgb")[2] == 98,
        text::lit("rtc").len() == 3,
        text::lit("rtc")[0] == 114,
        text::lit("rtc")[1] == 116,
        text::lit("rtc")[2] == 99,
        text::lit("sd").len() == 2,
        text::lit("sd")[0] == 115,
        text::lit("sd")[1] == 100,
        text::lit("crash").len() == 5,
        text::lit("crash")[0] == 99,
        text::lit("crash")[1] == 114,
        text::lit("crash")[2] == 97,
        text::lit("reboot").len() == 6,
        text::lit("reboot")[0] == 114,
        text::lit("reboot")[1] == 101,
        text::lit("reboot")[2] == 98,
{
    reveal_strlit("help");
    vstd::utf8::is_ascii_chars_encode_utf8("help"@);
    reveal_strlit("status");
    vstd::utf8::is_ascii_chars_encode_utf8("status"@);
    reveal_strlit("ticks");
    vstd::utf8::is_ascii_chars_encode_utf8("ticks"@);
    reveal_strlit("bench");
    vstd::utf8::is_ascii_chars_encode_utf8("bench"@);
    reveal_strlit("core1");
    vstd::utf8::is_ascii_chars_encode_utf8("core1"@);
    reveal_strlit("led");
    vstd::utf8::is_ascii_chars_encode_utf8("led"@);
    reveal_strlit("gpio");
    vstd::utf8::is_ascii_chars_encode_utf8("gpio"@);
    reveal_strlit("uart");
    vstd::utf8::is_ascii_chars_encode_utf8("uart"@);
    reveal_strlit("spi");
    vstd::utf8::is_ascii_chars_encode_utf8("spi"@);
    reveal_strlit("i2c");
    vstd::utf8::is_ascii_chars_encode_utf8("i2c"@);
    reveal_strlit("flash");
    vstd::utf8::is_ascii_chars_encode_utf8("flash"@);
    reveal_strlit("rom");
    vstd::utf8::is_ascii_chars_encode_utf8("rom"@);
    reveal_strlit("temp");
    vstd::utf8::is_ascii_chars_encode_utf8("temp"@);
    reveal_strlit("adc");
    vstd::utf8::is_ascii_chars_encode_utf8("adc"@);
    reveal_strlit("wifi");
    vstd::utf8::is_ascii_chars_encode_utf8("wifi"@);
    reveal_strlit("slot");
    vstd::utf8::is_ascii_chars_encode_utf8("slot"@);
    reveal_strlit("update");
    vstd::utf8::is_ascii_chars_encode_utf8("update"@);
    reveal_strlit("uart-update");
    vstd::utf8::is_ascii_chars_encode_utf8("uart-update"@);
    reveal_strlit("push");
    vstd::utf8::is_ascii_chars_encode_utf8("push"@);
    reveal_strlit("slink");
    vstd::utf8::is_ascii_chars_encode_utf8("slink"@);
    reveal_strlit("rgb");
    vstd::utf8::is_ascii_chars_encode_utf8("rgb"@);
    reveal_strlit("rtc");
    vstd::utf8::is_ascii_chars_encode_utf8("rtc"@);
    reveal_strlit("sd");
    vstd::utf8::is_ascii_chars_encode_utf8("sd"@);
    reveal_strlit("crash");
    vstd::utf8::is_ascii_chars_encode_utf8("crash"@);
    reveal_strlit("reboot");
    vstd::utf8::is_ascii_chars_encode_utf8("reboot"@);
}

proof fn bench_words()
    ensures
        text::lit("all").len() == 3,
        text::lit("all")[0] == 97,
        text::lit("all")[1] == 108,
        text::lit("all")[2] == 108,
{
    reveal_strlit("all");
    vstd::utf8::is_ascii_chars_encode_utf8("all"@);
}

proof fn core1_words()
    ensures
        text::lit("stress").len() == 6,
        text::lit("stress")[0] == 115,
        text::lit("stress")[1] == 116,
        text::lit("stress")[2] == 114,
        text::lit("speed").len() == 5,
        text::lit("speed")[0] == 115,
        text::lit("speed")[1] == 112,
        text::lit("speed")[2] == 101,
        text::lit("bulk").len() == 4,
        text::lit("bulk")[0] == 98,
        text::lit("bulk")[1] == 117,
        text::lit("bulk")[2] == 108,
        text::lit("pipe").len() == 4,
        text::lit("pipe")[0] == 112,
        text::lit("pipe")[1] == 105,
        text::lit("pipe")[2] == 112,
{
    reveal_strlit("stress");
    vstd::utf8::is_ascii_chars_encode_utf8("stress"@);
    reveal_strlit("speed");
    vstd::utf8::is_ascii_chars_encode_utf8("speed"@);
    reveal_strlit("bulk");
    vstd::utf8::is_ascii_chars_encode_utf8("bulk"@);
    reveal_strlit("pipe");
    vstd::utf8::is_ascii_chars_encode_utf8("pipe"@);
}

proof fn led_words()
    ensures
        text::lit("dim").len() == 3,
        text::lit("dim")[0] == 100,
        text::lit("dim")[1] == 105,
        text::lit("dim")[2] == 109,
        text::lit("on").len() == 2,
        text::lit("on")[0] == 111,
        text::lit("on")[1] == 110,
        text::lit("off").len() == 3,
        text::lit("off")[0] == 111,
        text::lit("off")[1] == 102,
        text::lit("off")[2] == 102,
        text::lit("toggle").len() == 6,
        text::lit("toggle")[0] == 116,
        text::lit("toggle")[1] == 111,
        text::lit("toggle")[2] == 103,
        text::lit("blink").len() == 5,
        text::lit("blink")[0] == 98,
        text::lit("blink")[1] == 108,
        text::lit("blink")[2] == 105,
{
    reveal_strlit("dim");
    vstd::utf8::is_ascii_chars_encode_utf8("dim"@);
    reveal_strlit("on");
    vstd::utf8::is_ascii_chars_encode_utf8("on"@);
    reveal_strlit("off");
    vstd::utf8::is_ascii_chars_encode_utf8("off"@);
    reveal_strlit("toggle");
    vstd::utf8::is_ascii_chars_encode_utf8("toggle"@);
    reveal_strlit("blink");
    vstd::utf8::is_ascii_chars_encode_utf8("blink"@);
}

proof fn gpio_words()
    ensures
        text::lit("pull").len() == 4,
        text::lit("pull")[0] == 112,
        text::lit("pull")[1] == 117,
        text::lit("pull")[2] == 108,
        text::lit("up").len() == 2,
        text::lit("up")[0] == 117,
        text::lit("up")[1] == 112,
        text::lit("down").len() == 4,
        text::lit("down")[0] == 100,
        text::lit("down")[1] == 111,
        text::lit("down")[2] == 119,
        text::lit("none").len() == 4,
        text::lit("none")[0] == 110,
        text::lit("none")[1] == 111,
        text::lit("none")[2] == 110,
        text::lit("out").len() == 3,
        text::lit("out")[0] == 111,
        text::lit("out")[1] == 117,
        text::lit("out")[2] == 116,
        text::lit("in").len() == 2,
        text::lit("in")[0] == 105,
        text::lit("in")[1] == 110,
        text::lit("hi").len() == 2,
        text::lit("hi")[0] == 104,
        text::lit("hi")[1] == 105,
        text::lit("lo").len() == 2,
        text::lit("lo")[0] == 108,
        text::lit("lo")[1] == 111,
        text::lit("toggle").len() == 6,
        text::lit("toggle")[0] == 116,
        text::lit("toggle")[1] == 111,
        text::lit("toggle")[2] == 103,
        text::lit("read").len() == 4,
        text::lit("read")[0] == 114,
        text::lit("read")[1] == 101,
        text::lit("read")[2] == 97,
{
    reveal_strlit("pull");
    vstd::utf8::is_ascii_chars_encode_utf8("pull"@);
    reveal_strlit("up");
    vstd::utf8::is_ascii_chars_encode_utf8("up"@);
    reveal_strlit("down");
    vstd::utf8::is_ascii_chars_encode_utf8("down"@);
    reveal_strlit("none");
    vstd::utf8::is_ascii_chars_encode_utf8("none"@);
    reveal_strlit("out");
    vstd::utf8::is_ascii_chars_encode_utf8("out"@);
    reveal_strlit("in");
    vstd::utf8::is_ascii_chars_encode_utf8("in"@);
    reveal_strlit("hi");
    vstd::utf8::is_ascii_chars_encode_utf8("hi"@);
    reveal_strlit("lo");
    vstd::utf8::is_ascii_chars_encode_utf8("lo"@);
    reveal_strlit("toggle");
    vstd::utf8::is_ascii_chars_encode_utf8("toggle"@);
    reveal_strlit("read");
    vstd::utf8::is_ascii_chars_encode_utf8("read"@);
}

proof fn uart_words()
    ensures
        text::lit("send").len() == 4,
        text::lit("send")[0] == 115,
        text::lit("send")[1] == 101,
        text::lit("send")[2] == 110,
        text::lit("recv").len() == 4,
        text::lit("recv")[0] == 114,
        text::lit("recv")[1] == 101,
        text::lit("recv")[2] == 99,
        text::lit("bench").len() == 5,
        text::lit("bench")[0] == 98,
        text::lit("bench")[1] == 101,
        text::lit("bench")[2] == 110,
        text::lit("rxbench").len() == 7,
        text::lit("rxbench")[0] == 114,
        text::lit("rxbench")[1] == 120,
        text::lit("rxbench")[2] == 98,
{
    reveal_strlit("send");
    vstd::utf8::is_ascii_chars_encode_utf8("send"@);
    reveal_strlit("recv");
    vstd::utf8::is_ascii_chars_encode_utf8("recv"@);
    reveal_strlit("bench");
    vstd::utf8::is_ascii_chars_encode_utf8("bench"@);
    reveal_strlit("rxbench");
    vstd::utf8::is_ascii_chars_encode_utf8("rxbench"@);
}

proof fn spi_words()
    ensures
        text::lit("xfer").len() == 4,
        text::lit("xfer")[0] == 120,
        text::lit("xfer")[1] == 102,
        text::lit("xfer")[2] == 101,
        text::lit("role").len() == 4,
        text::lit("role")[0] == 114,
        text::lit("role")[1] == 111,
        text::lit("role")[2] == 108,
        text::lit("load").len() == 4,
        text::lit("load")[0] == 108,
        text::lit("load")[1] == 111,
        text::lit("load")[2] == 97,
        text::lit("recv").len() == 4,
        text::lit("recv")[0] == 114,
        text::lit("recv")[1] == 101,
        text::lit("recv")[2] == 99,
        text::lit("bench").len() == 5,
        text::lit("bench")[0] == 98,
        text::lit("bench")[1] == 101,
        text::lit("bench")[2] == 110,
        text::lit("peripheral").len() == 10,
        text::lit("peripheral")[0] == 112,
        text::lit("peripheral")[1] == 101,
        text::lit("peripheral")[2] == 114,
        text::lit("controller").len() == 10,
        text::lit("controller")[0] == 99,
        text::lit("controller")[1] == 111,
        text::lit("controller")[2] == 110,
{
    reveal_strlit("xfer");
    vstd::utf8::is_ascii_chars_encode_utf8("xfer"@);
    reveal_strlit("role");
    vstd::utf8::is_ascii_chars_encode_utf8("role"@);
    reveal_strlit("load");
    vstd::utf8::is_ascii_chars_encode_utf8("load"@);
    reveal_strlit("recv");
    vstd::utf8::is_ascii_chars_encode_utf8("recv"@);
    reveal_strlit("bench");
    vstd::utf8::is_ascii_chars_encode_utf8("bench"@);
    reveal_strlit("peripheral");
    vstd::utf8::is_ascii_chars_encode_utf8("peripheral"@);
    reveal_strlit("controller");
    vstd::utf8::is_ascii_chars_encode_utf8("controller"@);
}

proof fn i2c_words()
    ensures
        text::lit("scan").len() == 4,
        text::lit("scan")[0] == 115,
        text::lit("scan")[1] == 99,
        text::lit("scan")[2] == 97,
        text::lit("read").len() == 4,
        text::lit("read")[0] == 114,
        text::lit("read")[1] == 101,
        text::lit("read")[2] == 97,
        text::lit("write").len() == 5,
        text::lit("write")[0] == 119,
        text::lit("write")[1] == 114,
        text::lit("write")[2] == 105,
        text::lit("target").len() == 6,
        text::lit("target")[0] == 116,
        text::lit("target")[1] == 97,
        text::lit("target")[2] == 114,
        text::lit("speed").len() == 5,
        text::lit("speed")[0] == 115,
        text::lit("speed")[1] == 112,
        text::lit("speed")[2] == 101,
        text::lit("bench").len() == 5,
        text::lit("bench")[0] == 98,
        text::lit("bench")[1] == 101,
        text::lit("bench")[2] == 110,
{
    reveal_strlit("scan");
    vstd::utf8::is_ascii_chars_encode_utf8("scan"@);
    reveal_strlit("read");
    vstd::utf8::is_ascii_chars_encode_utf8("read"@);
    reveal_strlit("write");
    vstd::utf8::is_ascii_chars_encode_utf8("write"@);
    reveal_strlit("target");
    vstd::utf8::is_ascii_chars_encode_utf8("target"@);
    reveal_strlit("speed");
    vstd::utf8::is_ascii_chars_encode_utf8("speed"@);
    reveal_strlit("bench");
    vstd::utf8::is_ascii_chars_encode_utf8("bench"@);
}

proof fn flash_words()
    ensures
        text::lit("erase").len() == 5,
        text::lit("erase")[0] == 101,
        text::lit("erase")[1] == 114,
        text::lit("erase")[2] == 97,
        text::lit("write").len() == 5,
        text::lit("write")[0] == 119,
        text::lit("write")[1] == 114,
        text::lit("write")[2] == 105,
        text::lit("read").len() == 4,
        text::lit("read")[0] == 114,
        text::lit("read")[1] == 101,
        text::lit("read")[2] == 97,
{
    reveal_strlit("erase");
    vstd::utf8::is_ascii_chars_encode_utf8("erase"@);
    reveal_strlit("write");
    vstd::utf8::is_ascii_chars_encode_utf8("write"@);
    reveal_strlit("read");
    vstd::utf8::is_ascii_chars_encode_utf8("read"@);
}

proof fn wifi_words()
    ensures
        text::lit("mac").len() == 3,
        text::lit("mac")[0] == 109,
        text::lit("mac")[1] == 97,
        text::lit("mac")[2] == 99,
        text::lit("status").len() == 6,
        text::lit("status")[0] == 115,
        text::lit("status")[1] == 116,
        text::lit("status")[2] == 97,
        text::lit("on").len() == 2,
        text::lit("on")[0] == 111,
        text::lit("on")[1] == 110,
        text::lit("off").len() == 3,
        text::lit("off")[0] == 111,
        text::lit("off")[1] == 102,
        text::lit("off")[2] == 102,
        text::lit("scan").len() == 4,
        text::lit("scan")[0] == 115,
        text::lit("scan")[1] == 99,
        text::lit("scan")[2] == 97,
        text::lit("ap").len() == 2,
        text::lit("ap")[0] == 97,
        text::lit("ap")[1] == 112,
{
    reveal_strlit("mac");
    vstd::utf8::is_ascii_chars_encode_utf8("mac"@);
    reveal_strlit("status");
    vstd::utf8::is_ascii_chars_encode_utf8("status"@);
    reveal_strlit("on");
    vstd::utf8::is_ascii_chars_encode_utf8("on"@);
    reveal_strlit("off");
    vstd::utf8::is_ascii_chars_encode_utf8("off"@);
    reveal_strlit("scan");
    vstd::utf8::is_ascii_chars_encode_utf8("scan"@);
    reveal_strlit("ap");
    vstd::utf8::is_ascii_chars_encode_utf8("ap"@);
}

proof fn slink_words()
    ensures
        text::lit("send").len() == 4,
        text::lit("send")[0] == 115,
        text::lit("send")[1] == 101,
        text::lit("send")[2] == 110,
        text::lit("listen").len() == 6,
        text::lit("listen")[0] == 108,
        text::lit("listen")[1] == 105,
        text::lit("listen")[2] == 115,
        text::lit("flood").len() == 5,
        text::lit("flood")[0] == 102,
        text::lit("flood")[1] == 108,
        text::lit("flood")[2] == 111,
        text::lit("soak").len() == 4,
        text::lit("soak")[0] == 115,
        text::lit("soak")[1] == 111,
        text::lit("soak")[2] == 97,
{
    reveal_strlit("send");
    vstd::utf8::is_ascii_chars_encode_utf8("send"@);
    reveal_strlit("listen");
    vstd::utf8::is_ascii_chars_encode_utf8("listen"@);
    reveal_strlit("flood");
    vstd::utf8::is_ascii_chars_encode_utf8("flood"@);
    reveal_strlit("soak");
    vstd::utf8::is_ascii_chars_encode_utf8("soak"@);
}

proof fn rtc_words()
    ensures
        text::lit("get").len() == 3,
        text::lit("get")[0] == 103,
        text::lit("get")[1] == 101,
        text::lit("get")[2] == 116,
        text::lit("set").len() == 3,
        text::lit("set")[0] == 115,
        text::lit("set")[1] == 101,
        text::lit("set")[2] == 116,
{
    reveal_strlit("get");
    vstd::utf8::is_ascii_chars_encode_utf8("get"@);
    reveal_strlit("set");
    vstd::utf8::is_ascii_chars_encode_utf8("set"@);
}

proof fn sd_words()
    ensures
        text::lit("init").len() == 4,
        text::lit("init")[0] == 105,
        text::lit("init")[1] == 110,
        text::lit("init")[2] == 105,
        text::lit("read").len() == 4,
        text::lit("read")[0] == 114,
        text::lit("read")[1] == 101,
        text::lit("read")[2] == 97,
        text::lit("find").len() == 4,
        text::lit("find")[0] == 102,
        text::lit("find")[1] == 105,
        text::lit("find")[2] == 110,
        text::lit("ls").len() == 2,
        text::lit("ls")[0] == 108,
        text::lit("ls")[1] == 115,
        text::lit("cat").len() == 3,
        text::lit("cat")[0] == 99,
        text::lit("cat")[1] == 97,
        text::lit("cat")[2] == 116,
        text::lit("df").len() == 2,
        text::lit("df")[0] == 100,
        text::lit("df")[1] == 102,
        text::lit("write").len() == 5,
        text::lit("write")[0] == 119,
        text::lit("write")[1] == 114,
        text::lit("write")[2] == 105,
        text::lit("rm").len() == 2,
        text::lit("rm")[0] == 114,
        text::lit("rm")[1] == 109,
{
    reveal_strlit("init");
    vstd::utf8::is_ascii_chars_encode_utf8("init"@);
    reveal_strlit("read");
    vstd::utf8::is_ascii_chars_encode_utf8("read"@);
    reveal_strlit("find");
    vstd::utf8::is_ascii_chars_encode_utf8("find"@);
    reveal_strlit("ls");
    vstd::utf8::is_ascii_chars_encode_utf8("ls"@);
    reveal_strlit("cat");
    vstd::utf8::is_ascii_chars_encode_utf8("cat"@);
    reveal_strlit("df");
    vstd::utf8::is_ascii_chars_encode_utf8("df"@);
    reveal_strlit("write");
    vstd::utf8::is_ascii_chars_encode_utf8("write"@);
    reveal_strlit("rm");
    vstd::utf8::is_ascii_chars_encode_utf8("rm"@);
}

proof fn reboot_words()
    ensures
        text::lit("bootsel").len() == 7,
        text::lit("bootsel")[0] == 98,
        text::lit("bootsel")[1] == 111,
        text::lit("bootsel")[2] == 111,
{
    reveal_strlit("bootsel");
    vstd::utf8::is_ascii_chars_encode_utf8("bootsel"@);
}

proof fn good_words()
    ensures
        console::good_word(text::lit("bench")),
        console::good_word(text::lit("gpio")),
        console::good_word(text::lit("pull")),
        console::good_word(text::lit("up")),
        console::good_word(text::lit("down")),
        console::good_word(text::lit("none")),
        console::good_word(text::lit("out")),
        console::good_word(text::lit("in")),
        console::good_word(text::lit("hi")),
        console::good_word(text::lit("lo")),
        console::good_word(text::lit("toggle")),
        console::good_word(text::lit("read")),
        console::good_word(text::lit("uart")),
        console::good_word(text::lit("send")),
        console::good_word(text::lit("spi")),
        console::good_word(text::lit("xfer")),
        console::good_word(text::lit("load")),
        console::good_word(text::lit("role")),
        console::good_word(text::lit("peripheral")),
        console::good_word(text::lit("controller")),
        console::good_word(text::lit("sd")),
        console::good_word(text::lit("write")),
{
    reveal_strlit("bench");
    vstd::utf8::is_ascii_chars_encode_utf8("bench"@);
    assert(text::lit("bench") =~= [98u8, 101, 110, 99, 104]@);
    reveal_strlit("gpio");
    vstd::utf8::is_ascii_chars_encode_utf8("gpio"@);
    assert(text::lit("gpio") =~= [103u8, 112, 105, 111]@);
    reveal_strlit("pull");
    vstd::utf8::is_ascii_chars_encode_utf8("pull"@);
    assert(text::lit("pull") =~= [112u8, 117, 108, 108]@);
    reveal_strlit("up");
    vstd::utf8::is_ascii_chars_encode_utf8("up"@);
    assert(text::lit("up") =~= [117u8, 112]@);
    reveal_strlit("down");
    vstd::utf8::is_ascii_chars_encode_utf8("down"@);
    assert(text::lit("down") =~= [100u8, 111, 119, 110]@);
    reveal_strlit("none");
    vstd::utf8::is_ascii_chars_encode_utf8("none"@);
    assert(text::lit("none") =~= [110u8, 111, 110, 101]@);
    reveal_strlit("out");
    vstd::utf8::is_ascii_chars_encode_utf8("out"@);
    assert(text::lit("out") =~= [111u8, 117, 116]@);
    reveal_strlit("in");
    vstd::utf8::is_ascii_chars_encode_utf8("in"@);
    assert(text::lit("in") =~= [105u8, 110]@);
    reveal_strlit("hi");
    vstd::utf8::is_ascii_chars_encode_utf8("hi"@);
    assert(text::lit("hi") =~= [104u8, 105]@);
    reveal_strlit("lo");
    vstd::utf8::is_ascii_chars_encode_utf8("lo"@);
    assert(text::lit("lo") =~= [108u8, 111]@);
    reveal_strlit("toggle");
    vstd::utf8::is_ascii_chars_encode_utf8("toggle"@);
    assert(text::lit("toggle") =~= [116u8, 111, 103, 103, 108, 101]@);
    reveal_strlit("read");
    vstd::utf8::is_ascii_chars_encode_utf8("read"@);
    assert(text::lit("read") =~= [114u8, 101, 97, 100]@);
    reveal_strlit("uart");
    vstd::utf8::is_ascii_chars_encode_utf8("uart"@);
    assert(text::lit("uart") =~= [117u8, 97, 114, 116]@);
    reveal_strlit("send");
    vstd::utf8::is_ascii_chars_encode_utf8("send"@);
    assert(text::lit("send") =~= [115u8, 101, 110, 100]@);
    reveal_strlit("spi");
    vstd::utf8::is_ascii_chars_encode_utf8("spi"@);
    assert(text::lit("spi") =~= [115u8, 112, 105]@);
    reveal_strlit("xfer");
    vstd::utf8::is_ascii_chars_encode_utf8("xfer"@);
    assert(text::lit("xfer") =~= [120u8, 102, 101, 114]@);
    reveal_strlit("load");
    vstd::utf8::is_ascii_chars_encode_utf8("load"@);
    assert(text::lit("load") =~= [108u8, 111, 97, 100]@);
    reveal_strlit("role");
    vstd::utf8::is_ascii_chars_encode_utf8("role"@);
    assert(text::lit("role") =~= [114u8, 111, 108, 101]@);
    reveal_strlit("peripheral");
    vstd::utf8::is_ascii_chars_encode_utf8("peripheral"@);
    assert(text::lit("peripheral") =~= [112u8, 101, 114, 105, 112, 104, 101, 114, 97, 108]@);
    reveal_strlit("controller");
    vstd::utf8::is_ascii_chars_encode_utf8("controller"@);
    assert(text::lit("controller") =~= [99u8, 111, 110, 116, 114, 111, 108, 108, 101, 114]@);
    reveal_strlit("sd");
    vstd::utf8::is_ascii_chars_encode_utf8("sd"@);
    assert(text::lit("sd") =~= [115u8, 100]@);
    reveal_strlit("write");
    vstd::utf8::is_ascii_chars_encode_utf8("write"@);
    assert(text::lit("write") =~= [119u8, 114, 105, 116, 101]@);
}

/// The first word picks the command.
proof fn first_word_picks(line: Seq<u8>)
    requires
        console::words_of(line).len() > 0,
    ensures
        ({
            let ws = console::words_of(line);
            &&& ws[0] == text::lit("help") ==> request_of(line) == plain(Verb::Help)
            &&& ws[0] == text::lit("status") ==> request_of(line) == plain(Verb::Status)
            &&& ws[0] == text::lit("ticks") ==> request_of(line) == plain(Verb::Ticks)
            &&& ws[0] == text::lit("bench") ==> request_of(line) == bench_request(ws)
            &&& ws[0] == text::lit("core1") ==> request_of(line) == core1_request(ws)
            &&& ws[0] == text::lit("led") ==> request_of(line) == led_request(ws)
            &&& ws[0] == text::lit("gpio") ==> request_of(line) == gpio_request(ws)
            &&& ws[0] == text::lit("uart") ==> request_of(line) == uart_request(line, ws)
            &&& ws[0] == text::lit("spi") ==> request_of(line) == spi_request(line, ws)
            &&& ws[0] == text::lit("i2c") ==> request_of(line) == i2c_request(ws)
            &&& ws[0] == text::lit("flash") ==> request_of(line) == flash_request(ws)
            &&& ws[0] == text::lit("rom") ==> request_of(line) == rom_request(ws)
            &&& ws[0] == text::lit("temp") ==> request_of(line) == plain(Verb::Temp)
            &&& ws[0] == text::lit("adc") ==> request_of(line) == adc_request(ws)
            &&& ws[0] == text::lit("wifi") ==> request_of(line) == wifi_request(ws)
            &&& ws[0] == text::lit("slot") ==> request_of(line) == plain(Verb::Slot)
            &&& ws[0] == text::lit("update") ==> image_request(ws) is Some && request_of(line) == image_request(ws)->0
            &&& ws[0] == text::lit("uart-update") ==> image_request(ws) is Some && request_of(line) == image_request(ws)->0
            &&& ws[0] == text::lit("push") ==> image_request(ws) is Some && request_of(line) == image_request(ws)->0
            &&& ws[0] == text::lit("slink") ==> request_of(line) == slink_request(ws)
            &&& ws[0] == text::lit("rgb") ==> request_of(line) == rgb_request(ws)
            &&& ws[0] == text::lit("rtc") ==> request_of(line) == rtc_request(ws)
            &&& ws[0] == text::lit("sd") ==> request_of(line) == sd_request(line, ws)
            &&& ws[0] == text::lit("crash") ==> request_of(line) == plain(Verb::Crash)
            &&& ws[0] == text::lit("reboot") ==> request_of(line) == reboot_request(ws)
        }),
{
    reveal(request_of);
    command_names();
}

proof fn image_words()
    ensures
        text::lit("update").len() == 6,
        text::lit("update")[0] == 117,
        text::lit("update")[1] == 112,
        text::lit("update")[2] == 100,
        text::lit("uart-update").len() == 11,
        text::lit("uart-update")[0] == 117,
        text::lit("uart-update")[1] == 97,
        text::lit("uart-update")[2] == 114,
        text::lit("push").len() == 4,
        text::lit("push")[0] == 112,
        text::lit("push")[1] == 117,
        text::lit("push")[2] == 115,
{
    command_names();
}

/// The word for what the LED is told to do.
pub open spec fn led_word(v: LedVerb) -> Seq<u8> {
    match v {
        LedVerb::On => text::lit("on"),
        LedVerb::Off => text::lit("off"),
        LedVerb::Toggle => text::lit("toggle"),
        _ => text::lit("blink"),
    }
}

/// The words for what a pin is told to do.
pub open spec fn pin_words(v: PinVerb, pin: u8) -> Seq<Seq<u8>> {
    let n = text::decimal(pin as nat);
    match v {
        PinVerb::Out => seq![text::lit("out"), n],
        PinVerb::In => seq![text::lit("in"), n],
        PinVerb::High => seq![text::lit("hi"), n],
        PinVerb::Low => seq![text::lit("lo"), n],
        PinVerb::Toggle => seq![text::lit("toggle"), n],
        PinVerb::Read => seq![text::lit("read"), n],
        PinVerb::PullUp => seq![text::lit("pull"), n, text::lit("up")],
        PinVerb::PullDown => seq![text::lit("pull"), n, text::lit("down")],
        PinVerb::PullNone => seq![text::lit("pull"), n, text::lit("none")],
    }
}

/// The word for what the Wi-Fi driver is asked.
pub open spec fn wifi_word(v: WifiVerb) -> Seq<u8> {
    match v {
        WifiVerb::Mac => text::lit("mac"),
        WifiVerb::Status => text::lit("status"),
        WifiVerb::On => text::lit("on"),
        WifiVerb::Off => text::lit("off"),
        WifiVerb::Scan => text::lit("scan"),
        WifiVerb::Ap => text::lit("ap"),
    }
}

/// The words that ask for something, numbers in full. Only for what needs no text
/// of its own.
pub open spec fn spelling(v: Verb) -> Seq<Seq<u8>> {
    match v {
        Verb::Help => seq![text::lit("help")],
        Verb::Status => seq![text::lit("status")],
        Verb::Ticks => seq![text::lit("ticks")],
        Verb::BenchAll => seq![text::lit("bench"), text::lit("all")],
        Verb::BenchAllI2c { addr } => seq![text::lit("bench"), text::lit("all"), text::hex2(addr)],
        Verb::Core1 { n } => seq![text::lit("core1"), text::decimal(n as nat)],
        Verb::Core1Stress { count } => seq![
            text::lit("core1"),
            text::lit("stress"),
            text::decimal(count as nat),
        ],
        Verb::Core1Speed { n } => seq![
            text::lit("core1"),
            text::lit("speed"),
            text::decimal(n as nat),
        ],
        Verb::Core1Bulk { len, iters } => seq![
            text::lit("core1"),
            text::lit("bulk"),
            text::decimal(len as nat),
            text::decimal(iters as nat),
        ],
        Verb::Core1Pipe { iters } => seq![
            text::lit("core1"),
            text::lit("pipe"),
            text::decimal(iters as nat),
        ],
        Verb::LedDim { pct } => seq![
            text::lit("led"),
            text::lit("dim"),
            text::decimal(pct as nat),
        ],
        Verb::Led { verb } => seq![text::lit("led"), led_word(verb)],
        Verb::Gpio { verb, pin } => seq![text::lit("gpio")] + pin_words(verb, pin),
        Verb::UartRecv => seq![text::lit("uart"), text::lit("recv")],
        Verb::UartRxBench => seq![text::lit("uart"), text::lit("rxbench")],
        Verb::SpiRecv => seq![text::lit("spi"), text::lit("recv")],
        Verb::I2cScan => seq![text::lit("i2c"), text::lit("scan")],
        Verb::I2cRead { addr, count } => seq![
            text::lit("i2c"),
            text::lit("read"),
            text::hex2(addr),
            text::decimal(count as nat),
        ],
        Verb::I2cSpeed { khz } => seq![
            text::lit("i2c"),
            text::lit("speed"),
            text::decimal(khz as nat),
        ],
        Verb::I2cBench { addr, n } => seq![
            text::lit("i2c"),
            text::lit("bench"),
            text::hex2(addr),
            text::decimal(n as nat),
        ],
        Verb::FlashErase { off } => seq![text::lit("flash"), text::lit("erase"), text::hex8(off)],
        Verb::FlashRead { off, count } => seq![
            text::lit("flash"),
            text::lit("read"),
            text::hex8(off),
            text::decimal(count as nat),
        ],
        Verb::Temp => seq![text::lit("temp")],
        Verb::AdcRead { ch } => seq![text::lit("adc"), text::lit("read"), text::decimal(ch as nat)],
        Verb::Wifi { verb } => seq![text::lit("wifi"), wifi_word(verb)],
        Verb::Slot => seq![text::lit("slot")],
        Verb::Update { size, crc } => seq![text::lit("update"), text::hex8(size), text::hex8(crc)],
        Verb::UartUpdate { size, crc } => seq![
            text::lit("uart-update"),
            text::hex8(size),
            text::hex8(crc),
        ],
        Verb::Push { size } => seq![text::lit("push"), text::hex8(size), text::hex8(0)],
        Verb::SlinkSend { b0, b1, b2, n } => if n == 3 {
            seq![
                text::lit("slink"),
                text::lit("send"),
                text::hex2(b0),
                text::hex2(b1),
                text::hex2(b2),
            ]
        } else {
            seq![text::lit("slink"), text::lit("send"), text::hex2(b0), text::hex2(b1)]
        },
        Verb::SlinkListen { ms } => seq![
            text::lit("slink"),
            text::lit("listen"),
            text::decimal(ms as nat),
        ],
        Verb::SlinkFlood { n } => seq![
            text::lit("slink"),
            text::lit("flood"),
            text::decimal(n as nat),
        ],
        Verb::SlinkSoak { n, ms } => seq![
            text::lit("slink"),
            text::lit("soak"),
            text::decimal(n as nat),
            text::decimal(ms as nat),
        ],
        Verb::Rgb { grb } => seq![
            text::lit("rgb"),
            text::decimal((grb / 0x100 % 0x100) as nat),
            text::decimal((grb / 0x1_0000) as nat),
            text::decimal((grb % 0x100) as nat),
        ],
        Verb::RtcGet => seq![text::lit("rtc"), text::lit("get")],
        Verb::SdInit => seq![text::lit("sd"), text::lit("init")],
        Verb::SdRead { block } => seq![
            text::lit("sd"),
            text::lit("read"),
            text::decimal(block as nat),
        ],
        Verb::SdFind { start, count } => seq![
            text::lit("sd"),
            text::lit("find"),
            text::decimal(start as nat),
            text::decimal(count as nat),
        ],
        Verb::SdLs => seq![text::lit("sd"), text::lit("ls")],
        Verb::SdDf => seq![text::lit("sd"), text::lit("df")],
        Verb::Crash => seq![text::lit("crash")],
        Verb::Reboot { bootsel } => if bootsel == 0 {
            seq![text::lit("reboot")]
        } else {
            seq![text::lit("reboot"), text::lit("bootsel")]
        },
        _ => Seq::empty(),
    }
}

/// Whether something can be asked for by words and numbers alone, and is in
/// range.
pub open spec fn can_be_spelled(v: Verb) -> bool {
    match v {
        Verb::LedDim { pct } => pct <= 100,
        Verb::Led { verb } => verb != LedVerb::Unknown,
        Verb::I2cRead { count, .. } => count <= 32,
        Verb::FlashRead { count, .. } => count <= 64,
        Verb::Update { size, .. } => 0 < size <= IMAGE_MAX,
        Verb::UartUpdate { size, .. } => 0 < size <= IMAGE_MAX,
        Verb::Push { size } => 0 < size <= IMAGE_MAX,
        Verb::SlinkSend { b2, n, .. } => n == 3 || n == 2 && b2 == 0,
        Verb::Rgb { grb } => grb < 0x100_0000,
        Verb::Reboot { bootsel } => bootsel <= 1,
        _ => spelling(v).len() > 0,
    }
}

proof fn counts_are_read_back(ws: Seq<Seq<u8>>, k: int, n: u8, cap: u8)
    requires
        0 <= k < ws.len(),
        ws[k] == text::decimal(n as nat),
        n <= cap,
    ensures
        count_at(ws, k, cap) == Some(n),
{
    console::decimals_are_read_back(n as nat, usize::MAX as nat);
}

/// No decimal number is one of the words that stand in its place.
proof fn numbers_are_no_words(n: nat)
    ensures
        48 <= text::decimal(n)[0] <= 57,
        text::decimal(n).len() > 0,
    decreases n,
{
    if n >= 10 {
        numbers_are_no_words(n / 10);
    }
}

#[verifier::spinoff_prover]
#[verifier::rlimit(40)]
proof fn bench_requests(ws: Seq<Seq<u8>>, addr: u8)
    ensures
        ws == seq![text::lit("bench"), text::lit("all")] ==> bench_request(ws) == plain(
            Verb::BenchAll,
        ),
        ws == seq![text::lit("bench"), text::lit("all"), text::hex2(addr)] ==> bench_request(ws)
            == plain(Verb::BenchAllI2c { addr }),
{
    bench_words();
    console::hexadecimals_are_read_back(addr, 0);
}

#[verifier::spinoff_prover]
#[verifier::rlimit(40)]
proof fn adc_requests(ws: Seq<Seq<u8>>, ch: u8)
    requires
        ws == seq![text::lit("adc"), text::lit("read"), text::decimal(ch as nat)],
    ensures
        adc_request(ws) == plain(Verb::AdcRead { ch }),
{
    console::decimals_are_read_back(ch as nat, 255);
}

#[verifier::spinoff_prover]
#[verifier::rlimit(40)]
proof fn rtc_requests(ws: Seq<Seq<u8>>)
    requires
        ws == seq![text::lit("rtc"), text::lit("get")],
    ensures
        rtc_request(ws) == plain(Verb::RtcGet),
{
}

#[verifier::spinoff_prover]
#[verifier::rlimit(40)]
proof fn reboot_requests(ws: Seq<Seq<u8>>)
    ensures
        ws == seq![text::lit("reboot")] ==> reboot_request(ws) == plain(
            Verb::Reboot { bootsel: 0 },
        ),
        ws == seq![text::lit("reboot"), text::lit("bootsel")] ==> reboot_request(ws) == plain(
            Verb::Reboot { bootsel: 1 },
        ),
{
}

#[verifier::spinoff_prover]
#[verifier::rlimit(40)]
proof fn led_requests(ws: Seq<Seq<u8>>, v: Verb)
    requires
        can_be_spelled(v),
        ws == spelling(v),
        v is Led || v is LedDim,
    ensures
        led_request(ws) == plain(v),
{
    led_words();
    if let Verb::LedDim { pct } = v {
        console::decimals_are_read_back(pct as nat, 100);
    }
}

#[verifier::spinoff_prover]
#[verifier::rlimit(40)]
proof fn wifi_requests(ws: Seq<Seq<u8>>, v: Verb)
    requires
        can_be_spelled(v),
        ws == spelling(v),
        v is Wifi,
    ensures
        wifi_request(ws) == plain(v),
{
    wifi_words();
}

#[verifier::spinoff_prover]
#[verifier::rlimit(40)]
proof fn core1_requests(ws: Seq<Seq<u8>>, v: Verb)
    requires
        can_be_spelled(v),
        ws == spelling(v),
        v is Core1 || v is Core1Stress || v is Core1Speed || v is Core1Bulk || v is Core1Pipe,
    ensures
        core1_request(ws) == plain(v),
{
    core1_words();
    match v {
        Verb::Core1 { n } => {
            numbers_are_no_words(n as nat);
            console::decimals_are_read_back(n as nat, 0xFFFF_FFFF);
        },
        Verb::Core1Stress { count } => {
            console::decimals_are_read_back(count as nat, 0xFFFF_FFFF);
        },
        Verb::Core1Speed { n } => {
            console::decimals_are_read_back(n as nat, 0xFFFF_FFFF);
        },
        Verb::Core1Bulk { len, iters } => {
            console::decimals_are_read_back(len as nat, 0xFFFF_FFFF);
            console::decimals_are_read_back(iters as nat, 0xFFFF_FFFF);
        },
        Verb::Core1Pipe { iters } => {
            console::decimals_are_read_back(iters as nat, 0xFFFF_FFFF);
        },
        _ => {},
    }
}

#[verifier::spinoff_prover]
#[verifier::rlimit(40)]
proof fn gpio_requests(ws: Seq<Seq<u8>>, verb: PinVerb, pin: u8)
    requires
        ws == spelling(Verb::Gpio { verb, pin }),
    ensures
        gpio_request(ws) == plain(Verb::Gpio { verb, pin }),
        ws.len() > 0,
        ws[0] == text::lit("gpio"),
{
    gpio_words();
    console::decimals_are_read_back(pin as nat, 255);
    assert(ws[0] == text::lit("gpio"));
    assert(ws[2] == text::decimal(pin as nat));
    assert(ws[1] == pin_words(verb, pin)[0]);
    if pin_words(verb, pin).len() > 2 {
        assert(ws[3] == pin_words(verb, pin)[2]);
    }
}

#[verifier::spinoff_prover]
#[verifier::rlimit(40)]
proof fn uart_requests(line: Seq<u8>, ws: Seq<Seq<u8>>, v: Verb)
    requires
        ws == spelling(v),
        v is UartRecv || v is UartRxBench || v is SpiRecv,
    ensures
        v is UartRecv || v is UartRxBench ==> uart_request(line, ws) == plain(v),
        v is SpiRecv ==> spi_request(line, ws) == plain(v),
{
    uart_words();
    spi_words();
}

#[verifier::spinoff_prover]
#[verifier::rlimit(40)]
proof fn i2c_requests(ws: Seq<Seq<u8>>, v: Verb)
    requires
        can_be_spelled(v),
        ws == spelling(v),
        v is I2cScan || v is I2cRead || v is I2cSpeed || v is I2cBench,
    ensures
        i2c_request(ws) == plain(v),
{
    i2c_words();
    match v {
        Verb::I2cRead { addr, count } => {
            console::hexadecimals_are_read_back(addr, 0);
            counts_are_read_back(ws, 3, count, 32);
        },
        Verb::I2cSpeed { khz } => {
            console::decimals_are_read_back(khz as nat, 0xFFFF_FFFF);
        },
        Verb::I2cBench { addr, n } => {
            console::hexadecimals_are_read_back(addr, 0);
            console::decimals_are_read_back(n as nat, 0xFFFF_FFFF);
        },
        _ => {},
    }
}

#[verifier::spinoff_prover]
#[verifier::rlimit(40)]
proof fn flash_requests(ws: Seq<Seq<u8>>, v: Verb)
    requires
        can_be_spelled(v),
        ws == spelling(v),
        v is FlashErase || v is FlashRead,
    ensures
        flash_request(ws) == plain(v),
{
    flash_words();
    match v {
        Verb::FlashErase { off } => {
            console::hexadecimals_are_read_back(0, off);
        },
        Verb::FlashRead { off, count } => {
            console::hexadecimals_are_read_back(0, off);
            counts_are_read_back(ws, 3, count, 64);
        },
        _ => {},
    }
}

#[verifier::spinoff_prover]
#[verifier::rlimit(40)]
proof fn image_requests(ws: Seq<Seq<u8>>, size: u32, crc: u32)
    requires
        0 < size <= IMAGE_MAX,
        ws.len() == 3,
        ws[1] == text::hex8(size),
        ws[2] == text::hex8(crc),
    ensures
        ws[0] == text::lit("update") ==> image_request(ws) == Some(
            plain(Verb::Update { size, crc }),
        ),
        ws[0] == text::lit("uart-update") ==> image_request(ws) == Some(
            plain(Verb::UartUpdate { size, crc }),
        ),
        ws[0] == text::lit("push") ==> image_request(ws) == Some(plain(Verb::Push { size })),
{
    image_words();
    console::hexadecimals_are_read_back(0, size);
    console::hexadecimals_are_read_back(0, crc);
}

#[verifier::spinoff_prover]
#[verifier::rlimit(40)]
proof fn slink_requests(ws: Seq<Seq<u8>>, v: Verb)
    requires
        can_be_spelled(v),
        ws == spelling(v),
        v is SlinkSend || v is SlinkListen || v is SlinkFlood || v is SlinkSoak,
    ensures
        slink_request(ws) == plain(v),
{
    slink_words();
    match v {
        Verb::SlinkSend { b0, b1, b2, n } => {
            console::hexadecimals_are_read_back(b0, 0);
            console::hexadecimals_are_read_back(b1, 0);
            console::hexadecimals_are_read_back(b2, 0);
        },
        Verb::SlinkListen { ms } => {
            console::decimals_are_read_back(ms as nat, 0xFFFF_FFFF);
        },
        Verb::SlinkFlood { n } => {
            console::decimals_are_read_back(n as nat, 0xFFFF_FFFF);
        },
        Verb::SlinkSoak { n, ms } => {
            console::decimals_are_read_back(n as nat, 0xFFFF_FFFF);
            console::decimals_are_read_back(ms as nat, 0xFFFF_FFFF);
        },
        _ => {},
    }
}

#[verifier::spinoff_prover]
#[verifier::rlimit(40)]
proof fn rgb_requests(ws: Seq<Seq<u8>>, grb: u32)
    requires
        grb < 0x100_0000,
        ws == spelling(Verb::Rgb { grb }),
    ensures
        rgb_request(ws) == plain(Verb::Rgb { grb }),
{
    console::decimals_are_read_back((grb / 0x100 % 0x100) as nat, 255);
    console::decimals_are_read_back((grb / 0x1_0000) as nat, 255);
    console::decimals_are_read_back((grb % 0x100) as nat, 255);
    let (r, g, b) = (grb as int / 0x100 % 0x100, grb as int / 0x1_0000, grb as int % 0x100);
    assert(0x1_0000 * g + 0x100 * r + b == grb);
}

#[verifier::spinoff_prover]
#[verifier::rlimit(40)]
proof fn sd_requests(line: Seq<u8>, ws: Seq<Seq<u8>>, a: u32, b: u32)
    ensures
        ws == seq![text::lit("sd"), text::lit("init")] ==> sd_request(line, ws) == plain(
            Verb::SdInit,
        ),
        ws == seq![text::lit("sd"), text::lit("ls")] ==> sd_request(line, ws) == plain(Verb::SdLs),
        ws == seq![text::lit("sd"), text::lit("df")] ==> sd_request(line, ws) == plain(Verb::SdDf),
        ws == seq![text::lit("sd"), text::lit("read"), text::decimal(a as nat)] ==> sd_request(
            line,
            ws,
        ) == plain(Verb::SdRead { block: a }),
        ws == seq![
            text::lit("sd"),
            text::lit("find"),
            text::decimal(a as nat),
            text::decimal(b as nat),
        ] ==> sd_request(line, ws) == plain(Verb::SdFind { start: a, count: b }),
{
    sd_words();
    console::decimals_are_read_back(a as nat, 0xFFFF_FFFF);
    console::decimals_are_read_back(b as nat, 0xFFFF_FFFF);
}

proof fn bench_picks(line: Seq<u8>, ws: Seq<Seq<u8>>)
    requires
        ws == console::words_of(line),
        ws.len() > 0,
        ws[0] == text::lit("bench"),
    ensures
        request_of(line) == bench_request(ws),
{
    first_word_picks(line);
}

proof fn core1_picks(line: Seq<u8>, ws: Seq<Seq<u8>>)
    requires
        ws == console::words_of(line),
        ws.len() > 0,
        ws[0] == text::lit("core1"),
    ensures
        request_of(line) == core1_request(ws),
{
    first_word_picks(line);
}

proof fn led_picks(line: Seq<u8>, ws: Seq<Seq<u8>>)
    requires
        ws == console::words_of(line),
        ws.len() > 0,
        ws[0] == text::lit("led"),
    ensures
        request_of(line) == led_request(ws),
{
    first_word_picks(line);
}

proof fn gpio_picks(line: Seq<u8>, ws: Seq<Seq<u8>>)
    requires
        ws == console::words_of(line),
        ws.len() > 0,
        ws[0] == text::lit("gpio"),
    ensures
        request_of(line) == gpio_request(ws),
{
    first_word_picks(line);
}

proof fn uart_picks(line: Seq<u8>, ws: Seq<Seq<u8>>)
    requires
        ws == console::words_of(line),
        ws.len() > 0,
        ws[0] == text::lit("uart"),
    ensures
        request_of(line) == uart_request(line, ws),
{
    first_word_picks(line);
}

proof fn spi_picks(line: Seq<u8>, ws: Seq<Seq<u8>>)
    requires
        ws == console::words_of(line),
        ws.len() > 0,
        ws[0] == text::lit("spi"),
    ensures
        request_of(line) == spi_request(line, ws),
{
    first_word_picks(line);
}

proof fn i2c_picks(line: Seq<u8>, ws: Seq<Seq<u8>>)
    requires
        ws == console::words_of(line),
        ws.len() > 0,
        ws[0] == text::lit("i2c"),
    ensures
        request_of(line) == i2c_request(ws),
{
    first_word_picks(line);
}

proof fn flash_picks(line: Seq<u8>, ws: Seq<Seq<u8>>)
    requires
        ws == console::words_of(line),
        ws.len() > 0,
        ws[0] == text::lit("flash"),
    ensures
        request_of(line) == flash_request(ws),
{
    first_word_picks(line);
}

proof fn rom_picks(line: Seq<u8>, ws: Seq<Seq<u8>>)
    requires
        ws == console::words_of(line),
        ws.len() > 0,
        ws[0] == text::lit("rom"),
    ensures
        request_of(line) == rom_request(ws),
{
    first_word_picks(line);
}

proof fn adc_picks(line: Seq<u8>, ws: Seq<Seq<u8>>)
    requires
        ws == console::words_of(line),
        ws.len() > 0,
        ws[0] == text::lit("adc"),
    ensures
        request_of(line) == adc_request(ws),
{
    first_word_picks(line);
}

proof fn wifi_picks(line: Seq<u8>, ws: Seq<Seq<u8>>)
    requires
        ws == console::words_of(line),
        ws.len() > 0,
        ws[0] == text::lit("wifi"),
    ensures
        request_of(line) == wifi_request(ws),
{
    first_word_picks(line);
}

proof fn slink_picks(line: Seq<u8>, ws: Seq<Seq<u8>>)
    requires
        ws == console::words_of(line),
        ws.len() > 0,
        ws[0] == text::lit("slink"),
    ensures
        request_of(line) == slink_request(ws),
{
    first_word_picks(line);
}

proof fn rgb_picks(line: Seq<u8>, ws: Seq<Seq<u8>>)
    requires
        ws == console::words_of(line),
        ws.len() > 0,
        ws[0] == text::lit("rgb"),
    ensures
        request_of(line) == rgb_request(ws),
{
    first_word_picks(line);
}

proof fn rtc_picks(line: Seq<u8>, ws: Seq<Seq<u8>>)
    requires
        ws == console::words_of(line),
        ws.len() > 0,
        ws[0] == text::lit("rtc"),
    ensures
        request_of(line) == rtc_request(ws),
{
    first_word_picks(line);
}

proof fn sd_picks(line: Seq<u8>, ws: Seq<Seq<u8>>)
    requires
        ws == console::words_of(line),
        ws.len() > 0,
        ws[0] == text::lit("sd"),
    ensures
        request_of(line) == sd_request(line, ws),
{
    first_word_picks(line);
}

proof fn reboot_picks(line: Seq<u8>, ws: Seq<Seq<u8>>)
    requires
        ws == console::words_of(line),
        ws.len() > 0,
        ws[0] == text::lit("reboot"),
    ensures
        request_of(line) == reboot_request(ws),
{
    first_word_picks(line);
}

proof fn image_picks(line: Seq<u8>, ws: Seq<Seq<u8>>)
    requires
        ws == console::words_of(line),
        ws.len() > 0,
        ws[0] == text::lit("update") || ws[0] == text::lit("uart-update") || ws[0] == text::lit(
            "push",
        ),
    ensures
        image_request(ws) is Some,
        request_of(line) == image_request(ws)->0,
{
    first_word_picks(line);
}

#[verifier::spinoff_prover]
#[verifier::rlimit(40)]
proof fn core1_said(line: Seq<u8>, v: Verb)
    requires
        can_be_spelled(v),
        console::words_of(line) == spelling(v),
        v is Core1 || v is Core1Stress || v is Core1Speed || v is Core1Bulk || v is Core1Pipe,
    ensures
        request_of(line) == plain(v),
{
    let ws = console::words_of(line);
    assert(ws.len() > 0 && ws[0] == text::lit("core1"));
    core1_picks(line, ws);
    core1_requests(ws, v);
}

#[verifier::spinoff_prover]
#[verifier::rlimit(40)]
proof fn led_said(line: Seq<u8>, v: Verb)
    requires
        can_be_spelled(v),
        console::words_of(line) == spelling(v),
        v is Led || v is LedDim,
    ensures
        request_of(line) == plain(v),
{
    let ws = console::words_of(line);
    assert(ws.len() > 0 && ws[0] == text::lit("led"));
    led_picks(line, ws);
    led_requests(ws, v);
}

#[verifier::spinoff_prover]
#[verifier::rlimit(40)]
proof fn wifi_said(line: Seq<u8>, v: Verb)
    requires
        can_be_spelled(v),
        console::words_of(line) == spelling(v),
        v is Wifi,
    ensures
        request_of(line) == plain(v),
{
    let ws = console::words_of(line);
    assert(ws.len() > 0 && ws[0] == text::lit("wifi"));
    wifi_picks(line, ws);
    wifi_requests(ws, v);
}

#[verifier::spinoff_prover]
#[verifier::rlimit(40)]
proof fn uart_said(line: Seq<u8>, v: Verb)
    requires
        can_be_spelled(v),
        console::words_of(line) == spelling(v),
        v is UartRecv || v is UartRxBench,
    ensures
        request_of(line) == plain(v),
{
    let ws = console::words_of(line);
    assert(ws.len() > 0 && ws[0] == text::lit("uart"));
    uart_picks(line, ws);
    uart_requests(line, ws, v);
}

#[verifier::spinoff_prover]
#[verifier::rlimit(40)]
proof fn spi_said(line: Seq<u8>, v: Verb)
    requires
        can_be_spelled(v),
        console::words_of(line) == spelling(v),
        v is SpiRecv,
    ensures
        request_of(line) == plain(v),
{
    let ws = console::words_of(line);
    assert(ws.len() > 0 && ws[0] == text::lit("spi"));
    spi_picks(line, ws);
    uart_requests(line, ws, v);
}

#[verifier::spinoff_prover]
#[verifier::rlimit(40)]
proof fn i2c_said(line: Seq<u8>, v: Verb)
    requires
        can_be_spelled(v),
        console::words_of(line) == spelling(v),
        v is I2cScan || v is I2cRead || v is I2cSpeed || v is I2cBench,
    ensures
        request_of(line) == plain(v),
{
    let ws = console::words_of(line);
    assert(ws.len() > 0 && ws[0] == text::lit("i2c"));
    i2c_picks(line, ws);
    i2c_requests(ws, v);
}

#[verifier::spinoff_prover]
#[verifier::rlimit(40)]
proof fn flash_said(line: Seq<u8>, v: Verb)
    requires
        can_be_spelled(v),
        console::words_of(line) == spelling(v),
        v is FlashErase || v is FlashRead,
    ensures
        request_of(line) == plain(v),
{
    let ws = console::words_of(line);
    assert(ws.len() > 0 && ws[0] == text::lit("flash"));
    flash_picks(line, ws);
    flash_requests(ws, v);
}

#[verifier::spinoff_prover]
#[verifier::rlimit(40)]
proof fn slink_said(line: Seq<u8>, v: Verb)
    requires
        can_be_spelled(v),
        console::words_of(line) == spelling(v),
        v is SlinkSend || v is SlinkListen || v is SlinkFlood || v is SlinkSoak,
    ensures
        request_of(line) == plain(v),
{
    let ws = console::words_of(line);
    assert(ws.len() > 0 && ws[0] == text::lit("slink"));
    slink_picks(line, ws);
    slink_requests(ws, v);
}

#[verifier::spinoff_prover]
#[verifier::rlimit(40)]
proof fn rgb_said(line: Seq<u8>, v: Verb)
    requires
        can_be_spelled(v),
        console::words_of(line) == spelling(v),
        v is Rgb,
    ensures
        request_of(line) == plain(v),
{
    let ws = console::words_of(line);
    assert(ws.len() > 0 && ws[0] == text::lit("rgb"));
    rgb_picks(line, ws);
    rgb_requests(ws, v->grb);
}

#[verifier::spinoff_prover]
#[verifier::rlimit(40)]
proof fn sd_said(line: Seq<u8>, v: Verb)
    requires
        can_be_spelled(v),
        console::words_of(line) == spelling(v),
        v is SdInit || v is SdLs || v is SdDf || v is SdRead || v is SdFind,
    ensures
        request_of(line) == plain(v),
{
    let ws = console::words_of(line);
    assert(ws.len() > 0 && ws[0] == text::lit("sd"));
    sd_picks(line, ws);
    match v {
        Verb::SdRead { block } => {
            sd_requests(line, ws, block, 0);
        },
        Verb::SdFind { start, count } => {
            sd_requests(line, ws, start, count);
        },
        _ => {
            sd_requests(line, ws, 0, 0);
        },
    }
}

#[verifier::spinoff_prover]
#[verifier::rlimit(40)]
proof fn bench_said(line: Seq<u8>, v: Verb)
    requires
        can_be_spelled(v),
        console::words_of(line) == spelling(v),
        v is BenchAll || v is BenchAllI2c,
    ensures
        request_of(line) == plain(v),
{
    let ws = console::words_of(line);
    assert(ws.len() > 0 && ws[0] == text::lit("bench"));
    bench_picks(line, ws);
    match v {
        Verb::BenchAllI2c { addr } => {
            bench_requests(ws, addr);
        },
        _ => {
            bench_requests(ws, 0);
        },
    }
}

#[verifier::spinoff_prover]
#[verifier::rlimit(40)]
proof fn adc_said(line: Seq<u8>, v: Verb)
    requires
        can_be_spelled(v),
        console::words_of(line) == spelling(v),
        v is AdcRead,
    ensures
        request_of(line) == plain(v),
{
    let ws = console::words_of(line);
    assert(ws.len() > 0 && ws[0] == text::lit("adc"));
    adc_picks(line, ws);
    adc_requests(ws, v->ch);
}

#[verifier::spinoff_prover]
#[verifier::rlimit(40)]
proof fn rtc_said(line: Seq<u8>, v: Verb)
    requires
        can_be_spelled(v),
        console::words_of(line) == spelling(v),
        v is RtcGet,
    ensures
        request_of(line) == plain(v),
{
    let ws = console::words_of(line);
    assert(ws.len() > 0 && ws[0] == text::lit("rtc"));
    rtc_picks(line, ws);
    rtc_requests(ws);
}

#[verifier::spinoff_prover]
#[verifier::rlimit(40)]
proof fn reboot_said(line: Seq<u8>, v: Verb)
    requires
        can_be_spelled(v),
        console::words_of(line) == spelling(v),
        v is Reboot,
    ensures
        request_of(line) == plain(v),
{
    let ws = console::words_of(line);
    assert(ws.len() > 0 && ws[0] == text::lit("reboot"));
    reboot_picks(line, ws);
    reboot_requests(ws);
}

#[verifier::spinoff_prover]
#[verifier::rlimit(40)]
proof fn gpio_said(line: Seq<u8>, verb: PinVerb, pin: u8)
    requires
        console::words_of(line) == spelling(Verb::Gpio { verb, pin }),
    ensures
        request_of(line) == plain(Verb::Gpio { verb, pin }),
{
    let ws = console::words_of(line);
    gpio_requests(ws, verb, pin);
    gpio_picks(line, ws);
}

#[verifier::spinoff_prover]
#[verifier::rlimit(40)]
proof fn image_said(line: Seq<u8>, v: Verb)
    requires
        can_be_spelled(v),
        console::words_of(line) == spelling(v),
        v is Update || v is UartUpdate || v is Push,
    ensures
        request_of(line) == plain(v),
{
    let ws = console::words_of(line);
    match v {
        Verb::Update { size, crc } => {
            image_requests(ws, size, crc);
        },
        Verb::UartUpdate { size, crc } => {
            image_requests(ws, size, crc);
        },
        Verb::Push { size } => {
            image_requests(ws, size, 0);
        },
        _ => {},
    }
    image_picks(line, ws);
}

#[verifier::spinoff_prover]
#[verifier::rlimit(40)]
proof fn bare_said(line: Seq<u8>, v: Verb)
    requires
        console::words_of(line) == spelling(v),
        v is Help || v is Status || v is Ticks || v is Temp || v is Slot || v is Crash,
    ensures
        request_of(line) == plain(v),
{
    let ws = console::words_of(line);
    assert(ws.len() > 0);
    first_word_picks(line);
}

/// A line asks for what its words say: whatever can be asked for by words and
/// numbers is asked for by its own, and so no two different requests share
/// theirs. Blanks between and around the words do not matter.
pub proof fn commands_mean_what_they_say(line: Seq<u8>, v: Verb)
    requires
        can_be_spelled(v),
        console::words_of(line) == spelling(v),
    ensures
        request_of(line) == plain(v),
{
    match v {
        Verb::Gpio { verb, pin } => {
            gpio_said(line, verb, pin);
        },
        Verb::Core1 { .. }
        | Verb::Core1Stress { .. }
        | Verb::Core1Speed { .. }
        | Verb::Core1Bulk { .. }
        | Verb::Core1Pipe { .. } => {
            core1_said(line, v);
        },
        Verb::Led { .. } | Verb::LedDim { .. } => {
            led_said(line, v);
        },
        Verb::Wifi { .. } => {
            wifi_said(line, v);
        },
        Verb::UartRecv | Verb::UartRxBench => {
            uart_said(line, v);
        },
        Verb::SpiRecv => {
            spi_said(line, v);
        },
        Verb::I2cScan | Verb::I2cRead { .. } | Verb::I2cSpeed { .. } | Verb::I2cBench { .. } => {
            i2c_said(line, v);
        },
        Verb::FlashErase { .. } | Verb::FlashRead { .. } => {
            flash_said(line, v);
        },
        Verb::Update { .. } | Verb::UartUpdate { .. } | Verb::Push { .. } => {
            image_said(line, v);
        },
        Verb::SlinkSend { .. }
        | Verb::SlinkListen { .. }
        | Verb::SlinkFlood { .. }
        | Verb::SlinkSoak { .. } => {
            slink_said(line, v);
        },
        Verb::Rgb { .. } => {
            rgb_said(line, v);
        },
        Verb::SdInit | Verb::SdLs | Verb::SdDf | Verb::SdRead { .. } | Verb::SdFind { .. } => {
            sd_said(line, v);
        },
        Verb::BenchAll | Verb::BenchAllI2c { .. } => {
            bench_said(line, v);
        },
        Verb::AdcRead { .. } => {
            adc_said(line, v);
        },
        Verb::RtcGet => {
            rtc_said(line, v);
        },
        Verb::Reboot { .. } => {
            reboot_said(line, v);
        },
        _ => {
            bare_said(line, v);
        },
    }
}

proof fn gpio_words_are_good(verb: PinVerb, pin: u8)
    ensures
        ({
            let ws = seq![text::lit("gpio")] + pin_words(verb, pin);
            forall|i: int| 0 <= i < ws.len() ==> console::good_word(#[trigger] ws[i])
        }),
{
    let p = pin_words(verb, pin);
    let ws = seq![text::lit("gpio")] + p;
    pin_words_are_good(verb, pin);
    assert(console::good_word(ws[0]) && console::good_word(ws[1]) && console::good_word(ws[2]));
    assert(ws.len() > 3 ==> ws.len() == 4 && console::good_word(ws[3]));
}

proof fn pin_words_are_good(verb: PinVerb, pin: u8)
    ensures
        ({
            let p = pin_words(verb, pin);
            &&& 2 <= p.len() <= 3
            &&& console::good_word(text::lit("gpio"))
            &&& console::good_word(p[0])
            &&& console::good_word(p[1])
            &&& p.len() == 3 ==> console::good_word(p[2])
        }),
{
    let p = pin_words(verb, pin);
    assert(p[1] == text::decimal(pin as nat));
    assert(p[0] == text::lit("out") || p[0] == text::lit("in") || p[0] == text::lit("hi") || p[0]
        == text::lit("lo") || p[0] == text::lit("toggle") || p[0] == text::lit("read") || p[0]
        == text::lit("pull"));
    assert(p.len() == 3 ==> p[2] == text::lit("up") || p[2] == text::lit("down") || p[2]
        == text::lit("none"));
    assert(console::good_word(p[1])) by {
        console::decimals_are_read_back(pin as nat, 255);
    }
    assert(console::good_word(text::lit("gpio")) && console::good_word(p[0]) && (p.len() == 3
        ==> console::good_word(p[2]))) by {
        good_words();
    }
}

proof fn gpio_line(verb: PinVerb, pin: u8)
    ensures
        request_of(console::line_of(seq![text::lit("gpio")] + pin_words(verb, pin))) == plain(
            Verb::Gpio { verb, pin },
        ),
{
    let ws = seq![text::lit("gpio")] + pin_words(verb, pin);
    gpio_words_are_good(verb, pin);
    console::words_survive_the_line(ws);
    gpio_said(console::line_of(ws), verb, pin);
}

/// For every pin, each verb of `gpio` asks for its own action: on the line as it
/// is typed.
pub proof fn gpio_verbs_ask_for_their_action(pin: u8)
    ensures
        ({
            let n = text::decimal(pin as nat);
            let g = text::lit("gpio");
            &&& request_of(console::line_of(seq![g, text::lit("hi"), n])) == plain(
                Verb::Gpio { verb: PinVerb::High, pin },
            )
            &&& request_of(console::line_of(seq![g, text::lit("lo"), n])) == plain(
                Verb::Gpio { verb: PinVerb::Low, pin },
            )
            &&& request_of(console::line_of(seq![g, text::lit("out"), n])) == plain(
                Verb::Gpio { verb: PinVerb::Out, pin },
            )
            &&& request_of(console::line_of(seq![g, text::lit("in"), n])) == plain(
                Verb::Gpio { verb: PinVerb::In, pin },
            )
            &&& request_of(console::line_of(seq![g, text::lit("toggle"), n])) == plain(
                Verb::Gpio { verb: PinVerb::Toggle, pin },
            )
            &&& request_of(console::line_of(seq![g, text::lit("read"), n])) == plain(
                Verb::Gpio { verb: PinVerb::Read, pin },
            )
            &&& request_of(console::line_of(seq![g, text::lit("pull"), n, text::lit("up")]))
                == plain(Verb::Gpio { verb: PinVerb::PullUp, pin })
            &&& request_of(console::line_of(seq![g, text::lit("pull"), n, text::lit("down")]))
                == plain(Verb::Gpio { verb: PinVerb::PullDown, pin })
            &&& request_of(console::line_of(seq![g, text::lit("pull"), n, text::lit("none")]))
                == plain(Verb::Gpio { verb: PinVerb::PullNone, pin })
        }),
{
    gpio_line(PinVerb::High, pin);
    gpio_line(PinVerb::Low, pin);
    gpio_line(PinVerb::Out, pin);
    gpio_line(PinVerb::In, pin);
    gpio_line(PinVerb::Toggle, pin);
    gpio_line(PinVerb::Read, pin);
    gpio_line(PinVerb::PullUp, pin);
    gpio_line(PinVerb::PullDown, pin);
    gpio_line(PinVerb::PullNone, pin);
    let n = text::decimal(pin as nat);
    let g = text::lit("gpio");
    assert(seq![g] + pin_words(PinVerb::High, pin) =~= seq![g, text::lit("hi"), n]);
    assert(seq![g] + pin_words(PinVerb::Low, pin) =~= seq![g, text::lit("lo"), n]);
    assert(seq![g] + pin_words(PinVerb::Out, pin) =~= seq![g, text::lit("out"), n]);
    assert(seq![g] + pin_words(PinVerb::In, pin) =~= seq![g, text::lit("in"), n]);
    assert(seq![g] + pin_words(PinVerb::Toggle, pin) =~= seq![g, text::lit("toggle"), n]);
    assert(seq![g] + pin_words(PinVerb::Read, pin) =~= seq![g, text::lit("read"), n]);
    assert(seq![g] + pin_words(PinVerb::PullUp, pin) =~= seq![
        g,
        text::lit("pull"),
        n,
        text::lit("up"),
    ]);
    assert(seq![g] + pin_words(PinVerb::PullDown, pin) =~= seq![
        g,
        text::lit("pull"),
        n,
        text::lit("down"),
    ]);
    assert(seq![g] + pin_words(PinVerb::PullNone, pin) =~= seq![
        g,
        text::lit("pull"),
        n,
        text::lit("none"),
    ]);
}

#[verifier::spinoff_prover]
#[verifier::rlimit(40)]
proof fn clock_requests(
    ws: Seq<Seq<u8>>,
    yy: u8,
    mm: u8,
    dd: u8,
    hh: u8,
    min: u8,
    ss: u8,
    weekday: u8,
)
    requires
        ws.len() == 9,
        ws[1] == text::lit("set"),
        ws[2] == text::decimal(yy as nat),
        ws[3] == text::decimal(mm as nat),
        ws[4] == text::decimal(dd as nat),
        ws[5] == text::decimal(hh as nat),
        ws[6] == text::decimal(min as nat),
        ws[7] == text::decimal(ss as nat),
        ws[8] == text::decimal(weekday as nat),
    ensures
        rtc_request(ws) == plain(
            Verb::RtcSet { packed: packed_time(ss, min, hh, dd, mm, weekday, yy) as u64 },
        ),
{
    rtc_words();
    console::decimals_are_read_back(yy as nat, 255);
    console::decimals_are_read_back(mm as nat, 255);
    console::decimals_are_read_back(dd as nat, 255);
    console::decimals_are_read_back(hh as nat, 255);
    console::decimals_are_read_back(min as nat, 255);
    console::decimals_are_read_back(ss as nat, 255);
    console::decimals_are_read_back(weekday as nat, 255);
}

/// The packed clock can be taken apart again: the second is in the lowest byte,
/// then come minute, hour, day, month, weekday and year.
pub proof fn packed_times_come_apart(
    ss: u8,
    min: u8,
    hh: u8,
    dd: u8,
    mm: u8,
    weekday: u8,
    yy: u8,
)
    ensures
        ({
            let p = packed_time(ss, min, hh, dd, mm, weekday, yy) as int;
            &&& p <= u64::MAX
            &&& p % 0x100 == ss
            &&& p / 0x100 % 0x100 == min
            &&& p / 0x1_0000 % 0x100 == hh
            &&& p / 0x100_0000 % 0x100 == dd
            &&& p / 0x1_0000_0000 % 0x100 == mm
            &&& p / 0x100_0000_0000 % 0x100 == weekday
            &&& p / 0x1_0000_0000_0000 == yy
        }),
{
    let t0 = yy as int;
    let t1 = weekday + 0x100 * t0;
    let t2 = mm + 0x100 * t1;
    let t3 = dd + 0x100 * t2;
    let t4 = hh + 0x100 * t3;
    let t5 = min + 0x100 * t4;
    let p = packed_time(ss, min, hh, dd, mm, weekday, yy) as int;
    assert(p == ss + 0x100 * t5);
    assert(p / 0x100 == t5);
    assert(p / 0x1_0000 == t4);
    assert(p / 0x100_0000 == t3);
    assert(p / 0x1_0000_0000 == t2);
    assert(p / 0x100_0000_0000 == t1);
    assert(p / 0x1_0000_0000_0000 == t0);
}

/// Setting the clock takes its fields in the order of the calendar, year first.
pub proof fn the_clock_is_set_to_what_is_typed(
    line: Seq<u8>,
    yy: u8,
    mm: u8,
    dd: u8,
    hh: u8,
    min: u8,
    ss: u8,
    weekday: u8,
)
    requires
        console::words_of(line) == seq![
            text::lit("rtc"),
            text::lit("set"),
            text::decimal(yy as nat),
            text::decimal(mm as nat),
            text::decimal(dd as nat),
            text::decimal(hh as nat),
            text::decimal(min as nat),
            text::decimal(ss as nat),
            text::decimal(weekday as nat),
        ],
    ensures
        request_of(line) == plain(
            Verb::RtcSet { packed: packed_time(ss, min, hh, dd, mm, weekday, yy) as u64 },
        ),
{
    let ws = console::words_of(line);
    assert(ws.len() == 9 && ws[0] == text::lit("rtc") && ws[1] == text::lit("set"));
    clock_requests(ws, yy, mm, dd, hh, min, ss, weekday);
    rtc_picks(line, ws);
}

#[verifier::spinoff_prover]
#[verifier::rlimit(40)]
proof fn i2c_byte_requests(ws: Seq<Seq<u8>>, addr: u8, data: Seq<u8>)
    requires
        ws.len() == 4,
        ws[2] == text::hex2(addr),
        ws[3] == console::hexed(data),
        0 < data.len() <= 16,
    ensures
        ws[1] == text::lit("write") ==> i2c_request(ws) == carrying(Verb::I2cWrite { addr }, data),
        ws[1] == text::lit("target") ==> i2c_request(ws) == carrying(
            Verb::I2cTarget { addr },
            data,
        ),
{
    i2c_words();
    console::hexadecimals_are_read_back(addr, 0);
    console::hex_bytes_are_read_back(data, Seq::empty(), 32);
    console::hex_bytes_are_read_back(data, Seq::empty(), 16);
}

/// Bytes go to the I2C bus as typed, to the address before them.
pub proof fn i2c_bytes_are_kept(line: Seq<u8>, addr: u8, data: Seq<u8>)
    requires
        0 < data.len() <= 16,
    ensures
        console::words_of(line) == seq![
            text::lit("i2c"),
            text::lit("write"),
            text::hex2(addr),
            console::hexed(data),
        ] ==> request_of(line) == carrying(Verb::I2cWrite { addr }, data),
        console::words_of(line) == seq![
            text::lit("i2c"),
            text::lit("target"),
            text::hex2(addr),
            console::hexed(data),
        ] ==> request_of(line) == carrying(Verb::I2cTarget { addr }, data),
{
    let ws = console::words_of(line);
    let a = seq![text::lit("i2c"), text::lit("write"), text::hex2(addr), console::hexed(data)];
    let b = seq![text::lit("i2c"), text::lit("target"), text::hex2(addr), console::hexed(data)];
    if ws == a || ws == b {
        assert(ws.len() == 4 && ws[0] == text::lit("i2c"));
        assert(ws[2] == text::hex2(addr) && ws[3] == console::hexed(data));
        i2c_byte_requests(ws, addr, data);
        i2c_picks(line, ws);
    }
}

#[verifier::spinoff_prover]
#[verifier::rlimit(40)]
proof fn flash_byte_requests(ws: Seq<Seq<u8>>, off: u32, data: Seq<u8>)
    requires
        ws.len() == 4,
        ws[1] == text::lit("write"),
        ws[2] == text::hex8(off),
        ws[3] == console::hexed(data),
        0 < data.len() <= 64,
    ensures
        flash_request(ws) == carrying(Verb::FlashWrite { off }, data),
{
    flash_words();
    console::hexadecimals_are_read_back(0, off);
    console::hex_bytes_are_read_back(data, Seq::empty(), 64);
}

/// Bytes go to the flash as typed, to the offset before them.
pub proof fn flash_bytes_are_kept(line: Seq<u8>, off: u32, data: Seq<u8>)
    requires
        0 < data.len() <= 64,
        console::words_of(line) == seq![
            text::lit("flash"),
            text::lit("write"),
            text::hex8(off),
            console::hexed(data),
        ],
    ensures
        request_of(line) == carrying(Verb::FlashWrite { off }, data),
{
    let ws = console::words_of(line);
    assert(ws.len() == 4 && ws[0] == text::lit("flash") && ws[1] == text::lit("write"));
    flash_byte_requests(ws, off, data);
    flash_picks(line, ws);
}

#[verifier::spinoff_prover]
#[verifier::rlimit(40)]
proof fn file_requests(line: Seq<u8>, ws: Seq<Seq<u8>>)
    requires
        ws.len() == 3,
    ensures
        ws[1] == text::lit("cat") ==> sd_request(line, ws) == named(Verb::SdCat, ws[2]),
        ws[1] == text::lit("rm") ==> sd_request(line, ws) == named(Verb::SdRm, ws[2]),
{
    sd_words();
}

/// Files are named as typed, and so are the codes of the boot ROM.
pub proof fn names_are_kept(line: Seq<u8>, name: Seq<u8>)
    ensures
        console::words_of(line) == seq![text::lit("sd"), text::lit("cat"), name] ==> request_of(
            line,
        ) == named(Verb::SdCat, name),
        console::words_of(line) == seq![text::lit("sd"), text::lit("rm"), name] ==> request_of(
            line,
        ) == named(Verb::SdRm, name),
        name.len() == 2 && console::words_of(line) == seq![text::lit("rom"), name] ==> request_of(
            line,
        ) == named(Verb::Rom { code: (name[0] + 256 * name[1]) as u16 }, name),
{
    let ws = console::words_of(line);
    let a = seq![text::lit("sd"), text::lit("cat"), name];
    let b = seq![text::lit("sd"), text::lit("rm"), name];
    let c = seq![text::lit("rom"), name];
    if ws == a || ws == b {
        assert(ws.len() == 3 && ws[0] == text::lit("sd") && ws[2] == name);
        file_requests(line, ws);
        sd_picks(line, ws);
    } else if name.len() == 2 && ws == c {
        assert(ws.len() == 2 && ws[0] == text::lit("rom") && ws[1] == name);
        rom_picks(line, ws);
    }
}

proof fn two_words(a: Seq<u8>, b: Seq<u8>, t: Seq<u8>)
    requires
        console::good_word(a),
        console::good_word(b),
    ensures
        ({
            let ws = console::words_of(a + seq![32u8] + (b + seq![32u8] + t));
            &&& ws == seq![a, b] + console::words_of(t)
            &&& ws.len() >= 2
            &&& ws[0] == a
            &&& ws[1] == b
        }),
{
    console::lines_come_apart(b, t);
    console::lines_come_apart(a, b + seq![32u8] + t);
    assert(seq![a] + (seq![b] + console::words_of(t)) =~= seq![a, b] + console::words_of(t));
}

/// A line of two words and a text: what the words are, and what the second
/// leaves as its text.
proof fn text_behind(a: Seq<u8>, b: Seq<u8>, t: Seq<u8>)
    requires
        console::good_word(a),
        console::good_word(b),
        console::tidy(t),
        forall|k: int| 0 <= k < a.len() ==> a[k] != b[0],
    ensures
        ({
            let line = a + seq![32u8] + (b + seq![32u8] + t);
            let ws = console::words_of(line);
            &&& ws.len() >= 2
            &&& ws[0] == a
            &&& ws[1] == b
            &&& console::rest_after(line, b) == t
        }),
{
    let line = a + seq![32u8] + (b + seq![32u8] + t);
    two_words(a, b, t);
    let pre = a + seq![32u8];
    assert forall|k: int| 0 <= k < pre.len() implies pre[k] != b[0] by {
        if k < a.len() {
            assert(pre[k] == a[k]);
        } else {
            assert(33 <= b[0]);
        }
    }
    console::free_text_is_kept(pre, b, t);
    assert(line =~= pre + b + seq![32u8] + t);
}

proof fn letters_differ()
    ensures
        forall|k: int| 0 <= k < text::lit("uart").len() ==> text::lit("uart")[k] != text::lit(
            "send",
        )[0],
        forall|k: int| 0 <= k < text::lit("uart").len() ==> text::lit("uart")[k] != text::lit(
            "bench",
        )[0],
        forall|k: int| 0 <= k < text::lit("spi").len() ==> text::lit("spi")[k] != text::lit(
            "xfer",
        )[0],
        forall|k: int| 0 <= k < text::lit("spi").len() ==> text::lit("spi")[k] != text::lit(
            "load",
        )[0],
        forall|k: int| 0 <= k < text::lit("spi").len() ==> text::lit("spi")[k] != text::lit(
            "role",
        )[0],
        forall|k: int| 0 <= k < text::lit("spi").len() ==> text::lit("spi")[k] != text::lit(
            "bench",
        )[0],
        forall|k: int| 0 <= k < text::lit("sd").len() ==> text::lit("sd")[k] != text::lit(
            "write",
        )[0],
{
    reveal_strlit("uart");
    reveal_strlit("spi");
    reveal_strlit("sd");
    reveal_strlit("send");
    reveal_strlit("bench");
    reveal_strlit("xfer");
    reveal_strlit("load");
    reveal_strlit("role");
    reveal_strlit("write");
    vstd::utf8::is_ascii_chars_encode_utf8("uart"@);
    vstd::utf8::is_ascii_chars_encode_utf8("spi"@);
    vstd::utf8::is_ascii_chars_encode_utf8("sd"@);
    vstd::utf8::is_ascii_chars_encode_utf8("send"@);
    vstd::utf8::is_ascii_chars_encode_utf8("bench"@);
    vstd::utf8::is_ascii_chars_encode_utf8("xfer"@);
    vstd::utf8::is_ascii_chars_encode_utf8("load"@);
    vstd::utf8::is_ascii_chars_encode_utf8("role"@);
    vstd::utf8::is_ascii_chars_encode_utf8("write"@);
    assert(text::lit("uart") =~= [117u8, 97, 114, 116]@);
    assert(text::lit("spi") =~= [115u8, 112, 105]@);
    assert(text::lit("sd") =~= [115u8, 100]@);
}

#[verifier::spinoff_prover]
#[verifier::rlimit(40)]
proof fn uart_text_requests(line: Seq<u8>, ws: Seq<Seq<u8>>)
    requires
        ws.len() >= 2,
    ensures
        ws[1] == text::lit("send") ==> uart_request(line, ws) == carrying(
            Verb::UartSend,
            console::rest_after(line, text::lit("send")),
        ),
        ws[1] == text::lit("bench") ==> uart_request(line, ws) == plain(
            Verb::UartBench { n: text_or(console::rest_after(line, text::lit("bench")), 4096) },
        ),
{
    uart_words();
}

/// Text goes to the UART as it was typed, and a bench is as long as was asked
/// for.
pub proof fn text_goes_to_the_uart(t: Seq<u8>, n: u32)
    requires
        console::tidy(t),
    ensures
        request_of(text::lit("uart") + seq![32u8] + (text::lit("send") + seq![32u8] + t))
            == carrying(Verb::UartSend, t),
        request_of(
            text::lit("uart") + seq![32u8] + (text::lit("bench") + seq![32u8] + text::decimal(
                n as nat,
            )),
        ) == plain(Verb::UartBench { n }),
{
    let (a, b, c) = (text::lit("uart"), text::lit("send"), text::lit("bench"));
    let d = text::decimal(n as nat);
    let line = a + seq![32u8] + (b + seq![32u8] + t);
    let other = a + seq![32u8] + (c + seq![32u8] + d);
    good_words();
    letters_differ();
    text_behind(a, b, t);
    uart_text_requests(line, console::words_of(line));
    uart_picks(line, console::words_of(line));
    number_is_tidy(n);
    text_behind(a, c, d);
    uart_text_requests(other, console::words_of(other));
    uart_picks(other, console::words_of(other));
}

proof fn number_is_tidy(n: u32)
    ensures
        console::tidy(text::decimal(n as nat)),
        text_or(text::decimal(n as nat), 4096) == n,
{
    console::decimals_are_read_back(n as nat, 0xFFFF_FFFF);
    let d = text::decimal(n as nat);
    assert(33 <= d[d.len() - 1] <= 126 && 33 <= d[0] <= 126);
}

#[verifier::spinoff_prover]
#[verifier::rlimit(40)]
proof fn spi_text_requests(line: Seq<u8>, ws: Seq<Seq<u8>>)
    requires
        ws.len() >= 2,
    ensures
        ws[1] == text::lit("xfer") ==> (match console::hex_bytes(
            console::rest_after(line, text::lit("xfer")),
            32,
        ) {
            Some(b) if b.len() > 0 => spi_request(line, ws) == carrying(Verb::SpiXfer, b),
            _ => spi_request(line, ws).verb == Verb::Say,
        }),
        ws[1] == text::lit("load") ==> (match console::hex_bytes(
            console::rest_after(line, text::lit("load")),
            8,
        ) {
            Some(b) => spi_request(line, ws) == carrying(Verb::SpiLoad, b),
            _ => spi_request(line, ws).verb == Verb::Say,
        }),
        ws[1] == text::lit("role") && console::rest_after(line, text::lit("role")) == text::lit(
            "peripheral",
        ) ==> spi_request(line, ws) == plain(Verb::SpiRole { peripheral: true }),
        ws[1] == text::lit("role") && console::rest_after(line, text::lit("role")) == text::lit(
            "controller",
        ) ==> spi_request(line, ws) == plain(Verb::SpiRole { peripheral: false }),
        ws[1] == text::lit("bench") ==> spi_request(line, ws) == plain(
            Verb::SpiBench { n: text_or(console::rest_after(line, text::lit("bench")), 4096) },
        ),
{
    spi_words();
}

/// Bytes go to the SPI bus as typed, as a transfer or as the peripheral's
/// response; the role is the one that is named, and a bench is as long as was
/// asked for.
pub proof fn bytes_go_to_the_spi_bus(data: Seq<u8>, n: u32)
    requires
        0 < data.len() <= 8,
    ensures
        request_of(
            text::lit("spi") + seq![32u8] + (text::lit("xfer") + seq![32u8] + console::hexed(data)),
        ) == carrying(Verb::SpiXfer, data),
        request_of(
            text::lit("spi") + seq![32u8] + (text::lit("load") + seq![32u8] + console::hexed(data)),
        ) == carrying(Verb::SpiLoad, data),
        request_of(
            text::lit("spi") + seq![32u8] + (text::lit("role") + seq![32u8] + text::lit(
                "peripheral",
            )),
        ) == plain(Verb::SpiRole { peripheral: true }),
        request_of(
            text::lit("spi") + seq![32u8] + (text::lit("role") + seq![32u8] + text::lit(
                "controller",
            )),
        ) == plain(Verb::SpiRole { peripheral: false }),
        request_of(
            text::lit("spi") + seq![32u8] + (text::lit("bench") + seq![32u8] + text::decimal(
                n as nat,
            )),
        ) == plain(Verb::SpiBench { n }),
{
    spi_data_is_tidy(data);
    number_is_tidy(n);
    console::hex_bytes_are_read_back(data, Seq::empty(), 32);
    console::hex_bytes_are_read_back(data, Seq::empty(), 8);
    spi_line(text::lit("xfer"), console::hexed(data));
    spi_line(text::lit("load"), console::hexed(data));
    spi_line(text::lit("role"), text::lit("peripheral"));
    spi_line(text::lit("role"), text::lit("controller"));
    spi_line(text::lit("bench"), text::decimal(n as nat));
}

proof fn spi_data_is_tidy(data: Seq<u8>)
    requires
        data.len() > 0,
    ensures
        console::tidy(console::hexed(data)),
        console::tidy(text::lit("peripheral")),
        console::tidy(text::lit("controller")),
{
    console::hex_bytes_are_read_back(data, Seq::empty(), 32);
    let h = console::hexed(data);
    assert(33 <= h[0] <= 126 && 33 <= h[h.len() - 1] <= 126);
    good_words();
    let p = text::lit("peripheral");
    let c = text::lit("controller");
    assert(33 <= p[0] <= 126 && 33 <= p[p.len() - 1] <= 126);
    assert(33 <= c[0] <= 126 && 33 <= c[c.len() - 1] <= 126);
}

proof fn spi_line(verb: Seq<u8>, t: Seq<u8>)
    requires
        console::tidy(t),
        verb == text::lit("xfer") || verb == text::lit("load") || verb == text::lit("role") || verb
            == text::lit("bench"),
    ensures
        ({
            let line = text::lit("spi") + seq![32u8] + (verb + seq![32u8] + t);
            let r = request_of(line);
            &&& verb == text::lit("xfer") ==> (match console::hex_bytes(t, 32) {
                Some(b) if b.len() > 0 => r == carrying(Verb::SpiXfer, b),
                _ => r.verb == Verb::Say,
            })
            &&& verb == text::lit("load") ==> (match console::hex_bytes(t, 8) {
                Some(b) => r == carrying(Verb::SpiLoad, b),
                _ => r.verb == Verb::Say,
            })
            &&& verb == text::lit("role") && t == text::lit("peripheral") ==> r == plain(
                Verb::SpiRole { peripheral: true },
            )
            &&& verb == text::lit("role") && t == text::lit("controller") ==> r == plain(
                Verb::SpiRole { peripheral: false },
            )
            &&& verb == text::lit("bench") ==> r == plain(Verb::SpiBench { n: text_or(t, 4096) })
        }),
{
    let a = text::lit("spi");
    let line = a + seq![32u8] + (verb + seq![32u8] + t);
    good_words();
    letters_differ();
    text_behind(a, verb, t);
    spi_text_requests(line, console::words_of(line));
    spi_picks(line, console::words_of(line));
}

#[verifier::spinoff_prover]
#[verifier::rlimit(40)]
proof fn sd_write_requests(line: Seq<u8>, ws: Seq<Seq<u8>>, name: Seq<u8>, t: Seq<u8>)
    requires
        ws.len() >= 2,
        ws[1] == text::lit("write"),
        console::rest_after(line, text::lit("write")) == name + seq![32u8] + t,
        console::good_word(name),
        console::tidy(t),
    ensures
        sd_request(line, ws) == (Request { verb: Verb::SdWrite, name, data: t }),
{
    sd_words();
    console::names_end_at_the_blank(name, t);
    let rest = name + seq![32u8] + t;
    let k = name.len() as int;
    assert(rest.take(k) =~= name);
    assert(rest.skip(k + 1) =~= t);
    assert(t.skip(0) =~= t);
}

/// Text goes to a file as it was typed, to the one that is named before it.
pub proof fn text_goes_to_its_file(name: Seq<u8>, t: Seq<u8>)
    requires
        console::good_word(name),
        console::tidy(t),
    ensures
        request_of(
            text::lit("sd") + seq![32u8] + (text::lit("write") + seq![32u8] + (name + seq![32u8]
                + t)),
        ) == (Request { verb: Verb::SdWrite, name, data: t }),
{
    let (a, b) = (text::lit("sd"), text::lit("write"));
    let rest = name + seq![32u8] + t;
    let line = a + seq![32u8] + (b + seq![32u8] + rest);
    assert forall|i: int| 0 <= i < rest.len() implies 32 <= #[trigger] rest[i] <= 126 by {
        let n = name.len();
        if i < n {
            assert(rest[i] == name[i]);
        } else if i > n {
            assert(rest[i] == t[i - n - 1]);
        }
    }
    assert(rest[0] == name[0]);
    assert(rest[rest.len() - 1] == t[t.len() - 1]);
    good_words();
    letters_differ();
    text_behind(a, b, rest);
    sd_write_requests(line, console::words_of(line), name, t);
    sd_picks(line, console::words_of(line));
}

} // verus!
