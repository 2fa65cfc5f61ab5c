//! The shell's replies: every text that a command prints, built from what the
//! drivers answered.

use crate::command::{LedVerb, Verb, WifiVerb};
use crate::ds1302;
use crate::errors::{FlashError, SdError};
use crate::text::{
    self, append, append_hex32, append_hex_byte, append_pad2, append_str, append_u32, append_u64,
    is_printable, same,
};
use vstd::prelude::*;
use vstd::slice::slice_subrange;

verus! {

/// The commands that every board has.
pub const HELP: &'static str =
    "commands:\r\nhelp                  this text\r\nstatus                run self-tests (uart loopback, spi loopback, i2c scan)\r\nbench all [addr]      throughput of every bus in one table\r\nticks                 ms since boot\r\nled on|off|toggle|blink   onboard LED (on/off/toggle suspend the\r\nidle heartbeat; blink restores it)\r\ngpio out|in|hi|lo|toggle|read <pin> | gpio pull <pin> up|down|none\r\nuart send <text>      send out UART0 TX (GP0)\r\nuart recv             drain UART0 RX buffer\r\nuart bench [n]        time sending n bytes (default 4096); reports B/s\r\nuart rxbench          count RX bytes over 3s (run while peer benches)\r\nspi xfer <hex..>      full-duplex exchange, e.g. spi xfer a5 5a 3c\r\nspi role controller|peripheral   set bus role for board-to-board (GP16-19)\r\nspi load <hex<=8>     peripheral: stage response bytes for the controller\r\nspi recv              peripheral: show bytes clocked in by the controller\r\nspi bench [n]         controller: time clocking n bytes; reports B/s\r\ni2c scan              probe all 7-bit addresses\r\ni2c read <addr> <n>   read n bytes, e.g. i2c read 42 8\r\ni2c write <addr> <hex..>\r\ni2c target <addr> <hex<=16>   become an I2C target serving those bytes\r\ni2c bench <addr> [n]  controller: time reading n bytes from a target\r\ni2c speed <khz>       100 (std) | 400 (fast) | 1000 (fast-mode-plus)\r\nflash read <hex-off> [n<=64]   dump flash, e.g. flash read 0 64\r\nflash erase <hex-off>          erase a 4K sector (aligned)\r\nflash write <hex-off> <hex..>  program bytes (within one 256B page)\r\nrom <CC>              boot-ROM table lookup, e.g. rom FO\r\ntemp                  die temperature (internal sensor via ADC)\r\nadc read <ch>         raw 12-bit ADC read (0-3 = GPIO26-29, 4 = temp)\r\nled dim <pct>         PWM-dim the LED (led on|off|blink returns it to GPIO)\r\nupdate <size-hex> <crc32-hex>  receive image over USB; write flash; verify\r\nuart-update <size> <crc>  receive image over UART from a peer push\r\npush <size> <crc>     stream own flash image to a peer over UART\r\nreboot [bootsel]      reboot; with `bootsel`, land in USB flashing mode\r\n";

/// The inter-core mailbox commands.
pub const HELP_MAILBOX: &'static str =
    "  core1 <n>|stress|speed|bulk <len> <it>   AMP cross-core mailbox + bulk xfer\r\n";

/// The S-Link commands.
pub const HELP_SLINK: &'static str =
    "  slink send <hex..>    send a Sony S-Link frame (2-3 bytes) on GP4\r\nslink listen [ms]     wait for an S-Link frame; print the bytes\r\n";

/// The colour LED command.
pub const HELP_WS2812: &'static str =
    "  rgb <r> <g> <b>       set the WS2812 NeoPixel on GP22 (0-255 each)\r\n";

/// The clock commands.
pub const HELP_DS1302: &'static str =
    "  rtc [get]             read the DS1302 clock (GP6/7/8)\r\nrtc set <YY> <MM> <DD> <HH> <MM> <SS> [weekday]   set the DS1302 clock\r\n";

/// The raw card commands.
pub const HELP_SDCARD: &'static str =
    "  sd init               run the SD SPI-mode init handshake (GP10-13)\r\nsd read <block>       read a 512-byte block; hexdump it\r\nsd find <start> <n>   scan n blocks; print any printable-ASCII runs (>=4)\r\n";

/// The file system commands.
pub const HELP_FAT: &'static str =
    "  sd ls                 list the FAT root directory (name + size)\r\nsd cat <name>         print a file from the FAT root directory\r\nsd df                 FAT volume total/used/free space (from BPB + FSInfo)\r\nsd write <name> <text>  create/truncate <name> in the root dir; write <text>\r\nsd rm <name>          delete <name> from the FAT root directory\r\n";

/// The help text.
pub open spec fn help_text() -> Seq<u8> {
    text::lit(HELP) + text::lit(HELP_MAILBOX) + text::lit(HELP_SLINK) + text::lit(HELP_WS2812)
        + text::lit(HELP_DS1302) + text::lit(HELP_SDCARD) + text::lit(HELP_FAT)
}

/// The help text.
pub fn help() -> (v: Vec<u8>)
    ensures
        v@ == help_text(),
{
    let mut v: Vec<u8> = Vec::new();
    append_str(&mut v, HELP);
    append_str(&mut v, HELP_MAILBOX);
    append_str(&mut v, HELP_SLINK);
    append_str(&mut v, HELP_WS2812);
    append_str(&mut v, HELP_DS1302);
    append_str(&mut v, HELP_SDCARD);
    append_str(&mut v, HELP_FAT);
    assert(v@ =~= help_text());
    v
}

/// The time since boot.
pub open spec fn ticks_text(now: u64) -> Seq<u8> {
    text::lit("uptime ") + text::decimal(now as nat) + text::lit(" ms\r\n")
}

/// The time since boot.
pub fn ticks(now: u64) -> (v: Vec<u8>)
    ensures
        v@ == ticks_text(now),
{
    let mut v: Vec<u8> = Vec::new();
    append_str(&mut v, "uptime ");
    append_u64(&mut v, now);
    append_str(&mut v, " ms\r\n");
    assert(v@ =~= ticks_text(now));
    v
}

fn either(ok: bool, good: &str, bad: &str) -> (v: Vec<u8>)
    ensures
        v@ == if ok {
            text::lit(good)
        } else {
            text::lit(bad)
        },
{
    let mut v: Vec<u8> = Vec::new();
    if ok {
        append_str(&mut v, good);
        assert(v@ =~= text::lit(good));
    } else {
        append_str(&mut v, bad);
        assert(v@ =~= text::lit(bad));
    }
    v
}

/// The reply to an `led` command: a verb that it does not know gets the usage.
pub fn led_reply(v: Verb, ok: bool) -> (r: Vec<u8>)
    ensures
        r@ == if v == (Verb::Led { verb: LedVerb::Unknown }) {
            text::lit("usage: led on|off|toggle|blink\r\n")
        } else if ok {
            text::lit("ok\r\n")
        } else {
            text::lit("error\r\n")
        },
{
    match v {
        Verb::Led { verb: LedVerb::Unknown } => either(
            true,
            "usage: led on|off|toggle|blink\r\n",
            "",
        ),
        _ => either(ok, "ok\r\n", "error\r\n"),
    }
}

/// The reply to a command that sets the colour LED.
pub fn rgb_reply(ok: bool) -> (v: Vec<u8>)
    ensures
        v@ == if ok {
            text::lit("ok\r\n")
        } else {
            text::lit("error\r\n")
        },
{
    either(ok, "ok\r\n", "error\r\n")
}

/// What a command says before it does its work.
pub open spec fn announcement_text(v: Verb) -> Seq<u8> {
    match v {
        Verb::BenchAll | Verb::BenchAllI2c { .. } => text::lit(
            "bus throughput (4096 bytes each):\r\n",
        ),
        Verb::Wifi { verb: WifiVerb::Scan } => text::lit("scanning...\r\n"),
        Verb::Wifi { verb: WifiVerb::Ap } => text::lit("starting AP 'Pico2W-Setup'...\r\n"),
        Verb::UartUpdate { .. } => text::lit("waiting for image over UART...\r\n"),
        Verb::SlinkListen { ms } => slink_listening_text(ms),
        Verb::SlinkFlood { n } => slink_flooding_text(n),
        Verb::SlinkSoak { n, .. } => slink_soaking_text(n),
        Verb::Crash => text::lit("crashing shell (jefe should restart me)...\r\n"),
        _ => Seq::empty(),
    }
}

/// What a command says before it does its work.
pub fn announcement(v: Verb) -> (r: Vec<u8>)
    ensures
        r@ == announcement_text(v),
{
    match v {
        Verb::BenchAll | Verb::BenchAllI2c { .. } => either(
            true,
            "bus throughput (4096 bytes each):\r\n",
            "",
        ),
        Verb::Wifi { verb: WifiVerb::Scan } => either(true, "scanning...\r\n", ""),
        Verb::Wifi { verb: WifiVerb::Ap } => either(
            true,
            "starting AP 'Pico2W-Setup'...\r\n",
            "",
        ),
        Verb::UartUpdate { .. } => either(true, "waiting for image over UART...\r\n", ""),
        Verb::SlinkListen { ms } => slink_listening(ms),
        Verb::SlinkFlood { n } => slink_flooding(n),
        Verb::SlinkSoak { n, .. } => slink_soaking(n),
        Verb::Crash => either(true, "crashing shell (jefe should restart me)...\r\n", ""),
        _ => Vec::new(),
    }
}

/// The reply once the radio's LED was switched, whether it obeyed or not.
pub fn wifi_led_reply(on: bool) -> (v: Vec<u8>)
    ensures
        v@ == if on {
            text::lit("led on\r\n")
        } else {
            text::lit("led off\r\n")
        },
{
    either(on, "led on\r\n", "led off\r\n")
}

/// The reply to a command to a pin.
pub fn gpio_reply(ok: bool) -> (v: Vec<u8>)
    ensures
        v@ == if ok {
            text::lit("ok\r\n")
        } else {
            text::lit("error (bad pin?)\r\n")
        },
{
    either(ok, "ok\r\n", "error (bad pin?)\r\n")
}

/// The reply to setting the clock.
pub fn rtc_set_reply(ok: bool) -> (v: Vec<u8>)
    ensures
        v@ == if ok {
            text::lit("ok\r\n")
        } else {
            text::lit("bad time (check ranges)\r\n")
        },
{
    either(ok, "ok\r\n", "bad time (check ranges)\r\n")
}

/// The reply to an I2C write.
pub fn i2c_write_reply(ok: bool) -> (v: Vec<u8>)
    ensures
        v@ == if ok {
            text::lit("ok\r\n")
        } else {
            text::lit("error (nak/timeout)\r\n")
        },
{
    either(ok, "ok\r\n", "error (nak/timeout)\r\n")
}

/// The reply to setting the SPI role.
pub fn spi_role_reply(peripheral: bool) -> (v: Vec<u8>)
    ensures
        v@ == if peripheral {
            text::lit("spi role = peripheral (slave)\r\n")
        } else {
            text::lit("spi role = controller\r\n")
        },
{
    either(peripheral, "spi role = peripheral (slave)\r\n", "spi role = controller\r\n")
}

/// What the UART self-test sends.
pub const MARKER: &'static str = "uart-loopback\r\n";

/// Bytes of the marker.
pub const MARKER_LEN: u32 = 15;

/// What the SPI self-test sends.
pub const SPI_PROBE: [u8; 3] = [0xA5, 0x5A, 0x3C];

/// The UART self-test: `n` bytes came back.
pub open spec fn uart_status_text(n: u32) -> Seq<u8> {
    text::lit("uart: rx=") + text::decimal(n as nat)
        + (if n == MARKER_LEN {
            text::lit(" (loopback OK)\r\n")
        } else {
            (if n == 0 {
                text::lit(" (no loopback jumper?)\r\n")
            } else {
                text::lit("\r\n")
            })
        })
}

/// The UART self-test: `n` bytes came back.
pub fn uart_status(n: u32) -> (v: Vec<u8>)
    ensures
        v@ == uart_status_text(n),
{
    let mut v: Vec<u8> = Vec::new();
    append_str(&mut v, "uart: rx=");
    append_u32(&mut v, n);
    if n == MARKER_LEN {
        append_str(&mut v, " (loopback OK)\r\n");
    } else {
        if n == 0 {
            append_str(&mut v, " (no loopback jumper?)\r\n");
        } else {
            append_str(&mut v, "\r\n");
        }
    }
    assert(v@ =~= uart_status_text(n));
    v
}

/// The SPI self-test: these bytes came back.
pub open spec fn spi_status_text(rx: &[u8]) -> Seq<u8> {
    (if rx@ == SPI_PROBE@ {
            text::lit("spi:  loopback OK\r\n")
        } else {
            text::lit("spi:  loopback FAILED\r\n")
        })
}

/// The SPI self-test: these bytes came back.
pub fn spi_status(rx: &[u8]) -> (v: Vec<u8>)
    ensures
        v@ == spi_status_text(rx),
{
    let mut v: Vec<u8> = Vec::new();
    if same(rx, [0xA5u8, 0x5A, 0x3C].as_slice()) {
        append_str(&mut v, "spi:  loopback OK\r\n");
    } else {
        append_str(&mut v, "spi:  loopback FAILED\r\n");
    }
    assert(v@ =~= spi_status_text(rx));
    v
}

/// First address of a bus scan.
pub const SCAN_FIRST: u8 = 0x08;

/// Addresses in a bus scan.
pub const SCAN_LEN: usize = 112;

/// The list of the devices that answered among the first `k` addresses.
pub open spec fn found_list(answers: Seq<bool>, k: int) -> Seq<u8>
    decreases k,
{
    if k <= 0 || k > answers.len() {
        Seq::empty()
    } else {
        let before = found_list(answers, k - 1);
        if !answers[k - 1] {
            before
        } else {
            (if before.len() > 0 {
                before + text::lit(", ")
            } else {
                before
            }) + text::lit("0x") + text::hex2((SCAN_FIRST + k - 1) as u8)
        }
    }
}

/// A bus scan: which of the addresses answered.
pub open spec fn i2c_scan_text(answers: Seq<bool>) -> Seq<u8> {
    let found = found_list(answers, answers.len() as int);
    text::lit("i2c:  ") + (if found.len() == 0 {
        text::lit("no devices")
    } else {
        found
    }) + text::lit("\r\n")
}

/// A bus scan: which of the addresses answered.
pub fn i2c_scan(answers: &[bool]) -> (v: Vec<u8>)
    requires
        answers@.len() == SCAN_LEN,
    ensures
        v@ == i2c_scan_text(answers@),
{
    let mut found: Vec<u8> = Vec::new();
    let mut i: usize = 0;
    while i < answers.len()
        invariant
            i <= answers@.len(),
            answers@.len() == SCAN_LEN,
            found@ == found_list(answers@, i as int),
        decreases answers@.len() - i,
    {
        if answers[i] {
            let ghost before = found@;
            if found.len() > 0 {
                append_str(&mut found, ", ");
            }
            append_str(&mut found, "0x");
            append_hex_byte(&mut found, SCAN_FIRST + i as u8);
            assert(found@ =~= found_list(answers@, i + 1));
        }
        i = i + 1;
    }
    let mut v: Vec<u8> = Vec::new();
    append_str(&mut v, "i2c:  ");
    if found.len() == 0 {
        append_str(&mut v, "no devices");
    } else {
        append(&mut v, found.as_slice());
    }
    append_str(&mut v, "\r\n");
    assert(v@ =~= i2c_scan_text(answers@));
    v
}

/// A pin was read.
pub open spec fn gpio_level_text(pin: u8, v: u8) -> Seq<u8> {
    text::lit("pin ") + text::decimal(pin as nat)
        + (if v != 0 {
            text::lit(" = 1\r\n")
        } else {
            text::lit(" = 0\r\n")
        })
}

/// A pin was read.
pub fn gpio_level(pin: u8, v: u8) -> (r: Vec<u8>)
    ensures
        r@ == gpio_level_text(pin, v),
{
    let mut r: Vec<u8> = Vec::new();
    append_str(&mut r, "pin ");
    append_u32(&mut r, pin as u32);
    if v != 0 {
        append_str(&mut r, " = 1\r\n");
    } else {
        append_str(&mut r, " = 0\r\n");
    }
    assert(r@ =~= gpio_level_text(pin, v));
    r
}

/// A text of `len` bytes was sent with a line end.
pub open spec fn uart_sent_text(len: usize) -> Seq<u8> {
    text::lit("sent ") + text::decimal((len + 2) as nat) + text::lit(" bytes\r\n")
}

/// A text of `len` bytes was sent with a line end.
pub fn uart_sent(len: usize) -> (v: Vec<u8>)
    requires
        len <= 0xFFFF_FFFD,
    ensures
        v@ == uart_sent_text(len),
{
    let mut v: Vec<u8> = Vec::new();
    append_str(&mut v, "sent ");
    append_u32(&mut v, (len + 2) as u32);
    append_str(&mut v, " bytes\r\n");
    assert(v@ =~= uart_sent_text(len));
    v
}

/// Bytes shown as text, unprintable ones escaped.
pub open spec fn escaped(s: Seq<u8>) -> Seq<u8>
    decreases s.len(),
{
    if s.len() == 0 {
        Seq::empty()
    } else {
        escaped(s.drop_last()) + (if text::printable(s.last()) {
            seq![s.last()]
        } else {
            text::lit("\\x") + text::hex2(s.last())
        })
    }
}

fn append_escaped(v: &mut Vec<u8>, s: &[u8])
    ensures
        final(v)@ == old(v)@ + escaped(s@),
{
    let ghost start = v@;
    let mut i: usize = 0;
    assert(s@.take(0) =~= Seq::<u8>::empty());
    assert(start + Seq::<u8>::empty() =~= start);
    while i < s.len()
        invariant
            i <= s@.len(),
            v@ == start + escaped(s@.take(i as int)),
        decreases s@.len() - i,
    {
        assert(s@.take(i + 1).drop_last() =~= s@.take(i as int));
        if is_printable(s[i]) {
            v.push(s[i]);
        } else {
            append_str(v, "\\x");
            append_hex_byte(v, s[i]);
        }
        i = i + 1;
        assert(v@ =~= start + escaped(s@.take(i as int)));
    }
    assert(s@.take(i as int) =~= s@);
}

/// What the UART had received.
pub open spec fn uart_received_text(rx: Seq<u8>) -> Seq<u8> {
    text::lit("rx ") + text::decimal(rx.len()) + text::lit(" bytes") + (if rx.len() > 0 {
        text::lit(": ") + escaped(rx)
    } else {
        Seq::empty()
    }) + text::lit("\r\n")
}

/// What the UART had received.
pub fn uart_received(rx: &[u8]) -> (v: Vec<u8>)
    ensures
        v@ == uart_received_text(rx@),
{
    let mut v: Vec<u8> = Vec::new();
    append_str(&mut v, "rx ");
    append_u64(&mut v, rx.len() as u64);
    append_str(&mut v, " bytes");
    if rx.len() > 0 {
        append_str(&mut v, ": ");
        append_escaped(&mut v, rx);
    }
    append_str(&mut v, "\r\n");
    assert(v@ =~= uart_received_text(rx@));
    v
}

/// Bytes per second, as far as 32 bits hold them; 0 when no time passed.
pub open spec fn bytes_per_second(bytes: u32, ms: u32) -> int {
    if ms > 0 {
        (1000 * bytes / ms as int) % 0x1_0000_0000
    } else {
        0
    }
}

/// Percent of `max`, or 0 when `max` is.
pub open spec fn percent_of(n: int, max: u32) -> int {
    if max == 0 {
        0
    } else {
        100 * n / max as int
    }
}

/// A throughput report: bytes, time, rate, and its share of the theoretical
/// rate.
pub open spec fn bench_report_text(label: Seq<u8>, bytes: u32, ms: u32, max_bps: u32) -> Seq<u8> {
    let bps = bytes_per_second(bytes, ms);
    label + text::decimal(bytes as nat) + text::lit(" bytes in ") + text::decimal(ms as nat)
        + text::lit(" ms = ") + text::decimal(bps as nat) + text::lit(" B/s (") + text::decimal(
        percent_of(bps, max_bps) as nat,
    ) + text::lit("% of ") + text::decimal(max_bps as nat) + text::lit(" theoretical)\r\n")
}

/// A throughput report.
pub fn bench_report(label: &str, bytes: u32, ms: u32, max_bps: u32) -> (v: Vec<u8>)
    requires
        100 * bytes_per_second(bytes, ms) <= u32::MAX,
    ensures
        v@ == bench_report_text(text::lit(label), bytes, ms, max_bps),
{
    let bps: u32 = if ms > 0 {
        (((bytes as u64) * 1000 / (ms as u64)) % 0x1_0000_0000) as u32
    } else {
        0
    };
    assert(bps == bytes_per_second(bytes, ms));
    let share: u32 = if max_bps == 0 {
        0
    } else {
        (bps * 100) / max_bps
    };
    assert(share == percent_of(bps as int, max_bps));
    let mut v: Vec<u8> = Vec::new();
    append_str(&mut v, label);
    append_u32(&mut v, bytes);
    append_str(&mut v, " bytes in ");
    append_u32(&mut v, ms);
    append_str(&mut v, " ms = ");
    append_u32(&mut v, bps);
    append_str(&mut v, " B/s (");
    append_u32(&mut v, share);
    append_str(&mut v, "% of ");
    append_u32(&mut v, max_bps);
    append_str(&mut v, " theoretical)\r\n");
    assert(v@ =~= bench_report_text(text::lit(label), bytes, ms, max_bps));
    v
}

/// The theoretical rate of an I2C bus: nine clocks a byte.
pub fn i2c_theoretical(khz: u32) -> (r: u32)
    requires
        khz <= 4_294_967,
    ensures
        r == 1000 * khz / 9,
{
    khz * 1000 / 9
}

/// The size of the next piece when `done` of `total` bytes went in pieces of at
/// most `piece`.
pub fn next_piece(done: u32, total: u32, piece: u32) -> (r: u32)
    requires
        done <= total,
    ensures
        r == if total - done <= piece {
            total - done
        } else {
            piece as int
        },
{
    if total - done <= piece {
        total - done
    } else {
        piece
    }
}

/// Bytes in hexadecimal, each behind a space.
pub open spec fn hex_list(s: Seq<u8>) -> Seq<u8>
    decreases s.len(),
{
    if s.len() == 0 {
        Seq::empty()
    } else {
        hex_list(s.drop_last()) + text::lit(" ") + text::hex2(s.last())
    }
}

fn append_hex_list(v: &mut Vec<u8>, s: &[u8])
    ensures
        final(v)@ == old(v)@ + hex_list(s@),
{
    let ghost start = v@;
    let mut i: usize = 0;
    assert(s@.take(0) =~= Seq::<u8>::empty());
    assert(start + Seq::<u8>::empty() =~= start);
    while i < s.len()
        invariant
            i <= s@.len(),
            v@ == start + hex_list(s@.take(i as int)),
        decreases s@.len() - i,
    {
        assert(s@.take(i + 1).drop_last() =~= s@.take(i as int));
        append_str(v, " ");
        append_hex_byte(v, s[i]);
        i = i + 1;
        assert(v@ =~= start + hex_list(s@.take(i as int)));
    }
    assert(s@.take(i as int) =~= s@);
}

/// Bytes that an exchange or a read gave.
pub open spec fn bytes_read_text(rx: &[u8]) -> Seq<u8> {
    text::lit("rx:") + hex_list(rx@) + text::lit("\r\n")
}

/// Bytes that an exchange or a read gave.
pub fn bytes_read(rx: &[u8]) -> (v: Vec<u8>)
    ensures
        v@ == bytes_read_text(rx),
{
    let mut v: Vec<u8> = Vec::new();
    append_str(&mut v, "rx:");
    append_hex_list(&mut v, rx);
    append_str(&mut v, "\r\n");
    assert(v@ =~= bytes_read_text(rx));
    v
}

/// The reply to an I2C read.
pub fn i2c_read_reply(rx: Option<&[u8]>) -> (v: Vec<u8>)
    ensures
        v@ == match rx {
            Some(x) => bytes_read_text(x),
            None => text::lit("error (nak/timeout)\r\n"),
        },
{
    match rx {
        Some(x) => bytes_read(x),
        None => either(false, "", "error (nak/timeout)\r\n"),
    }
}

/// Bytes that the controller clocked in.
pub open spec fn spi_received_text(rx: &[u8]) -> Seq<u8> {
    text::lit("rx ") + text::decimal(rx@.len() as nat) + text::lit(":") + hex_list(rx@)
        + text::lit("\r\n")
}

/// Bytes that the controller clocked in.
pub fn spi_received(rx: &[u8]) -> (v: Vec<u8>)
    ensures
        v@ == spi_received_text(rx),
{
    let mut v: Vec<u8> = Vec::new();
    append_str(&mut v, "rx ");
    append_u64(&mut v, rx.len() as u64);
    append_str(&mut v, ":");
    append_hex_list(&mut v, rx);
    append_str(&mut v, "\r\n");
    assert(v@ =~= spi_received_text(rx));
    v
}

/// Response bytes were staged.
pub open spec fn spi_loaded_text(k: u32) -> Seq<u8> {
    text::lit("loaded ") + text::decimal(k as nat) + text::lit(" bytes into TX FIFO\r\n")
}

/// Response bytes were staged.
pub fn spi_loaded(k: u32) -> (v: Vec<u8>)
    ensures
        v@ == spi_loaded_text(k),
{
    let mut v: Vec<u8> = Vec::new();
    append_str(&mut v, "loaded ");
    append_u32(&mut v, k);
    append_str(&mut v, " bytes into TX FIFO\r\n");
    assert(v@ =~= spi_loaded_text(k));
    v
}

/// The board has become an I2C target.
pub open spec fn i2c_serving_text(n: u32, addr: u8) -> Seq<u8> {
    text::lit("serving ") + text::decimal(n as nat) + text::lit(" bytes at 0x")
        + text::hex2(addr) + text::lit(" (this board is now an I2C target)\r\n")
}

/// The board has become an I2C target.
pub fn i2c_serving(n: u32, addr: u8) -> (v: Vec<u8>)
    ensures
        v@ == i2c_serving_text(n, addr),
{
    let mut v: Vec<u8> = Vec::new();
    append_str(&mut v, "serving ");
    append_u32(&mut v, n);
    append_str(&mut v, " bytes at 0x");
    append_hex_byte(&mut v, addr);
    append_str(&mut v, " (this board is now an I2C target)\r\n");
    assert(v@ =~= i2c_serving_text(n, addr));
    v
}

/// The reply to becoming an I2C target.
pub fn i2c_target_reply(n: Option<u32>, addr: u8) -> (v: Vec<u8>)
    ensures
        v@ == match n {
            Some(x) => i2c_serving_text(x, addr),
            None => text::lit("error\r\n"),
        },
{
    match n {
        Some(x) => i2c_serving(x, addr),
        None => either(false, "", "error\r\n"),
    }
}

/// The bus speed was set.
pub open spec fn i2c_speed_text(khz: u32) -> Seq<u8> {
    text::lit("i2c speed set to ") + text::decimal(khz as nat) + text::lit(" kHz\r\n")
}

/// The bus speed was set.
pub fn i2c_speed(khz: u32) -> (v: Vec<u8>)
    ensures
        v@ == i2c_speed_text(khz),
{
    let mut v: Vec<u8> = Vec::new();
    append_str(&mut v, "i2c speed set to ");
    append_u32(&mut v, khz);
    append_str(&mut v, " kHz\r\n");
    assert(v@ =~= i2c_speed_text(khz));
    v
}

/// How a flash operation ended.
#[derive(Copy, Clone, Debug, PartialEq, Eq, Structural)]
pub enum FlashOutcome {
    Done,
    Failed(FlashError),
}

/// The reply to a flash operation.
pub open spec fn flash_text(o: FlashOutcome, done: &str, misaligned: &str) -> Seq<u8> {
    match o {
        FlashOutcome::Done => text::lit(done),
        FlashOutcome::Failed(FlashError::BadAlignment) => text::lit(misaligned),
        FlashOutcome::Failed(_) => text::lit("error\r\n"),
    }
}

fn flash_reply(o: FlashOutcome, done: &str, misaligned: &str) -> (v: Vec<u8>)
    ensures
        v@ == flash_text(o, done, misaligned),
{
    let mut v: Vec<u8> = Vec::new();
    match o {
        FlashOutcome::Done => append_str(&mut v, done),
        FlashOutcome::Failed(FlashError::BadAlignment) => append_str(&mut v, misaligned),
        FlashOutcome::Failed(_) => append_str(&mut v, "error\r\n"),
    }
    assert(v@ =~= flash_text(o, done, misaligned));
    v
}

/// The reply to an erase.
pub fn flash_erased(o: FlashOutcome) -> (v: Vec<u8>)
    ensures
        v@ == flash_text(o, "erased\r\n", "not 4K-aligned\r\n"),
{
    flash_reply(o, "erased\r\n", "not 4K-aligned\r\n")
}

/// The reply to a write.
pub fn flash_programmed(o: FlashOutcome) -> (v: Vec<u8>)
    ensures
        v@ == flash_text(o, "programmed\r\n", "crosses a page boundary\r\n"),
{
    flash_reply(o, "programmed\r\n", "crosses a page boundary\r\n")
}

/// Bytes in hexadecimal, each before a space.
pub open spec fn hex_cells(s: Seq<u8>) -> Seq<u8>
    decreases s.len(),
{
    if s.len() == 0 {
        Seq::empty()
    } else {
        hex_cells(s.drop_last()) + text::hex2(s.last()) + text::lit(" ")
    }
}

/// Bytes as text, a dot for each that does not print.
pub open spec fn gutter(s: Seq<u8>) -> Seq<u8> {
    Seq::new(
        s.len(),
        |i: int|
            if text::printable(s[i]) {
                s[i]
            } else {
                46u8
            },
    )
}

/// One line of a dump: its offset, the bytes, and the bytes as text.
pub open spec fn dump_line(off: u32, row: Seq<u8>) -> Seq<u8> {
    text::hex8(off) + text::lit(": ") + hex_cells(row) + text::lit(" |") + gutter(row)
        + text::lit("|\r\n")
}

/// A dump of the bytes from `i` on, sixteen on a line.
pub open spec fn dump_from(base: u32, s: Seq<u8>, i: int) -> Seq<u8>
    decreases s.len() - i,
{
    if i < 0 || i >= s.len() {
        Seq::empty()
    } else if i + 16 <= s.len() {
        dump_line((base + i) as u32, s.subrange(i, i + 16)) + dump_from(base, s, i + 16)
    } else {
        dump_line((base + i) as u32, s.skip(i))
    }
}

fn append_hex_cells(v: &mut Vec<u8>, s: &[u8])
    ensures
        final(v)@ == old(v)@ + hex_cells(s@),
{
    let ghost start = v@;
    let mut i: usize = 0;
    assert(s@.take(0) =~= Seq::<u8>::empty());
    assert(start + Seq::<u8>::empty() =~= start);
    while i < s.len()
        invariant
            i <= s@.len(),
            v@ == start + hex_cells(s@.take(i as int)),
        decreases s@.len() - i,
    {
        assert(s@.take(i + 1).drop_last() =~= s@.take(i as int));
        append_hex_byte(v, s[i]);
        append_str(v, " ");
        i = i + 1;
        assert(v@ =~= start + hex_cells(s@.take(i as int)));
    }
    assert(s@.take(i as int) =~= s@);
}

fn append_gutter(v: &mut Vec<u8>, s: &[u8])
    ensures
        final(v)@ == old(v)@ + gutter(s@),
{
    let ghost start = v@;
    let mut i: usize = 0;
    assert(start =~= start + gutter(s@).take(0));
    while i < s.len()
        invariant
            i <= s@.len(),
            v@ == start + gutter(s@).take(i as int),
        decreases s@.len() - i,
    {
        if is_printable(s[i]) {
            v.push(s[i]);
        } else {
            v.push(46);
        }
        i = i + 1;
        assert(v@ =~= start + gutter(s@).take(i as int));
    }
    assert(gutter(s@).take(i as int) =~= gutter(s@));
}

/// Dump bytes, sixteen on a line with an ASCII gutter; the first stands at
/// `base`.
#[verifier::spinoff_prover]
#[verifier::rlimit(40)]
pub fn hexdump(base: u32, s: &[u8]) -> (v: Vec<u8>)
    requires
        base + s@.len() <= 0x1_0000_0000,
    ensures
        v@ == dump_from(base, s@, 0),
{
    let mut v: Vec<u8> = Vec::new();
    let mut i: usize = 0;
    assert(v@ + dump_from(base, s@, 0) =~= dump_from(base, s@, 0));
    while i < s.len()
        invariant
            i <= s@.len(),
            base + s@.len() <= 0x1_0000_0000,
            v@ + dump_from(base, s@, i as int) == dump_from(base, s@, 0),
        decreases s@.len() - i,
    {
        let ghost before = v@;
        let n: usize = if s.len() - i < 16 {
            s.len() - i
        } else {
            16
        };
        let row = slice_subrange(s, i, i + n);
        let off: u32 = base + i as u32;
        append_hex32(&mut v, off);
        append_str(&mut v, ": ");
        append_hex_cells(&mut v, row);
        append_str(&mut v, " |");
        append_gutter(&mut v, row);
        append_str(&mut v, "|\r\n");
        assert(v@ =~= before + dump_line(off, row@));
        assert(i + 16 <= s@.len() ==> row@ == s@.subrange(i as int, i + 16));
        assert(i + 16 > s@.len() ==> row@ =~= s@.skip(i as int));
        assert(v@ + dump_from(base, s@, i + n) =~= before + (dump_line(off, row@) + dump_from(
            base,
            s@,
            i + n,
        )));
        assert(dump_line(off, row@) + Seq::<u8>::empty() =~= dump_line(off, row@));
        i = i + n;
    }
    assert(v@ + Seq::<u8>::empty() =~= v@);
    v
}

/// A boot-ROM lookup.
pub open spec fn rom_entry_text(code: &[u8], addr: u32) -> Seq<u8> {
    text::lit("rom['") + code@ + text::lit("'] = 0x") + text::hex8(addr)
        + (if addr == 0 {
            text::lit(" (absent)\r\n")
        } else {
            text::lit("\r\n")
        })
}

/// A boot-ROM lookup.
pub fn rom_entry(code: &[u8], addr: u32) -> (v: Vec<u8>)
    ensures
        v@ == rom_entry_text(code, addr),
{
    let mut v: Vec<u8> = Vec::new();
    append_str(&mut v, "rom['");
    append(&mut v, code);
    append_str(&mut v, "'] = 0x");
    append_hex32(&mut v, addr);
    if addr == 0 {
        append_str(&mut v, " (absent)\r\n");
    } else {
        append_str(&mut v, "\r\n");
    }
    assert(v@ =~= rom_entry_text(code, addr));
    v
}

/// The die temperature in thousandths of a degree: 27 C at 0.706 V, less one
/// degree for every 1.721 mV more, the quotients cut towards zero.
pub open spec fn milli_celsius(raw: u16) -> int {
    let uv = 3_300_000 * raw / 4096;
    let over = 1000 * (uv - 706_000);
    27_000 - (if over >= 0 {
        over / 1721
    } else {
        -(-over / 1721)
    })
}

/// The temperature that a raw reading gives.
pub open spec fn temp_text(raw: u16) -> Seq<u8> {
    let mc = milli_celsius(raw);
    let m = if mc < 0 {
        -mc
    } else {
        mc
    };
    text::lit("die temp ") + (if mc < 0 {
        text::lit("-")
    } else {
        Seq::empty()
    }) + text::decimal((m / 1000) as nat) + text::lit(".") + text::decimal(
        (m % 1000 / 100) as nat,
    ) + text::lit(" C (raw ") + text::decimal(raw as nat) + text::lit(")\r\n")
}

/// The temperature that a raw reading gives.
pub fn temp(raw: u16) -> (v: Vec<u8>)
    ensures
        v@ == temp_text(raw),
{
    let uv: u64 = 3_300_000 * (raw as u64) / 4096;
    let (below, m): (bool, u64) = if uv >= 706_000 {
        let drop: u64 = 1000 * (uv - 706_000) / 1721;
        if drop > 27_000 {
            (true, drop - 27_000)
        } else {
            (false, 27_000 - drop)
        }
    } else {
        (false, 27_000 + 1000 * (706_000 - uv) / 1721)
    };
    let mut v: Vec<u8> = Vec::new();
    append_str(&mut v, "die temp ");
    if below {
        append_str(&mut v, "-");
    }
    append_u64(&mut v, m / 1000);
    append_str(&mut v, ".");
    append_u64(&mut v, m % 1000 / 100);
    append_str(&mut v, " C (raw ");
    append_u32(&mut v, raw as u32);
    append_str(&mut v, ")\r\n");
    assert(v@ =~= temp_text(raw));
    v
}

/// A hotter die reads lower: the temperature never rises with the raw reading.
pub proof fn temperature_falls_with_the_reading(a: u16, b: u16)
    requires
        a <= b,
    ensures
        milli_celsius(b) <= milli_celsius(a),
{
    let ua = 3_300_000 * a / 4096;
    let ub = 3_300_000 * b / 4096;
    assert(ua <= ub);
}

/// An ADC channel was read.
pub open spec fn adc_value_text(ch: u8, raw: u16) -> Seq<u8> {
    text::lit("adc[") + text::decimal(ch as nat) + text::lit("] = ")
        + text::decimal(raw as nat) + text::lit("\r\n")
}

/// An ADC channel was read.
pub fn adc_value(ch: u8, raw: u16) -> (v: Vec<u8>)
    ensures
        v@ == adc_value_text(ch, raw),
{
    let mut v: Vec<u8> = Vec::new();
    append_str(&mut v, "adc[");
    append_u32(&mut v, ch as u32);
    append_str(&mut v, "] = ");
    append_u32(&mut v, raw as u32);
    append_str(&mut v, "\r\n");
    assert(v@ =~= adc_value_text(ch, raw));
    v
}

/// The reply to `temp`.
pub fn temp_reply(raw: Option<u16>) -> (v: Vec<u8>)
    ensures
        v@ == match raw {
            Some(x) => temp_text(x),
            None => text::lit("adc error\r\n"),
        },
{
    match raw {
        Some(x) => temp(x),
        None => either(false, "", "adc error\r\n"),
    }
}

/// The reply to `adc read`.
pub fn adc_reply(ch: u8, raw: Option<u16>) -> (v: Vec<u8>)
    ensures
        v@ == match raw {
            Some(x) => adc_value_text(ch, x),
            None => text::lit("error (bad channel?)\r\n"),
        },
{
    match raw {
        Some(x) => adc_value(ch, x),
        None => either(false, "", "error (bad channel?)\r\n"),
    }
}

/// The Wi-Fi hardware address.
pub open spec fn wifi_mac_text(mac: [u8; 6]) -> Seq<u8> {
    text::lit("mac = ") + text::hex2(mac[0]) + text::lit(":") + text::hex2(mac[1])
        + text::lit(":") + text::hex2(mac[2]) + text::lit(":") + text::hex2(mac[3])
        + text::lit(":") + text::hex2(mac[4]) + text::lit(":") + text::hex2(mac[5])
        + text::lit("\r\n")
}

/// The Wi-Fi hardware address.
pub fn wifi_mac(mac: [u8; 6]) -> (v: Vec<u8>)
    ensures
        v@ == wifi_mac_text(mac),
{
    let mut v: Vec<u8> = Vec::new();
    append_str(&mut v, "mac = ");
    append_hex_byte(&mut v, mac[0]);
    append_str(&mut v, ":");
    append_hex_byte(&mut v, mac[1]);
    append_str(&mut v, ":");
    append_hex_byte(&mut v, mac[2]);
    append_str(&mut v, ":");
    append_hex_byte(&mut v, mac[3]);
    append_str(&mut v, ":");
    append_hex_byte(&mut v, mac[4]);
    append_str(&mut v, ":");
    append_hex_byte(&mut v, mac[5]);
    append_str(&mut v, "\r\n");
    assert(v@ =~= wifi_mac_text(mac));
    v
}

/// The reply to `wifi mac`.
pub fn wifi_mac_reply(mac: Option<[u8; 6]>) -> (v: Vec<u8>)
    ensures
        v@ == match mac {
            Some(x) => wifi_mac_text(x),
            None => text::lit("wifi not ready\r\n"),
        },
{
    match mac {
        Some(x) => wifi_mac(x),
        None => either(false, "", "wifi not ready\r\n"),
    }
}

/// The Wi-Fi chip's status word.
pub open spec fn wifi_status_text(s: u32) -> Seq<u8> {
    text::lit("status = 0x") + text::hex8(s) + text::lit(" (feedbead = up)\r\n")
}

/// The Wi-Fi chip's status word.
pub fn wifi_status(s: u32) -> (v: Vec<u8>)
    ensures
        v@ == wifi_status_text(s),
{
    let mut v: Vec<u8> = Vec::new();
    append_str(&mut v, "status = 0x");
    append_hex32(&mut v, s);
    append_str(&mut v, " (feedbead = up)\r\n");
    assert(v@ =~= wifi_status_text(s));
    v
}

/// The reply to `wifi status`.
pub fn wifi_status_reply(s: Option<u32>) -> (v: Vec<u8>)
    ensures
        v@ == match s {
            Some(x) => wifi_status_text(x),
            None => text::lit("wifi not ready\r\n"),
        },
{
    match s {
        Some(x) => wifi_status(x),
        None => either(false, "", "wifi not ready\r\n"),
    }
}

/// A scan is over.
pub open spec fn wifi_found_text(n: u32) -> Seq<u8> {
    text::lit("found ") + text::decimal(n as nat) + text::lit(" AP result frames\r\n")
}

/// A scan is over.
pub fn wifi_found(n: u32) -> (v: Vec<u8>)
    ensures
        v@ == wifi_found_text(n),
{
    let mut v: Vec<u8> = Vec::new();
    append_str(&mut v, "found ");
    append_u32(&mut v, n);
    append_str(&mut v, " AP result frames\r\n");
    assert(v@ =~= wifi_found_text(n));
    v
}

/// The reply to `wifi scan`.
pub fn wifi_scan_reply(n: Option<u32>) -> (v: Vec<u8>)
    ensures
        v@ == match n {
            Some(x) => wifi_found_text(x),
            None => text::lit("scan failed\r\n"),
        },
{
    match n {
        Some(x) => wifi_found(x),
        None => either(false, "", "scan failed\r\n"),
    }
}

/// The access point is up.
pub open spec fn wifi_ap_up_text(s: u32) -> Seq<u8> {
    text::lit("ap up, bss status = ") + text::decimal(s as nat) + text::lit("\r\n")
}

/// The access point is up.
pub fn wifi_ap_up(s: u32) -> (v: Vec<u8>)
    ensures
        v@ == wifi_ap_up_text(s),
{
    let mut v: Vec<u8> = Vec::new();
    append_str(&mut v, "ap up, bss status = ");
    append_u32(&mut v, s);
    append_str(&mut v, "\r\n");
    assert(v@ =~= wifi_ap_up_text(s));
    v
}

/// The reply to `wifi ap`.
pub fn wifi_ap_reply(s: Option<u32>) -> (v: Vec<u8>)
    ensures
        v@ == match s {
            Some(x) => wifi_ap_up_text(x),
            None => text::lit("ap failed\r\n"),
        },
{
    match s {
        Some(x) => wifi_ap_up(x),
        None => either(false, "", "ap failed\r\n"),
    }
}

/// The flash slots and where an update would go.
pub open spec fn slot_report_text(n: u32, hdr: [u8; 8], ver_a: u32, ver_b: u32, target: u32) -> Seq<u8> {
    text::lit("flash[0..8] n=") + text::decimal(n as nat) + text::lit(" bytes=")
        + hex_cells(hdr@) + text::lit("\r\nverA=") + text::hex8(ver_a) + text::lit(" verB=")
        + text::hex8(ver_b) + text::lit(" target=0x") + text::hex8(target) + text::lit("\r\n")
}

/// The flash slots and where an update would go.
pub fn slot_report(n: u32, hdr: [u8; 8], ver_a: u32, ver_b: u32, target: u32) -> (v: Vec<u8>)
    ensures
        v@ == slot_report_text(n, hdr, ver_a, ver_b, target),
{
    let mut v: Vec<u8> = Vec::new();
    append_str(&mut v, "flash[0..8] n=");
    append_u32(&mut v, n);
    append_str(&mut v, " bytes=");
    append_hex_cells(&mut v, hdr.as_slice());
    append_str(&mut v, "\r\nverA=");
    append_hex32(&mut v, ver_a);
    append_str(&mut v, " verB=");
    append_hex32(&mut v, ver_b);
    append_str(&mut v, " target=0x");
    append_hex32(&mut v, target);
    append_str(&mut v, "\r\n");
    assert(v@ =~= slot_report_text(n, hdr, ver_a, ver_b, target));
    v
}

/// What core 1 answers to `n`.
pub open spec fn core1_answer(n: u32) -> u32 {
    ((2 * n + 1) % 0x1_0000_0000) as u32
}

fn answer_for(n: u32) -> (r: u32)
    ensures
        r == core1_answer(n),
{
    ((2 * (n as u64) + 1) % 0x1_0000_0000) as u32
}

/// What the mailbox gives when core 1 does not answer.
pub const NO_ANSWER: u32 = 0xffff_ffff;

/// The reply to `core1 <n>`.
pub open spec fn core1_text(n: u32, reply: u32) -> Seq<u8> {
    if reply == NO_ANSWER {
        text::lit("core 1 did not answer (timeout)\r\n")
    } else {
        text::lit("core 1: ") + text::decimal(n as nat) + text::lit(" -> ") + text::decimal(
            reply as nat,
        ) + (if reply == core1_answer(n) {
            text::lit(" (n*2+1, correct)\r\n")
        } else {
            text::lit(" (unexpected)\r\n")
        })
    }
}

/// The reply to `core1 <n>`.
pub fn core1(n: u32, reply: u32) -> (v: Vec<u8>)
    ensures
        v@ == core1_text(n, reply),
{
    let mut v: Vec<u8> = Vec::new();
    if reply == NO_ANSWER {
        append_str(&mut v, "core 1 did not answer (timeout)\r\n");
    } else {
        append_str(&mut v, "core 1: ");
        append_u32(&mut v, n);
        append_str(&mut v, " -> ");
        append_u32(&mut v, reply);
        if reply == answer_for(n) {
            append_str(&mut v, " (n*2+1, correct)\r\n");
        } else {
            append_str(&mut v, " (unexpected)\r\n");
        }
    }
    assert(v@ =~= core1_text(n, reply));
    v
}

/// The tally of a mailbox stress run.
#[derive(Copy, Clone, Debug, PartialEq, Eq, Structural)]
pub struct StressTally {
    /// Exchanges so far; also the next value to send.
    pub sent: u32,
    /// Wrong answers.
    pub bad: u32,
    /// Missing answers.
    pub timeouts: u32,
}

impl StressTally {
    /// Every exchange counts at most once.
    pub open spec fn wf(&self) -> bool {
        self.bad + self.timeouts <= self.sent
    }

    /// Nothing sent yet.
    pub fn new() -> (t: StressTally)
        ensures
            t == (StressTally { sent: 0, bad: 0, timeouts: 0 }),
            t.wf(),
    {
        StressTally { sent: 0, bad: 0, timeouts: 0 }
    }

    /// Count the answer to the value just sent.
    pub fn count(&mut self, reply: u32)
        requires
            old(self).wf(),
            old(self).sent < u32::MAX,
        ensures
            final(self).wf(),
            final(self).sent == old(self).sent + 1,
            final(self).timeouts == old(self).timeouts + (if reply == NO_ANSWER {
                1int
            } else {
                0
            }),
            final(self).bad == old(self).bad + (if reply != NO_ANSWER && reply != core1_answer(
                old(self).sent,
            ) {
                1int
            } else {
                0
            }),
    {
        if reply == NO_ANSWER {
            self.timeouts = self.timeouts + 1;
        } else if reply != answer_for(self.sent) {
            self.bad = self.bad + 1;
        }
        self.sent = self.sent + 1;
    }
}

/// Thousandths to whole: `1000 * n`, modulo 2^32, over `ms`; 0 when no time
/// passed.
pub open spec fn exchanges_per_second(n: u32, ms: u32) -> nat {
    if ms == 0 {
        0
    } else {
        ((1000 * n) % 0x1_0000_0000 / ms as int) as nat
    }
}

/// The report of a mailbox stress run.
pub open spec fn stress_text(count: u32, ms: u32, bad: u32, timeouts: u32) -> Seq<u8> {
    text::lit("stress: ") + text::decimal(count as nat) + text::lit(" exchanges in ")
        + text::decimal(ms as nat) + text::lit(" ms (") + text::decimal(
        exchanges_per_second(count, ms),
    ) + text::lit(" exch/s), bad=") + text::decimal(bad as nat) + text::lit(" timeouts=")
        + text::decimal(timeouts as nat) + (if bad == 0 && timeouts == 0 {
        text::lit(" -- PASS\r\n")
    } else {
        text::lit(" -- FAIL\r\n")
    })
}

/// The report of a mailbox stress run.
pub fn core1_stress(count: u32, ms: u32, bad: u32, timeouts: u32) -> (v: Vec<u8>)
    ensures
        v@ == stress_text(count, ms, bad, timeouts),
{
    let rate: u32 = if ms == 0 {
        0
    } else {
        ((((count as u64) * 1000) % 0x1_0000_0000) / (ms as u64)) as u32
    };
    let mut v: Vec<u8> = Vec::new();
    append_str(&mut v, "stress: ");
    append_u32(&mut v, count);
    append_str(&mut v, " exchanges in ");
    append_u32(&mut v, ms);
    append_str(&mut v, " ms (");
    append_u32(&mut v, rate);
    append_str(&mut v, " exch/s), bad=");
    append_u32(&mut v, bad);
    append_str(&mut v, " timeouts=");
    append_u32(&mut v, timeouts);
    if bad == 0 && timeouts == 0 {
        append_str(&mut v, " -- PASS\r\n");
    } else {
        append_str(&mut v, " -- FAIL\r\n");
    }
    assert(v@ =~= stress_text(count, ms, bad, timeouts));
    v
}

/// `n` a millisecond, told per second; 0 when no time passed.
pub open spec fn rate(n: nat, ms: u32) -> nat {
    if ms == 0 {
        0
    } else {
        1000 * n / (ms as nat)
    }
}

/// The report of a mailbox speed run.
pub open spec fn speed_text(n: u32, ms: u32) -> Seq<u8> {
    let r = rate(n as nat, ms);
    text::lit("core1 speed: ") + text::decimal(n as nat) + text::lit(" round-trips in ")
        + text::decimal(ms as nat) + text::lit(" ms = ") + text::decimal(r) + text::lit(
        " exch/s, ",
    ) + text::decimal(8 * r / 1024) + text::lit(" KB/s (8 B/exchange on the FIFO)\r\n")
}

/// The report of a mailbox speed run.
pub fn core1_speed(n: u32, ms: u32) -> (v: Vec<u8>)
    ensures
        v@ == speed_text(n, ms),
{
    let r: u64 = if ms == 0 {
        0
    } else {
        (n as u64) * 1000 / (ms as u64)
    };
    assert(r <= 1000 * u32::MAX) by {
        if ms > 0 {
            assert((1000 * n) / (ms as int) <= 1000 * n) by (nonlinear_arith)
                requires
                    ms > 0,
            ;
        }
    }
    let mut v: Vec<u8> = Vec::new();
    append_str(&mut v, "core1 speed: ");
    append_u32(&mut v, n);
    append_str(&mut v, " round-trips in ");
    append_u32(&mut v, ms);
    append_str(&mut v, " ms = ");
    append_u64(&mut v, r);
    append_str(&mut v, " exch/s, ");
    append_u64(&mut v, 8 * r / 1024);
    append_str(&mut v, " KB/s (8 B/exchange on the FIFO)\r\n");
    assert(v@ =~= speed_text(n, ms));
    v
}

/// KiB per second when `bytes` (the thousandfold taken modulo 2^64) moved in
/// `ms`; 0 when no time passed.
pub open spec fn kib_per_second(bytes: nat, ms: u32) -> nat {
    if ms == 0 {
        0
    } else {
        (1000 * bytes) % 0x1_0000_0000_0000_0000 / (ms as nat) / 1024
    }
}

fn kib_rate(bytes: u64, ms: u32) -> (r: u64)
    ensures
        r == kib_per_second(bytes as nat, ms),
{
    if ms == 0 {
        0
    } else {
        let all: u128 = (bytes as u128) * 1000;
        let low: u64 = (all % 0x1_0000_0000_0000_0000) as u64;
        low / (ms as u64) / 1024
    }
}

/// The report of a bulk transfer.
pub open spec fn bulk_text(len: u32, iters: u32, ms: u32) -> Seq<u8> {
    text::lit("core1 bulk: ") + text::decimal(iters as nat) + text::lit(" x ") + text::decimal(
        len as nat,
    ) + text::lit(" B in ") + text::decimal(ms as nat) + text::lit(" ms = ") + text::decimal(
        kib_per_second((len * iters) as nat, ms),
    ) + text::lit(" KB/s one-way (core0->shared SRAM->core1)\r\n")
}

/// The report of a bulk transfer.
pub fn core1_bulk(len: u32, iters: u32, ms: u32) -> (v: Vec<u8>)
    ensures
        v@ == bulk_text(len, iters, ms),
{
    assert(len * iters <= 0xFFFF_FFFE_0000_0001) by (nonlinear_arith)
        requires
            len <= 0xFFFF_FFFF,
            iters <= 0xFFFF_FFFF,
    ;
    let bytes: u64 = (len as u64) * (iters as u64);
    let r: u64 = kib_rate(bytes, ms);
    let mut v: Vec<u8> = Vec::new();
    append_str(&mut v, "core1 bulk: ");
    append_u32(&mut v, iters);
    append_str(&mut v, " x ");
    append_u32(&mut v, len);
    append_str(&mut v, " B in ");
    append_u32(&mut v, ms);
    append_str(&mut v, " ms = ");
    append_u64(&mut v, r);
    append_str(&mut v, " KB/s one-way (core0->shared SRAM->core1)\r\n");
    assert(v@ =~= bulk_text(len, iters, ms));
    v
}

/// The report of a pipelined transfer.
pub open spec fn pipe_text(iters: u32, ms: u32) -> Seq<u8> {
    text::lit("core1 pipe: ") + text::decimal(iters as nat) + text::lit(" x 2048 B in ")
        + text::decimal(ms as nat) + text::lit(" ms = ") + text::decimal(
        kib_per_second((2048 * iters) as nat, ms),
    ) + text::lit(" KB/s one-way (pipelined, 2 SRAM banks)\r\n")
}

/// The report of a pipelined transfer.
pub fn core1_pipe(iters: u32, ms: u32) -> (v: Vec<u8>)
    ensures
        v@ == pipe_text(iters, ms),
{
    let r: u64 = kib_rate(2048 * (iters as u64), ms);
    let mut v: Vec<u8> = Vec::new();
    append_str(&mut v, "core1 pipe: ");
    append_u32(&mut v, iters);
    append_str(&mut v, " x 2048 B in ");
    append_u32(&mut v, ms);
    append_str(&mut v, " ms = ");
    append_u64(&mut v, r);
    append_str(&mut v, " KB/s one-way (pipelined, 2 SRAM banks)\r\n");
    assert(v@ =~= pipe_text(iters, ms));
    v
}

/// The reply to a frame sent.
pub open spec fn slink_sent_text(b0: u8, b1: u8, b2: u8, n: u8) -> Seq<u8> {
    text::lit("sent ") + text::decimal(n as nat) + text::lit(" bytes: ") + text::hex2(b0)
        + text::lit(" ") + text::hex2(b1) + (if n == 3 {
        text::lit(" ") + text::hex2(b2)
    } else {
        Seq::empty()
    }) + text::lit("\r\n")
}

/// The reply to a frame sent.
pub fn slink_sent(b0: u8, b1: u8, b2: u8, n: u8) -> (v: Vec<u8>)
    ensures
        v@ == slink_sent_text(b0, b1, b2, n),
{
    let mut v: Vec<u8> = Vec::new();
    append_str(&mut v, "sent ");
    append_u32(&mut v, n as u32);
    append_str(&mut v, " bytes: ");
    append_hex_byte(&mut v, b0);
    append_str(&mut v, " ");
    append_hex_byte(&mut v, b1);
    if n == 3 {
        append_str(&mut v, " ");
        append_hex_byte(&mut v, b2);
    }
    append_str(&mut v, "\r\n");
    assert(v@ =~= slink_sent_text(b0, b1, b2, n));
    v
}

/// What was heard: the byte count in the top byte, then the bytes.
pub open spec fn slink_heard_text(r: u32) -> Seq<u8> {
    let n = r / 0x100_0000;
    if n == 0 {
        text::lit("no frame (timeout)\r\n")
    } else {
        text::lit("rx ") + text::decimal(n as nat) + text::lit(" bytes: ") + text::hex2(
            (r / 0x1_0000 % 256) as u8,
        ) + text::lit(" ") + text::hex2((r / 256 % 256) as u8) + (if n == 3 {
            text::lit(" ") + text::hex2((r % 256) as u8)
        } else {
            Seq::empty()
        }) + text::lit("\r\n")
    }
}

/// What was heard.
pub fn slink_heard(r: u32) -> (v: Vec<u8>)
    ensures
        v@ == slink_heard_text(r),
{
    let n: u32 = r / 0x100_0000;
    let mut v: Vec<u8> = Vec::new();
    if n == 0 {
        append_str(&mut v, "no frame (timeout)\r\n");
    } else {
        append_str(&mut v, "rx ");
        append_u32(&mut v, n);
        append_str(&mut v, " bytes: ");
        append_hex_byte(&mut v, (r / 0x1_0000 % 256) as u8);
        append_str(&mut v, " ");
        append_hex_byte(&mut v, (r / 256 % 256) as u8);
        if n == 3 {
            append_str(&mut v, " ");
            append_hex_byte(&mut v, (r % 256) as u8);
        }
        append_str(&mut v, "\r\n");
    }
    assert(v@ =~= slink_heard_text(r));
    v
}

/// The bus is being listened to.
pub open spec fn slink_listening_text(ms: u32) -> Seq<u8> {
    text::lit("listening ") + text::decimal(ms as nat) + text::lit(" ms...\r\n")
}

/// The bus is being listened to.
pub fn slink_listening(ms: u32) -> (v: Vec<u8>)
    ensures
        v@ == slink_listening_text(ms),
{
    let mut v: Vec<u8> = Vec::new();
    append_str(&mut v, "listening ");
    append_u32(&mut v, ms);
    append_str(&mut v, " ms...\r\n");
    assert(v@ =~= slink_listening_text(ms));
    v
}

/// A flood begins.
pub open spec fn slink_flooding_text(n: u32) -> Seq<u8> {
    text::lit("flooding ") + text::decimal(n as nat) + text::lit(" frames...\r\n")
}

/// A flood begins.
pub fn slink_flooding(n: u32) -> (v: Vec<u8>)
    ensures
        v@ == slink_flooding_text(n),
{
    let mut v: Vec<u8> = Vec::new();
    append_str(&mut v, "flooding ");
    append_u32(&mut v, n);
    append_str(&mut v, " frames...\r\n");
    assert(v@ =~= slink_flooding_text(n));
    v
}

/// A flood is over.
pub open spec fn slink_flooded_text(n: u32) -> Seq<u8> {
    text::lit("flood done (") + text::decimal(n as nat) + text::lit(" frames sent)\r\n")
}

/// A flood is over.
pub fn slink_flooded(n: u32) -> (v: Vec<u8>)
    ensures
        v@ == slink_flooded_text(n),
{
    let mut v: Vec<u8> = Vec::new();
    append_str(&mut v, "flood done (");
    append_u32(&mut v, n);
    append_str(&mut v, " frames sent)\r\n");
    assert(v@ =~= slink_flooded_text(n));
    v
}

/// A soak begins.
pub open spec fn slink_soaking_text(n: u32) -> Seq<u8> {
    text::lit("soaking up to ") + text::decimal(n as nat) + text::lit(" frames...\r\n")
}

/// A soak begins.
pub fn slink_soaking(n: u32) -> (v: Vec<u8>)
    ensures
        v@ == slink_soaking_text(n),
{
    let mut v: Vec<u8> = Vec::new();
    append_str(&mut v, "soaking up to ");
    append_u32(&mut v, n);
    append_str(&mut v, " frames...\r\n");
    assert(v@ =~= slink_soaking_text(n));
    v
}

/// A soak is over: good and bad frames, and the mark widths seen.
pub open spec fn slink_soaked_text(r: u32, ones: u32, zeros: u32) -> Seq<u8> {
    text::lit("soak: good=") + text::decimal((r % 0x1_0000) as nat) + text::lit(" bad=")
        + text::decimal((r / 0x1_0000) as nat) + text::lit(" (")
        + (if r / 0x1_0000 == 0 && r % 0x1_0000 > 0 {
            text::lit("PASS")
        } else {
            text::lit("CHECK")
        })
        + text::lit(")\r\n  mark width us: ones ") + text::decimal((ones / 0x1_0000) as nat)
        + text::lit("-") + text::decimal((ones % 0x1_0000) as nat)
        + text::lit(" (nom 1200), zeros ") + text::decimal((zeros / 0x1_0000) as nat)
        + text::lit("-") + text::decimal((zeros % 0x1_0000) as nat)
        + text::lit(" (nom 600)\r\n")
}

/// A soak is over: good and bad frames, and the mark widths seen.
pub fn slink_soaked(r: u32, ones: u32, zeros: u32) -> (v: Vec<u8>)
    ensures
        v@ == slink_soaked_text(r, ones, zeros),
{
    let mut v: Vec<u8> = Vec::new();
    append_str(&mut v, "soak: good=");
    append_u32(&mut v, r % 0x1_0000);
    append_str(&mut v, " bad=");
    append_u32(&mut v, r / 0x1_0000);
    append_str(&mut v, " (");
    if r / 0x1_0000 == 0 && r % 0x1_0000 > 0 {
        append_str(&mut v, "PASS");
    } else {
        append_str(&mut v, "CHECK");
    }
    append_str(&mut v, ")\r\n  mark width us: ones ");
    append_u32(&mut v, ones / 0x1_0000);
    append_str(&mut v, "-");
    append_u32(&mut v, ones % 0x1_0000);
    append_str(&mut v, " (nom 1200), zeros ");
    append_u32(&mut v, zeros / 0x1_0000);
    append_str(&mut v, "-");
    append_u32(&mut v, zeros % 0x1_0000);
    append_str(&mut v, " (nom 600)\r\n");
    assert(v@ =~= slink_soaked_text(r, ones, zeros));
    v
}

/// The card is initialized.
pub open spec fn sd_ready_text(v2: bool, ccs: bool) -> Seq<u8> {
    text::lit("init ok: ")
        + (if v2 {
            text::lit("SDv2 ")
        } else {
            text::lit("SDv1 ")
        })
        + (if ccs {
            text::lit("SDHC/block-addressed\r\n")
        } else {
            text::lit("SDSC/byte-addressed\r\n")
        })
}

/// The card is initialized.
pub fn sd_ready(v2: bool, ccs: bool) -> (v: Vec<u8>)
    ensures
        v@ == sd_ready_text(v2, ccs),
{
    let mut v: Vec<u8> = Vec::new();
    append_str(&mut v, "init ok: ");
    if v2 {
        append_str(&mut v, "SDv2 ");
    } else {
        append_str(&mut v, "SDv1 ");
    }
    if ccs {
        append_str(&mut v, "SDHC/block-addressed\r\n");
    } else {
        append_str(&mut v, "SDSC/byte-addressed\r\n");
    }
    assert(v@ =~= sd_ready_text(v2, ccs));
    v
}

/// A card operation failed with this code.
pub open spec fn sd_failed_text(what: &str, code: u32) -> Seq<u8> {
    text::lit(what) + text::decimal(code as nat) + text::lit("\r\n")
}

/// A card operation failed with this code.
pub fn sd_failed(what: &str, code: u32) -> (v: Vec<u8>)
    ensures
        v@ == sd_failed_text(what, code),
{
    let mut v: Vec<u8> = Vec::new();
    append_str(&mut v, what);
    append_u32(&mut v, code);
    append_str(&mut v, "\r\n");
    assert(v@ =~= sd_failed_text(what, code));
    v
}

/// The reply to `sd init`: the card's status, or an error.
pub fn sd_init_reply(r: Result<u32, SdError>) -> (v: Vec<u8>)
    ensures
        v@ == match r {
            Ok(status) => sd_ready_text(
                status / 2 % 2 == 1,
                status % 2 == 1,
            ),
            Err(e) => sd_failed_text("init error ", e.number()),
        },
{
    match r {
        Ok(status) => sd_ready(status / 2 % 2 == 1, status % 2 == 1),
        Err(e) => sd_failed("init error ", e.code()),
    }
}

/// The reply to `sd read`: a dump of the block, or an error.
pub fn sd_read_reply(r: Result<&[u8], SdError>) -> (v: Vec<u8>)
    requires
        r matches Ok(s) ==> s@.len() <= 512,
    ensures
        v@ == match r {
            Ok(s) => dump_from(0, s@, 0),
            Err(e) => sd_failed_text("read error ", e.number()),
        },
{
    match r {
        Ok(s) => hexdump(0, s),
        Err(e) => sd_failed("read error ", e.code()),
    }
}

/// The reply to `flash read`: a dump of the bytes, or an error.
pub fn flash_read_reply(off: u32, r: Option<&[u8]>) -> (v: Vec<u8>)
    requires
        r matches Some(s) ==> off + s@.len() <= 0x1_0000_0000,
    ensures
        v@ == match r {
            Some(s) => dump_from(off, s@, 0),
            None => text::lit("error (bad address)\r\n"),
        },
{
    match r {
        Some(s) => hexdump(off, s),
        None => either(false, "", "error (bad address)\r\n"),
    }
}

/// Where the run of printable bytes that ends before `j` begins.
pub open spec fn run_start(s: Seq<u8>, j: int) -> int
    decreases j,
{
    if 0 < j <= s.len() && text::printable(s[j - 1]) {
        run_start(s, j - 1)
    } else {
        j
    }
}

/// Whether a run of at least four printable bytes ends before `j`.
pub open spec fn run_ends(s: Seq<u8>, j: int) -> bool {
    &&& 0 <= j <= s.len()
    &&& j == s.len() || !text::printable(s[j])
    &&& j - run_start(s, j) >= 4
}

/// The line for the run that ends before `j`.
pub open spec fn run_line(block: u32, s: Seq<u8>, j: int) -> Seq<u8> {
    let a = run_start(s, j);
    text::decimal(block as nat) + text::lit("+") + text::decimal(a as nat) + text::lit(": ")
        + s.subrange(a, j) + text::lit("\r\n")
}

/// The runs that end before `j` at the latest, in order.
pub open spec fn runs_text(block: u32, s: Seq<u8>, j: int) -> Seq<u8>
    decreases j + 1,
{
    if j < 0 {
        Seq::empty()
    } else {
        runs_text(block, s, j - 1) + (if run_ends(s, j) {
            run_line(block, s, j)
        } else {
            Seq::empty()
        })
    }
}

/// How many runs end before `j` at the latest.
pub open spec fn runs_count(s: Seq<u8>, j: int) -> nat
    decreases j + 1,
{
    if j < 0 {
        0
    } else {
        runs_count(s, j - 1) + (if run_ends(s, j) {
            1nat
        } else {
            0
        })
    }
}

proof fn run_start_bounds(s: Seq<u8>, j: int)
    requires
        0 <= j <= s.len(),
    ensures
        0 <= run_start(s, j) <= j,
    decreases j,
{
    if 0 < j && text::printable(s[j - 1]) {
        run_start_bounds(s, j - 1);
    }
}

/// At most one run ends at each place.
pub proof fn runs_are_few(s: Seq<u8>, j: int)
    requires
        -1 <= j,
    ensures
        runs_count(s, j) <= j + 1,
    decreases j + 1,
{
    if j >= 0 {
        runs_are_few(s, j - 1);
    }
}

/// Find the runs of four or more printable bytes in a block: their lines and
/// their number.
pub fn find_runs(block: u32, s: &[u8]) -> (r: (Vec<u8>, u32))
    requires
        s@.len() <= 512,
    ensures
        r.0@ == runs_text(block, s@, s@.len() as int),
        r.1 == runs_count(s@, s@.len() as int),
        r.1 <= s@.len() + 1,
{
    let mut v: Vec<u8> = Vec::new();
    let mut hits: u32 = 0;
    let mut run: usize = 0;
    let mut j: usize = 0;
    while j <= s.len()
        invariant
            j <= s@.len() + 1,
            s@.len() <= 512,
            j <= s@.len() ==> run <= j && run == j - run_start(s@, j as int),
            v@ == runs_text(block, s@, j - 1),
            hits == runs_count(s@, j - 1),
            hits <= j,
        decreases s@.len() + 1 - j,
    {
        let ghost before = v@;
        proof {
            run_start_bounds(s@, j as int);
        }
        if j < s.len() && is_printable(s[j]) {
            run = run + 1;
            assert(v@ =~= before + Seq::<u8>::empty());
        } else {
            if run >= 4 {
                let a: usize = j - run;
                append_u32(&mut v, block);
                append_str(&mut v, "+");
                append_u64(&mut v, a as u64);
                append_str(&mut v, ": ");
                append(&mut v, slice_subrange(s, a, j));
                append_str(&mut v, "\r\n");
                hits = hits + 1;
                assert(v@ =~= before + run_line(block, s@, j as int));
            } else {
                assert(v@ =~= before + Seq::<u8>::empty());
            }
            run = 0;
        }
        j = j + 1;
    }
    (v, hits)
}

/// A block could not be read.
pub open spec fn find_error_text(block: u32) -> Seq<u8> {
    text::lit("read error at block ") + text::decimal(block as nat) + text::lit("\r\n")
}

/// A block could not be read.
pub fn find_error(block: u32) -> (v: Vec<u8>)
    ensures
        v@ == find_error_text(block),
{
    let mut v: Vec<u8> = Vec::new();
    append_str(&mut v, "read error at block ");
    append_u32(&mut v, block);
    append_str(&mut v, "\r\n");
    assert(v@ =~= find_error_text(block));
    v
}

/// A search is over.
pub open spec fn find_done_text(hits: u64) -> Seq<u8> {
    text::lit("done, ") + text::decimal(hits as nat) + text::lit(" run(s)\r\n")
}

/// A search is over.
pub fn find_done(hits: u64) -> (v: Vec<u8>)
    ensures
        v@ == find_done_text(hits),
{
    let mut v: Vec<u8> = Vec::new();
    append_str(&mut v, "done, ");
    append_u64(&mut v, hits);
    append_str(&mut v, " run(s)\r\n");
    assert(v@ =~= find_done_text(hits));
    v
}

/// The time that the clock tells.
pub open spec fn rtc_time_text(packed: u64) -> Seq<u8> {
    text::lit("20") + text::pad2((packed / 0x1_0000_0000_0000 % 256) as u8) + text::lit("-")
        + text::pad2((packed / 0x1_0000_0000 % 256) as u8) + text::lit("-")
        + text::pad2((packed / 0x100_0000 % 256) as u8) + text::lit(" ")
        + text::pad2((packed / 0x1_0000 % 256) as u8) + text::lit(":")
        + text::pad2((packed / 0x100 % 256) as u8) + text::lit(":")
        + text::pad2((packed % 256) as u8) + text::lit("\r\n")
}

/// The time that the clock tells.
pub fn rtc_time(packed: u64) -> (v: Vec<u8>)
    ensures
        v@ == rtc_time_text(packed),
{
    let mut v: Vec<u8> = Vec::new();
    append_str(&mut v, "20");
    append_pad2(&mut v, (packed / 0x1_0000_0000_0000 % 256) as u8);
    append_str(&mut v, "-");
    append_pad2(&mut v, (packed / 0x1_0000_0000 % 256) as u8);
    append_str(&mut v, "-");
    append_pad2(&mut v, (packed / 0x100_0000 % 256) as u8);
    append_str(&mut v, " ");
    append_pad2(&mut v, (packed / 0x1_0000 % 256) as u8);
    append_str(&mut v, ":");
    append_pad2(&mut v, (packed / 0x100 % 256) as u8);
    append_str(&mut v, ":");
    append_pad2(&mut v, (packed % 256) as u8);
    append_str(&mut v, "\r\n");
    assert(v@ =~= rtc_time_text(packed));
    v
}

/// The reply to a reboot request.
pub open spec fn reboot_text(rc: u32, bootsel: u8) -> Seq<u8> {
    if rc == 0 {
        if bootsel != 0 {
            text::lit("rebooting to BOOTSEL...\r\n")
        } else {
            text::lit("rebooting...\r\n")
        }
    } else {
        text::lit("reboot failed, rc=") + text::hex8(rc) + text::lit("\r\n")
    }
}

/// The reply to a reboot request.
pub fn reboot(rc: u32, bootsel: u8) -> (v: Vec<u8>)
    ensures
        v@ == reboot_text(rc, bootsel),
{
    let mut v: Vec<u8> = Vec::new();
    if rc == 0 {
        if bootsel != 0 {
            append_str(&mut v, "rebooting to BOOTSEL...\r\n");
        } else {
            append_str(&mut v, "rebooting...\r\n");
        }
    } else {
        append_str(&mut v, "reboot failed, rc=");
        append_hex32(&mut v, rc);
        append_str(&mut v, "\r\n");
    }
    assert(v@ =~= reboot_text(rc, bootsel));
    v
}

/// The line of the demo task: its count, how many bytes its serial port
/// echoed, and whether its SPI block echoed what it sent.
pub open spec fn tick_line_text(n: u32, rx: u32, spi_ok: bool) -> Seq<u8> {
    text::lit("tick ") + text::decimal(n as nat) + text::lit(" uart_rx=") + text::decimal(rx as nat)
        + (if spi_ok {
        text::lit(" spi=OK")
    } else {
        text::lit(" spi=BAD")
    }) + text::lit("\r\n")
}

/// The line of the demo task.
pub fn tick_line(n: u32, rx: u32, spi_ok: bool) -> (v: Vec<u8>)
    ensures
        v@ == tick_line_text(n, rx, spi_ok),
{
    let mut v: Vec<u8> = Vec::new();
    append_str(&mut v, "tick ");
    append_u32(&mut v, n);
    append_str(&mut v, " uart_rx=");
    append_u32(&mut v, rx);
    if spi_ok {
        append_str(&mut v, " spi=OK");
    } else {
        append_str(&mut v, " spi=BAD");
    }
    append_str(&mut v, "\r\n");
    assert(v@ =~= tick_line_text(n, rx, spi_ok));
    v
}

proof fn uptime_words()
    ensures
        text::words_only(text::lit("uptime ")),
{
    reveal_strlit("uptime ");
    vstd::utf8::is_ascii_chars_encode_utf8("uptime "@);
    assert(text::lit("uptime ") =~= [117u8, 112, 116, 105, 109, 101, 32]@);
}

proof fn ms_end()
    ensures
        text::lit(" ms\r\n").len() > 0,
        !text::digit(text::lit(" ms\r\n")[0]),
{
    reveal_strlit(" ms\r\n");
    vstd::utf8::is_ascii_chars_encode_utf8(" ms\r\n"@);
}

proof fn sent_words()
    ensures
        text::words_only(text::lit("sent ")),
{
    reveal_strlit("sent ");
    vstd::utf8::is_ascii_chars_encode_utf8("sent "@);
    assert(text::lit("sent ") =~= [115u8, 101, 110, 116, 32]@);
}

proof fn bytes_end()
    ensures
        text::lit(" bytes\r\n").len() > 0,
        !text::digit(text::lit(" bytes\r\n")[0]),
{
    reveal_strlit(" bytes\r\n");
    vstd::utf8::is_ascii_chars_encode_utf8(" bytes\r\n"@);
}

proof fn loaded_words()
    ensures
        text::words_only(text::lit("loaded ")),
{
    reveal_strlit("loaded ");
    vstd::utf8::is_ascii_chars_encode_utf8("loaded "@);
    assert(text::lit("loaded ") =~= [108u8, 111, 97, 100, 101, 100, 32]@);
}

proof fn bytes_into_tx_fifo_end()
    ensures
        text::lit(" bytes into TX FIFO\r\n").len() > 0,
        !text::digit(text::lit(" bytes into TX FIFO\r\n")[0]),
{
    reveal_strlit(" bytes into TX FIFO\r\n");
    vstd::utf8::is_ascii_chars_encode_utf8(" bytes into TX FIFO\r\n"@);
}

proof fn i2c_speed_set_to_words()
    ensures
        text::words_only(text::lit("i2c speed set to ")),
{
    reveal_strlit("i2c speed set to ");
    vstd::utf8::is_ascii_chars_encode_utf8("i2c speed set to "@);
    assert(text::lit("i2c speed set to ") =~= [105u8, 50, 99, 32, 115, 112, 101, 101, 100, 32, 115, 101, 116, 32, 116, 111, 32]@);
}

proof fn khz_end()
    ensures
        text::lit(" kHz\r\n").len() > 0,
        !text::digit(text::lit(" kHz\r\n")[0]),
{
    reveal_strlit(" kHz\r\n");
    vstd::utf8::is_ascii_chars_encode_utf8(" kHz\r\n"@);
}

proof fn bytes_in_words()
    ensures
        text::words_only(text::lit(" bytes in ")),
{
    reveal_strlit(" bytes in ");
    vstd::utf8::is_ascii_chars_encode_utf8(" bytes in "@);
    assert(text::lit(" bytes in ") =~= [32u8, 98, 121, 116, 101, 115, 32, 105, 110, 32]@);
}

proof fn ms_words()
    ensures
        text::words_only(text::lit(" ms = ")),
{
    reveal_strlit(" ms = ");
    vstd::utf8::is_ascii_chars_encode_utf8(" ms = "@);
    assert(text::lit(" ms = ") =~= [32u8, 109, 115, 32, 61, 32]@);
}

proof fn b_s_words()
    ensures
        text::words_only(text::lit(" B/s (")),
{
    reveal_strlit(" B/s (");
    vstd::utf8::is_ascii_chars_encode_utf8(" B/s ("@);
    assert(text::lit(" B/s (") =~= [32u8, 66, 47, 115, 32, 40]@);
}

proof fn of_words()
    ensures
        text::words_only(text::lit("% of ")),
{
    reveal_strlit("% of ");
    vstd::utf8::is_ascii_chars_encode_utf8("% of "@);
    assert(text::lit("% of ") =~= [37u8, 32, 111, 102, 32]@);
}

proof fn theoretical_end()
    ensures
        text::lit(" theoretical)\r\n").len() > 0,
        !text::digit(text::lit(" theoretical)\r\n")[0]),
{
    reveal_strlit(" theoretical)\r\n");
    vstd::utf8::is_ascii_chars_encode_utf8(" theoretical)\r\n"@);
}

proof fn adc_words()
    ensures
        text::words_only(text::lit("adc[")),
{
    reveal_strlit("adc[");
    vstd::utf8::is_ascii_chars_encode_utf8("adc["@);
    assert(text::lit("adc[") =~= [97u8, 100, 99, 91]@);
}

proof fn bracket_words()
    ensures
        text::words_only(text::lit("] = ")),
{
    reveal_strlit("] = ");
    vstd::utf8::is_ascii_chars_encode_utf8("] = "@);
    assert(text::lit("] = ") =~= [93u8, 32, 61, 32]@);
}

proof fn line_end()
    ensures
        text::lit("\r\n").len() > 0,
        !text::digit(text::lit("\r\n")[0]),
{
    reveal_strlit("\r\n");
    vstd::utf8::is_ascii_chars_encode_utf8("\r\n"@);
}

proof fn found_words()
    ensures
        text::words_only(text::lit("found ")),
{
    reveal_strlit("found ");
    vstd::utf8::is_ascii_chars_encode_utf8("found "@);
    assert(text::lit("found ") =~= [102u8, 111, 117, 110, 100, 32]@);
}

proof fn ap_result_frames_end()
    ensures
        text::lit(" AP result frames\r\n").len() > 0,
        !text::digit(text::lit(" AP result frames\r\n")[0]),
{
    reveal_strlit(" AP result frames\r\n");
    vstd::utf8::is_ascii_chars_encode_utf8(" AP result frames\r\n"@);
}

proof fn ap_up_bss_status_words()
    ensures
        text::words_only(text::lit("ap up, bss status = ")),
{
    reveal_strlit("ap up, bss status = ");
    vstd::utf8::is_ascii_chars_encode_utf8("ap up, bss status = "@);
    assert(text::lit("ap up, bss status = ") =~= [97u8, 112, 32, 117, 112, 44, 32, 98, 115, 115, 32, 115, 116, 97, 116, 117, 115, 32, 61, 32]@);
}

proof fn stress_words()
    ensures
        text::words_only(text::lit("stress: ")),
{
    reveal_strlit("stress: ");
    vstd::utf8::is_ascii_chars_encode_utf8("stress: "@);
    assert(text::lit("stress: ") =~= [115u8, 116, 114, 101, 115, 115, 58, 32]@);
}

proof fn exchanges_in_words()
    ensures
        text::words_only(text::lit(" exchanges in ")),
{
    reveal_strlit(" exchanges in ");
    vstd::utf8::is_ascii_chars_encode_utf8(" exchanges in "@);
    assert(text::lit(" exchanges in ") =~= [32u8, 101, 120, 99, 104, 97, 110, 103, 101, 115, 32, 105, 110, 32]@);
}

proof fn the_ms_words()
    ensures
        text::words_only(text::lit(" ms (")),
{
    reveal_strlit(" ms (");
    vstd::utf8::is_ascii_chars_encode_utf8(" ms ("@);
    assert(text::lit(" ms (") =~= [32u8, 109, 115, 32, 40]@);
}

proof fn exch_s_bad_words()
    ensures
        text::words_only(text::lit(" exch/s), bad=")),
{
    reveal_strlit(" exch/s), bad=");
    vstd::utf8::is_ascii_chars_encode_utf8(" exch/s), bad="@);
    assert(text::lit(" exch/s), bad=") =~= [32u8, 101, 120, 99, 104, 47, 115, 41, 44, 32, 98, 97, 100, 61]@);
}

proof fn timeouts_words()
    ensures
        text::words_only(text::lit(" timeouts=")),
{
    reveal_strlit(" timeouts=");
    vstd::utf8::is_ascii_chars_encode_utf8(" timeouts="@);
    assert(text::lit(" timeouts=") =~= [32u8, 116, 105, 109, 101, 111, 117, 116, 115, 61]@);
}

proof fn pass_end()
    ensures
        text::lit(" -- PASS\r\n").len() > 0,
        !text::digit(text::lit(" -- PASS\r\n")[0]),
{
    reveal_strlit(" -- PASS\r\n");
    vstd::utf8::is_ascii_chars_encode_utf8(" -- PASS\r\n"@);
}

proof fn fail_end()
    ensures
        text::lit(" -- FAIL\r\n").len() > 0,
        !text::digit(text::lit(" -- FAIL\r\n")[0]),
{
    reveal_strlit(" -- FAIL\r\n");
    vstd::utf8::is_ascii_chars_encode_utf8(" -- FAIL\r\n"@);
}

proof fn core1_speed_words()
    ensures
        text::words_only(text::lit("core1 speed: ")),
{
    reveal_strlit("core1 speed: ");
    vstd::utf8::is_ascii_chars_encode_utf8("core1 speed: "@);
    assert(text::lit("core1 speed: ") =~= [99u8, 111, 114, 101, 49, 32, 115, 112, 101, 101, 100, 58, 32]@);
}

proof fn round_trips_in_words()
    ensures
        text::words_only(text::lit(" round-trips in ")),
{
    reveal_strlit(" round-trips in ");
    vstd::utf8::is_ascii_chars_encode_utf8(" round-trips in "@);
    assert(text::lit(" round-trips in ") =~= [32u8, 114, 111, 117, 110, 100, 45, 116, 114, 105, 112, 115, 32, 105, 110, 32]@);
}

proof fn exch_s_words()
    ensures
        text::words_only(text::lit(" exch/s, ")),
{
    reveal_strlit(" exch/s, ");
    vstd::utf8::is_ascii_chars_encode_utf8(" exch/s, "@);
    assert(text::lit(" exch/s, ") =~= [32u8, 101, 120, 99, 104, 47, 115, 44, 32]@);
}

proof fn kb_s_8_b_exchange_on_the_fifo_end()
    ensures
        text::lit(" KB/s (8 B/exchange on the FIFO)\r\n").len() > 0,
        !text::digit(text::lit(" KB/s (8 B/exchange on the FIFO)\r\n")[0]),
{
    reveal_strlit(" KB/s (8 B/exchange on the FIFO)\r\n");
    vstd::utf8::is_ascii_chars_encode_utf8(" KB/s (8 B/exchange on the FIFO)\r\n"@);
}

proof fn core1_bulk_words()
    ensures
        text::words_only(text::lit("core1 bulk: ")),
{
    reveal_strlit("core1 bulk: ");
    vstd::utf8::is_ascii_chars_encode_utf8("core1 bulk: "@);
    assert(text::lit("core1 bulk: ") =~= [99u8, 111, 114, 101, 49, 32, 98, 117, 108, 107, 58, 32]@);
}

proof fn x_words()
    ensures
        text::words_only(text::lit(" x ")),
{
    reveal_strlit(" x ");
    vstd::utf8::is_ascii_chars_encode_utf8(" x "@);
    assert(text::lit(" x ") =~= [32u8, 120, 32]@);
}

proof fn b_in_words()
    ensures
        text::words_only(text::lit(" B in ")),
{
    reveal_strlit(" B in ");
    vstd::utf8::is_ascii_chars_encode_utf8(" B in "@);
    assert(text::lit(" B in ") =~= [32u8, 66, 32, 105, 110, 32]@);
}

proof fn kb_s_one_way_core0_shared_sram_c_end()
    ensures
        text::lit(" KB/s one-way (core0->shared SRAM->core1)\r\n").len() > 0,
        !text::digit(text::lit(" KB/s one-way (core0->shared SRAM->core1)\r\n")[0]),
{
    reveal_strlit(" KB/s one-way (core0->shared SRAM->core1)\r\n");
    vstd::utf8::is_ascii_chars_encode_utf8(" KB/s one-way (core0->shared SRAM->core1)\r\n"@);
}

proof fn listening_words()
    ensures
        text::words_only(text::lit("listening ")),
{
    reveal_strlit("listening ");
    vstd::utf8::is_ascii_chars_encode_utf8("listening "@);
    assert(text::lit("listening ") =~= [108u8, 105, 115, 116, 101, 110, 105, 110, 103, 32]@);
}

proof fn the_ms_end()
    ensures
        text::lit(" ms...\r\n").len() > 0,
        !text::digit(text::lit(" ms...\r\n")[0]),
{
    reveal_strlit(" ms...\r\n");
    vstd::utf8::is_ascii_chars_encode_utf8(" ms...\r\n"@);
}

proof fn flooding_words()
    ensures
        text::words_only(text::lit("flooding ")),
{
    reveal_strlit("flooding ");
    vstd::utf8::is_ascii_chars_encode_utf8("flooding "@);
    assert(text::lit("flooding ") =~= [102u8, 108, 111, 111, 100, 105, 110, 103, 32]@);
}

proof fn frames_end()
    ensures
        text::lit(" frames...\r\n").len() > 0,
        !text::digit(text::lit(" frames...\r\n")[0]),
{
    reveal_strlit(" frames...\r\n");
    vstd::utf8::is_ascii_chars_encode_utf8(" frames...\r\n"@);
}

proof fn flood_done_words()
    ensures
        text::words_only(text::lit("flood done (")),
{
    reveal_strlit("flood done (");
    vstd::utf8::is_ascii_chars_encode_utf8("flood done ("@);
    assert(text::lit("flood done (") =~= [102u8, 108, 111, 111, 100, 32, 100, 111, 110, 101, 32, 40]@);
}

proof fn frames_sent_end()
    ensures
        text::lit(" frames sent)\r\n").len() > 0,
        !text::digit(text::lit(" frames sent)\r\n")[0]),
{
    reveal_strlit(" frames sent)\r\n");
    vstd::utf8::is_ascii_chars_encode_utf8(" frames sent)\r\n"@);
}

proof fn soaking_up_to_words()
    ensures
        text::words_only(text::lit("soaking up to ")),
{
    reveal_strlit("soaking up to ");
    vstd::utf8::is_ascii_chars_encode_utf8("soaking up to "@);
    assert(text::lit("soaking up to ") =~= [115u8, 111, 97, 107, 105, 110, 103, 32, 117, 112, 32, 116, 111, 32]@);
}

proof fn read_error_at_block_words()
    ensures
        text::words_only(text::lit("read error at block ")),
{
    reveal_strlit("read error at block ");
    vstd::utf8::is_ascii_chars_encode_utf8("read error at block "@);
    assert(text::lit("read error at block ") =~= [114u8, 101, 97, 100, 32, 101, 114, 114, 111, 114, 32, 97, 116, 32, 98, 108, 111, 99, 107, 32]@);
}

proof fn done_words()
    ensures
        text::words_only(text::lit("done, ")),
{
    reveal_strlit("done, ");
    vstd::utf8::is_ascii_chars_encode_utf8("done, "@);
    assert(text::lit("done, ") =~= [100u8, 111, 110, 101, 44, 32]@);
}

proof fn run_s_end()
    ensures
        text::lit(" run(s)\r\n").len() > 0,
        !text::digit(text::lit(" run(s)\r\n")[0]),
{
    reveal_strlit(" run(s)\r\n");
    vstd::utf8::is_ascii_chars_encode_utf8(" run(s)\r\n"@);
}

proof fn tick_words()
    ensures
        text::words_only(text::lit("tick ")),
{
    reveal_strlit("tick ");
    vstd::utf8::is_ascii_chars_encode_utf8("tick "@);
    assert(text::lit("tick ") =~= [116u8, 105, 99, 107, 32]@);
}

proof fn uart_rx_words()
    ensures
        text::words_only(text::lit(" uart_rx=")),
{
    reveal_strlit(" uart_rx=");
    vstd::utf8::is_ascii_chars_encode_utf8(" uart_rx="@);
    assert(text::lit(" uart_rx=") =~= [32u8, 117, 97, 114, 116, 95, 114, 120, 61]@);
}

proof fn spi_ok_end()
    ensures
        text::lit(" spi=OK").len() > 0,
        !text::digit(text::lit(" spi=OK")[0]),
{
    reveal_strlit(" spi=OK");
    vstd::utf8::is_ascii_chars_encode_utf8(" spi=OK"@);
}

proof fn spi_bad_end()
    ensures
        text::lit(" spi=BAD").len() > 0,
        !text::digit(text::lit(" spi=BAD")[0]),
{
    reveal_strlit(" spi=BAD");
    vstd::utf8::is_ascii_chars_encode_utf8(" spi=BAD"@);
}

proof fn the_uart_rx_words()
    ensures
        text::words_only(text::lit("uart: rx=")),
{
    reveal_strlit("uart: rx=");
    vstd::utf8::is_ascii_chars_encode_utf8("uart: rx="@);
    assert(text::lit("uart: rx=") =~= [117u8, 97, 114, 116, 58, 32, 114, 120, 61]@);
}

proof fn loopback_ok_end()
    ensures
        text::lit(" (loopback OK)\r\n").len() > 0,
        !text::digit(text::lit(" (loopback OK)\r\n")[0]),
{
    reveal_strlit(" (loopback OK)\r\n");
    vstd::utf8::is_ascii_chars_encode_utf8(" (loopback OK)\r\n"@);
}

proof fn no_loopback_jumper_end()
    ensures
        text::lit(" (no loopback jumper?)\r\n").len() > 0,
        !text::digit(text::lit(" (no loopback jumper?)\r\n")[0]),
{
    reveal_strlit(" (no loopback jumper?)\r\n");
    vstd::utf8::is_ascii_chars_encode_utf8(" (no loopback jumper?)\r\n"@);
}

proof fn soak_good_words()
    ensures
        text::words_only(text::lit("soak: good=")),
{
    reveal_strlit("soak: good=");
    vstd::utf8::is_ascii_chars_encode_utf8("soak: good="@);
    assert(text::lit("soak: good=") =~= [115u8, 111, 97, 107, 58, 32, 103, 111, 111, 100, 61]@);
}

proof fn bad_words()
    ensures
        text::words_only(text::lit(" bad=")),
{
    reveal_strlit(" bad=");
    vstd::utf8::is_ascii_chars_encode_utf8(" bad="@);
    assert(text::lit(" bad=") =~= [32u8, 98, 97, 100, 61]@);
}

proof fn parenthesis_end()
    ensures
        text::lit(" (").len() > 0,
        !text::digit(text::lit(" (")[0]),
{
    reveal_strlit(" (");
    vstd::utf8::is_ascii_chars_encode_utf8(" ("@);
}

/// The uptime is said in milliseconds.
pub proof fn uptimes_say_their_number(now: u64)
    ensures
        text::numbers_in(ticks_text(now)).take(1) == seq![now as int],
{
    text::nothing_is_said();
    uptime_words();
    ms_end();
    let s0 = Seq::<u8>::empty();
    assert(s0 + text::lit("uptime ") =~= text::lit("uptime "));
    let s1 = text::lit("uptime ") + text::decimal(now as nat);
    text::words_then_a_number(s0, text::lit("uptime "), now as nat);
    let x = ticks_text(now);
    let end = x.skip(s1.len() as int);
    assert(x == s1 + text::lit(" ms\r\n"));
    assert(end =~= text::lit(" ms\r\n"));
    text::the_end_keeps_the_numbers(s1, end);
    assert(x =~= s1 + end);
    assert(text::numbers_in(s1) =~= seq![now as int]);
}

/// A sent text is counted with its line end.
pub proof fn sent_counts_are_said(len: usize)
    ensures
        text::numbers_in(uart_sent_text(len)).take(1) == seq![(len + 2) as int],
{
    text::nothing_is_said();
    sent_words();
    bytes_end();
    let s0 = Seq::<u8>::empty();
    assert(s0 + text::lit("sent ") =~= text::lit("sent "));
    let s1 = text::lit("sent ") + text::decimal((len + 2) as nat);
    text::words_then_a_number(s0, text::lit("sent "), (len + 2) as nat);
    let x = uart_sent_text(len);
    let end = x.skip(s1.len() as int);
    assert(x == s1 + text::lit(" bytes\r\n"));
    assert(end =~= text::lit(" bytes\r\n"));
    text::the_end_keeps_the_numbers(s1, end);
    assert(x =~= s1 + end);
    assert(text::numbers_in(s1) =~= seq![(len + 2) as int]);
}

/// The bytes that were staged are counted.
pub proof fn loaded_counts_are_said(k: u32)
    ensures
        text::numbers_in(spi_loaded_text(k)).take(1) == seq![k as int],
{
    text::nothing_is_said();
    loaded_words();
    bytes_into_tx_fifo_end();
    let s0 = Seq::<u8>::empty();
    assert(s0 + text::lit("loaded ") =~= text::lit("loaded "));
    let s1 = text::lit("loaded ") + text::decimal(k as nat);
    text::words_then_a_number(s0, text::lit("loaded "), k as nat);
    let x = spi_loaded_text(k);
    let end = x.skip(s1.len() as int);
    assert(x == s1 + text::lit(" bytes into TX FIFO\r\n"));
    assert(end =~= text::lit(" bytes into TX FIFO\r\n"));
    text::the_end_keeps_the_numbers(s1, end);
    assert(x =~= s1 + end);
    assert(text::numbers_in(s1) =~= seq![k as int]);
}

/// The bus speed is said as it was set.
pub proof fn bus_speeds_are_said(khz: u32)
    ensures
        text::numbers_in(i2c_speed_text(khz)).take(1) == seq![khz as int],
{
    text::nothing_is_said();
    i2c_speed_set_to_words();
    khz_end();
    let s0 = Seq::<u8>::empty();
    assert(s0 + text::lit("i2c speed set to ") =~= text::lit("i2c speed set to "));
    let s1 = text::lit("i2c speed set to ") + text::decimal(khz as nat);
    text::words_then_a_number(s0, text::lit("i2c speed set to "), khz as nat);
    let x = i2c_speed_text(khz);
    let end = x.skip(s1.len() as int);
    assert(x == s1 + text::lit(" kHz\r\n"));
    assert(end =~= text::lit(" kHz\r\n"));
    text::the_end_keeps_the_numbers(s1, end);
    assert(x =~= s1 + end);
    assert(text::numbers_in(s1) =~= seq![khz as int]);
}

/// A throughput report says the bytes, the time, the rate, its share and the
/// theoretical rate, in this order.
#[verifier::spinoff_prover]
#[verifier::rlimit(40)]
pub proof fn throughput_is_said(label: &str, bytes: u32, ms: u32, max_bps: u32)
    requires
        text::words_only(text::lit(label)),
    ensures
        text::numbers_in(bench_report_text(text::lit(label), bytes, ms, max_bps)).take(5) == seq![bytes as int, ms as int, bytes_per_second(bytes, ms) as int, percent_of(bytes_per_second(bytes, ms), max_bps) as int, max_bps as int],
{
    text::nothing_is_said();
    bytes_in_words();
    ms_words();
    b_s_words();
    of_words();
    theoretical_end();
    let s0 = Seq::<u8>::empty();
    assert(s0 + text::lit(label) =~= text::lit(label));
    let s1 = text::lit(label) + text::decimal(bytes as nat);
    text::words_then_a_number(s0, text::lit(label), bytes as nat);
    let s2 = s1 + text::lit(" bytes in ") + text::decimal(ms as nat);
    text::words_then_a_number(s1, text::lit(" bytes in "), ms as nat);
    let s3 = s2 + text::lit(" ms = ") + text::decimal(bytes_per_second(bytes, ms) as nat);
    text::words_then_a_number(s2, text::lit(" ms = "), bytes_per_second(bytes, ms) as nat);
    let s4 = s3 + text::lit(" B/s (") + text::decimal(percent_of(bytes_per_second(bytes, ms), max_bps) as nat);
    text::words_then_a_number(s3, text::lit(" B/s ("), percent_of(bytes_per_second(bytes, ms), max_bps) as nat);
    let s5 = s4 + text::lit("% of ") + text::decimal(max_bps as nat);
    text::words_then_a_number(s4, text::lit("% of "), max_bps as nat);
    let x = bench_report_text(text::lit(label), bytes, ms, max_bps);
    let end = x.skip(s5.len() as int);
    assert(x == s5 + text::lit(" theoretical)\r\n"));
    assert(end =~= text::lit(" theoretical)\r\n"));
    text::the_end_keeps_the_numbers(s5, end);
    assert(x =~= s5 + end);
    assert(text::numbers_in(s5) =~= seq![bytes as int, ms as int, bytes_per_second(bytes, ms) as int, percent_of(bytes_per_second(bytes, ms), max_bps) as int, max_bps as int]);
}

/// A reading is said with its channel in front.
pub proof fn readings_are_said(ch: u8, raw: u16)
    ensures
        text::numbers_in(adc_value_text(ch, raw)).take(2) == seq![ch as int, raw as int],
{
    text::nothing_is_said();
    adc_words();
    bracket_words();
    line_end();
    let s0 = Seq::<u8>::empty();
    assert(s0 + text::lit("adc[") =~= text::lit("adc["));
    let s1 = text::lit("adc[") + text::decimal(ch as nat);
    text::words_then_a_number(s0, text::lit("adc["), ch as nat);
    let s2 = s1 + text::lit("] = ") + text::decimal(raw as nat);
    text::words_then_a_number(s1, text::lit("] = "), raw as nat);
    let x = adc_value_text(ch, raw);
    let end = x.skip(s2.len() as int);
    assert(x == s2 + text::lit("\r\n"));
    assert(end =~= text::lit("\r\n"));
    text::the_end_keeps_the_numbers(s2, end);
    assert(x =~= s2 + end);
    assert(text::numbers_in(s2) =~= seq![ch as int, raw as int]);
}

/// The result frames of a scan are counted.
pub proof fn found_frames_are_said(n: u32)
    ensures
        text::numbers_in(wifi_found_text(n)).take(1) == seq![n as int],
{
    text::nothing_is_said();
    found_words();
    ap_result_frames_end();
    let s0 = Seq::<u8>::empty();
    assert(s0 + text::lit("found ") =~= text::lit("found "));
    let s1 = text::lit("found ") + text::decimal(n as nat);
    text::words_then_a_number(s0, text::lit("found "), n as nat);
    let x = wifi_found_text(n);
    let end = x.skip(s1.len() as int);
    assert(x == s1 + text::lit(" AP result frames\r\n"));
    assert(end =~= text::lit(" AP result frames\r\n"));
    text::the_end_keeps_the_numbers(s1, end);
    assert(x =~= s1 + end);
    assert(text::numbers_in(s1) =~= seq![n as int]);
}

/// The status of the access point is said as it is.
pub proof fn access_point_status_is_said(s: u32)
    ensures
        text::numbers_in(wifi_ap_up_text(s)).take(1) == seq![s as int],
{
    text::nothing_is_said();
    ap_up_bss_status_words();
    line_end();
    let s0 = Seq::<u8>::empty();
    assert(s0 + text::lit("ap up, bss status = ") =~= text::lit("ap up, bss status = "));
    let s1 = text::lit("ap up, bss status = ") + text::decimal(s as nat);
    text::words_then_a_number(s0, text::lit("ap up, bss status = "), s as nat);
    let x = wifi_ap_up_text(s);
    let end = x.skip(s1.len() as int);
    assert(x == s1 + text::lit("\r\n"));
    assert(end =~= text::lit("\r\n"));
    text::the_end_keeps_the_numbers(s1, end);
    assert(x =~= s1 + end);
    assert(text::numbers_in(s1) =~= seq![s as int]);
}

/// A stress run says its exchanges, its time, its rate, and what went wrong.
#[verifier::spinoff_prover]
#[verifier::rlimit(40)]
pub proof fn stress_runs_are_said(count: u32, ms: u32, bad: u32, timeouts: u32)
    ensures
        text::numbers_in(stress_text(count, ms, bad, timeouts)).take(5) == seq![count as int, ms as int, exchanges_per_second(count, ms) as int, bad as int, timeouts as int],
{
    text::nothing_is_said();
    stress_words();
    exchanges_in_words();
    the_ms_words();
    exch_s_bad_words();
    timeouts_words();
    pass_end();
    fail_end();
    let s0 = Seq::<u8>::empty();
    assert(s0 + text::lit("stress: ") =~= text::lit("stress: "));
    let s1 = text::lit("stress: ") + text::decimal(count as nat);
    text::words_then_a_number(s0, text::lit("stress: "), count as nat);
    let s2 = s1 + text::lit(" exchanges in ") + text::decimal(ms as nat);
    text::words_then_a_number(s1, text::lit(" exchanges in "), ms as nat);
    let s3 = s2 + text::lit(" ms (") + text::decimal(exchanges_per_second(count, ms) as nat);
    text::words_then_a_number(s2, text::lit(" ms ("), exchanges_per_second(count, ms) as nat);
    let s4 = s3 + text::lit(" exch/s), bad=") + text::decimal(bad as nat);
    text::words_then_a_number(s3, text::lit(" exch/s), bad="), bad as nat);
    let s5 = s4 + text::lit(" timeouts=") + text::decimal(timeouts as nat);
    text::words_then_a_number(s4, text::lit(" timeouts="), timeouts as nat);
    let x = stress_text(count, ms, bad, timeouts);
    let end = x.skip(s5.len() as int);
    assert(end =~= text::lit(" -- PASS\r\n") || end =~= text::lit(" -- FAIL\r\n"));
    text::the_end_keeps_the_numbers(s5, end);
    assert(x =~= s5 + end);
    assert(text::numbers_in(s5) =~= seq![count as int, ms as int, exchanges_per_second(count, ms) as int, bad as int, timeouts as int]);
}

/// A speed run says its exchanges, its time and its rates.
#[verifier::spinoff_prover]
#[verifier::rlimit(40)]
pub proof fn speed_runs_are_said(n: u32, ms: u32)
    ensures
        text::numbers_in(speed_text(n, ms)).take(4) == seq![n as int, ms as int, rate(n as nat, ms) as int, (8 * rate(n as nat, ms) / 1024) as int],
{
    text::nothing_is_said();
    core1_speed_words();
    round_trips_in_words();
    ms_words();
    exch_s_words();
    kb_s_8_b_exchange_on_the_fifo_end();
    let s0 = Seq::<u8>::empty();
    assert(s0 + text::lit("core1 speed: ") =~= text::lit("core1 speed: "));
    let s1 = text::lit("core1 speed: ") + text::decimal(n as nat);
    text::words_then_a_number(s0, text::lit("core1 speed: "), n as nat);
    let s2 = s1 + text::lit(" round-trips in ") + text::decimal(ms as nat);
    text::words_then_a_number(s1, text::lit(" round-trips in "), ms as nat);
    let s3 = s2 + text::lit(" ms = ") + text::decimal(rate(n as nat, ms) as nat);
    text::words_then_a_number(s2, text::lit(" ms = "), rate(n as nat, ms) as nat);
    let s4 = s3 + text::lit(" exch/s, ") + text::decimal((8 * rate(n as nat, ms) / 1024) as nat);
    text::words_then_a_number(s3, text::lit(" exch/s, "), (8 * rate(n as nat, ms) / 1024) as nat);
    let x = speed_text(n, ms);
    let end = x.skip(s4.len() as int);
    assert(x == s4 + text::lit(" KB/s (8 B/exchange on the FIFO)\r\n"));
    assert(end =~= text::lit(" KB/s (8 B/exchange on the FIFO)\r\n"));
    text::the_end_keeps_the_numbers(s4, end);
    assert(x =~= s4 + end);
    assert(text::numbers_in(s4) =~= seq![n as int, ms as int, rate(n as nat, ms) as int, (8 * rate(n as nat, ms) / 1024) as int]);
}

/// A bulk run says how often, how much, how long and how fast.
pub proof fn bulk_runs_are_said(len: u32, iters: u32, ms: u32)
    ensures
        text::numbers_in(bulk_text(len, iters, ms)).take(4) == seq![iters as int, len as int, ms as int, kib_per_second((len * iters) as nat, ms) as int],
{
    text::nothing_is_said();
    core1_bulk_words();
    x_words();
    b_in_words();
    ms_words();
    kb_s_one_way_core0_shared_sram_c_end();
    let s0 = Seq::<u8>::empty();
    assert(s0 + text::lit("core1 bulk: ") =~= text::lit("core1 bulk: "));
    let s1 = text::lit("core1 bulk: ") + text::decimal(iters as nat);
    text::words_then_a_number(s0, text::lit("core1 bulk: "), iters as nat);
    let s2 = s1 + text::lit(" x ") + text::decimal(len as nat);
    text::words_then_a_number(s1, text::lit(" x "), len as nat);
    let s3 = s2 + text::lit(" B in ") + text::decimal(ms as nat);
    text::words_then_a_number(s2, text::lit(" B in "), ms as nat);
    let s4 = s3 + text::lit(" ms = ") + text::decimal(kib_per_second((len * iters) as nat, ms) as nat);
    text::words_then_a_number(s3, text::lit(" ms = "), kib_per_second((len * iters) as nat, ms) as nat);
    let x = bulk_text(len, iters, ms);
    let end = x.skip(s4.len() as int);
    assert(x == s4 + text::lit(" KB/s one-way (core0->shared SRAM->core1)\r\n"));
    assert(end =~= text::lit(" KB/s one-way (core0->shared SRAM->core1)\r\n"));
    text::the_end_keeps_the_numbers(s4, end);
    assert(x =~= s4 + end);
    assert(text::numbers_in(s4) =~= seq![iters as int, len as int, ms as int, kib_per_second((len * iters) as nat, ms) as int]);
}

/// The time of listening is said.
pub proof fn listening_times_are_said(ms: u32)
    ensures
        text::numbers_in(slink_listening_text(ms)).take(1) == seq![ms as int],
{
    text::nothing_is_said();
    listening_words();
    the_ms_end();
    let s0 = Seq::<u8>::empty();
    assert(s0 + text::lit("listening ") =~= text::lit("listening "));
    let s1 = text::lit("listening ") + text::decimal(ms as nat);
    text::words_then_a_number(s0, text::lit("listening "), ms as nat);
    let x = slink_listening_text(ms);
    let end = x.skip(s1.len() as int);
    assert(x == s1 + text::lit(" ms...\r\n"));
    assert(end =~= text::lit(" ms...\r\n"));
    text::the_end_keeps_the_numbers(s1, end);
    assert(x =~= s1 + end);
    assert(text::numbers_in(s1) =~= seq![ms as int]);
}

/// A flood says how many frames it will send.
pub proof fn floods_are_said(n: u32)
    ensures
        text::numbers_in(slink_flooding_text(n)).take(1) == seq![n as int],
{
    text::nothing_is_said();
    flooding_words();
    frames_end();
    let s0 = Seq::<u8>::empty();
    assert(s0 + text::lit("flooding ") =~= text::lit("flooding "));
    let s1 = text::lit("flooding ") + text::decimal(n as nat);
    text::words_then_a_number(s0, text::lit("flooding "), n as nat);
    let x = slink_flooding_text(n);
    let end = x.skip(s1.len() as int);
    assert(x == s1 + text::lit(" frames...\r\n"));
    assert(end =~= text::lit(" frames...\r\n"));
    text::the_end_keeps_the_numbers(s1, end);
    assert(x =~= s1 + end);
    assert(text::numbers_in(s1) =~= seq![n as int]);
}

/// A flood says how many frames it has sent.
pub proof fn flooded_frames_are_said(n: u32)
    ensures
        text::numbers_in(slink_flooded_text(n)).take(1) == seq![n as int],
{
    text::nothing_is_said();
    flood_done_words();
    frames_sent_end();
    let s0 = Seq::<u8>::empty();
    assert(s0 + text::lit("flood done (") =~= text::lit("flood done ("));
    let s1 = text::lit("flood done (") + text::decimal(n as nat);
    text::words_then_a_number(s0, text::lit("flood done ("), n as nat);
    let x = slink_flooded_text(n);
    let end = x.skip(s1.len() as int);
    assert(x == s1 + text::lit(" frames sent)\r\n"));
    assert(end =~= text::lit(" frames sent)\r\n"));
    text::the_end_keeps_the_numbers(s1, end);
    assert(x =~= s1 + end);
    assert(text::numbers_in(s1) =~= seq![n as int]);
}

/// A soak says how many frames it waits for.
pub proof fn soaks_are_said(n: u32)
    ensures
        text::numbers_in(slink_soaking_text(n)).take(1) == seq![n as int],
{
    text::nothing_is_said();
    soaking_up_to_words();
    frames_end();
    let s0 = Seq::<u8>::empty();
    assert(s0 + text::lit("soaking up to ") =~= text::lit("soaking up to "));
    let s1 = text::lit("soaking up to ") + text::decimal(n as nat);
    text::words_then_a_number(s0, text::lit("soaking up to "), n as nat);
    let x = slink_soaking_text(n);
    let end = x.skip(s1.len() as int);
    assert(x == s1 + text::lit(" frames...\r\n"));
    assert(end =~= text::lit(" frames...\r\n"));
    text::the_end_keeps_the_numbers(s1, end);
    assert(x =~= s1 + end);
    assert(text::numbers_in(s1) =~= seq![n as int]);
}

/// A block that could not be read is named.
pub proof fn unread_blocks_are_said(block: u32)
    ensures
        text::numbers_in(find_error_text(block)).take(1) == seq![block as int],
{
    text::nothing_is_said();
    read_error_at_block_words();
    line_end();
    let s0 = Seq::<u8>::empty();
    assert(s0 + text::lit("read error at block ") =~= text::lit("read error at block "));
    let s1 = text::lit("read error at block ") + text::decimal(block as nat);
    text::words_then_a_number(s0, text::lit("read error at block "), block as nat);
    let x = find_error_text(block);
    let end = x.skip(s1.len() as int);
    assert(x == s1 + text::lit("\r\n"));
    assert(end =~= text::lit("\r\n"));
    text::the_end_keeps_the_numbers(s1, end);
    assert(x =~= s1 + end);
    assert(text::numbers_in(s1) =~= seq![block as int]);
}

/// The runs that were found are counted.
pub proof fn finds_are_said(hits: u64)
    ensures
        text::numbers_in(find_done_text(hits)).take(1) == seq![hits as int],
{
    text::nothing_is_said();
    done_words();
    run_s_end();
    let s0 = Seq::<u8>::empty();
    assert(s0 + text::lit("done, ") =~= text::lit("done, "));
    let s1 = text::lit("done, ") + text::decimal(hits as nat);
    text::words_then_a_number(s0, text::lit("done, "), hits as nat);
    let x = find_done_text(hits);
    let end = x.skip(s1.len() as int);
    assert(x == s1 + text::lit(" run(s)\r\n"));
    assert(end =~= text::lit(" run(s)\r\n"));
    text::the_end_keeps_the_numbers(s1, end);
    assert(x =~= s1 + end);
    assert(text::numbers_in(s1) =~= seq![hits as int]);
}

/// A tick says its number and what came back.
pub proof fn ticks_are_said(n: u32, rx: u32, spi_ok: bool)
    ensures
        text::numbers_in(tick_line_text(n, rx, spi_ok)).take(2) == seq![n as int, rx as int],
{
    text::nothing_is_said();
    tick_words();
    uart_rx_words();
    spi_ok_end();
    spi_bad_end();
    let s0 = Seq::<u8>::empty();
    assert(s0 + text::lit("tick ") =~= text::lit("tick "));
    let s1 = text::lit("tick ") + text::decimal(n as nat);
    text::words_then_a_number(s0, text::lit("tick "), n as nat);
    let s2 = s1 + text::lit(" uart_rx=") + text::decimal(rx as nat);
    text::words_then_a_number(s1, text::lit(" uart_rx="), rx as nat);
    let x = tick_line_text(n, rx, spi_ok);
    let end = x.skip(s2.len() as int);
    let m = if spi_ok {
        text::lit(" spi=OK")
    } else {
        text::lit(" spi=BAD")
    };
    assert(x == s2 + m + text::lit("\r\n"));
    assert(end =~= m + text::lit("\r\n"));
    assert(end[0] == m[0]);
    text::the_end_keeps_the_numbers(s2, end);
    assert(x =~= s2 + end);
    assert(text::numbers_in(s2) =~= seq![n as int, rx as int]);
}

/// A failure says its code.
pub proof fn failure_codes_are_said(what: &str, code: u32)
    requires
        text::words_only(text::lit(what)),
    ensures
        text::numbers_in(sd_failed_text(what, code)).take(1) == seq![code as int],
{
    text::nothing_is_said();
    line_end();
    let s0 = Seq::<u8>::empty();
    assert(s0 + text::lit(what) =~= text::lit(what));
    let s1 = text::lit(what) + text::decimal(code as nat);
    text::words_then_a_number(s0, text::lit(what), code as nat);
    let x = sd_failed_text(what, code);
    let end = x.skip(s1.len() as int);
    assert(x == s1 + text::lit("\r\n"));
    assert(end =~= text::lit("\r\n"));
    text::the_end_keeps_the_numbers(s1, end);
    assert(x =~= s1 + end);
    assert(text::numbers_in(s1) =~= seq![code as int]);
}

/// The self-test says how many bytes came back.
pub proof fn loopbacks_are_said(n: u32)
    ensures
        text::numbers_in(uart_status_text(n)).take(1) == seq![n as int],
{
    text::nothing_is_said();
    the_uart_rx_words();
    loopback_ok_end();
    no_loopback_jumper_end();
    line_end();
    let s0 = Seq::<u8>::empty();
    assert(s0 + text::lit("uart: rx=") =~= text::lit("uart: rx="));
    let s1 = text::lit("uart: rx=") + text::decimal(n as nat);
    text::words_then_a_number(s0, text::lit("uart: rx="), n as nat);
    let x = uart_status_text(n);
    let end = x.skip(s1.len() as int);
    assert(end =~= text::lit(" (loopback OK)\r\n") || end =~= text::lit(
        " (no loopback jumper?)\r\n",
    ) || end =~= text::lit("\r\n"));
    text::the_end_keeps_the_numbers(s1, end);
    assert(x =~= s1 + end);
    assert(text::numbers_in(s1) =~= seq![n as int]);
}

/// A soak says its good frames first, then its bad ones, which stand in the two
/// halves of the result.
#[verifier::spinoff_prover]
#[verifier::rlimit(40)]
pub proof fn soak_results_are_said(good: u16, bad: u16, ones: u32, zeros: u32)
    ensures
        text::numbers_in(slink_soaked_text((good + 0x1_0000 * bad) as u32, ones, zeros)).take(2) == seq![good as int, bad as int],
{
    text::nothing_is_said();
    soak_good_words();
    bad_words();
    parenthesis_end();
    let r = (good + 0x1_0000 * bad) as u32;
    assert(r % 0x1_0000 == good);
    assert(r / 0x1_0000 == bad);
    let s0 = Seq::<u8>::empty();
    assert(s0 + text::lit("soak: good=") =~= text::lit("soak: good="));
    let s1 = text::lit("soak: good=") + text::decimal(good as nat);
    text::words_then_a_number(s0, text::lit("soak: good="), good as nat);
    let s2 = s1 + text::lit(" bad=") + text::decimal(bad as nat);
    text::words_then_a_number(s1, text::lit(" bad="), bad as nat);
    let x = slink_soaked_text((good + 0x1_0000 * bad) as u32, ones, zeros);
    let end = x.skip(s2.len() as int);
    let m = s2 + text::lit(" (");
    assert(m.len() > s2.len());
    assert(x.len() >= m.len() && x.take(m.len() as int) =~= m);
    assert(x.take(s2.len() as int) =~= s2) by {
        assert(x.take(m.len() as int).take(s2.len() as int) =~= s2);
        assert(x.take(m.len() as int).take(s2.len() as int) =~= x.take(s2.len() as int));
    }
    assert(end[0] == x.take(m.len() as int)[s2.len() as int]);
    text::the_end_keeps_the_numbers(s2, end);
    assert(x =~= s2 + end);
    assert(text::numbers_in(s2) =~= seq![good as int, bad as int]);
}

proof fn quotients_are_rounded_down(n: int, d: int)
    requires
        d > 0,
    ensures
        n / d * d <= n < (n / d + 1) * d,
{
    vstd::arithmetic::div_mod::lemma_fundamental_div_mod(n, d);
    vstd::arithmetic::div_mod::lemma_mod_bound(n, d);
    assert(d * (n / d) == n / d * d) by (nonlinear_arith);
    assert((n / d + 1) * d == n / d * d + d) by (nonlinear_arith);
}

/// The rate of a transfer is the bytes of a whole second, rounded down, and its
/// share the whole percents of what the bus could do.
pub proof fn rates_are_rounded_down(bytes: u32, ms: u32, max_bps: u32)
    requires
        ms > 0,
        max_bps > 0,
        1000 * bytes < 0x1_0000_0000 * ms,
    ensures
        ({
            let bps = bytes_per_second(bytes, ms);
            let pct = percent_of(bps, max_bps);
            let all = rate(bytes as nat, ms);
            &&& bps * ms <= 1000 * bytes < (bps + 1) * ms
            &&& pct * max_bps <= 100 * bps < (pct + 1) * max_bps
            &&& all * ms <= 1000 * bytes < (all + 1) * ms
        }),
{
    let q = 1000 * bytes / ms as int;
    quotients_are_rounded_down(1000 * bytes, ms as int);
    assert(q < 0x1_0000_0000) by (nonlinear_arith)
        requires
            q * ms <= 1000 * bytes,
            1000 * bytes < 0x1_0000_0000 * ms,
            ms > 0,
    ;
    assert(q >= 0) by (nonlinear_arith)
        requires
            1000 * bytes < (q + 1) * ms,
            ms > 0,
            bytes >= 0,
    ;
    assert(bytes_per_second(bytes, ms) == q);
    quotients_are_rounded_down(100 * q, max_bps as int);
}

/// The sensor reads 27 degrees at 706 millivolts, and each degree above takes
/// 1.721 millivolts away; the answer is off by less than a thousandth.
pub proof fn temperatures_follow_the_sensor(raw: u16)
    requires
        raw < 4096,
    ensures
        ({
            let uv = 3_300_000 * raw / 4096;
            let off = (27_000 - milli_celsius(raw)) * 1721 - 1000 * (uv - 706_000);
            -1721 < off < 1721
        }),
{
}

/// The time is said as a date and a time of the day, each part in two digits and
/// from the large to the small.
#[verifier::spinoff_prover]
#[verifier::rlimit(40)]
pub proof fn times_are_said_in_order(t: ds1302::Time)
    requires
        ds1302::in_range(t),
    ensures
        ({
            let s = rtc_time_text(ds1302::packed(t) as u64);
            &&& s.len() == 21
            &&& text::decimal_value(s.subrange(0, 2)) == 20
            &&& text::decimal_value(s.subrange(2, 4)) == t.year
            &&& text::decimal_value(s.subrange(5, 7)) == t.month
            &&& text::decimal_value(s.subrange(8, 10)) == t.date
            &&& text::decimal_value(s.subrange(11, 13)) == t.hour
            &&& text::decimal_value(s.subrange(14, 16)) == t.min
            &&& text::decimal_value(s.subrange(17, 19)) == t.sec
            &&& s[4] == '-' as u8 && s[7] == '-' as u8 && s[10] == ' ' as u8 && s[13] == ':' as u8
                && s[16] == ':' as u8
        }),
{
    ds1302::unpacking_undoes_packing(t);
    let p = ds1302::packed(t) as u64;
    let s = rtc_time_text(p);
    assert(text::lit("20") =~= [50u8, 48]@ && text::lit("-") =~= [45u8]@ && text::lit(" ")
        =~= [32u8]@ && text::lit(":") =~= [58u8]@ && text::lit("\r\n") =~= [13u8, 10]@) by {
        reveal_strlit("20");
        reveal_strlit("-");
        reveal_strlit(" ");
        reveal_strlit(":");
        reveal_strlit("\r\n");
        vstd::utf8::is_ascii_chars_encode_utf8("20"@);
        vstd::utf8::is_ascii_chars_encode_utf8("-"@);
        vstd::utf8::is_ascii_chars_encode_utf8(" "@);
        vstd::utf8::is_ascii_chars_encode_utf8(":"@);
        vstd::utf8::is_ascii_chars_encode_utf8("\r\n"@);
    }
    assert((p / 0x1_0000_0000_0000 % 256) as u8 == t.year);
    assert((p / 0x1_0000_0000 % 256) as u8 == t.month);
    assert((p / 0x100_0000 % 256) as u8 == t.date);
    assert((p / 0x1_0000 % 256) as u8 == t.hour);
    assert((p / 0x100 % 256) as u8 == t.min);
    assert((p % 256) as u8 == t.sec);
    text::padded_digits_spell_their_number(t.year);
    text::padded_digits_spell_their_number(t.month);
    text::padded_digits_spell_their_number(t.date);
    text::padded_digits_spell_their_number(t.hour);
    text::padded_digits_spell_their_number(t.min);
    text::padded_digits_spell_their_number(t.sec);
    text::padded_digits_spell_their_number(20);
    assert(s.subrange(0, 2) =~= text::pad2(20));
    assert(s.subrange(2, 4) =~= text::pad2(t.year));
    assert(s.subrange(5, 7) =~= text::pad2(t.month));
    assert(s.subrange(8, 10) =~= text::pad2(t.date));
    assert(s.subrange(11, 13) =~= text::pad2(t.hour));
    assert(s.subrange(14, 16) =~= text::pad2(t.min));
    assert(s.subrange(17, 19) =~= text::pad2(t.sec));
}

/// A level is said as it is, behind the pin's number.
pub proof fn levels_are_said(pin: u8, v: u8)
    ensures
        ({
            let s = gpio_level_text(pin, v);
            s[s.len() - 3] == if v != 0 {
                '1' as u8
            } else {
                '0' as u8
            }
        }),
{
    reveal_strlit(" = 1\r\n");
    reveal_strlit(" = 0\r\n");
    vstd::utf8::is_ascii_chars_encode_utf8(" = 1\r\n"@);
    vstd::utf8::is_ascii_chars_encode_utf8(" = 0\r\n"@);
}

/// Listed bytes are read back: each takes a space and two digits.
pub proof fn listed_bytes_are_read_back(s: Seq<u8>, i: int)
    requires
        0 <= i < s.len(),
    ensures
        hex_list(s).len() == 3 * s.len(),
        hex_list(s)[3 * i] == 32,
        text::hex_value(hex_list(s).subrange(3 * i + 1, 3 * i + 3)) == s[i],
    decreases s.len(),
{
    assert(text::lit(" ") =~= [32u8]@) by {
        reveal_strlit(" ");
        vstd::utf8::is_ascii_chars_encode_utf8(" "@);
    }
    let t = s.drop_last();
    let h = hex_list(s);
    if t.len() > 0 {
        listed_bytes_are_read_back(
            t,
            if i < t.len() {
                i
            } else {
                0
            },
        );
    } else {
        assert(hex_list(t) =~= Seq::empty());
    }
    if i < t.len() {
        assert(h.subrange(3 * i + 1, 3 * i + 3) =~= hex_list(t).subrange(3 * i + 1, 3 * i + 3));
    } else {
        text::hexadecimals_spell_their_number(s.last(), 0);
        assert(h.subrange(3 * i + 1, 3 * i + 3) =~= text::hex2(s.last()));
    }
}

/// An address is said in six pairs of digits, the first byte first.
#[verifier::spinoff_prover]
#[verifier::rlimit(40)]
pub proof fn addresses_are_said_in_order(mac: [u8; 6], i: int)
    requires
        0 <= i < 6,
    ensures
        text::hex_value(wifi_mac_text(mac).subrange(6 + 3 * i, 8 + 3 * i)) == mac[i],
{
    assert(text::lit(":").len() == 1) by {
        reveal_strlit(":");
        vstd::utf8::is_ascii_chars_encode_utf8(":"@);
    }
    assert(text::lit("mac = ").len() == 6) by {
        reveal_strlit("mac = ");
        vstd::utf8::is_ascii_chars_encode_utf8("mac = "@);
    }
    let s = wifi_mac_text(mac);
    text::hexadecimals_spell_their_number(mac[i], 0);
    assert(s.subrange(6 + 3 * i, 8 + 3 * i) =~= text::hex2(mac[i])) by {
        if i == 0 {
            assert(s.subrange(6, 8) =~= text::hex2(mac[0]));
        } else if i == 1 {
            assert(s.subrange(9, 11) =~= text::hex2(mac[1]));
        } else if i == 2 {
            assert(s.subrange(12, 14) =~= text::hex2(mac[2]));
        } else if i == 3 {
            assert(s.subrange(15, 17) =~= text::hex2(mac[3]));
        } else if i == 4 {
            assert(s.subrange(18, 20) =~= text::hex2(mac[4]));
        } else {
            assert(s.subrange(21, 23) =~= text::hex2(mac[5]));
        }
    }
}

} // verus!
