//! The serial port: its baud rate and its numbers.

use crate::text;
use crate::text::append_u32;
use vstd::prelude::*;

verus! {

/// The baud rate.
pub const BAUD: u32 = 115_200;

/// The interrupts that a handler acknowledges: bytes came, and bytes waited.
pub const RX_INTERRUPTS: u32 = 0x50;

/// How many bytes the port keeps for its clients, less one.
pub const RX_RING_LEN: usize = 256;

/// The divisor of the baud rate, in units of 1/128.
pub open spec fn divisor(clk_hz: u32) -> int {
    8 * clk_hz / (BAUD as int)
}

/// The integer part of the divisor, and its fraction in units of 1/64,
/// within what the registers hold.
pub open spec fn baud_of(clk_hz: u32) -> (int, int) {
    let div = divisor(clk_hz);
    if div / 128 == 0 {
        (1, 0)
    } else if div / 128 >= 65535 {
        (65535, 0)
    } else {
        (div / 128, (div % 128 + 1) / 2)
    }
}

/// The baud rate registers for a clock.
pub fn baud_registers(clk_hz: u32) -> (r: (u16, u8))
    requires
        8 * clk_hz <= u32::MAX,
    ensures
        (r.0 as int, r.1 as int) == baud_of(clk_hz),
{
    let div: u32 = 8 * clk_hz / BAUD;
    if div / 128 == 0 {
        (1, 0)
    } else if div / 128 >= 65535 {
        (65535, 0)
    } else {
        ((div / 128) as u16, ((div % 128 + 1) / 2) as u8)
    }
}

/// A number in decimal, as the port writes it.
pub fn write_u32(n: u32) -> (v: Vec<u8>)
    ensures
        v@ == text::decimal(n as nat),
{
    let mut v: Vec<u8> = Vec::new();
    append_u32(&mut v, n);
    assert(v@ =~= text::decimal(n as nat));
    v
}

/// The registers divide as near to the divisor as their fraction allows,
/// whatever the clock: they follow it upwards by less than one part.
pub proof fn registers_follow_the_clock(clk_hz: u32)
    requires
        8 * clk_hz <= u32::MAX,
        divisor(clk_hz) >= 128,
    ensures
        divisor(clk_hz) <= 128 * baud_of(clk_hz).0 + 2 * baud_of(clk_hz).1 <= divisor(clk_hz) + 1,
{
}

} // verus!
