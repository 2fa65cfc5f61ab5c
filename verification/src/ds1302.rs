//! The DS1302 real-time clock: a three-wire chip whose registers hold the
//! time in binary-coded decimal.

use crate::errors::Ds1302Error;
use crate::words;
use crate::words::bit_of;
use vstd::prelude::*;

verus! {

/// The register of the seconds, as the command that writes it; a read's
/// command is one more.
pub const SECONDS_W: u8 = 0x80;

/// The register of the minutes.
pub const MINUTES_W: u8 = 0x82;

/// The register of the hours.
pub const HOURS_W: u8 = 0x84;

/// The register of the day of the month.
pub const DATE_W: u8 = 0x86;

/// The register of the month.
pub const MONTH_W: u8 = 0x88;

/// The register of the day of the week.
pub const WEEKDAY_W: u8 = 0x8a;

/// The register of the year.
pub const YEAR_W: u8 = 0x8c;

/// The register whose top bit protects the others from writing.
pub const WP_W: u8 = 0x8e;

/// The value of a binary-coded decimal byte.
pub open spec fn from_bcd(b: u8) -> int {
    b / 16 * 10 + b % 16
}

/// The value of a binary-coded decimal byte.
pub fn bcd2dec(b: u8) -> (r: u8)
    ensures
        r == from_bcd(b),
{
    b / 16 * 10 + b % 16
}

/// A number in binary-coded decimal; the tens are taken modulo sixteen.
pub open spec fn to_bcd(d: u8) -> int {
    d / 10 % 16 * 16 + d % 10
}

/// A number in binary-coded decimal.
pub fn dec2bcd(d: u8) -> (r: u8)
    ensures
        r == to_bcd(d),
{
    d / 10 % 16 * 16 + d % 10
}

/// The two digits of a number up to 99 survive the coding.
pub proof fn coding_keeps_the_number(d: u8)
    requires
        d <= 99,
    ensures
        from_bcd(to_bcd(d) as u8) == d,
{
}

/// A time, in the fields of the packed form.
#[derive(Copy, Clone, Debug, PartialEq, Eq, Structural)]
pub struct Time {
    /// Seconds.
    pub sec: u8,
    /// Minutes.
    pub min: u8,
    /// Hours, from 0.
    pub hour: u8,
    /// Day of the month, from 1.
    pub date: u8,
    /// Month, from 1.
    pub month: u8,
    /// Day of the week.
    pub weekday: u8,
    /// Year of the century.
    pub year: u8,
}

/// A time in one word: a byte for each field, the seconds the least
/// significant and the year the most.
pub open spec fn packed(t: Time) -> int {
    t.sec + 0x100 * t.min + 0x1_0000 * t.hour + 0x100_0000 * t.date + 0x1_0000_0000 * t.month
        + 0x100_0000_0000 * t.weekday + 0x1_0000_0000_0000 * t.year
}

/// The fields of a word; its top byte says nothing.
pub open spec fn unpacked(p: u64) -> Time {
    Time {
        sec: (p % 0x100) as u8,
        min: (p / 0x100 % 0x100) as u8,
        hour: (p / 0x1_0000 % 0x100) as u8,
        date: (p / 0x100_0000 % 0x100) as u8,
        month: (p / 0x1_0000_0000 % 0x100) as u8,
        weekday: (p / 0x100_0000_0000 % 0x100) as u8,
        year: (p / 0x1_0000_0000_0000 % 0x100) as u8,
    }
}

/// A time in one word.
pub fn pack(t: Time) -> (r: u64)
    ensures
        r == packed(t),
{
    t.sec as u64 + 0x100 * (t.min as u64) + 0x1_0000 * (t.hour as u64) + 0x100_0000 * (
    t.date as u64) + 0x1_0000_0000 * (t.month as u64) + 0x100_0000_0000 * (t.weekday as u64)
        + 0x1_0000_0000_0000 * (t.year as u64)
}

/// The fields of a word.
pub fn unpack(p: u64) -> (r: Time)
    ensures
        r == unpacked(p),
{
    Time {
        sec: (p % 0x100) as u8,
        min: (p / 0x100 % 0x100) as u8,
        hour: (p / 0x1_0000 % 0x100) as u8,
        date: (p / 0x100_0000 % 0x100) as u8,
        month: (p / 0x1_0000_0000 % 0x100) as u8,
        weekday: (p / 0x100_0000_0000 % 0x100) as u8,
        year: (p / 0x1_0000_0000_0000 % 0x100) as u8,
    }
}

/// A time that the clock can be set to.
pub open spec fn in_range(t: Time) -> bool {
    &&& t.sec <= 59
    &&& t.min <= 59
    &&& t.hour <= 23
    &&& 1 <= t.date <= 31
    &&& 1 <= t.month <= 12
    &&& t.weekday <= 7
    &&& t.year <= 99
}

/// What the seven registers say, the seconds first, without their status and
/// mode bits.
pub open spec fn told(raw: Seq<u8>) -> Time {
    Time {
        sec: from_bcd(raw[0] % 0x80) as u8,
        min: from_bcd(raw[1] % 0x80) as u8,
        hour: from_bcd(raw[2] % 0x40) as u8,
        date: from_bcd(raw[3] % 0x40) as u8,
        month: from_bcd(raw[4] % 0x20) as u8,
        weekday: from_bcd(raw[5] % 8) as u8,
        year: from_bcd(raw[6]) as u8,
    }
}

/// The commands that read the seven registers, the seconds first.
pub fn read_commands() -> (r: [u8; 7])
    ensures
        r@ == seq![0x81u8, 0x83, 0x85, 0x87, 0x89, 0x8b, 0x8d],
{
    let r = [
        SECONDS_W + 1,
        MINUTES_W + 1,
        HOURS_W + 1,
        DATE_W + 1,
        MONTH_W + 1,
        WEEKDAY_W + 1,
        YEAR_W + 1,
    ];
    assert(r@ =~= seq![0x81u8, 0x83, 0x85, 0x87, 0x89, 0x8b, 0x8d]);
    r
}

/// The time, out of what the seven registers were read as.
pub fn now(raw: [u8; 7]) -> (r: u64)
    ensures
        r == packed(told(raw@)),
{
    pack(
        Time {
            sec: bcd2dec(raw[0] % 0x80),
            min: bcd2dec(raw[1] % 0x80),
            hour: bcd2dec(raw[2] % 0x40),
            date: bcd2dec(raw[3] % 0x40),
            month: bcd2dec(raw[4] % 0x20),
            weekday: bcd2dec(raw[5] % 8),
            year: bcd2dec(raw[6]),
        },
    )
}

/// A register write: its command and its value.
#[derive(Copy, Clone, Debug, PartialEq, Eq, Structural)]
pub struct RegWrite {
    /// The command.
    pub cmd: u8,
    /// The value.
    pub val: u8,
}

/// The register writes that set a time: write protection goes first. Writing
/// the seconds starts the oscillator, as their top bit is clear.
pub open spec fn writes(t: Time) -> Seq<RegWrite> {
    seq![
        RegWrite { cmd: WP_W, val: 0 },
        RegWrite { cmd: SECONDS_W, val: to_bcd(t.sec) as u8 },
        RegWrite { cmd: MINUTES_W, val: to_bcd(t.min) as u8 },
        RegWrite { cmd: HOURS_W, val: to_bcd(t.hour) as u8 },
        RegWrite { cmd: DATE_W, val: to_bcd(t.date) as u8 },
        RegWrite { cmd: MONTH_W, val: to_bcd(t.month) as u8 },
        RegWrite { cmd: WEEKDAY_W, val: to_bcd(t.weekday) as u8 },
        RegWrite { cmd: YEAR_W, val: to_bcd(t.year) as u8 },
    ]
}

/// The register writes that set a packed time. A field out of range is
/// refused, and nothing is written.
pub fn set(p: u64) -> (r: Result<Vec<RegWrite>, Ds1302Error>)
    ensures
        r is Ok <==> in_range(unpacked(p)),
        r matches Ok(v) ==> v@ == writes(unpacked(p)),
        r matches Err(e) ==> e == Ds1302Error::BadArg,
{
    let t = unpack(p);
    if t.sec > 59 || t.min > 59 || t.hour > 23 || t.date < 1 || t.date > 31 || t.month < 1
        || t.month > 12 || t.weekday > 7 || t.year > 99 {
        return Err(Ds1302Error::BadArg);
    }
    let mut v: Vec<RegWrite> = Vec::new();
    v.push(RegWrite { cmd: WP_W, val: 0 });
    v.push(RegWrite { cmd: SECONDS_W, val: dec2bcd(t.sec) });
    v.push(RegWrite { cmd: MINUTES_W, val: dec2bcd(t.min) });
    v.push(RegWrite { cmd: HOURS_W, val: dec2bcd(t.hour) });
    v.push(RegWrite { cmd: DATE_W, val: dec2bcd(t.date) });
    v.push(RegWrite { cmd: MONTH_W, val: dec2bcd(t.month) });
    v.push(RegWrite { cmd: WEEKDAY_W, val: dec2bcd(t.weekday) });
    v.push(RegWrite { cmd: YEAR_W, val: dec2bcd(t.year) });
    assert(v@ =~= writes(t));
    Ok(v)
}

/// The bits of a byte in the order in which they go over the wire.
pub open spec fn wire_bits(b: u8) -> Seq<bool> {
    Seq::new(8, |i: int| words::bit(b, i))
}

/// One step of a transfer.
#[derive(Copy, Clone, Debug, PartialEq, Eq, Structural)]
pub enum Wire {
    /// Set the chip-enable line, then let it settle.
    Enable(bool),
    /// Drive the data line and let it settle, then pulse the clock.
    Out(bool),
    /// Give the data line to the chip, and wait four times as long as for
    /// anything else.
    Release,
    /// Look at the data line, then pulse the clock.
    In,
    /// Take the data line back.
    Drive,
}

/// A byte that is shifted out.
pub open spec fn shift_out(b: u8) -> Seq<Wire> {
    Seq::new(8, |i: int| Wire::Out(words::bit(b, i)))
}

/// The steps of a register write.
pub open spec fn write_steps(cmd: u8, val: u8) -> Seq<Wire> {
    seq![Wire::Enable(true)] + shift_out(cmd) + shift_out(val) + seq![Wire::Enable(false)]
}

/// The steps of a register read.
pub open spec fn read_steps(cmd: u8) -> Seq<Wire> {
    seq![Wire::Enable(true)] + shift_out(cmd) + seq![Wire::Release] + Seq::new(
        8,
        |i: int| Wire::In,
    ) + seq![Wire::Enable(false), Wire::Drive]
}

fn push_byte(v: &mut Vec<Wire>, b: u8)
    ensures
        final(v)@ == old(v)@ + shift_out(b),
{
    let mut i: usize = 0;
    while i < 8
        invariant
            i <= 8,
            v@ == old(v)@ + shift_out(b).take(i as int),
        decreases 8 - i,
    {
        v.push(Wire::Out(bit_of(b, i)));
        i = i + 1;
        assert(v@ =~= old(v)@ + shift_out(b).take(i as int));
    }
    assert(shift_out(b).take(8) =~= shift_out(b));
}

/// The steps of a register write.
pub fn write_reg(w: RegWrite) -> (v: Vec<Wire>)
    ensures
        v@ == write_steps(w.cmd, w.val),
{
    let mut v: Vec<Wire> = Vec::new();
    v.push(Wire::Enable(true));
    push_byte(&mut v, w.cmd);
    push_byte(&mut v, w.val);
    v.push(Wire::Enable(false));
    assert(v@ =~= write_steps(w.cmd, w.val));
    v
}

/// The steps of a register read.
pub fn read_reg(cmd: u8) -> (v: Vec<Wire>)
    ensures
        v@ == read_steps(cmd),
{
    let mut v: Vec<Wire> = Vec::new();
    v.push(Wire::Enable(true));
    push_byte(&mut v, cmd);
    v.push(Wire::Release);
    let ghost head = v@;
    let mut i: usize = 0;
    while i < 8
        invariant
            i <= 8,
            v@ == head + Seq::new(i as nat, |i: int| Wire::In),
        decreases 8 - i,
    {
        v.push(Wire::In);
        i = i + 1;
        assert(v@ =~= head + Seq::new(i as nat, |i: int| Wire::In));
    }
    v.push(Wire::Enable(false));
    v.push(Wire::Drive);
    assert(v@ =~= read_steps(cmd));
    v
}

/// The byte of eight looks at the data line.
pub open spec fn shifted_in(s: Seq<bool>) -> int {
    (if s[0] { 1int } else { 0 }) + (if s[1] { 2int } else { 0 }) + (if s[2] { 4int } else { 0 })
        + (if s[3] { 8int } else { 0 }) + (if s[4] { 16int } else { 0 }) + (if s[5] { 32int } else {
        0
    }) + (if s[6] { 64int } else { 0 }) + (if s[7] { 128int } else { 0 })
}

fn worth(b: bool, w: u8) -> (r: u8)
    ensures
        r == if b {
            w
        } else {
            0
        },
{
    if b {
        w
    } else {
        0
    }
}

/// The byte of eight looks at the data line.
pub fn byte_in(s: [bool; 8]) -> (r: u8)
    ensures
        r == shifted_in(s@),
{
    worth(s[0], 1) + worth(s[1], 2) + worth(s[2], 4) + worth(s[3], 8) + worth(s[4], 16) + worth(
        s[5],
        32,
    ) + worth(s[6], 64) + worth(s[7], 128)
}

/// A byte comes off the wire as it went on.
pub proof fn wire_keeps_the_byte(b: u8)
    ensures
        shifted_in(wire_bits(b)) == b,
{
    let s = wire_bits(b);
    assert(s[0] == words::bit(b, 0));
    assert(s[1] == words::bit(b, 1));
    assert(s[2] == words::bit(b, 2));
    assert(s[3] == words::bit(b, 3));
    assert(s[4] == words::bit(b, 4));
    assert(s[5] == words::bit(b, 5));
    assert(s[6] == words::bit(b, 6));
    assert(s[7] == words::bit(b, 7));
    assert(b / 64 == b / 64 % 2 + 2 * (b / 128));
    assert(b / 32 == b / 32 % 2 + 2 * (b / 64));
    assert(b / 16 == b / 16 % 2 + 2 * (b / 32));
    assert(b / 8 == b / 8 % 2 + 2 * (b / 16));
    assert(b / 4 == b / 4 % 2 + 2 * (b / 8));
    assert(b / 2 == b / 2 % 2 + 2 * (b / 4));
    assert(b == b % 2 + 2 * (b / 2));
}

/// Packing and unpacking keep every field.
pub proof fn unpacking_undoes_packing(t: Time)
    ensures
        packed(t) < 0x100_0000_0000_0000,
        unpacked(packed(t) as u64) == t,
{
    let p = packed(t) as u64;
    let a6 = t.year as int;
    let a5 = t.weekday + 0x100 * a6;
    let a4 = t.month + 0x100 * a5;
    let a3 = t.date + 0x100 * a4;
    let a2 = t.hour + 0x100 * a3;
    let a1 = t.min + 0x100 * a2;
    assert(p == t.sec + 0x100 * a1);
    assert(p / 0x100 == a1);
    assert(p / 0x1_0000 == a2);
    assert(p / 0x100_0000 == a3);
    assert(p / 0x1_0000_0000 == a4);
    assert(p / 0x100_0000_0000 == a5);
    assert(p / 0x1_0000_0000_0000 == a6);
}

proof fn masked_coding(d: u8)
    ensures
        d <= 79 ==> from_bcd(to_bcd(d) as u8 % 0x80) == d,
        d <= 39 ==> from_bcd(to_bcd(d) as u8 % 0x40) == d,
        d <= 19 ==> from_bcd(to_bcd(d) as u8 % 0x20) == d,
        d <= 7 ==> from_bcd(to_bcd(d) as u8 % 8) == d,
        d <= 99 ==> from_bcd(to_bcd(d) as u8) == d,
{
    if d <= 99 {
        let c = to_bcd(d) as u8;
        assert(c / 16 == d / 10);
        assert(c % 16 == d % 10);
        if d <= 79 {
            assert(c < 0x80);
        }
        if d <= 39 {
            assert(c < 0x40);
        }
        if d <= 19 {
            assert(c < 0x20);
        }
    }
}

/// The clock tells the time that it was set to: the values that are written
/// to the registers read back as the same time.
pub proof fn set_then_now(t: Time)
    requires
        in_range(t),
    ensures
        told(Seq::new(7, |i: int| writes(t)[i + 1].val)) == t,
{
    let raw = Seq::new(7, |i: int| writes(t)[i + 1].val);
    masked_coding(t.sec);
    masked_coding(t.min);
    masked_coding(t.hour);
    masked_coding(t.date);
    masked_coding(t.month);
    masked_coding(t.weekday);
    masked_coding(t.year);
    assert(raw[0] == to_bcd(t.sec) as u8);
    assert(raw[1] == to_bcd(t.min) as u8);
    assert(raw[2] == to_bcd(t.hour) as u8);
    assert(raw[3] == to_bcd(t.date) as u8);
    assert(raw[4] == to_bcd(t.month) as u8);
    assert(raw[5] == to_bcd(t.weekday) as u8);
    assert(raw[6] == to_bcd(t.year) as u8);
}

/// The value that a register has after some writes, the last one's.
pub open spec fn held(ws: Seq<RegWrite>, cmd: u8) -> Option<u8>
    decreases ws.len(),
{
    if ws.len() == 0 {
        None
    } else if ws.last().cmd == cmd {
        Some(ws.last().val)
    } else {
        held(ws.drop_last(), cmd)
    }
}

proof fn last_write(ws: Seq<RegWrite>, k: int)
    requires
        0 <= k < ws.len(),
        forall|j: int| k < j < ws.len() ==> (#[trigger] ws[j]).cmd != ws[k].cmd,
    ensures
        held(ws, ws[k].cmd) == Some(ws[k].val),
    decreases ws.len(),
{
    if k < ws.len() - 1 {
        let t = ws.drop_last();
        assert(t[k] == ws[k]);
        assert forall|j: int| k < j < t.len() implies (#[trigger] t[j]).cmd != t[k].cmd by {
            assert(t[j] == ws[j]);
        }
        last_write(t, k);
    }
}

/// Two decimal digits are coded as two hexadecimal ones, and told as the number
/// that they spell.
pub proof fn digits_are_coded_one_by_one(tens: u8, ones: u8)
    requires
        tens <= 9,
        ones <= 9,
    ensures
        to_bcd((10 * tens + ones) as u8) == 16 * tens + ones,
        from_bcd((16 * tens + ones) as u8) == 10 * tens + ones,
{
}

/// Setting a time lifts the write protection first, and leaves each field in the
/// register that the chip has for it, as two decimal digits.
pub proof fn fields_go_to_their_registers(t: Time)
    requires
        in_range(t),
    ensures
        writes(t)[0] == (RegWrite { cmd: 0x8e, val: 0 }),
        held(writes(t), 0x80) == Some((16 * (t.sec / 10) + t.sec % 10) as u8),
        held(writes(t), 0x82) == Some((16 * (t.min / 10) + t.min % 10) as u8),
        held(writes(t), 0x84) == Some((16 * (t.hour / 10) + t.hour % 10) as u8),
        held(writes(t), 0x86) == Some((16 * (t.date / 10) + t.date % 10) as u8),
        held(writes(t), 0x88) == Some((16 * (t.month / 10) + t.month % 10) as u8),
        held(writes(t), 0x8a) == Some((16 * (t.weekday / 10) + t.weekday % 10) as u8),
        held(writes(t), 0x8c) == Some((16 * (t.year / 10) + t.year % 10) as u8),
{
    let ws = writes(t);
    last_write(ws, 1);
    last_write(ws, 2);
    last_write(ws, 3);
    last_write(ws, 4);
    last_write(ws, 5);
    last_write(ws, 6);
    last_write(ws, 7);
}

/// A read asks for the registers that a set writes, and tells the time that was
/// set, whatever the chip keeps in the bits above.
pub proof fn the_clock_tells_what_was_set(t: Time, raw: Seq<u8>)
    requires
        in_range(t),
        raw.len() == 7,
        forall|i: int|
            0 <= i < 7 ==> Some(#[trigger] raw[i]) == held(
                writes(t),
                (seq![0x81u8, 0x83, 0x85, 0x87, 0x89, 0x8b, 0x8d][i] - 1) as u8,
            ),
    ensures
        told(raw) == t,
{
    fields_go_to_their_registers(t);
    set_then_now(t);
    let r = seq![0x81u8, 0x83, 0x85, 0x87, 0x89, 0x8b, 0x8d];
    assert(r[0] == 0x81 && r[1] == 0x83 && r[2] == 0x85 && r[3] == 0x87 && r[4] == 0x89 && r[5]
        == 0x8b && r[6] == 0x8d);
    let ws = writes(t);
    last_write(ws, 1);
    last_write(ws, 2);
    last_write(ws, 3);
    last_write(ws, 4);
    last_write(ws, 5);
    last_write(ws, 6);
    last_write(ws, 7);
    assert(raw[0] == ws[1].val && raw[1] == ws[2].val && raw[2] == ws[3].val && raw[3] == ws[4].val
        && raw[4] == ws[5].val && raw[5] == ws[6].val && raw[6] == ws[7].val);
    assert(raw =~= Seq::new(7, |i: int| writes(t)[i + 1].val));
}

/// A write is one enabled run of sixteen bits: the command and then the value,
/// each with its lowest bit first. A read sends the command alike, lets go of the
/// line, looks eight times, and takes the line back.
pub proof fn steps_carry_command_and_value(cmd: u8, val: u8, i: int)
    requires
        0 <= i < 8,
    ensures
        write_steps(cmd, val).len() == 18,
        write_steps(cmd, val)[0] == Wire::Enable(true),
        write_steps(cmd, val)[1 + i] == Wire::Out(words::bit(cmd, i)),
        write_steps(cmd, val)[9 + i] == Wire::Out(words::bit(val, i)),
        write_steps(cmd, val)[17] == Wire::Enable(false),
        read_steps(cmd).len() == 20,
        read_steps(cmd)[0] == Wire::Enable(true),
        read_steps(cmd)[1 + i] == Wire::Out(words::bit(cmd, i)),
        read_steps(cmd)[9] == Wire::Release,
        read_steps(cmd)[10 + i] == Wire::In,
        read_steps(cmd)[18] == Wire::Enable(false),
        read_steps(cmd)[19] == Wire::Drive,
{
}

/// The looks count as binary digits, the first one the least.
pub proof fn looks_are_binary_digits(s: Seq<bool>)
    requires
        s.len() == 8,
    ensures
        0 <= shifted_in(s) < 256,
        forall|i: int| 0 <= i < 8 ==> words::bit(shifted_in(s) as u8, i) == #[trigger] s[i],
{
    let n = shifted_in(s);
    let d = Seq::new(8, |i: int| if s[i] { 1int } else { 0int });
    let n1 = d[1] + 2 * (d[2] + 2 * (d[3] + 2 * (d[4] + 2 * (d[5] + 2 * (d[6] + 2 * d[7])))));
    let n2 = d[2] + 2 * (d[3] + 2 * (d[4] + 2 * (d[5] + 2 * (d[6] + 2 * d[7]))));
    let n3 = d[3] + 2 * (d[4] + 2 * (d[5] + 2 * (d[6] + 2 * d[7])));
    let n4 = d[4] + 2 * (d[5] + 2 * (d[6] + 2 * d[7]));
    let n5 = d[5] + 2 * (d[6] + 2 * d[7]);
    let n6 = d[6] + 2 * d[7];
    assert(n == d[0] + 2 * n1);
    assert(n / 2 == n1 && n / 4 == n2 && n / 8 == n3 && n / 16 == n4 && n / 32 == n5 && n / 64
        == n6 && n / 128 == d[7]);
}

} // verus!
