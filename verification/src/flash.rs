//! The flash chip: which reads, erases and programs are possible, and the
//! transactions that make them.

use crate::errors::FlashError;
use vstd::prelude::*;

verus! {

/// What an erase covers.
pub const SECTOR: u32 = 4096;

/// What a program may not cross.
pub const PAGE: u32 = 256;

/// How often the chip's status is looked at before it counts as stuck.
pub const BUSY_SPINS: u32 = 30_000_000;

/// What the next start reads as a request to stay in the boot loader.
pub const BOOTSEL_MAGIC: u32 = 0xb007_5e1f;

/// How many bytes a read of up to `n` gives: fewer at the end of the flash,
/// and none from beyond.
pub fn read_len(size: u32, offset: u32, n: usize) -> (r: Result<usize, FlashError>)
    ensures
        r is Ok <==> offset < size,
        r matches Ok(k) ==> k == if n <= size - offset {
            n as int
        } else {
            size - offset
        },
        r matches Err(e) ==> e == FlashError::BadAddress,
{
    if offset >= size {
        return Err(FlashError::BadAddress);
    }
    let left: u32 = size - offset;
    if n < left as usize {
        Ok(n)
    } else {
        Ok(left as usize)
    }
}

/// A command with an address, the most significant byte first.
pub open spec fn command(cmd: u8, offset: u32) -> Seq<u8> {
    seq![
        cmd,
        (offset / 0x1_0000 % 256) as u8,
        (offset / 0x100 % 256) as u8,
        (offset % 256) as u8,
    ]
}

fn push_command(cmd: u8, offset: u32) -> (v: Vec<u8>)
    ensures
        v@ == command(cmd, offset),
{
    let mut v: Vec<u8> = Vec::new();
    v.push(cmd);
    v.push((offset / 0x1_0000 % 256) as u8);
    v.push((offset / 0x100 % 256) as u8);
    v.push((offset % 256) as u8);
    assert(v@ =~= command(cmd, offset));
    v
}

/// The erase of the sector at an offset.
pub fn erase(size: u32, offset: u32) -> (r: Result<Vec<u8>, FlashError>)
    ensures
        r is Ok <==> offset < size && offset % SECTOR == 0,
        r matches Ok(op) ==> op@ == command(0x20, offset),
        r matches Err(e) ==> e == if offset >= size {
            FlashError::BadAddress
        } else {
            FlashError::BadAlignment
        },
{
    if offset >= size {
        return Err(FlashError::BadAddress);
    }
    if offset % SECTOR != 0 {
        return Err(FlashError::BadAlignment);
    }
    Ok(push_command(0x20, offset))
}

/// Whether some bytes lie within the flash.
pub open spec fn inside(size: u32, offset: u32, n: nat) -> bool {
    offset < size && n <= size - offset
}

/// Whether some bytes lie within one page.
pub open spec fn one_page(offset: u32, n: nat) -> bool {
    n > 0 && offset % PAGE + n <= PAGE
}

/// The program of some bytes at an offset.
pub fn program(size: u32, offset: u32, data: &[u8]) -> (r: Result<Vec<u8>, FlashError>)
    requires
        data@.len() <= 256,
    ensures
        r is Ok <==> inside(size, offset, data@.len()) && one_page(offset, data@.len()),
        r matches Ok(op) ==> op@ == command(0x02, offset) + data@,
        r matches Err(e) ==> e == if !inside(size, offset, data@.len()) {
            FlashError::BadAddress
        } else {
            FlashError::BadAlignment
        },
{
    let len: u32 = data.len() as u32;
    if offset >= size || len > size - offset {
        return Err(FlashError::BadAddress);
    }
    if len == 0 || offset % PAGE + len > PAGE {
        return Err(FlashError::BadAlignment);
    }
    let mut v: Vec<u8> = push_command(0x02, offset);
    crate::text::append(&mut v, data);
    Ok(v)
}

/// A transaction with the chip: bytes that go out.
pub open spec fn opening(op: Seq<u8>) -> Seq<Seq<u8>> {
    seq![seq![0x06u8], op]
}

/// The transactions after an operation: they leave the chip as it is after
/// power-on.
pub open spec fn closing() -> Seq<Seq<u8>> {
    seq![seq![0xffu8], seq![0x66u8], seq![0x99u8], seq![0xffu8]]
}

/// The bytes of some transactions.
pub open spec fn views(v: Seq<Vec<u8>>) -> Seq<Seq<u8>> {
    Seq::new(v.len(), |i: int| v[i]@)
}

fn one(b: u8) -> (v: Vec<u8>)
    ensures
        v@ == seq![b],
{
    let mut v: Vec<u8> = Vec::new();
    v.push(b);
    assert(v@ =~= seq![b]);
    v
}

/// What comes after a look at the chip's status.
pub enum Busy {
    /// Look again.
    Again,
    /// The operation is over: the transactions that follow, and its result.
    Over(Vec<Vec<u8>>, Result<(), FlashError>),
}

/// An erase or a program under way.
pub struct WriteOp {
    spins: u32,
}

impl WriteOp {
    /// How often the chip was busy.
    pub closed spec fn spins(&self) -> nat {
        self.spins as nat
    }

    /// Begin an operation: the transactions that enable writing and start it.
    pub fn begin(op: Vec<u8>) -> (r: (WriteOp, Vec<Vec<u8>>))
        ensures
            r.0.spins() == 0,
            views(r.1@) == opening(op@),
    {
        let ghost bytes = op@;
        let mut v: Vec<Vec<u8>> = Vec::new();
        v.push(one(0x06));
        v.push(op);
        assert(views(v@) =~= opening(bytes));
        (WriteOp { spins: 0 }, v)
    }

    /// Take the chip's status: it is busy while the lowest bit is set. A chip
    /// that stays busy is given up.
    pub fn status(&mut self, sr: u8) -> (r: Busy)
        requires
            old(self).spins() < BUSY_SPINS,
        ensures
            r is Again <==> sr % 2 == 1 && old(self).spins() + 1 < BUSY_SPINS,
            r is Again ==> final(self).spins() == old(self).spins() + 1,
            r matches Busy::Over(v, res) ==> {
                &&& views(v@) == closing()
                &&& res is Ok <==> sr % 2 == 0
                &&& res matches Err(e) ==> e == FlashError::Timeout
            },
    {
        if sr % 2 == 1 && self.spins + 1 < BUSY_SPINS {
            self.spins = self.spins + 1;
            return Busy::Again;
        }
        let mut v: Vec<Vec<u8>> = Vec::new();
        v.push(one(0xff));
        v.push(one(0x66));
        v.push(one(0x99));
        v.push(one(0xff));
        assert(views(v@) =~= closing());
        Busy::Over(
            v,
            if sr % 2 == 0 {
                Ok(())
            } else {
                Err(FlashError::Timeout)
            },
        )
    }
}

/// Look a function or a data entry of the boot ROM up.
pub fn rom_lookup(rom: &[u8], code: u16) -> (r: u32)
    requires
        rom@.len() == crate::romapi::ROM_END,
    ensures
        r == crate::romapi::looked_up(
            rom@,
            code,
            0x44,
        ),
{
    let c = [(code % 256) as u8, (code / 256) as u8];
    assert(crate::romapi::half(c@, 0) == code);
    let r: usize = crate::romapi::rom_table_lookup(rom, c, 0x44);
    r as u32
}

/// A register write on the way to a restart.
#[derive(Copy, Clone, Debug, PartialEq, Eq, Structural)]
pub enum Restart {
    /// Leave a word for the next start.
    Scratch0(u32),
    /// Choose what is reset.
    Select(u32),
    /// Leave a word for the boot ROM.
    Scratch4(u32),
    /// Let the watchdog run whatever a debugger does.
    ClearControl,
    /// Reset.
    Trigger,
}

/// The register writes that restart the chip, into its boot loader where
/// that is asked for.
pub fn reboot(bootsel: u8) -> (r: [Restart; 5])
    ensures
        r@ == seq![
            Restart::Scratch0(if bootsel != 0 {
                BOOTSEL_MAGIC
            } else {
                0
            }),
            Restart::Select(0xffff_fffe),
            Restart::Scratch4(0),
            Restart::ClearControl,
            Restart::Trigger,
        ],
        // The next start stays in the boot loader when, and only when, that is asked for.
        r@[0] matches Restart::Scratch0(w) && ((w == 0xb007_5e1f) <==> bootsel != 0),
        r@.last() == Restart::Trigger,
{
    let r = [
        Restart::Scratch0(
            if bootsel != 0 {
                BOOTSEL_MAGIC
            } else {
                0
            },
        ),
        Restart::Select(0xffff_fffe),
        Restart::Scratch4(0),
        Restart::ClearControl,
        Restart::Trigger,
    ];
    assert(r@ =~= seq![
        Restart::Scratch0(if bootsel != 0 {
            BOOTSEL_MAGIC
        } else {
            0
        }),
        Restart::Select(0xffff_fffe),
        Restart::Scratch4(0),
        Restart::ClearControl,
        Restart::Trigger,
    ]);
    r
}

/// An address that a command carries is read back as it was given, on a chip
/// of up to sixteen megabytes.
pub proof fn commands_carry_the_address(cmd: u8, offset: u32)
    requires
        offset < 0x100_0000,
    ensures
        command(cmd, offset)[1] * 0x1_0000 + command(cmd, offset)[2] * 0x100 + command(
            cmd,
            offset,
        )[3] == offset,
{
}

/// What is programmed stays within one page, so that the chip does not wrap
/// round to its start.
pub proof fn programs_stay_in_their_page(offset: u32, n: nat, i: int)
    requires
        one_page(offset, n),
        0 <= i < n,
    ensures
        (offset + i) / 256 == offset / 256,
{
}

/// An erase stays within a flash of whole sectors.
pub proof fn erases_stay_in_the_flash(size: u32, offset: u32)
    requires
        size % SECTOR == 0,
        offset < size,
        offset % SECTOR == 0,
    ensures
        offset + SECTOR <= size,
{
}

} // verus!
