//! The file system commands: timestamps, directory lines, and the free space
//! that a card's boot sector and information sector tell.

use crate::text::{self, append, append_pad2, append_str, append_u32, append_u64};
use vstd::prelude::*;

verus! {

/// A calendar time as the FAT layer takes it.
#[derive(Copy, Clone, Debug, PartialEq, Eq, Structural)]
pub struct Timestamp {
    pub year_since_1970: u8,
    pub zero_indexed_month: u8,
    pub zero_indexed_day: u8,
    pub hours: u8,
    pub minutes: u8,
    pub seconds: u8,
}

/// Whether a timestamp is one that a FAT entry can hold.
pub open spec fn fat_time(t: Timestamp) -> bool {
    &&& 10 <= t.year_since_1970 <= 137
    &&& t.zero_indexed_month < 12
    &&& t.zero_indexed_day < 31
    &&& t.hours < 24
    &&& t.minutes < 60
    &&& t.seconds < 60
}

/// Fixed timestamp source, for boards without a clock: the first second of
/// 2025.
#[derive(Copy, Clone, Debug, PartialEq, Eq, Structural)]
pub struct DummyTime;

impl DummyTime {
    /// The fixed time.
    pub fn get_timestamp(&self) -> (t: Timestamp)
        ensures
            t == (Timestamp {
                year_since_1970: 55,
                zero_indexed_month: 0,
                zero_indexed_day: 0,
                hours: 0,
                minutes: 0,
                seconds: 0,
            }),
            fat_time(t),
    {
        Timestamp {
            year_since_1970: 55,
            zero_indexed_month: 0,
            zero_indexed_day: 0,
            hours: 0,
            minutes: 0,
            seconds: 0,
        }
    }
}

/// Byte `i` of a packed clock reading.
pub open spec fn clock_byte(packed: u64, i: u8) -> int {
    match i {
        0 => packed as int % 256,
        1 => packed as int / 0x100 % 256,
        2 => packed as int / 0x1_0000 % 256,
        3 => packed as int / 0x100_0000 % 256,
        4 => packed as int / 0x1_0000_0000 % 256,
        5 => packed as int / 0x100_0000_0000 % 256,
        6 => packed as int / 0x1_0000_0000_0000 % 256,
        _ => 0,
    }
}

/// `n` forced into a range.
pub open spec fn clamped(n: int, low: int, high: int) -> int {
    if n < low {
        low
    } else if n > high {
        high
    } else {
        n
    }
}

fn clamp_byte(n: u64, low: u8, high: u8) -> (r: u8)
    requires
        low <= high,
    ensures
        r == clamped(n as int, low as int, high as int),
{
    if n < low as u64 {
        low
    } else if n > high as u64 {
        high
    } else {
        n as u8
    }
}

/// A clock reading as a source of timestamps.
#[derive(Copy, Clone, Debug, PartialEq, Eq, Structural)]
pub struct RtcTime {
    /// Second, minute, hour, date, month, weekday and year, from the lowest
    /// byte up.
    pub packed: u64,
}

impl RtcTime {
    /// The timestamp of a clock reading, every field forced into its range: an
    /// unset clock must not stamp an invalid date.
    pub fn get_timestamp(&self) -> (t: Timestamp)
        ensures
            t.year_since_1970 == clamped(clock_byte(self.packed, 6), 0, 99) + 30,
            t.zero_indexed_month == clamped(clock_byte(self.packed, 4), 1, 12) - 1,
            t.zero_indexed_day == clamped(clock_byte(self.packed, 3), 1, 31) - 1,
            t.hours == clamped(clock_byte(self.packed, 2), 0, 23),
            t.minutes == clamped(clock_byte(self.packed, 1), 0, 59),
            t.seconds == clamped(clock_byte(self.packed, 0), 0, 59),
            fat_time(t),
    {
        let p: u64 = self.packed;
        Timestamp {
            year_since_1970: clamp_byte(p / 0x1_0000_0000_0000 % 256, 0, 99) + 30,
            zero_indexed_month: clamp_byte(p / 0x1_0000_0000 % 256, 1, 12) - 1,
            zero_indexed_day: clamp_byte(p / 0x100_0000 % 256, 1, 31) - 1,
            hours: clamp_byte(p / 0x1_0000 % 256, 0, 23),
            minutes: clamp_byte(p / 0x100 % 256, 0, 59),
            seconds: clamp_byte(p % 256, 0, 59),
        }
    }
}

/// Blocks that the device claims to have: its true capacity is never asked for.
pub const CLAIMED_BLOCKS: u32 = 0x4000_0000;

/// The block that a transfer of several blocks touches at its `i`th.
pub fn block_at(start: u32, i: u32) -> (r: u32)
    requires
        start + i <= u32::MAX,
    ensures
        r == start + i,
{
    start + i
}

/// A directory entry.
pub struct Entry {
    /// Name and extension of the short name, without padding.
    pub base: Vec<u8>,
    pub ext: Vec<u8>,
    pub directory: bool,
    /// A volume label or a part of a long name.
    pub volume: bool,
    pub size: u32,
    pub modified: Timestamp,
}

/// The line of an entry: its name, a slash behind a directory, its size, and
/// when it was written.
pub open spec fn entry_line(e: Entry) -> Seq<u8> {
    let t = e.modified;
    e.base@ + (if e.ext@.len() > 0 {
        text::lit(".") + e.ext@
    } else {
        Seq::empty()
    }) + (if e.directory {
        text::lit("/")
    } else {
        Seq::empty()
    }) + text::lit("\t") + text::decimal(e.size as nat) + text::lit("\t") + text::decimal(
        (1970 + t.year_since_1970) as nat,
    ) + text::lit("-") + text::pad2((t.zero_indexed_month + 1) as u8) + text::lit("-")
        + text::pad2((t.zero_indexed_day + 1) as u8) + text::lit(" ") + text::pad2(t.hours)
        + text::lit(":") + text::pad2(t.minutes) + text::lit("\r\n")
}

/// The line of an entry; none for a volume label.
pub fn ls_line(e: &Entry) -> (r: Option<Vec<u8>>)
    requires
        e.modified.zero_indexed_month < 255,
        e.modified.zero_indexed_day < 255,
    ensures
        e.volume ==> r is None,
        !e.volume ==> (r matches Some(v) && v@ == entry_line(*e)),
{
    if e.volume {
        return None;
    }
    let t = e.modified;
    let mut v: Vec<u8> = Vec::new();
    append(&mut v, e.base.as_slice());
    if e.ext.len() > 0 {
        append_str(&mut v, ".");
        append(&mut v, e.ext.as_slice());
    }
    if e.directory {
        append_str(&mut v, "/");
    }
    append_str(&mut v, "\t");
    append_u32(&mut v, e.size);
    append_str(&mut v, "\t");
    append_u32(&mut v, 1970 + t.year_since_1970 as u32);
    append_str(&mut v, "-");
    append_pad2(&mut v, t.zero_indexed_month + 1);
    append_str(&mut v, "-");
    append_pad2(&mut v, t.zero_indexed_day + 1);
    append_str(&mut v, " ");
    append_pad2(&mut v, t.hours);
    append_str(&mut v, ":");
    append_pad2(&mut v, t.minutes);
    append_str(&mut v, "\r\n");
    assert(v@ =~= entry_line(*e));
    Some(v)
}

/// A step of a file system command that may fail.
#[derive(Copy, Clone, Debug, PartialEq, Eq, Structural)]
pub enum FatStep {
    OpenVolume,
    OpenRoot,
    /// Finding the file, or for a write opening it.
    OpenFile,
    Read,
    Write,
    Close,
    Delete,
    List,
}

/// A file system command.
#[derive(Copy, Clone, Debug, PartialEq, Eq, Structural)]
pub enum FatCommand {
    Ls,
    Cat,
    Write,
    Rm,
}

/// What is said when a step of a command fails.
pub open spec fn fat_failure_text(c: FatCommand, s: FatStep) -> Seq<u8> {
    let who = match c {
        FatCommand::Ls => text::lit("sd ls: "),
        FatCommand::Cat => text::lit("sd cat: "),
        FatCommand::Write => text::lit("sd write: "),
        FatCommand::Rm => text::lit("sd rm: "),
    };
    (if s == FatStep::Read {
        text::lit("\r\n")
    } else {
        Seq::empty()
    }) + who + (match s {
        FatStep::OpenVolume => text::lit("open volume failed\r\n"),
        FatStep::OpenRoot => text::lit("open root dir failed\r\n"),
        FatStep::OpenFile => if c == FatCommand::Cat {
            text::lit("file not found\r\n")
        } else {
            text::lit("open file failed\r\n")
        },
        FatStep::Read => text::lit("read error\r\n"),
        FatStep::Write => text::lit("write error\r\n"),
        FatStep::Close => text::lit("flush/close error\r\n"),
        FatStep::Delete => text::lit("delete failed (not found?)\r\n"),
        FatStep::List => text::lit("directory read error\r\n"),
    })
}

/// What is said when a step of a command fails.
pub fn fat_failure(c: FatCommand, s: FatStep) -> (v: Vec<u8>)
    ensures
        v@ == fat_failure_text(c, s),
{
    let mut v: Vec<u8> = Vec::new();
    if s == FatStep::Read {
        append_str(&mut v, "\r\n");
    }
    match c {
        FatCommand::Ls => append_str(&mut v, "sd ls: "),
        FatCommand::Cat => append_str(&mut v, "sd cat: "),
        FatCommand::Write => append_str(&mut v, "sd write: "),
        FatCommand::Rm => append_str(&mut v, "sd rm: "),
    }
    match s {
        FatStep::OpenVolume => append_str(&mut v, "open volume failed\r\n"),
        FatStep::OpenRoot => append_str(&mut v, "open root dir failed\r\n"),
        FatStep::OpenFile => {
            if c == FatCommand::Cat {
                append_str(&mut v, "file not found\r\n")
            } else {
                append_str(&mut v, "open file failed\r\n")
            }
        },
        FatStep::Read => append_str(&mut v, "read error\r\n"),
        FatStep::Write => append_str(&mut v, "write error\r\n"),
        FatStep::Close => append_str(&mut v, "flush/close error\r\n"),
        FatStep::Delete => append_str(&mut v, "delete failed (not found?)\r\n"),
        FatStep::List => append_str(&mut v, "directory read error\r\n"),
    }
    assert(v@ =~= fat_failure_text(c, s));
    v
}

/// What ends a listing of `count` entries: an empty directory says so.
pub fn ls_end(count: u32) -> (v: Vec<u8>)
    ensures
        v@ == if count == 0 {
            text::lit("(empty)\r\n")
        } else {
            Seq::empty()
        },
{
    let mut v: Vec<u8> = Vec::new();
    if count == 0 {
        append_str(&mut v, "(empty)\r\n");
        assert(v@ =~= text::lit("(empty)\r\n"));
    }
    v
}

/// What is said when a file of `len` bytes was written.
pub fn fat_written(len: u32) -> (v: Vec<u8>)
    ensures
        v@ == text::lit("wrote ") + text::decimal(len as nat) + text::lit(" bytes\r\n"),
{
    let mut v: Vec<u8> = Vec::new();
    append_str(&mut v, "wrote ");
    append_u32(&mut v, len);
    append_str(&mut v, " bytes\r\n");
    assert(v@ =~= text::lit("wrote ") + text::decimal(len as nat) + text::lit(" bytes\r\n"));
    v
}

/// What is said when a file was deleted.
pub fn fat_removed() -> (v: Vec<u8>)
    ensures
        v@ == text::lit("removed\r\n"),
{
    let mut v: Vec<u8> = Vec::new();
    append_str(&mut v, "removed\r\n");
    assert(v@ =~= text::lit("removed\r\n"));
    v
}

/// Where the printing of a file stands.
#[derive(Copy, Clone, Debug, PartialEq, Eq, Structural)]
pub enum CatNext {
    /// Read on.
    More,
    /// The file is at its end: print a line end.
    Done,
    /// The file cannot be read.
    Failed,
}

/// How printing a file goes on after a read of so many bytes, or a failed one,
/// and the news whether the file is at its end.
pub fn cat_next(read: Option<usize>, at_end: bool) -> (r: CatNext)
    ensures
        r == match read {
            None => CatNext::Failed,
            Some(n) => if n == 0 || at_end {
                CatNext::Done
            } else {
                CatNext::More
            },
        },
{
    match read {
        None => CatNext::Failed,
        Some(n) => {
            if n == 0 || at_end {
                CatNext::Done
            } else {
                CatNext::More
            }
        },
    }
}

/// The 16-bit number at `o`, low byte first.
pub open spec fn half(b: Seq<u8>, o: int) -> nat {
    (b[o] + 0x100 * b[o + 1]) as nat
}

/// The 32-bit number at `o`, low byte first.
pub open spec fn full(b: Seq<u8>, o: int) -> nat {
    (b[o] + 0x100 * b[o + 1] + 0x1_0000 * b[o + 2] + 0x100_0000 * b[o + 3]) as nat
}

fn rd16(b: &[u8], o: usize) -> (r: u32)
    requires
        o + 2 <= b.len(),
    ensures
        r == half(b@, o as int),
        r < 0x1_0000,
{
    b[o] as u32 + 0x100 * (b[o + 1] as u32)
}

fn rd32(b: &[u8], o: usize) -> (r: u32)
    requires
        o + 4 <= b.len(),
    ensures
        r == full(b@, o as int),
{
    b[o] as u32 + 0x100 * (b[o + 1] as u32) + 0x1_0000 * (b[o + 2] as u32) + 0x100_0000 * (
    b[o + 3] as u32)
}

/// Why the space of a volume could not be told.
#[derive(Copy, Clone, Debug, PartialEq, Eq, Structural)]
pub enum DfError {
    ReadMbr,
    NoMbr,
    ReadBoot,
    BadBoot,
    Unsupported,
    BadGeometry,
}

/// What is said of such a failure.
pub open spec fn df_error_text(e: DfError) -> Seq<u8> {
    match e {
        DfError::ReadMbr => text::lit("sd df: read MBR failed\r\n"),
        DfError::NoMbr => text::lit("sd df: no MBR signature\r\n"),
        DfError::ReadBoot => text::lit("sd df: read boot sector failed\r\n"),
        DfError::BadBoot => text::lit("sd df: bad boot signature\r\n"),
        DfError::Unsupported => text::lit("sd df: unsupported geometry\r\n"),
        DfError::BadGeometry => text::lit("sd df: bad geometry\r\n"),
    }
}

/// What is said of such a failure.
pub fn df_error(e: DfError) -> (v: Vec<u8>)
    ensures
        v@ == df_error_text(e),
{
    let mut v: Vec<u8> = Vec::new();
    match e {
        DfError::ReadMbr => append_str(&mut v, "sd df: read MBR failed\r\n"),
        DfError::NoMbr => append_str(&mut v, "sd df: no MBR signature\r\n"),
        DfError::ReadBoot => append_str(&mut v, "sd df: read boot sector failed\r\n"),
        DfError::BadBoot => append_str(&mut v, "sd df: bad boot signature\r\n"),
        DfError::Unsupported => append_str(&mut v, "sd df: unsupported geometry\r\n"),
        DfError::BadGeometry => append_str(&mut v, "sd df: bad geometry\r\n"),
    }
    assert(v@ =~= df_error_text(e));
    v
}

/// Whether a sector ends with the boot signature.
pub open spec fn signed(b: Seq<u8>) -> bool {
    half(b, 510) == 0xAA55
}

/// Where the first partition begins, from the master boot record.
pub fn df_mbr(b: &[u8]) -> (r: Result<u32, DfError>)
    requires
        b@.len() == 512,
    ensures
        !signed(b@) ==> r == Err::<u32, DfError>(DfError::NoMbr),
        signed(b@) ==> r == Ok::<u32, DfError>(full(b@, 454) as u32),
{
    if rd16(b, 510) != 0xAA55 {
        return Err(DfError::NoMbr);
    }
    Ok(rd32(b, 454))
}

/// A volume's size, in clusters and in blocks per cluster, and where its
/// information sector stands, if it has one.
#[derive(Copy, Clone, Debug, PartialEq, Eq)]
pub struct Volume {
    pub clusters: u32,
    pub per_cluster: u32,
    pub info: Option<u32>,
}

/// Blocks of one allocation table: the short field, or the long one.
pub open spec fn table_blocks(b: Seq<u8>) -> nat {
    if half(b, 22) != 0 {
        half(b, 22)
    } else {
        full(b, 36)
    }
}

/// Blocks of the whole volume: the short field, or the long one.
pub open spec fn volume_blocks(b: Seq<u8>) -> nat {
    if half(b, 19) != 0 {
        half(b, 19)
    } else {
        full(b, 32)
    }
}

/// Blocks that hold no data: the reserved ones, the tables, and a fixed root
/// directory.
pub open spec fn overhead_blocks(b: Seq<u8>) -> nat {
    half(b, 14) + b[16] as nat * table_blocks(b) + (32 * half(b, 17) + 511) / 512
}

/// Where the information sector of the volume at `start` stands: only a volume
/// with the long table field has one.
pub open spec fn info_block(b: Seq<u8>, start: u32) -> Option<u32> {
    if half(b, 22) == 0 && start + half(b, 48) <= u32::MAX {
        Some((start + half(b, 48)) as u32)
    } else {
        None
    }
}

/// Read a volume's geometry from its boot sector, which stands at block
/// `start`.
pub fn df_boot(b: &[u8], start: u32) -> (r: Result<Volume, DfError>)
    requires
        b@.len() == 512,
    ensures
        r == if !signed(b@) {
            Err::<Volume, DfError>(DfError::BadBoot)
        } else if half(b@, 11) != 512 || b@[13] == 0 {
            Err(DfError::Unsupported)
        } else if volume_blocks(b@) <= overhead_blocks(b@) {
            Err(DfError::BadGeometry)
        } else {
            Ok(
                Volume {
                    clusters: ((volume_blocks(b@) - overhead_blocks(b@)) / (b@[13] as int)) as u32,
                    per_cluster: b@[13] as u32,
                    info: info_block(b@, start),
                },
            )
        },
{
    if rd16(b, 510) != 0xAA55 {
        return Err(DfError::BadBoot);
    }
    let per_cluster: u32 = b[13] as u32;
    if rd16(b, 11) != 512 || per_cluster == 0 {
        return Err(DfError::Unsupported);
    }
    let short_table: u32 = rd16(b, 22);
    let table: u32 = if short_table != 0 {
        short_table
    } else {
        rd32(b, 36)
    };
    let short_total: u32 = rd16(b, 19);
    let total: u32 = if short_total != 0 {
        short_total
    } else {
        rd32(b, 32)
    };
    let root: u32 = (32 * rd16(b, 17) + 511) / 512;
    let fats: u8 = b[16];
    assert(fats * table <= 255 * 0xFFFF_FFFF) by (nonlinear_arith)
        requires
            fats <= 255,
            table <= 0xFFFF_FFFF,
    ;
    let tables: u64 = (fats as u64) * (table as u64);
    let overhead: u64 = rd16(b, 14) as u64 + tables + root as u64;
    assert(overhead == overhead_blocks(b@));
    if total as u64 <= overhead {
        return Err(DfError::BadGeometry);
    }
    let data: u32 = total - overhead as u32;
    let clusters: u32 = data / per_cluster;
    let offset: u32 = rd16(b, 48);
    let info: Option<u32> = if short_table == 0 && start <= u32::MAX - offset {
        Some(start + offset)
    } else {
        None
    };
    Ok(Volume { clusters, per_cluster, info })
}

/// The free clusters that an information sector tells, if it is one and the
/// count is known and possible.
pub open spec fn free_clusters(b: Seq<u8>, clusters: u32) -> Option<nat> {
    if full(b, 0) == 0x4161_5252 && full(b, 484) == 0x6141_7272 && full(b, 488) != 0xFFFF_FFFF
        && full(b, 488) <= clusters {
        Some(full(b, 488))
    } else {
        None
    }
}

/// Read the free clusters from an information sector.
pub fn df_info(b: &[u8], clusters: u32) -> (r: Option<u32>)
    requires
        b@.len() == 512,
    ensures
        r == match free_clusters(b@, clusters) {
            Some(n) => Some(n as u32),
            None => None,
        },
        r matches Some(n) ==> n <= clusters,
{
    if rd32(b, 0) == 0x4161_5252 && rd32(b, 484) == 0x6141_7272 {
        let n: u32 = rd32(b, 488);
        if n != 0xFFFF_FFFF && n <= clusters {
            return Some(n);
        }
    }
    None
}

/// Whole MiB in a number of clusters.
pub open spec fn mib(clusters: int, per_cluster: u32) -> nat {
    (clusters * (512 * per_cluster) / 0x10_0000) as nat
}

/// The report on a volume's space.
pub open spec fn df_text(clusters: u32, per_cluster: u32, free: Option<u32>) -> Seq<u8> {
    text::lit("total ") + text::decimal(mib(clusters as int, per_cluster)) + text::lit(" MiB")
        + match free {
        Some(n) => text::lit(", used ") + text::decimal(mib(clusters - n, per_cluster))
            + text::lit(" MiB, free ") + text::decimal(mib(n as int, per_cluster)) + text::lit(
            " MiB (FSInfo cached free-count, may be stale)\r\n",
        ),
        None => text::lit(", used/free unknown (no valid FSInfo; real df scans the FAT)\r\n"),
    }
}

fn in_mib(clusters: u32, per_cluster: u32) -> (r: u64)
    requires
        per_cluster <= 255,
    ensures
        r == mib(clusters as int, per_cluster),
{
    let each: u64 = 512 * (per_cluster as u64);
    assert(clusters * each <= 0xFFFF_FFFF * 130_560) by (nonlinear_arith)
        requires
            clusters <= 0xFFFF_FFFF,
            each <= 130_560,
    ;
    (clusters as u64) * each / 0x10_0000
}

/// The report on a volume's space: total, and used and free where known.
pub fn df_report(v: &Volume, free: Option<u32>) -> (r: Vec<u8>)
    requires
        v.per_cluster <= 255,
        free matches Some(n) ==> n <= v.clusters,
    ensures
        r@ == df_text(v.clusters, v.per_cluster, free),
{
    let mut r: Vec<u8> = Vec::new();
    append_str(&mut r, "total ");
    append_u64(&mut r, in_mib(v.clusters, v.per_cluster));
    append_str(&mut r, " MiB");
    match free {
        Some(n) => {
            append_str(&mut r, ", used ");
            append_u64(&mut r, in_mib(v.clusters - n, v.per_cluster));
            append_str(&mut r, " MiB, free ");
            append_u64(&mut r, in_mib(n, v.per_cluster));
            append_str(&mut r, " MiB (FSInfo cached free-count, may be stale)\r\n");
        },
        None => {
            append_str(
                &mut r,
                ", used/free unknown (no valid FSInfo; real df scans the FAT)\r\n",
            );
        },
    }
    assert(r@ =~= df_text(v.clusters, v.per_cluster, free));
    r
}

/// Used and free space never add up to more than the whole.
pub proof fn used_and_free_fit(clusters: u32, per_cluster: u32, free: u32)
    requires
        free <= clusters,
    ensures
        mib(clusters - free, per_cluster) + mib(free as int, per_cluster) <= mib(
            clusters as int,
            per_cluster,
        ),
{
    let each = 512 * per_cluster;
    let used = clusters - free;
    assert(used * each + free * each == clusters * each) by (nonlinear_arith)
        requires
            used + free == clusters,
    ;
    assert(used * each >= 0 && free * each >= 0) by (nonlinear_arith)
        requires
            used >= 0,
            free >= 0,
            each >= 0,
    ;
}

/// A clock that is set stamps its own time: every field of the timestamp is that
/// of the clock, the year counted from 1970 and month and day from zero.
pub proof fn stamps_tell_the_clock(t: crate::ds1302::Time)
    requires
        crate::ds1302::in_range(t),
    ensures
        ({
            let p = crate::ds1302::packed(t) as u64;
            &&& clamped(clock_byte(p, 6), 0, 99) + 30 + 1970 == 2000 + t.year
            &&& clamped(clock_byte(p, 4), 1, 12) == t.month
            &&& clamped(clock_byte(p, 3), 1, 31) == t.date
            &&& clamped(clock_byte(p, 2), 0, 23) == t.hour
            &&& clamped(clock_byte(p, 1), 0, 59) == t.min
            &&& clamped(clock_byte(p, 0), 0, 59) == t.sec
        }),
{
    crate::ds1302::unpacking_undoes_packing(t);
}

proof fn entry_words()
    ensures
        text::words_only(text::lit("\t")),
        text::words_only(text::lit("-")),
        text::words_only(text::lit(" ")),
        text::words_only(text::lit(":")),
        text::lit("\r\n").len() > 0,
        !text::digit(text::lit("\r\n")[0]),
{
    reveal_strlit("\t");
    reveal_strlit("-");
    reveal_strlit(" ");
    reveal_strlit(":");
    reveal_strlit("\r\n");
    vstd::utf8::is_ascii_chars_encode_utf8("\t"@);
    vstd::utf8::is_ascii_chars_encode_utf8("-"@);
    vstd::utf8::is_ascii_chars_encode_utf8(" "@);
    vstd::utf8::is_ascii_chars_encode_utf8(":"@);
    vstd::utf8::is_ascii_chars_encode_utf8("\r\n"@);
}

/// A listed file shows its name first, with a dot before the extension and a slash
/// behind a directory.
#[verifier::spinoff_prover]
#[verifier::rlimit(40)]
pub proof fn entries_begin_with_their_name(e: Entry)
    ensures
        ({
            let s = entry_line(e);
            let k = e.base@.len() as int;
            let m = k + 1 + e.ext@.len();
            let behind = if e.directory {
                '/' as u8
            } else {
                '\t' as u8
            };
            &&& s.take(k) == e.base@
            &&& e.ext@.len() > 0 ==> s[k] == '.' as u8 && s.subrange(k + 1, m) == e.ext@ && s[m]
                == behind
            &&& e.ext@.len() == 0 ==> s[k] == behind
        }),
{
    assert(text::lit(".") =~= [46u8]@ && text::lit("/") =~= [47u8]@ && text::lit("\t")
        =~= [9u8]@) by {
        reveal_strlit(".");
        reveal_strlit("/");
        reveal_strlit("\t");
        vstd::utf8::is_ascii_chars_encode_utf8("."@);
        vstd::utf8::is_ascii_chars_encode_utf8("/"@);
        vstd::utf8::is_ascii_chars_encode_utf8("\t"@);
    }
    let s = entry_line(e);
    let k = e.base@.len() as int;
    assert(s.take(k) =~= e.base@);
    if e.ext@.len() > 0 {
        assert(s.subrange(k + 1, k + 1 + e.ext@.len()) =~= e.ext@);
    }
}

/// The name with which an entry is listed.
pub open spec fn listed_name(e: Entry) -> Seq<u8> {
    e.base@ + (if e.ext@.len() > 0 {
        text::lit(".") + e.ext@
    } else {
        Seq::empty()
    }) + (if e.directory {
        text::lit("/")
    } else {
        Seq::empty()
    })
}

/// Behind its name, an entry's line says its size and then its time: year, month,
/// day, hour and minute, as a calendar has them.
#[verifier::spinoff_prover]
#[verifier::rlimit(40)]
pub proof fn entries_say_size_and_time(e: Entry)
    requires
        fat_time(e.modified),
    ensures
        ({
            let n = text::numbers_in(listed_name(e)).len() as int;
            let all = text::numbers_in(entry_line(e));
            let t = e.modified;
            all.subrange(n, n + 6) == seq![
                e.size as int,
                1970 + t.year_since_1970,
                t.zero_indexed_month + 1,
                t.zero_indexed_day + 1,
                t.hours as int,
                t.minutes as int,
            ]
        }),
{
    entry_words();
    let t = e.modified;
    let (year, month, day) = (
        (1970 + t.year_since_1970) as nat,
        (t.zero_indexed_month + 1) as u8,
        (t.zero_indexed_day + 1) as u8,
    );
    let s0 = listed_name(e);
    let s1 = s0 + text::lit("\t") + text::decimal(e.size as nat);
    let s2 = s1 + text::lit("\t") + text::decimal(year);
    let s3 = s2 + text::lit("-") + text::pad2(month);
    let s4 = s3 + text::lit("-") + text::pad2(day);
    let s5 = s4 + text::lit(" ") + text::pad2(t.hours);
    let s6 = s5 + text::lit(":") + text::pad2(t.minutes);
    text::words_then_a_number(s0, text::lit("\t"), e.size as nat);
    text::words_then_a_number(s1, text::lit("\t"), year);
    text::words_then_two_digits(s2, text::lit("-"), month);
    text::words_then_two_digits(s3, text::lit("-"), day);
    text::words_then_two_digits(s4, text::lit(" "), t.hours);
    text::words_then_two_digits(s5, text::lit(":"), t.minutes);
    text::the_end_keeps_the_numbers(s6, text::lit("\r\n"));
    let x = entry_line(e);
    assert(x == s6 + text::lit("\r\n"));
    let n = text::numbers_in(s0).len() as int;
    let a = text::numbers_in(x);
    let b = text::numbers_in(s6);
    assert(a.take(b.len() as int) == b);
    assert(a.subrange(n, n + 6) =~= b.subrange(n, n + 6)) by {
        assert forall|i: int| n <= i < n + 6 implies a[i] == b[i] by {
            assert(a.take(b.len() as int)[i] == a[i]);
        }
    }
}

/// The clusters of a volume are all that fit behind its tables, and sizes are said
/// in whole megabytes, rounded down.
pub proof fn volumes_are_filled(data: int, per_cluster: u32, clusters: u32)
    requires
        data >= 0,
        per_cluster > 0,
    ensures
        data / per_cluster as int * per_cluster <= data < (data / per_cluster as int + 1)
            * per_cluster,
        mib(clusters as int, per_cluster) * 0x10_0000 <= clusters * (512 * per_cluster) < (mib(
            clusters as int,
            per_cluster,
        ) + 1) * 0x10_0000,
{
    let d = per_cluster as int;
    vstd::arithmetic::div_mod::lemma_fundamental_div_mod(data, d);
    vstd::arithmetic::div_mod::lemma_mod_bound(data, d);
    assert(d * (data / d) == data / d * d) by (nonlinear_arith);
    assert((data / d + 1) * d == data / d * d + d) by (nonlinear_arith);
    assert(clusters * (512 * per_cluster) >= 0) by (nonlinear_arith);
}

} // verus!
