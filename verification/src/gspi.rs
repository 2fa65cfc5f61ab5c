//! The Wi-Fi chip's gSPI bus: command words, backplane windows, streaming into
//! the chip's memory, and the bring-up as a machine that says which transfers
//! come next and takes in what the chip answered.

use crate::words::{self, word_at};
use vstd::prelude::*;

verus! {

/// The chip's board configuration, as its memory holds it.
pub const NVRAM: [u32; 186] = [
    0x4152564e, 0x7665524d, 0x6552243d, 0x6d002476, 0x69666e61, 0x78303d64,
    0x00306432, 0x646f7270, 0x303d6469, 0x32373078, 0x65760037, 0x6469646e,
    0x3178303d, 0x00346534, 0x69766564, 0x78303d64, 0x32653334, 0x616f6200,
    0x79746472, 0x303d6570, 0x38383078, 0x6f620037, 0x72647261, 0x303d7665,
    0x30313178, 0x6f620030, 0x6e647261, 0x323d6d75, 0x616d0032, 0x64646163,
    0x30303d72, 0x3a30413a, 0x623a3035, 0x39353a35, 0x0065353a, 0x6d6f7273,
    0x3d766572, 0x62003131, 0x6472616f, 0x67616c66, 0x78303d73, 0x30343030,
    0x31303034, 0x616f6200, 0x6c666472, 0x33736761, 0x3078303d, 0x30303034,
    0x00303030, 0x6c617478, 0x71657266, 0x3437333d, 0x6e003030, 0x6372636f,
    0x6100313d, 0x323d3067, 0x61003535, 0x3d673261, 0x63630031, 0x3d65646f,
    0x004c4c41, 0x69306170, 0x69737374, 0x78303d74, 0x65003032, 0x61707478,
    0x6e696167, 0x303d6732, 0x32617000, 0x3d306761, 0x3836312d, 0x3631372c,
    0x382d2c31, 0x41003032, 0x696d5676, 0x30635f64, 0x3078303d, 0x6378302c,
    0x63630038, 0x7277706b, 0x7366666f, 0x3d307465, 0x616d0035, 0x67327078,
    0x383d3061, 0x78740034, 0x62727770, 0x666f6b63, 0x6300363d, 0x77626b63,
    0x67323032, 0x303d6f70, 0x67656c00, 0x6d64666f, 0x30327762, 0x6f706732,
    0x3678303d, 0x31313136, 0x00313131, 0x6273636d, 0x32303277, 0x3d6f7067,
    0x37377830, 0x31313137, 0x70003131, 0x62706f72, 0x32303277, 0x3d6f7067,
    0x64647830, 0x64666f00, 0x6769646d, 0x746c6966, 0x65707974, 0x0038313d,
    0x6d64666f, 0x66676964, 0x74746c69, 0x62657079, 0x38313d65, 0x70617000,
    0x646f6d64, 0x00313d65, 0x64706170, 0x696c6176, 0x73657464, 0x00313d74,
    0x61636170, 0x7864696c, 0x343d6732, 0x61700035, 0x70656470, 0x66666f73,
    0x3d746573, 0x0030332d, 0x64706170, 0x69646e65, 0x353d7864, 0x746c0038,
    0x6d786365, 0x303d7875, 0x65746c00, 0x61707863, 0x6d756e64, 0x3078303d,
    0x00323031, 0x6365746c, 0x736e6678, 0x303d6c65, 0x00343478, 0x6365746c,
    0x69636778, 0x6f697067, 0x3078303d, 0x6c690031, 0x63616d30, 0x72646461,
    0x3a30303d, 0x343a3039, 0x35633a63, 0x3a32313a, 0x77003833, 0x6469306c,
    0x3478303d, 0x00623133, 0x64616564, 0x5f6e616d, 0x303d6f74, 0x66666678,
    0x66666666, 0x756d0066, 0x616e6578, 0x78303d62, 0x00303031, 0x72757073,
    0x666e6f63, 0x303d6769, 0x67003378, 0x6374696c, 0x61625f68, 0x5f646573,
    0x6d737263, 0x313d6e69, 0x63746200, 0x646f6d5f, 0x00313d65, 0x00000000,
];

/// Core wrapper registers.
pub const IOCTRL: u32 = 0x408;

pub const RESETCTRL: u32 = 0x800;

/// Wrapper of the WLAN core.
pub const WLAN_WRAP: u32 = 0x1810_3000;

/// Wrapper and base of the memory core.
pub const SOCSRAM_WRAP: u32 = 0x1810_4000;

pub const SOCSRAM_BASE: u32 = 0x1800_4000;

/// Size of the chip's memory.
pub const RAM_SIZE: u32 = 0x8_0000;

/// Bytes in a backplane window.
pub const WINDOW: u32 = 0x8000;

/// What the chip's test register reads.
pub const TEST_PATTERN: u32 = 0xFEED_BEAD;

/// The command word of a transfer: direction, increment, function, address and
/// length.
pub open spec fn command(write: bool, func: u32, addr: u32, len: u32) -> u32 {
    ((if write {
        0x8000_0000int
    } else {
        0
    }) + 0x4000_0000 + 0x1000_0000 * func + 0x800 * addr + len) as u32
}

/// The command word of a transfer.
pub fn cmd_word(write: bool, func: u32, addr: u32, len: u32) -> (r: u32)
    requires
        func < 4,
        addr < 0x2_0000,
        len < 0x800,
    ensures
        r == command(write, func, addr, len),
{
    let w: u32 = if write {
        0x8000_0000
    } else {
        0
    };
    w + 0x4000_0000 + 0x1000_0000 * func + 0x800 * addr + len
}

/// The two halves of a word exchanged.
pub open spec fn halves_swapped(x: u32) -> u32 {
    (0x1_0000 * (x % 0x1_0000) + x / 0x1_0000) as u32
}

/// Exchange the two halves of a word.
pub fn swap16(x: u32) -> (r: u32)
    ensures
        r == halves_swapped(x),
{
    0x1_0000 * (x % 0x1_0000) + x / 0x1_0000
}

/// Exchanging the halves twice changes nothing.
pub proof fn swap16_undoes_itself(x: u32)
    ensures
        halves_swapped(halves_swapped(x)) == x,
{
}

/// A command word tells its four fields apart.
pub proof fn command_fields(write: bool, func: u32, addr: u32, len: u32)
    requires
        func < 4,
        addr < 0x2_0000,
        len < 0x800,
    ensures
        command(write, func, addr, len) % 0x800 == len,
        command(write, func, addr, len) / 0x800 % 0x2_0000 == addr,
        command(write, func, addr, len) / 0x1000_0000 % 4 == func,
        (command(write, func, addr, len) / 0x8000_0000 == 1) == write,
{
    let w = command(write, func, addr, len);
    let top = (if write {
        8int
    } else {
        0
    }) + 4 + func;
    assert(w == 0x1000_0000 * top + 0x800 * addr + len);
    assert(w == 0x800 * (0x2_0000 * top + addr) + len);
    assert(w / 0x800 == 0x2_0000 * top + addr);
}

/// One operation on the bus.
pub enum BusOp {
    /// Clock these words out, then this many in.
    Transfer { out: Vec<u32>, read: usize },
    /// Spin for this many cycles.
    Delay { cycles: u32 },
    /// Sleep.
    Sleep { ms: u32 },
}

/// An operation in the abstract.
#[verifier::ext_equal]
pub enum BusAct {
    Transfer { out: Seq<u32>, read: nat },
    Delay { cycles: u32 },
    Sleep { ms: u32 },
}

impl BusOp {
    /// What the operation does.
    pub open spec fn view(&self) -> BusAct {
        match self {
            BusOp::Transfer { out, read } => BusAct::Transfer { out: out@, read: *read as nat },
            BusOp::Delay { cycles } => BusAct::Delay { cycles: *cycles },
            BusOp::Sleep { ms } => BusAct::Sleep { ms: *ms },
        }
    }
}

/// What a list of operations does.
pub open spec fn acts(ops: Seq<BusOp>) -> Seq<BusAct> {
    Seq::new(ops.len(), |i: int| ops[i]@)
}

/// Write one value.
pub open spec fn wr(func: u32, addr: u32, len: u32, val: u32) -> BusAct {
    BusAct::Transfer { out: seq![command(true, func, addr, len), val], read: 1 }
}

/// Read `n` words.
pub open spec fn rd(func: u32, addr: u32, len: u32, n: nat) -> BusAct {
    BusAct::Transfer { out: seq![command(false, func, addr, len)], read: n }
}

/// Move the backplane window to where `addr` lies in it.
pub open spec fn window(addr: u32) -> Seq<BusAct> {
    let base = (addr - addr % WINDOW) as u32;
    seq![
        wr(1, 0x1000C, 1, base / 0x100_0000),
        wr(1, 0x1000B, 1, base / 0x1_0000 % 0x100),
        wr(1, 0x1000A, 1, base / 0x100 % 0x100),
    ]
}

/// Read a byte of the backplane.
pub open spec fn read8(addr: u32) -> Seq<BusAct> {
    window(addr) + seq![rd(1, addr % WINDOW, 1, 2)]
}

/// Write a byte of the backplane.
pub open spec fn write8(addr: u32, val: u32) -> Seq<BusAct> {
    window(addr) + seq![wr(1, addr % WINDOW, 1, val)]
}

/// Read a word of the backplane.
pub open spec fn read32(addr: u32) -> Seq<BusAct> {
    window(addr) + seq![rd(1, (addr % WINDOW + WINDOW) as u32, 4, 2)]
}

/// Write a word of the backplane.
pub open spec fn write32(addr: u32, val: u32) -> Seq<BusAct> {
    window(addr) + seq![wr(1, (addr % WINDOW + WINDOW) as u32, 4, val)]
}

fn push_op(ops: &mut Vec<BusOp>, op: BusOp)
    ensures
        acts(final(ops)@) == acts(old(ops)@) + seq![op@],
{
    ops.push(op);
    assert(acts(ops@) =~= acts(old(ops)@) + seq![op@]);
}

fn push_pair(ops: &mut Vec<BusOp>, a: u32, b: u32)
    ensures
        acts(final(ops)@) == acts(old(ops)@) + seq![
            BusAct::Transfer { out: seq![a, b], read: 1 },
        ],
{
    let mut out: Vec<u32> = Vec::new();
    out.push(a);
    out.push(b);
    assert(out@ =~= seq![a, b]);
    push_op(ops, BusOp::Transfer { out, read: 1 });
}

fn push_wr(ops: &mut Vec<BusOp>, func: u32, addr: u32, len: u32, val: u32)
    requires
        func < 4,
        addr < 0x2_0000,
        len < 0x800,
    ensures
        acts(final(ops)@) == acts(old(ops)@) + seq![wr(func, addr, len, val)],
{
    push_pair(ops, cmd_word(true, func, addr, len), val);
}

fn push_rd(ops: &mut Vec<BusOp>, func: u32, addr: u32, len: u32, n: usize)
    requires
        func < 4,
        addr < 0x2_0000,
        len < 0x800,
    ensures
        acts(final(ops)@) == acts(old(ops)@) + seq![rd(func, addr, len, n as nat)],
{
    let mut out: Vec<u32> = Vec::new();
    out.push(cmd_word(false, func, addr, len));
    assert(out@ =~= seq![command(false, func, addr, len)]);
    push_op(ops, BusOp::Transfer { out, read: n });
}

/// Move the backplane window.
fn bp_set_window(ops: &mut Vec<BusOp>, addr: u32)
    ensures
        acts(final(ops)@) == acts(old(ops)@) + window(addr),
{
    let ghost start = acts(ops@);
    let base: u32 = addr - addr % WINDOW;
    push_wr(ops, 1, 0x1000C, 1, base / 0x100_0000);
    push_wr(ops, 1, 0x1000B, 1, base / 0x1_0000 % 0x100);
    push_wr(ops, 1, 0x1000A, 1, base / 0x100 % 0x100);
    assert(acts(ops@) =~= start + window(addr));
}

fn bp_read8(ops: &mut Vec<BusOp>, addr: u32)
    ensures
        acts(final(ops)@) == acts(old(ops)@) + read8(addr),
{
    let ghost start = acts(ops@);
    bp_set_window(ops, addr);
    push_rd(ops, 1, addr % WINDOW, 1, 2);
    assert(acts(ops@) =~= start + read8(addr));
}

fn bp_write8(ops: &mut Vec<BusOp>, addr: u32, val: u32)
    ensures
        acts(final(ops)@) == acts(old(ops)@) + write8(addr, val),
{
    let ghost start = acts(ops@);
    bp_set_window(ops, addr);
    push_wr(ops, 1, addr % WINDOW, 1, val);
    assert(acts(ops@) =~= start + write8(addr, val));
}

fn bp_read32(ops: &mut Vec<BusOp>, addr: u32)
    ensures
        acts(final(ops)@) == acts(old(ops)@) + read32(addr),
{
    let ghost start = acts(ops@);
    bp_set_window(ops, addr);
    push_rd(ops, 1, addr % WINDOW + WINDOW, 4, 2);
    assert(acts(ops@) =~= start + read32(addr));
}

fn bp_write32(ops: &mut Vec<BusOp>, addr: u32, val: u32)
    ensures
        acts(final(ops)@) == acts(old(ops)@) + write32(addr, val),
{
    let ghost start = acts(ops@);
    bp_set_window(ops, addr);
    push_wr(ops, 1, addr % WINDOW + WINDOW, 4, val);
    assert(acts(ops@) =~= start + write32(addr, val));
}

/// Words that `n` bytes take.
pub open spec fn words_for(n: int) -> int {
    (n + 3) / 4
}

/// Words of the burst that begins with word `i` of `n`: at most sixteen, and
/// none past the end of the window.
pub open spec fn burst_len(dest: u32, i: int, n: int) -> int {
    let room = (WINDOW - (dest + 4 * i) % (WINDOW as int)) / 4;
    let left = n - i;
    if room <= 16 && room <= left {
        room
    } else if left <= 16 {
        left
    } else {
        16
    }
}

/// One burst: the window, then the command with the words behind it.
pub open spec fn burst(dest: u32, src: Seq<u8>, i: int, k: int) -> Seq<BusAct> {
    let addr = (dest + 4 * i) as u32;
    window(addr) + seq![
        BusAct::Transfer {
            out: seq![command(true, 1, (addr % WINDOW + WINDOW) as u32, (4 * k) as u32)]
                + words::packed(src, (i + k) as nat).skip(i),
            read: 1,
        },
    ]
}

/// The bursts that carry the words of `src` from word `i` on.
pub open spec fn stream_from(dest: u32, src: Seq<u8>, i: int) -> Seq<BusAct>
    decreases words_for(src.len() as int) - i,
{
    let n = words_for(src.len() as int);
    let k = burst_len(dest, i, n);
    if i < 0 || i >= n || k < 1 {
        Seq::empty()
    } else {
        burst(dest, src, i, k) + stream_from(dest, src, i + k)
    }
}

proof fn burst_len_bounds(dest: u32, i: int, n: int)
    requires
        0 <= i < n,
        dest % 4 == 0,
    ensures
        1 <= burst_len(dest, i, n) <= 16,
        i + burst_len(dest, i, n) <= n,
        4 * burst_len(dest, i, n) <= WINDOW - (dest + 4 * i) % (WINDOW as int),
{
    let a = (dest + 4 * i) % (WINDOW as int);
    assert(a % 4 == 0);
    assert(a < WINDOW);
}

/// A burst never crosses the end of the backplane window, and carries at most
/// sixteen words.
pub proof fn bursts_stay_in_their_window(dest: u32, i: int, n: int)
    requires
        0 <= i < n,
        dest % 4 == 0,
    ensures
        burst_len(dest, i, n) <= 16,
        (dest + 4 * i) / (WINDOW as int) == (dest + 4 * (i + burst_len(dest, i, n)) - 1) / (
        WINDOW as int),
{
    burst_len_bounds(dest, i, n);
    let a = dest + 4 * i;
    let k = burst_len(dest, i, n);
    let q = a / (WINDOW as int);
    let r = a % (WINDOW as int);
    assert(a == 0x8000 * q + r);
    assert(a + 4 * k - 1 == 0x8000 * q + (r + 4 * k - 1));
}

/// The words that a list of operations writes behind burst commands, in order.
pub open spec fn carried(a: Seq<BusAct>) -> Seq<u32>
    decreases a.len(),
{
    if a.len() == 0 {
        Seq::empty()
    } else {
        carried(a.drop_last()) + match a.last() {
            BusAct::Transfer { out, .. } if out.len() > 0 && out[0] / 0x800 % 0x2_0000 < 0x1_0000
                && out[0] / 0x800 % 0x2_0000 >= WINDOW => out.skip(1),
            _ => Seq::empty(),
        }
    }
}

proof fn carried_splits(a: Seq<BusAct>, b: Seq<BusAct>)
    ensures
        carried(a + b) == carried(a) + carried(b),
    decreases b.len(),
{
    if b.len() == 0 {
        assert(a + b =~= a);
        assert(carried(a) + Seq::<u32>::empty() =~= carried(a));
    } else {
        assert((a + b).drop_last() =~= a + b.drop_last());
        carried_splits(a, b.drop_last());
        assert(carried(a + b) =~= carried(a) + carried(b));
    }
}

proof fn window_carries_nothing(addr: u32)
    ensures
        carried(window(addr)) == Seq::<u32>::empty(),
{
    reveal_with_fuel(carried, 4);
    let base = (addr - addr % WINDOW) as u32;
    command_fields(true, 1, 0x1000C, 1);
    command_fields(true, 1, 0x1000B, 1);
    command_fields(true, 1, 0x1000A, 1);
    let w = window(addr);
    assert(w.drop_last().drop_last().drop_last() =~= Seq::<BusAct>::empty());
    assert(carried(w) =~= Seq::<u32>::empty());
}

proof fn burst_carries_its_words(dest: u32, src: Seq<u8>, i: int, k: int)
    requires
        0 <= i,
        1 <= k <= 16,
        dest + 4 * i <= u32::MAX,
    ensures
        carried(burst(dest, src, i, k)) == words::packed(src, (i + k) as nat).skip(i),
{
    let addr = (dest + 4 * i) as u32;
    let b = burst(dest, src, i, k);
    window_carries_nothing(addr);
    command_fields(true, 1, (addr % WINDOW + WINDOW) as u32, (4 * k) as u32);
    assert(b.drop_last() =~= window(addr));
    let out = b.last()->Transfer_out;
    assert(out.skip(1) =~= words::packed(src, (i + k) as nat).skip(i));
    assert(carried(b) =~= words::packed(src, (i + k) as nat).skip(i));
}

/// Streaming carries every word of the bytes exactly once and in order, the
/// last one filled up with zeros.
pub proof fn stream_carries_the_bytes(dest: u32, src: Seq<u8>, i: int)
    requires
        dest % 4 == 0,
        dest + src.len() <= u32::MAX,
        0 <= i <= words_for(src.len() as int),
    ensures
        carried(stream_from(dest, src, i)) == words::packed(
            src,
            words_for(src.len() as int) as nat,
        ).skip(i),
    decreases words_for(src.len() as int) - i,
{
    let n = words_for(src.len() as int);
    let all = words::packed(src, n as nat);
    if i < n {
        burst_len_bounds(dest, i, n);
        let k = burst_len(dest, i, n);
        burst_carries_its_words(dest, src, i, k);
        stream_carries_the_bytes(dest, src, i + k);
        carried_splits(burst(dest, src, i, k), stream_from(dest, src, i + k));
        assert(words::packed(src, (i + k) as nat).skip(i) + all.skip(i + k) =~= all.skip(i));
    } else {
        assert(all.skip(i) =~= Seq::<u32>::empty());
    }
}

/// Stream bytes into the chip's memory, in bursts that never cross a window. A
/// partial last word is filled up with zeros.
fn bp_stream_bytes(ops: &mut Vec<BusOp>, dest: u32, src: &[u8])
    requires
        dest % 4 == 0,
        dest + src.len() <= 0xFFFF_FFF0,
    ensures
        acts(final(ops)@) == acts(old(ops)@) + stream_from(dest, src@, 0),
{
    let ghost start = acts(ops@);
    let n: usize = src.len() / 4 + if src.len() % 4 == 0 {
        0usize
    } else {
        1
    };
    assert(n == words_for(src@.len() as int));
    let mut i: usize = 0;
    assert(start + stream_from(dest, src@, 0) =~= acts(ops@) + stream_from(dest, src@, 0));
    while i < n
        invariant
            i <= n,
            n == words_for(src@.len() as int),
            dest % 4 == 0,
            dest + src.len() <= 0xFFFF_FFF0,
            acts(ops@) + stream_from(dest, src@, i as int) == start + stream_from(dest, src@, 0),
        decreases n - i,
    {
        proof {
            burst_len_bounds(dest, i as int, n as int);
        }
        let ghost before = acts(ops@);
        let addr: u32 = dest + 4 * (i as u32);
        let room: usize = ((WINDOW - addr % WINDOW) / 4) as usize;
        let left: usize = n - i;
        let k: usize = if room <= 16 && room <= left {
            room
        } else if left <= 16 {
            left
        } else {
            16
        };
        assert(k == burst_len(dest, i as int, n as int));
        bp_set_window(ops, addr);
        let mut out: Vec<u32> = Vec::new();
        let head: u32 = cmd_word(true, 1, addr % WINDOW + WINDOW, 4 * (k as u32));
        out.push(head);
        let mut j: usize = 0;
        assert(out@ =~= seq![head] + words::packed(src@, i as nat).skip(i as int));
        while j < k
            invariant
                j <= k <= 16,
                i + k <= n,
                n == words_for(src@.len() as int),
                dest + src.len() <= 0xFFFF_FFF0,
                out@ == seq![head] + words::packed(src@, (i + j) as nat).skip(i as int),
            decreases k - j,
        {
            out.push(word_at(src, i + j));
            j = j + 1;
            assert(out@ =~= seq![head] + words::packed(src@, (i + j) as nat).skip(i as int));
        }
        push_op(ops, BusOp::Transfer { out, read: 1 });
        assert(acts(ops@) =~= before + burst(dest, src@, i as int, k as int));
        assert(acts(ops@) + stream_from(dest, src@, i + k) =~= before + (burst(
            dest,
            src@,
            i as int,
            k as int,
        ) + stream_from(dest, src@, i + k)));
        i = i + k;
    }
    assert(acts(ops@) + Seq::<BusAct>::empty() =~= acts(ops@));
}

/// Put a core into reset.
pub open spec fn disable(base: u32) -> Seq<BusAct> {
    write8((base + IOCTRL) as u32, 0) + read8((base + IOCTRL) as u32) + write8(
        (base + RESETCTRL) as u32,
        1,
    ) + read8((base + RESETCTRL) as u32)
}

/// Take a core out of reset.
pub open spec fn reset_up(base: u32) -> Seq<BusAct> {
    write8((base + IOCTRL) as u32, 3) + read8((base + IOCTRL) as u32) + write8(
        (base + RESETCTRL) as u32,
        0,
    ) + seq![BusAct::Delay { cycles: 200_000 }] + write8((base + IOCTRL) as u32, 1) + read8(
        (base + IOCTRL) as u32,
    ) + seq![BusAct::Delay { cycles: 200_000 }]
}

fn disable_core(ops: &mut Vec<BusOp>, base: u32)
    requires
        base <= 0x2000_0000,
    ensures
        acts(final(ops)@) == acts(old(ops)@) + disable(base),
{
    let ghost start = acts(ops@);
    bp_write8(ops, base + IOCTRL, 0);
    bp_read8(ops, base + IOCTRL);
    bp_write8(ops, base + RESETCTRL, 1);
    bp_read8(ops, base + RESETCTRL);
    assert(acts(ops@) =~= start + disable(base));
}

fn reset_core_up(ops: &mut Vec<BusOp>, base: u32)
    requires
        base <= 0x2000_0000,
    ensures
        acts(final(ops)@) == acts(old(ops)@) + reset_up(base),
{
    let ghost start = acts(ops@);
    bp_write8(ops, base + IOCTRL, 3);
    bp_read8(ops, base + IOCTRL);
    bp_write8(ops, base + RESETCTRL, 0);
    push_op(ops, BusOp::Delay { cycles: 200_000 });
    bp_write8(ops, base + IOCTRL, 1);
    bp_read8(ops, base + IOCTRL);
    push_op(ops, BusOp::Delay { cycles: 200_000 });
    assert(acts(ops@) =~= start + reset_up(base));
}

/// Most bytes that are read from a blob at once.
pub const PIECE: u32 = 128;

/// Most bytes of regulatory data that the load request holds.
pub const CLM_MAX: u32 = 984;

/// Where the bring-up stands: which answer it waits for.
#[derive(Copy, Clone, Debug, PartialEq, Eq, Structural)]
pub enum Phase {
    /// The test register, read this often before.
    Detect { pass: u32 },
    /// The low-power clock, polled this often before.
    Alp { spin: u32 },
    /// The chip's identity.
    ChipId,
    /// Whether the WLAN core is in reset.
    WlanReset,
    /// Whether the memory core is in reset.
    SocReset,
    /// Where the firmware lies.
    FindFirmware,
    /// A piece of the firmware; `off` bytes were written.
    Firmware { pos: u32, end: u32, off: u32 },
    /// The firmware read back at three places.
    Check0,
    Check1,
    Check2,
    /// The WLAN core's control register.
    CoreIo,
    /// The WLAN core's reset register.
    CoreReset { io: u32 },
    /// The high-throughput clock, polled this often before.
    Ht { spin: u32 },
    /// The data function, polled this often before.
    F2 { spin: u32 },
    /// Where the regulatory data lies.
    FindClm,
    /// A piece of the regulatory data.
    Clm { pos: u32, end: u32 },
    /// The control requests.
    Control,
    /// Nothing more: a blob could not be read.
    Failed,
}

/// What the bring-up asks for, once the operations were performed.
#[derive(Copy, Clone, Debug, PartialEq, Eq, Structural)]
pub enum Ask {
    /// The words that the last transfer read.
    Words,
    /// Where the firmware blob lies.
    FindFirmware,
    /// Where the regulatory blob lies.
    FindClm,
    /// Bytes of the blob.
    Bytes { pos: u32, n: u32 },
    /// Send the control requests.
    Control,
    /// Nothing: give up.
    GiveUp,
}

/// What came back.
pub enum Answer {
    /// The first two words of the last transfer.
    Words { w0: u32, w1: u32 },
    /// The extent of a blob.
    Blob { start: u32, end: u32 },
    Bytes(Vec<u8>),
    /// The blob or its bytes could not be read.
    Missing,
}

/// What came back, in the abstract.
pub enum Heard {
    Words { w0: u32, w1: u32 },
    Blob { start: u32, end: u32 },
    Bytes(Seq<u8>),
    Missing,
}

impl Answer {
    /// What came back.
    pub open spec fn view(&self) -> Heard {
        match self {
            Answer::Words { w0, w1 } => Heard::Words { w0: *w0, w1: *w1 },
            Answer::Blob { start, end } => Heard::Blob { start: *start, end: *end },
            Answer::Bytes(v) => Heard::Bytes(v@),
            Answer::Missing => Heard::Missing,
        }
    }
}

/// A diagnostic to keep: a slot and its value.
#[derive(Copy, Clone, Debug, PartialEq, Eq, Structural)]
pub enum Note {
    Nothing,
    Keep { slot: u8, value: u32 },
}

/// A chip being brought up.
pub struct BringUp {
    pub phase: Phase,
    /// What the test register read.
    pub chip: u32,
    /// The regulatory data so far.
    pub clm: Vec<u8>,
}

/// A chip being brought up, in the abstract.
#[verifier::ext_equal]
pub struct Coming {
    pub phase: Phase,
    pub chip: u32,
    pub clm: Seq<u8>,
}

impl BringUp {
    /// Where the bring-up stands.
    pub open spec fn view(&self) -> Coming {
        Coming { phase: self.phase, chip: self.chip, clm: self.clm@ }
    }
}

/// What the bring-up does.
pub struct Move {
    pub ops: Vec<BusOp>,
    pub ask: Ask,
    pub note: Note,
}

/// What the bring-up does, in the abstract.
#[verifier::ext_equal]
pub struct Step {
    pub ops: Seq<BusAct>,
    pub ask: Ask,
    pub note: Note,
}

impl Move {
    /// What is done.
    pub open spec fn view(&self) -> Step {
        Step { ops: acts(self.ops@), ask: self.ask, note: self.note }
    }
}

/// The bytes of the next piece of a blob.
pub open spec fn piece_len(pos: u32, end: u32) -> u32 {
    if end - pos <= PIECE {
        (end - pos) as u32
    } else {
        PIECE
    }
}

fn next_piece(pos: u32, end: u32) -> (n: u32)
    requires
        pos <= end,
    ensures
        n == piece_len(pos, end),
{
    if end - pos <= PIECE {
        end - pos
    } else {
        PIECE
    }
}

/// A sound state of the bring-up.
pub open spec fn sound_bringup(c: Coming) -> bool {
    match c.phase {
        Phase::Detect { pass } => pass < 32 && c.clm.len() == 0,
        Phase::Alp { spin } => spin < 2000 && c.clm.len() == 0,
        Phase::Ht { spin } => spin < 40_000 && c.clm.len() == 0,
        Phase::F2 { spin } => spin < 40_000 && c.clm.len() == 0,
        Phase::Firmware { pos, end, off } => {
            &&& pos < end
            &&& off <= pos
            &&& off % 128 == 0
            &&& c.clm.len() == 0
        },
        Phase::CoreReset { io } => io < 256 && c.clm.len() == 0,
        Phase::Clm { pos, end } => pos < end && c.clm.len() + (end - pos) <= CLM_MAX,
        Phase::Control => c.clm.len() <= CLM_MAX,
        Phase::Failed => true,
        _ => c.clm.len() == 0,
    }
}

/// Whether this can come back. The firmware fits below the top of the address
/// space, and the regulatory data fits its request.
pub open spec fn can_hear(c: Coming, h: Heard) -> bool {
    match (c.phase, h) {
        (Phase::FindFirmware, Heard::Blob { start, end }) => end <= 0xFFFF_FF00,
        (Phase::FindClm, Heard::Blob { start, end }) => end - start <= CLM_MAX,
        (Phase::FindFirmware, Heard::Missing) => true,
        (Phase::FindClm, Heard::Missing) => true,
        (Phase::Firmware { pos, end, .. }, Heard::Bytes(b)) => {
            &&& b.len() == piece_len(pos, end)
            &&& end <= 0xFFFF_FF00
        },
        (Phase::Firmware { .. }, Heard::Missing) => true,
        (Phase::Clm { pos, end }, Heard::Bytes(b)) => b.len() == piece_len(pos, end),
        (Phase::Clm { .. }, Heard::Missing) => true,
        (Phase::FindFirmware, _) => false,
        (Phase::FindClm, _) => false,
        (Phase::Firmware { .. }, _) => false,
        (Phase::Clm { .. }, _) => false,
        (Phase::Control, _) => false,
        (Phase::Failed, _) => false,
        (_, Heard::Words { .. }) => true,
        _ => false,
    }
}

/// Perform operations and wait for the words of the last transfer.
pub open spec fn hear(phase: Phase, c: Coming, ops: Seq<BusAct>, note: Note) -> (Coming, Step) {
    (Coming { phase, ..c }, Step { ops, ask: Ask::Words, note })
}

/// Give up.
pub open spec fn give_up(c: Coming) -> (Coming, Step) {
    (
        Coming { phase: Phase::Failed, ..c },
        Step { ops: Seq::empty(), ask: Ask::GiveUp, note: Note::Nothing },
    )
}

/// Read the test register, halves exchanged.
pub open spec fn detect_ops() -> Seq<BusAct> {
    seq![
        BusAct::Transfer { out: seq![halves_swapped(command(false, 0, 0x14, 4))], read: 1 },
    ]
}

/// The bus settings: 32-bit words, high speed, interrupt polarity high, wake,
/// response delay of four, status behind every transfer, interrupt with status.
pub const BUS_CTRL: u32 = 0x0003_04B1;

/// Set up the bus, ask for the low-power clock, and poll it.
pub open spec fn alp_ops() -> Seq<BusAct> {
    seq![
        BusAct::Transfer {
            out: seq![halves_swapped(command(true, 0, 0, 4)), halves_swapped(BUS_CTRL)],
            read: 1,
        },
        wr(0, 0x1d, 1, 4),
        wr(1, 0x1000E, 1, 0x08),
        wr(1, 0x1_0008, 1, 0x10),
        rd(1, 0x1000E, 1, 2),
    ]
}

/// Drop the clock request and read the chip's identity.
pub open spec fn chip_id_ops() -> Seq<BusAct> {
    seq![wr(1, 0x1000E, 1, 0)] + window(0x1800_0000) + seq![rd(1, 0x8000, 4, 2)]
}

/// Where the board configuration goes: just below the last word of memory.
pub const NVRAM_ADDR: u32 = 0x7_FD14;

/// The last word of memory: the configuration's length, and its complement.
pub const NVRAM_MAGIC: u32 = 0xFF45_00BA;

/// Write the board configuration, start the WLAN core, and look at it.
pub open spec fn start_ops() -> Seq<BusAct> {
    stream_from(NVRAM_ADDR, words::unpacked(NVRAM@), 0) + write32(0x7_FFFC, NVRAM_MAGIC)
        + reset_up(WLAN_WRAP) + seq![BusAct::Sleep { ms: 20 }] + read8(
        (WLAN_WRAP + IOCTRL) as u32,
    )
}

/// Ask for the high-throughput clock, and poll it.
pub open spec fn ht_ops() -> Seq<BusAct> {
    seq![
        BusAct::Sleep { ms: 40 },
        wr(1, 0x1000F, 1, 0),
        wr(1, 0x1000E, 1, 0x10),
        rd(1, 0x1000E, 1, 2),
    ]
}

/// Set the data function's watermark and interrupt, and poll its readiness.
pub open spec fn f2_ops() -> Seq<BusAct> {
    seq![
        wr(1, 0x1_0008, 1, 0x20),
        wr(0, 0x06, 2, 0x20),
        BusAct::Sleep { ms: 50 },
        rd(0, 0x8, 4, 1),
    ]
}

/// Ask for the next piece of the firmware, or check what was written.
pub open spec fn more_firmware(
    c: Coming,
    ops: Seq<BusAct>,
    pos: u32,
    end: u32,
    off: u32,
) -> (Coming, Step) {
    if pos < end {
        (
            Coming { phase: Phase::Firmware { pos, end, off }, ..c },
            Step { ops, ask: Ask::Bytes { pos, n: piece_len(pos, end) }, note: Note::Nothing },
        )
    } else {
        hear(Phase::Check0, c, ops + read32(0), Note::Keep { slot: 7, value: off })
    }
}

/// Ask for the next piece of the regulatory data, or send the requests.
pub open spec fn more_clm(c: Coming, pos: u32, end: u32) -> (Coming, Step) {
    if pos < end {
        (
            Coming { phase: Phase::Clm { pos, end }, ..c },
            Step {
                ops: Seq::empty(),
                ask: Ask::Bytes { pos, n: piece_len(pos, end) },
                note: Note::Nothing,
            },
        )
    } else {
        (
            Coming { phase: Phase::Control, ..c },
            Step { ops: Seq::empty(), ask: Ask::Control, note: Note::Nothing },
        )
    }
}

/// What the WLAN core's registers tell: that it runs, or what they read.
pub open spec fn core_note(io: u32, rc: u32) -> u32 {
    if io % 4 == 1 && rc % 2 == 0 {
        0xC0DE_600D
    } else {
        (0x100 * io + rc) as u32
    }
}

/// One step of the bring-up.
pub open spec fn bringup_next(c: Coming, h: Heard) -> (Coming, Step) {
    match (c.phase, h) {
        (Phase::Detect { pass }, Heard::Words { w0, .. }) => {
            let v = halves_swapped(w0);
            if v == TEST_PATTERN || pass + 1 >= 32 {
                hear(
                    Phase::Alp { spin: 0 },
                    Coming { chip: v, ..c },
                    alp_ops(),
                    Note::Keep { slot: 0, value: v },
                )
            } else {
                hear(Phase::Detect { pass: (pass + 1) as u32 }, c, detect_ops(), Note::Nothing)
            }
        },
        (Phase::Alp { spin }, Heard::Words { w1, .. }) => if w1 / 0x40 % 2 == 1 || spin + 1
            >= 2000 {
            hear(Phase::ChipId, c, chip_id_ops(), Note::Keep { slot: 2, value: w1 })
        } else {
            hear(
                Phase::Alp { spin: (spin + 1) as u32 },
                c,
                seq![rd(1, 0x1000E, 1, 2)],
                Note::Nothing,
            )
        },
        (Phase::ChipId, Heard::Words { w1, .. }) => hear(
            Phase::WlanReset,
            c,
            read8((WLAN_WRAP + RESETCTRL) as u32),
            Note::Keep { slot: 1, value: w1 },
        ),
        (Phase::WlanReset, Heard::Words { w1, .. }) => hear(
            Phase::SocReset,
            c,
            (if w1 % 2 == 0 {
                disable(WLAN_WRAP)
            } else {
                Seq::empty()
            }) + read8((SOCSRAM_WRAP + RESETCTRL) as u32),
            Note::Nothing,
        ),
        (Phase::SocReset, Heard::Words { w1, .. }) => (
            Coming { phase: Phase::FindFirmware, ..c },
            Step {
                ops: (if w1 % 2 == 0 {
                    disable(SOCSRAM_WRAP)
                } else {
                    Seq::empty()
                }) + reset_up(SOCSRAM_WRAP) + write32((SOCSRAM_BASE + 0x10) as u32, 3) + write32(
                    (SOCSRAM_BASE + 0x44) as u32,
                    0,
                ),
                ask: Ask::FindFirmware,
                note: Note::Nothing,
            },
        ),
        (Phase::FindFirmware, Heard::Blob { start, end }) => more_firmware(
            c,
            Seq::empty(),
            start,
            end,
            0,
        ),
        (Phase::Firmware { pos, end, off }, Heard::Bytes(b)) => more_firmware(
            c,
            stream_from(off, b, 0),
            (pos + b.len()) as u32,
            end,
            (off + b.len()) as u32,
        ),
        (Phase::Check0, Heard::Words { w1, .. }) => hear(
            Phase::Check1,
            c,
            read32(0x8000),
            Note::Keep { slot: 10, value: w1 },
        ),
        (Phase::Check1, Heard::Words { w1, .. }) => hear(
            Phase::Check2,
            c,
            read32(0x3_8000),
            Note::Keep { slot: 11, value: w1 },
        ),
        (Phase::Check2, Heard::Words { w1, .. }) => hear(
            Phase::CoreIo,
            c,
            start_ops(),
            Note::Keep { slot: 12, value: w1 },
        ),
        (Phase::CoreIo, Heard::Words { w1, .. }) => hear(
            Phase::CoreReset { io: w1 % 0x100 },
            c,
            read8((WLAN_WRAP + RESETCTRL) as u32),
            Note::Nothing,
        ),
        (Phase::CoreReset { io }, Heard::Words { w1, .. }) => hear(
            Phase::Ht { spin: 0 },
            c,
            ht_ops(),
            Note::Keep { slot: 3, value: core_note(io, w1 % 0x100) },
        ),
        (Phase::Ht { spin }, Heard::Words { w1, .. }) => if w1 / 0x80 % 2 == 1 || spin + 1
            >= 40_000 {
            hear(Phase::F2 { spin: 0 }, c, f2_ops(), Note::Keep { slot: 4, value: w1 })
        } else {
            hear(
                Phase::Ht { spin: (spin + 1) as u32 },
                c,
                seq![rd(1, 0x1000E, 1, 2)],
                Note::Nothing,
            )
        },
        (Phase::F2 { spin }, Heard::Words { w0, .. }) => if w0 / 0x20 % 2 == 1 || spin + 1
            >= 40_000 {
            (
                Coming { phase: Phase::FindClm, ..c },
                Step {
                    ops: Seq::empty(),
                    ask: Ask::FindClm,
                    note: Note::Keep { slot: 5, value: w0 },
                },
            )
        } else {
            hear(
                Phase::F2 { spin: (spin + 1) as u32 },
                c,
                seq![rd(0, 0x8, 4, 1)],
                Note::Nothing,
            )
        },
        (Phase::FindClm, Heard::Blob { start, end }) => more_clm(c, start, end),
        (Phase::Clm { pos, end }, Heard::Bytes(b)) => more_clm(
            Coming { clm: c.clm + b, ..c },
            (pos + b.len()) as u32,
            end,
        ),
        _ => give_up(c),
    }
}

fn words_move(ops: Vec<BusOp>, note: Note) -> (m: Move)
    ensures
        m@ == (Step { ops: acts(ops@), ask: Ask::Words, note }),
{
    Move { ops, ask: Ask::Words, note }
}

fn quiet_move(ask: Ask, note: Note) -> (m: Move)
    ensures
        m@ == (Step { ops: Seq::empty(), ask, note }),
{
    let m = Move { ops: Vec::new(), ask, note };
    assert(m@.ops =~= Seq::<BusAct>::empty());
    m
}

fn no_ops() -> (ops: Vec<BusOp>)
    ensures
        acts(ops@) == Seq::<BusAct>::empty(),
{
    let ops: Vec<BusOp> = Vec::new();
    assert(acts(ops@) =~= Seq::<BusAct>::empty());
    ops
}

fn detect_list() -> (ops: Vec<BusOp>)
    ensures
        acts(ops@) == detect_ops(),
{
    let mut ops = no_ops();
    let mut out: Vec<u32> = Vec::new();
    out.push(swap16(cmd_word(false, 0, 0x14, 4)));
    assert(out@ =~= seq![halves_swapped(command(false, 0, 0x14, 4))]);
    push_op(&mut ops, BusOp::Transfer { out, read: 1 });
    assert(acts(ops@) =~= detect_ops());
    ops
}

fn alp_list() -> (ops: Vec<BusOp>)
    ensures
        acts(ops@) == alp_ops(),
{
    let mut ops = no_ops();
    push_pair(&mut ops, swap16(cmd_word(true, 0, 0, 4)), swap16(BUS_CTRL));
    push_wr(&mut ops, 0, 0x1d, 1, 4);
    push_wr(&mut ops, 1, 0x1000E, 1, 0x08);
    push_wr(&mut ops, 1, 0x1_0008, 1, 0x10);
    push_rd(&mut ops, 1, 0x1000E, 1, 2);
    assert(acts(ops@) =~= alp_ops());
    ops
}

fn chip_id_list() -> (ops: Vec<BusOp>)
    ensures
        acts(ops@) == chip_id_ops(),
{
    let mut ops = no_ops();
    push_wr(&mut ops, 1, 0x1000E, 1, 0);
    bp_set_window(&mut ops, 0x1800_0000);
    push_rd(&mut ops, 1, 0x8000, 4, 2);
    assert(acts(ops@) =~= chip_id_ops());
    ops
}

fn soc_list(in_reset: bool) -> (ops: Vec<BusOp>)
    ensures
        acts(ops@) == (if !in_reset {
            disable(SOCSRAM_WRAP)
        } else {
            Seq::empty()
        }) + reset_up(SOCSRAM_WRAP) + write32((SOCSRAM_BASE + 0x10) as u32, 3) + write32(
            (SOCSRAM_BASE + 0x44) as u32,
            0,
        ),
{
    let mut ops = no_ops();
    if !in_reset {
        disable_core(&mut ops, SOCSRAM_WRAP);
    }
    reset_core_up(&mut ops, SOCSRAM_WRAP);
    bp_write32(&mut ops, SOCSRAM_BASE + 0x10, 3);
    bp_write32(&mut ops, SOCSRAM_BASE + 0x44, 0);
    assert(acts(ops@) =~= (if !in_reset {
        disable(SOCSRAM_WRAP)
    } else {
        Seq::empty()
    }) + reset_up(SOCSRAM_WRAP) + write32((SOCSRAM_BASE + 0x10) as u32, 3) + write32(
        (SOCSRAM_BASE + 0x44) as u32,
        0,
    ));
    ops
}

fn start_list() -> (ops: Vec<BusOp>)
    ensures
        acts(ops@) == start_ops(),
{
    let mut ops = no_ops();
    let table: [u32; 186] = NVRAM;
    let bytes: Vec<u8> = words::unpack(table.as_slice());
    assert(bytes@.len() == 744);
    bp_stream_bytes(&mut ops, NVRAM_ADDR, bytes.as_slice());
    bp_write32(&mut ops, 0x7_FFFC, NVRAM_MAGIC);
    reset_core_up(&mut ops, WLAN_WRAP);
    push_op(&mut ops, BusOp::Sleep { ms: 20 });
    bp_read8(&mut ops, WLAN_WRAP + IOCTRL);
    assert(acts(ops@) =~= start_ops());
    ops
}

fn ht_list() -> (ops: Vec<BusOp>)
    ensures
        acts(ops@) == ht_ops(),
{
    let mut ops = no_ops();
    push_op(&mut ops, BusOp::Sleep { ms: 40 });
    push_wr(&mut ops, 1, 0x1000F, 1, 0);
    push_wr(&mut ops, 1, 0x1000E, 1, 0x10);
    push_rd(&mut ops, 1, 0x1000E, 1, 2);
    assert(acts(ops@) =~= ht_ops());
    ops
}

fn f2_list() -> (ops: Vec<BusOp>)
    ensures
        acts(ops@) == f2_ops(),
{
    let mut ops = no_ops();
    push_wr(&mut ops, 1, 0x1_0008, 1, 0x20);
    push_wr(&mut ops, 0, 0x06, 2, 0x20);
    push_op(&mut ops, BusOp::Sleep { ms: 50 });
    push_rd(&mut ops, 0, 0x8, 4, 1);
    assert(acts(ops@) =~= f2_ops());
    ops
}

fn poll_list(func: u32, addr: u32, len: u32, n: usize) -> (ops: Vec<BusOp>)
    requires
        func < 4,
        addr < 0x2_0000,
        len < 0x800,
    ensures
        acts(ops@) == seq![rd(func, addr, len, n as nat)],
{
    let mut ops = no_ops();
    push_rd(&mut ops, func, addr, len, n);
    assert(acts(ops@) =~= seq![rd(func, addr, len, n as nat)]);
    ops
}

fn read8_list(addr: u32) -> (ops: Vec<BusOp>)
    ensures
        acts(ops@) == read8(addr),
{
    let mut ops = no_ops();
    bp_read8(&mut ops, addr);
    assert(acts(ops@) =~= read8(addr));
    ops
}

fn read32_list(addr: u32) -> (ops: Vec<BusOp>)
    ensures
        acts(ops@) == read32(addr),
{
    let mut ops = no_ops();
    bp_read32(&mut ops, addr);
    assert(acts(ops@) =~= read32(addr));
    ops
}

impl BringUp {
    /// Begin: read the test register.
    pub fn begin() -> (r: (BringUp, Move))
        ensures
            sound_bringup(r.0@),
            r.0@ == (Coming { phase: Phase::Detect { pass: 0 }, chip: 0, clm: Seq::empty() }),
            r.1@ == (Step { ops: detect_ops(), ask: Ask::Words, note: Note::Nothing }),
    {
        let b = BringUp { phase: Phase::Detect { pass: 0 }, chip: 0, clm: Vec::new() };
        assert(b@.clm =~= Seq::<u8>::empty());
        (b, words_move(detect_list(), Note::Nothing))
    }

    fn more_firmware(&mut self, ops: Vec<BusOp>, pos: u32, end: u32, off: u32) -> (m: Move)
        ensures
            (final(self)@, m@) == more_firmware(old(self)@, acts(ops@), pos, end, off),
    {
        let mut ops = ops;
        if pos < end {
            self.phase = Phase::Firmware { pos, end, off };
            Move {
                ops,
                ask: Ask::Bytes { pos, n: next_piece(pos, end) },
                note: Note::Nothing,
            }
        } else {
            self.phase = Phase::Check0;
            bp_read32(&mut ops, 0);
            words_move(ops, Note::Keep { slot: 7, value: off })
        }
    }

    fn more_clm(&mut self, pos: u32, end: u32) -> (m: Move)
        ensures
            (final(self)@, m@) == more_clm(old(self)@, pos, end),
    {
        if pos < end {
            self.phase = Phase::Clm { pos, end };
            quiet_move(Ask::Bytes { pos, n: next_piece(pos, end) }, Note::Nothing)
        } else {
            self.phase = Phase::Control;
            quiet_move(Ask::Control, Note::Nothing)
        }
    }

    fn on_words(&mut self, w0: u32, w1: u32) -> (m: Move)
        requires
            sound_bringup(old(self)@),
            can_hear(old(self)@, Heard::Words { w0, w1 }),
        ensures
            sound_bringup(final(self)@),
            (final(self)@, m@) == bringup_next(old(self)@, Heard::Words { w0, w1 }),
    {
        match self.phase {
            Phase::Detect { pass } => {
                let v: u32 = swap16(w0);
                if v == TEST_PATTERN || pass + 1 >= 32 {
                    self.chip = v;
                    self.phase = Phase::Alp { spin: 0 };
                    words_move(alp_list(), Note::Keep { slot: 0, value: v })
                } else {
                    self.phase = Phase::Detect { pass: pass + 1 };
                    words_move(detect_list(), Note::Nothing)
                }
            },
            Phase::Alp { spin } => {
                if w1 / 0x40 % 2 == 1 || spin + 1 >= 2000 {
                    self.phase = Phase::ChipId;
                    words_move(chip_id_list(), Note::Keep { slot: 2, value: w1 })
                } else {
                    self.phase = Phase::Alp { spin: spin + 1 };
                    words_move(poll_list(1, 0x1000E, 1, 2), Note::Nothing)
                }
            },
            Phase::ChipId => {
                self.phase = Phase::WlanReset;
                words_move(
                    read8_list(WLAN_WRAP + RESETCTRL),
                    Note::Keep { slot: 1, value: w1 },
                )
            },
            Phase::WlanReset => {
                self.phase = Phase::SocReset;
                let mut ops = no_ops();
                if w1 % 2 == 0 {
                    disable_core(&mut ops, WLAN_WRAP);
                }
                bp_read8(&mut ops, SOCSRAM_WRAP + RESETCTRL);
                assert(acts(ops@) =~= (if w1 % 2 == 0 {
                    disable(WLAN_WRAP)
                } else {
                    Seq::empty()
                }) + read8((SOCSRAM_WRAP + RESETCTRL) as u32));
                words_move(ops, Note::Nothing)
            },
            Phase::SocReset => {
                self.phase = Phase::FindFirmware;
                Move { ops: soc_list(w1 % 2 != 0), ask: Ask::FindFirmware, note: Note::Nothing }
            },
            Phase::Check0 => {
                self.phase = Phase::Check1;
                words_move(read32_list(0x8000), Note::Keep { slot: 10, value: w1 })
            },
            Phase::Check1 => {
                self.phase = Phase::Check2;
                words_move(read32_list(0x3_8000), Note::Keep { slot: 11, value: w1 })
            },
            Phase::Check2 => {
                self.phase = Phase::CoreIo;
                words_move(start_list(), Note::Keep { slot: 12, value: w1 })
            },
            Phase::CoreIo => {
                self.phase = Phase::CoreReset { io: w1 % 0x100 };
                words_move(read8_list(WLAN_WRAP + RESETCTRL), Note::Nothing)
            },
            Phase::CoreReset { io } => {
                self.phase = Phase::Ht { spin: 0 };
                let rc: u32 = w1 % 0x100;
                let value: u32 = if io % 4 == 1 && rc % 2 == 0 {
                    0xC0DE_600D
                } else {
                    0x100 * io + rc
                };
                words_move(ht_list(), Note::Keep { slot: 3, value })
            },
            Phase::Ht { spin } => {
                if w1 / 0x80 % 2 == 1 || spin + 1 >= 40_000 {
                    self.phase = Phase::F2 { spin: 0 };
                    words_move(f2_list(), Note::Keep { slot: 4, value: w1 })
                } else {
                    self.phase = Phase::Ht { spin: spin + 1 };
                    words_move(poll_list(1, 0x1000E, 1, 2), Note::Nothing)
                }
            },
            Phase::F2 { spin } => {
                if w0 / 0x20 % 2 == 1 || spin + 1 >= 40_000 {
                    self.phase = Phase::FindClm;
                    quiet_move(Ask::FindClm, Note::Keep { slot: 5, value: w0 })
                } else {
                    self.phase = Phase::F2 { spin: spin + 1 };
                    words_move(poll_list(0, 0x8, 4, 1), Note::Nothing)
                }
            },
            _ => {
                self.phase = Phase::Failed;
                quiet_move(Ask::GiveUp, Note::Nothing)
            },
        }
    }

    /// Take what came back and say what to do.
    pub fn next(&mut self, a: Answer) -> (m: Move)
        requires
            sound_bringup(old(self)@),
            can_hear(old(self)@, a@),
        ensures
            sound_bringup(final(self)@),
            (final(self)@, m@) == bringup_next(old(self)@, a@),
    {
        match a {
            Answer::Words { w0, w1 } => self.on_words(w0, w1),
            Answer::Blob { start, end } => match self.phase {
                Phase::FindFirmware => self.more_firmware(no_ops(), start, end, 0),
                Phase::FindClm => self.more_clm(start, end),
                _ => {
                    self.phase = Phase::Failed;
                    quiet_move(Ask::GiveUp, Note::Nothing)
                },
            },
            Answer::Bytes(b) => match self.phase {
                Phase::Firmware { pos, end, off } => {
                    let n: u32 = b.len() as u32;
                    let mut ops = no_ops();
                    bp_stream_bytes(&mut ops, off, b.as_slice());
                    assert(acts(ops@) =~= stream_from(off, b@, 0));
                    self.more_firmware(ops, pos + n, end, off + n)
                },
                Phase::Clm { pos, end } => {
                    let n: u32 = b.len() as u32;
                    let ghost had = self.clm@;
                    self.clm.extend_from_slice(b.as_slice());
                    assert(self.clm@ =~= had + b@);
                    self.more_clm(pos + n, end)
                },
                _ => {
                    self.phase = Phase::Failed;
                    quiet_move(Ask::GiveUp, Note::Nothing)
                },
            },
            Answer::Missing => {
                self.phase = Phase::Failed;
                quiet_move(Ask::GiveUp, Note::Nothing)
            },
        }
    }
}

/// Steps that the bring-up can still take before it is over.
pub open spec fn steps_left(p: Phase) -> nat {
    let blob = 0x1_0000_0000nat;
    match p {
        Phase::Detect { pass } => (3 * blob + 90_000 + 32 - pass) as nat,
        Phase::Alp { spin } => (3 * blob + 87_000 + 2000 - spin) as nat,
        Phase::ChipId => 3 * blob + 86_000,
        Phase::WlanReset => 3 * blob + 85_999,
        Phase::SocReset => 3 * blob + 85_998,
        Phase::FindFirmware => 3 * blob + 85_997,
        Phase::Firmware { pos, end, .. } => (2 * blob + 85_000 + (end - pos)) as nat,
        Phase::Check0 => 2 * blob + 84_999,
        Phase::Check1 => 2 * blob + 84_998,
        Phase::Check2 => 2 * blob + 84_997,
        Phase::CoreIo => 2 * blob + 84_996,
        Phase::CoreReset { .. } => 2 * blob + 84_995,
        Phase::Ht { spin } => (2 * blob + 44_000 + 40_000 - spin) as nat,
        Phase::F2 { spin } => (2 * blob + 40_000 - spin) as nat,
        Phase::FindClm => (2 * blob - 1) as nat,
        Phase::Clm { pos, end } => (1 + (end - pos)) as nat,
        Phase::Control => 0,
        Phase::Failed => 0,
    }
}

/// The bring-up always comes to an end: every step leaves fewer to take, and it
/// ends with the control requests, or gives up when a blob cannot be read.
pub proof fn bringup_ends(c: Coming, h: Heard)
    requires
        sound_bringup(c),
        can_hear(c, h),
    ensures
        steps_left(bringup_next(c, h).0.phase) < steps_left(c.phase),
        bringup_next(c, h).0.phase == Phase::Failed <==> h is Missing,
        bringup_next(c, h).1.ask == Ask::Control <==> bringup_next(c, h).0.phase
            == Phase::Control,
{
}

/// The written firmware is checked exactly when all of its bytes went out.
pub proof fn firmware_goes_out_whole(c: Coming, b: Seq<u8>)
    requires
        sound_bringup(c),
        can_hear(c, Heard::Bytes(b)),
        c.phase is Firmware,
    ensures
        bringup_next(c, Heard::Bytes(b)).0.phase == Phase::Check0 <==> c.phase->Firmware_pos
            + b.len() == c.phase->Firmware_end,
{
}

/// The address field of a transfer.
pub open spec fn target(a: BusAct) -> int {
    a->out[0] as int / 0x800 % 0x2_0000
}

/// Where the window lies after the three writes that begin `w`.
pub open spec fn window_of(w: Seq<BusAct>) -> int {
    0x100_0000 * w[0]->out[1] + 0x1_0000 * w[1]->out[1] + 0x100 * w[2]->out[1]
}

proof fn window_is_set(addr: u32)
    ensures
        ({
            let w = window(addr);
            &&& w.len() == 3
            &&& target(w[0]) == 0x1000C && target(w[1]) == 0x1000B && target(w[2]) == 0x1000A
            &&& window_of(w) == addr - addr % WINDOW
        }),
{
    command_fields(true, 1, 0x1000C, 1);
    command_fields(true, 1, 0x1000B, 1);
    command_fields(true, 1, 0x1000A, 1);
    let base = (addr - addr % WINDOW) as u32;
    assert(base % 0x8000 == 0);
    assert(base % 0x100 == 0);
    assert(base / 0x100 == base / 0x1_0000 * 0x100 + base / 0x100 % 0x100);
    assert(base / 0x1_0000 == base / 0x100_0000 * 0x100 + base / 0x1_0000 % 0x100);
}

/// An access to the backplane reaches the address that it is for: the window that
/// it sets and the offset that it names add up to it. A write carries its value,
/// and the length is that of what is moved.
pub proof fn accesses_reach_their_address(addr: u32, val: u32)
    ensures
        ({
            let w = write32(addr, val);
            &&& w.len() == 4
            &&& window_of(w) + target(w[3]) % 0x8000 == addr
            &&& w[3]->out[0] >= 0x8000_0000 && w[3]->out[0] % 0x800 == 4 && w[3]->out[1] == val
        }),
        ({
            let w = write8(addr, val);
            &&& w.len() == 4
            &&& window_of(w) + target(w[3]) == addr
            &&& w[3]->out[0] >= 0x8000_0000 && w[3]->out[0] % 0x800 == 1 && w[3]->out[1] == val
        }),
        ({
            let w = read32(addr);
            &&& w.len() == 4
            &&& window_of(w) + target(w[3]) % 0x8000 == addr
            &&& w[3]->out[0] < 0x8000_0000 && w[3]->out[0] % 0x800 == 4 && w[3]->out.len() == 1
        }),
        ({
            let w = read8(addr);
            &&& w.len() == 4
            &&& window_of(w) + target(w[3]) == addr
            &&& w[3]->out[0] < 0x8000_0000 && w[3]->out[0] % 0x800 == 1 && w[3]->out.len() == 1
        }),
{
    window_is_set(addr);
    let a = addr % WINDOW;
    let b = (a + WINDOW) as u32;
    command_fields(true, 1, b, 4);
    command_fields(true, 1, a, 1);
    command_fields(false, 1, b, 4);
    command_fields(false, 1, a, 1);
    let w = window(addr);
    assert(write32(addr, val)[0] == w[0] && write32(addr, val)[1] == w[1] && write32(addr, val)[2]
        == w[2]);
    assert(write8(addr, val)[0] == w[0] && write8(addr, val)[1] == w[1] && write8(addr, val)[2]
        == w[2]);
    assert(read32(addr)[0] == w[0] && read32(addr)[1] == w[1] && read32(addr)[2] == w[2]);
    assert(read8(addr)[0] == w[0] && read8(addr)[1] == w[1] && read8(addr)[2] == w[2]);
    assert(write32(addr, val)[3] == wr(1, b, 4, val));
    assert(write8(addr, val)[3] == wr(1, a, 1, val));
    assert(read32(addr)[3] == rd(1, b, 4, 2));
    assert(read8(addr)[3] == rd(1, a, 1, 2));
}

} // verus!
