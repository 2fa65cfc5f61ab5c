//! The network task: address handling, the watchdog, the status page, and the
//! firmware upload that streams an image into the stale flash slot.

use crate::http::{self, headers_end};
use crate::portal;
use crate::text::{
    self, append, append_hex32, append_hex_byte, append_str, append_u32, append_u64, copy_into,
    starts_with, to_lower,
};
use vstd::prelude::*;
use vstd::slice::slice_subrange;

verus! {

/// Flash erase granularity.
pub const FLASH_SECTOR: u32 = 4096;

/// Flash program granularity.
pub const FLASH_PAGE: u32 = 256;

/// Base of flash slot A.
pub const PART_A: u32 = 0x0000_2000;

/// Base of flash slot B.
pub const PART_B: u32 = 0x0004_2000;

/// Offset of the version word within a slot.
pub const VER_OFF: u32 = 0x184;

/// One step of the reflected CRC-32 (IEEE).
pub open spec fn crc_bit(c: u32) -> u32 {
    if c % 2 == 1 {
        (c / 2) ^ 0xEDB8_8320
    } else {
        c / 2
    }
}

/// `n` steps of the CRC.
pub open spec fn crc_bits(c: u32, n: nat) -> u32
    decreases n,
{
    if n == 0 {
        c
    } else {
        crc_bit(crc_bits(c, (n - 1) as nat))
    }
}

/// The CRC after the bytes of `s`.
pub open spec fn crc_of(c: u32, s: Seq<u8>) -> u32
    decreases s.len(),
{
    if s.len() == 0 {
        c
    } else {
        crc_bits(crc_of(c, s.drop_last()) ^ (s.last() as u32), 8)
    }
}

/// Streaming CRC-32 (IEEE, reflected) update.
pub fn crc32(crc: u32, bytes: &[u8]) -> (r: u32)
    ensures
        r == crc_of(crc, bytes@),
{
    let mut c: u32 = crc;
    let mut i: usize = 0;
    assert(bytes@.take(0) =~= Seq::<u8>::empty());
    while i < bytes.len()
        invariant
            i <= bytes@.len(),
            c == crc_of(crc, bytes@.take(i as int)),
        decreases bytes@.len() - i,
    {
        let ghost before = c;
        c = c ^ (bytes[i] as u32);
        let ghost mixed = c;
        let mut k: u32 = 0;
        while k < 8
            invariant
                k <= 8,
                c == crc_bits(mixed, k as nat),
            decreases 8 - k,
        {
            c = if c % 2 == 1 {
                (c / 2) ^ 0xEDB8_8320
            } else {
                c / 2
            };
            k = k + 1;
        }
        i = i + 1;
        assert(bytes@.take(i as int).drop_last() =~= bytes@.take(i - 1));
    }
    assert(bytes@.take(i as int) =~= bytes@);
    c
}

/// The CRC of two pieces fed one after the other is that of the whole.
pub proof fn crc_streams(c: u32, a: Seq<u8>, b: Seq<u8>)
    ensures
        crc_of(crc_of(c, a), b) == crc_of(c, a + b),
    decreases b.len(),
{
    if b.len() == 0 {
        assert(a + b =~= a);
    } else {
        assert((a + b).drop_last() =~= a + b.drop_last());
        crc_streams(c, a, b.drop_last());
    }
}

spec fn eight_bits(c: u32) -> u32 {
    crc_bit(crc_bit(crc_bit(crc_bit(crc_bit(crc_bit(crc_bit(crc_bit(c))))))))
}

proof fn crc_byte(s: Seq<u8>, i: int, before: u32, after: u32)
    requires
        0 <= i < s.len(),
        crc_of(0xFFFF_FFFF, s.take(i)) == before,
        after == eight_bits(before ^ (s[i] as u32)),
    ensures
        crc_of(0xFFFF_FFFF, s.take(i + 1)) == after,
{
    assert(s.take(i + 1).drop_last() =~= s.take(i));
    reveal_with_fuel(crc_bits, 9);
}

/// The CRC-32 of nothing changes nothing, and that of the nine digits from 1 to
/// 9 is the published check value.
pub proof fn crc_has_its_check_value()
    ensures
        forall|c: u32| #[trigger] crc_of(c, Seq::empty()) == c,
        crc_of(0xFFFF_FFFF, [49u8, 50, 51, 52, 53, 54, 55, 56, 57]@) ^ 0xFFFF_FFFF == 0xCBF4_3926,
{
    let s = [49u8, 50, 51, 52, 53, 54, 55, 56, 57]@;
    assert(s.take(0) =~= Seq::<u8>::empty());
    assert(eight_bits(0xffffffffu32 ^ 49u32) == 0x7c231048u32) by (bit_vector);
    crc_byte(s, 0, 0xffffffff, 0x7c231048);
    assert(eight_bits(0x7c231048u32 ^ 50u32) == 0xb0acbb32u32) by (bit_vector);
    crc_byte(s, 1, 0x7c231048, 0xb0acbb32);
    assert(eight_bits(0xb0acbb32u32 ^ 51u32) == 0x77b79c2du32) by (bit_vector);
    crc_byte(s, 2, 0xb0acbb32, 0x77b79c2d);
    assert(eight_bits(0x77b79c2du32 ^ 52u32) == 0x641c1f5cu32) by (bit_vector);
    crc_byte(s, 3, 0x77b79c2d, 0x641c1f5c);
    assert(eight_bits(0x641c1f5cu32 ^ 53u32) == 0x340ac5e3u32) by (bit_vector);
    crc_byte(s, 4, 0x641c1f5c, 0x340ac5e3);
    assert(eight_bits(0x340ac5e3u32 ^ 54u32) == 0xf68d2c9eu32) by (bit_vector);
    crc_byte(s, 5, 0x340ac5e3, 0xf68d2c9e);
    assert(eight_bits(0xf68d2c9eu32 ^ 55u32) == 0xaffc9660u32) by (bit_vector);
    crc_byte(s, 6, 0xf68d2c9e, 0xaffc9660);
    assert(eight_bits(0xaffc9660u32 ^ 56u32) == 0x651f2550u32) by (bit_vector);
    crc_byte(s, 7, 0xaffc9660, 0x651f2550);
    assert(eight_bits(0x651f2550u32 ^ 57u32) == 0x340bc6d9u32) by (bit_vector);
    crc_byte(s, 8, 0x651f2550, 0x340bc6d9);
    assert(s.take(9) =~= s);
    assert(0x340b_c6d9u32 ^ 0xFFFF_FFFF == 0xCBF4_3926u32) by (bit_vector);
}

/// Whether the first flash bytes are a partition table: the block marker, then
/// an item of that type.
pub open spec fn is_partition_table(hdr: Seq<u8>) -> bool {
    &&& hdr.len() >= 8
    &&& hdr.take(4) == [0xd3u8, 0xde, 0xff, 0xff]@
    &&& hdr[4] == 0x0a
}

/// The version word read from a slot; 0 when it could not be read.
pub open spec fn version_of(v: Seq<u8>) -> nat {
    if v.len() < 4 {
        0
    } else {
        (v[0] + 0x100 * v[1] + 0x1_0000 * v[2] + 0x100_0000 * v[3]) as nat
    }
}

fn version_word(v: &[u8]) -> (r: u32)
    ensures
        r == version_of(v@),
{
    if v.len() < 4 {
        0
    } else {
        v[0] as u32 + 0x100 * (v[1] as u32) + 0x1_0000 * (v[2] as u32) + 0x100_0000 * (v[3] as u32)
    }
}

/// Where an update goes, given what the flash holds.
pub open spec fn target_base(hdr: Seq<u8>, ver_a: Seq<u8>, ver_b: Seq<u8>) -> u32 {
    if !is_partition_table(hdr) {
        0
    } else if version_of(ver_a) <= version_of(ver_b) {
        PART_A
    } else {
        PART_B
    }
}

/// Where an update goes: the slot with the lower version (slot A on a tie), or
/// flash address 0 without a partition table. The arguments are the bytes that
/// reading the table and both version words gave.
pub fn update_target_base(hdr: &[u8], ver_a: &[u8], ver_b: &[u8]) -> (base: u32)
    ensures
        base == target_base(hdr@, ver_a@, ver_b@),
{
    if hdr.len() < 8 {
        return 0;
    }
    let marked: bool = hdr[0] == 0xd3 && hdr[1] == 0xde && hdr[2] == 0xff && hdr[3] == 0xff;
    assert(marked == (hdr@.take(4) == [0xd3u8, 0xde, 0xff, 0xff]@)) by {
        if marked {
            assert(hdr@.take(4) =~= [0xd3u8, 0xde, 0xff, 0xff]@);
        } else {
            assert(hdr@.take(4)[0] == hdr@[0] && hdr@.take(4)[1] == hdr@[1] && hdr@.take(4)[2]
                == hdr@[2] && hdr@.take(4)[3] == hdr@[3]);
        }
    }
    if !marked || hdr[4] != 0x0a {
        return 0;
    }
    if version_word(ver_a) <= version_word(ver_b) {
        PART_A
    } else {
        PART_B
    }
}

/// With a partition table, an update goes to one of the two slots, and never to
/// the one that holds the higher version.
pub proof fn update_spares_the_newer_slot(hdr: Seq<u8>, a: Seq<u8>, b: Seq<u8>)
    requires
        is_partition_table(hdr),
    ensures
        target_base(hdr, a, b) == PART_A || target_base(hdr, a, b) == PART_B,
        version_of(a) > version_of(b) ==> target_base(hdr, a, b) != PART_A,
        version_of(b) > version_of(a) ==> target_base(hdr, a, b) != PART_B,
{
}

/// One operation on the flash.
pub enum FlashOp {
    /// Erase the sector at this address.
    Erase { addr: u32 },
    /// Program these bytes at this address.
    Program { addr: u32, data: Vec<u8> },
}

/// A flash operation in the abstract.
pub enum FlashAct {
    Erase { addr: u32 },
    Program { addr: u32, data: Seq<u8> },
}

impl FlashOp {
    /// What the operation does.
    pub open spec fn view(&self) -> FlashAct {
        match self {
            FlashOp::Erase { addr } => FlashAct::Erase { addr: *addr },
            FlashOp::Program { addr, data } => FlashAct::Program { addr: *addr, data: data@ },
        }
    }
}

/// What a list of operations does.
pub open spec fn acts(ops: Seq<FlashOp>) -> Seq<FlashAct> {
    Seq::new(ops.len(), |i: int| ops[i]@)
}

/// A firmware upload in progress: the slot's base, the image size, the bytes
/// programmed so far, their running CRC, and the bytes staged for the next
/// page.
pub struct Upload {
    pub base: u32,
    pub size: u32,
    pub off: u32,
    pub crc: u32,
    pub page: Vec<u8>,
}

/// An upload in the abstract.
pub struct Progress {
    pub base: int,
    pub size: int,
    pub off: int,
    pub crc: u32,
    pub page: Seq<u8>,
}

impl Upload {
    /// What the upload stands at.
    pub open spec fn view(&self) -> Progress {
        Progress {
            base: self.base as int,
            size: self.size as int,
            off: self.off as int,
            crc: self.crc,
            page: self.page@,
        }
    }
}

/// A sound state of an upload: no more was taken in than the image has, and a
/// page is never left full.
pub open spec fn sound_upload(p: Progress) -> bool {
    &&& 0 <= p.off
    &&& p.off + p.page.len() <= p.size
    &&& p.page.len() < 256
}

/// Writing one page: its sector is erased first when the page begins one. A
/// page past the address space is not written.
pub open spec fn page_acts(base: int, off: int, data: Seq<u8>) -> Seq<FlashAct> {
    if base + off > 0xFFFF_FFFF {
        Seq::empty()
    } else {
        (if off % 4096 == 0 {
            seq![FlashAct::Erase { addr: (base + off) as u32 }]
        } else {
            Seq::empty()
        }) + seq![FlashAct::Program { addr: (base + off) as u32, data }]
    }
}

/// Program the staged page.
pub open spec fn flushed(p: Progress) -> Progress {
    Progress {
        off: p.off + p.page.len(),
        crc: crc_of(p.crc, p.page),
        page: Seq::empty(),
        ..p
    }
}

/// Take in one byte; bytes past the end of the image are ignored.
pub open spec fn accepted(p: Progress, b: u8) -> (Progress, Seq<FlashAct>) {
    if p.off + p.page.len() >= p.size {
        (p, Seq::empty())
    } else {
        let q = Progress { page: p.page.push(b), ..p };
        if q.page.len() == 256 {
            (flushed(q), page_acts(q.base, q.off, q.page))
        } else {
            (q, Seq::empty())
        }
    }
}

/// Take in bytes one after the other.
pub open spec fn accepted_all(p: Progress, s: Seq<u8>) -> (Progress, Seq<FlashAct>)
    decreases s.len(),
{
    if s.len() == 0 {
        (p, Seq::empty())
    } else {
        let (q, a) = accepted_all(p, s.drop_last());
        let (r, b) = accepted(q, s.last());
        (r, a + b)
    }
}

/// Program the last, partial page once the whole image is there.
pub open spec fn settled(p: Progress) -> (Progress, Seq<FlashAct>) {
    if p.off + p.page.len() >= p.size && p.page.len() > 0 {
        (flushed(p), page_acts(p.base, p.off, p.page))
    } else {
        (p, Seq::empty())
    }
}

/// Feed a piece of the image.
pub open spec fn fed(p: Progress, s: Seq<u8>) -> (Progress, Seq<FlashAct>) {
    let (q, a) = accepted_all(p, s);
    let (r, b) = settled(q);
    (r, a + b)
}

fn push_op(ops: &mut Vec<FlashOp>, op: FlashOp)
    ensures
        acts(final(ops)@) == acts(old(ops)@) + seq![op@],
{
    ops.push(op);
    assert(acts(ops@) =~= acts(old(ops)@) + seq![op@]);
}

impl Upload {
    /// Begin an upload of `size` bytes into the slot at `base`.
    pub fn begin(base: u32, size: u32) -> (u: Upload)
        ensures
            u@ == (Progress {
                base: base as int,
                size: size as int,
                off: 0,
                crc: 0xFFFF_FFFF,
                page: Seq::empty(),
            }),
            sound_upload(u@),
    {
        Upload { base, size, off: 0, crc: 0xFFFF_FFFF, page: Vec::new() }
    }

    fn flush(&mut self, ops: &mut Vec<FlashOp>)
        requires
            0 < old(self).page@.len() <= 256,
            old(self)@.off + old(self).page@.len() <= old(self)@.size,
        ensures
            final(self)@ == flushed(old(self)@),
            acts(final(ops)@) == acts(old(ops)@) + page_acts(
                old(self)@.base,
                old(self)@.off,
                old(self)@.page,
            ),
    {
        let ghost a0 = acts(ops@);
        if let Some(addr) = self.base.checked_add(self.off) {
            if self.off % FLASH_SECTOR == 0 {
                push_op(ops, FlashOp::Erase { addr });
            }
            let mut data: Vec<u8> = Vec::new();
            append(&mut data, self.page.as_slice());
            assert(data@ =~= self.page@);
            push_op(ops, FlashOp::Program { addr, data });
        }
        assert(acts(ops@) =~= a0 + page_acts(self@.base, self@.off, self@.page));
        self.crc = crc32(self.crc, self.page.as_slice());
        self.off = self.off + self.page.len() as u32;
        self.page.clear();
        assert(self@ == flushed(old(self)@));
    }

    /// Stream a piece of the image into the slot. Returns the flash operations
    /// to perform, in order.
    pub fn feed(&mut self, bytes: &[u8]) -> (ops: Vec<FlashOp>)
        requires
            sound_upload(old(self)@),
        ensures
            sound_upload(final(self)@),
            final(self)@ == fed(old(self)@, bytes@).0,
            acts(ops@) == fed(old(self)@, bytes@).1,
    {
        let ghost p0 = self@;
        let mut ops: Vec<FlashOp> = Vec::new();
        let mut i: usize = 0;
        assert(bytes@.take(0) =~= Seq::<u8>::empty());
        assert(acts(ops@) =~= Seq::<FlashAct>::empty());
        while i < bytes.len()
            invariant
                i <= bytes@.len(),
                sound_upload(self@),
                self@ == accepted_all(p0, bytes@.take(i as int)).0,
                acts(ops@) == accepted_all(p0, bytes@.take(i as int)).1,
            decreases bytes@.len() - i,
        {
            let ghost before = self@;
            let ghost a0 = acts(ops@);
            let b: u8 = bytes[i];
            i = i + 1;
            assert(bytes@.take(i as int).drop_last() =~= bytes@.take(i - 1));
            if self.size - self.off > self.page.len() as u32 {
                self.page.push(b);
                if self.page.len() as u32 == FLASH_PAGE {
                    let ghost staged = self@;
                    self.flush(&mut ops);
                    assert(staged == (Progress { page: before.page.push(b), ..before }));
                } else {
                    assert(acts(ops@) =~= a0 + Seq::<FlashAct>::empty());
                }
                assert(self@ == accepted(before, b).0);
            } else {
                assert(acts(ops@) =~= a0 + Seq::<FlashAct>::empty());
            }
        }
        assert(bytes@.take(i as int) =~= bytes@);
        let ghost q = self@;
        let ghost a1 = acts(ops@);
        if self.size - self.off <= self.page.len() as u32 && self.page.len() > 0 {
            self.flush(&mut ops);
        } else {
            assert(acts(ops@) =~= a1 + Seq::<FlashAct>::empty());
        }
        ops
    }

    /// Whether the whole image was written.
    pub fn done(&self) -> (r: bool)
        ensures
            r == (self@.off >= self@.size),
    {
        self.off >= self.size
    }

    /// The CRC-32 of the image written.
    pub fn final_crc(&self) -> (r: u32)
        ensures
            r == self.crc ^ 0xFFFF_FFFF,
    {
        self.crc ^ 0xFFFF_FFFF
    }
}

proof fn accepted_all_splits(p: Progress, a: Seq<u8>, b: Seq<u8>)
    ensures
        accepted_all(p, a + b).0 == accepted_all(accepted_all(p, a).0, b).0,
        accepted_all(p, a + b).1 == accepted_all(p, a).1 + accepted_all(
            accepted_all(p, a).0,
            b,
        ).1,
    decreases b.len(),
{
    if b.len() == 0 {
        assert(a + b =~= a);
        assert(accepted_all(p, a).1 + Seq::<FlashAct>::empty() =~= accepted_all(p, a).1);
    } else {
        assert((a + b).drop_last() =~= a + b.drop_last());
        accepted_all_splits(p, a, b.drop_last());
        let q = accepted_all(p, a).0;
        let (m, x) = accepted_all(q, b.drop_last());
        let (n, y) = accepted(m, b.last());
        assert(accepted_all(p, a).1 + x + y =~= accepted_all(p, a).1 + (x + y));
    }
}

proof fn nothing_after_the_end(p: Progress, b: Seq<u8>)
    requires
        p.off + p.page.len() >= p.size,
    ensures
        accepted_all(p, b) == (p, Seq::<FlashAct>::empty()),
    decreases b.len(),
{
    if b.len() > 0 {
        nothing_after_the_end(p, b.drop_last());
        assert(Seq::<FlashAct>::empty() + Seq::<FlashAct>::empty() =~= Seq::<FlashAct>::empty());
    }
}

/// An image is written the same way however it is cut into pieces: feeding two
/// pieces performs the same operations and ends in the same state as feeding
/// them as one.
pub proof fn pieces_do_not_matter(p: Progress, a: Seq<u8>, b: Seq<u8>)
    requires
        sound_upload(p),
    ensures
        fed(fed(p, a).0, b).0 == fed(p, a + b).0,
        fed(p, a).1 + fed(fed(p, a).0, b).1 == fed(p, a + b).1,
{
    accepted_all_splits(p, a, b);
    let (q, x) = accepted_all(p, a);
    let (r, y) = settled(q);
    if q.off + q.page.len() >= q.size {
        nothing_after_the_end(q, b);
        nothing_after_the_end(r, b);
        let e = Seq::<FlashAct>::empty();
        assert(x + e =~= x);
        assert(x + y + (e + e) =~= x + y);
    } else {
        assert(r == q);
        let (m, z) = accepted_all(q, b);
        let (n, w) = settled(m);
        assert(x + Seq::<FlashAct>::empty() + (z + w) =~= x + z + w);
    }
}

/// The operations that write an image page by page from byte `i` on.
pub open spec fn image_acts(base: int, image: Seq<u8>, i: int) -> Seq<FlashAct>
    decreases image.len() - i,
{
    if i < 0 || i >= image.len() {
        Seq::empty()
    } else if i + 256 <= image.len() {
        page_acts(base, i, image.subrange(i, i + 256)) + image_acts(base, image, i + 256)
    } else {
        page_acts(base, i, image.skip(i))
    }
}

/// The state and the operations once `n` bytes of an image were taken in.
proof fn image_so_far(p: Progress, image: Seq<u8>, n: int)
    requires
        sound_upload(p),
        p.off == 0,
        p.page.len() == 0,
        p.size == image.len(),
        0 <= n <= image.len(),
    ensures
        ({
            let (q, a) = accepted_all(p, image.take(n));
            let full = n - n % 256;
            &&& q.base == p.base && q.size == p.size
            &&& q.off == full
            &&& q.page == image.subrange(full, n)
            &&& q.crc == crc_of(p.crc, image.take(full))
            &&& a + image_acts(p.base, image, full) == image_acts(p.base, image, 0)
        }),
    decreases n,
{
    let e = Seq::<FlashAct>::empty();
    if n == 0 {
        assert(image.take(0) =~= Seq::<u8>::empty());
        assert(image.subrange(0, 0) =~= Seq::<u8>::empty());
        assert(e + image_acts(p.base, image, 0) =~= image_acts(p.base, image, 0));
        assert(p.page =~= Seq::<u8>::empty());
    } else {
        image_so_far(p, image, n - 1);
        assert(image.take(n).drop_last() =~= image.take(n - 1));
        let (q, a) = accepted_all(p, image.take(n - 1));
        let full = (n - 1) - (n - 1) % 256;
        let page = q.page.push(image[n - 1]);
        assert(page =~= image.subrange(full, n));
        if page.len() == 256 {
            assert(n % 256 == 0);
            crc_streams(p.crc, image.take(full), page);
            assert(image.take(full) + page =~= image.take(n));
            assert(image.subrange(n, n) =~= Seq::<u8>::empty());
            let this = page_acts(p.base, full, page);
            assert(a + this + image_acts(p.base, image, n) =~= a + (this + image_acts(
                p.base,
                image,
                n,
            )));
        } else {
            assert(n % 256 != 0 && n - n % 256 == full);
            assert(a + e =~= a);
        }
    }
}

/// Uploading an image writes exactly its pages, each at its place and each
/// sector erased before its first page, as far as the address space reaches, and
/// ends with the CRC of the image.
pub proof fn upload_writes_the_image(p: Progress, image: Seq<u8>)
    requires
        sound_upload(p),
        p.off == 0,
        p.page.len() == 0,
        p.size == image.len(),
    ensures
        fed(p, image).1 == image_acts(p.base, image, 0),
        fed(p, image).0.off == image.len(),
        fed(p, image).0.page.len() == 0,
        fed(p, image).0.crc == crc_of(p.crc, image),
{
    let n = image.len() as int;
    image_so_far(p, image, n);
    assert(image.take(n) =~= image);
    let (q, a) = accepted_all(p, image);
    let full = n - n % 256;
    let e = Seq::<FlashAct>::empty();
    if full < n {
        crc_streams(p.crc, image.take(full), q.page);
        assert(image.take(full) + q.page =~= image);
        assert(image.subrange(full, n) =~= image.skip(full));
    } else {
        assert(image.take(full) =~= image);
        assert(a + e =~= a);
    }
}

/// What `line` says after the header's name: its digits as a number (modulo
/// 2^32), spaces skipped, up to the first other byte.
pub open spec fn spaced_value(line: Seq<u8>, k: int, acc: u32) -> u32
    decreases line.len() - k,
{
    if k < 0 || k >= line.len() {
        acc
    } else if 48 <= line[k] <= 57 {
        spaced_value(line, k + 1, ((10 * acc + (line[k] - 48)) % 0x1_0000_0000) as u32)
    } else if line[k] == 32 {
        spaced_value(line, k + 1, acc)
    } else {
        acc
    }
}

/// The value of the first line from `i` on that begins with `name`, letters
/// compared without case; 0 when there is none.
pub open spec fn line_value(h: Seq<u8>, i: int, name: Seq<u8>) -> u32
    decreases h.len() - i,
{
    let end = portal::find_byte(h, 10, i);
    if i < 0 || i > h.len() || end < i {
        0
    } else {
        let line = h.subrange(i, end);
        if http::header_at(line, 0, name) {
            spaced_value(line, name.len() as int, 0)
        } else if end < h.len() {
            line_value(h, end + 1, name)
        } else {
            0
        }
    }
}

fn read_spaced(line: &[u8], start: usize) -> (r: u32)
    requires
        start <= line@.len(),
    ensures
        r == spaced_value(line@, start as int, 0),
{
    let mut v: u32 = 0;
    let mut k: usize = start;
    while k < line.len()
        invariant
            k <= line@.len(),
            spaced_value(line@, start as int, 0) == spaced_value(line@, k as int, v),
        decreases line@.len() - k,
    {
        let c: u8 = line[k];
        if 48 <= c && c <= 57 {
            v = ((10 * (v as u64) + (c - 48) as u64) % 0x1_0000_0000) as u32;
        } else if c != 32 {
            return v;
        }
        k = k + 1;
    }
    v
}

fn names_header(line: &[u8], name: &[u8]) -> (r: bool)
    ensures
        r == http::header_at(line@, 0, name@),
{
    if line.len() < name.len() {
        return false;
    }
    let mut j: usize = 0;
    while j < name.len()
        invariant
            j <= name@.len(),
            name@.len() <= line@.len(),
            forall|k: int| 0 <= k < j ==> text::lower(#[trigger] line@[0 + k]) == name@[k],
        decreases name@.len() - j,
    {
        if to_lower(line[j]) != name[j] {
            assert(text::lower(line@[0 + j as int]) != name@[j as int]);
            return false;
        }
        j = j + 1;
    }
    true
}

/// The decimal `Content-Length` value of a header block, taken line by line, or
/// 0.
pub fn content_length(headers: &[u8]) -> (r: u32)
    ensures
        r == line_value(headers@, 0, text::lit("content-length:")),
{
    let name = "content-length:".as_bytes();
    let mut i: usize = 0;
    loop
        invariant
            i <= headers@.len(),
            name@ == text::lit("content-length:"),
            line_value(headers@, 0, name@) == line_value(headers@, i as int, name@),
        decreases headers@.len() - i,
    {
        let end: usize = portal::position_from(headers, 10, i);
        let line = slice_subrange(headers, i, end);
        if names_header(line, name) {
            return read_spaced(line, name.len());
        }
        if end >= headers.len() {
            return 0;
        }
        i = end + 1;
    }
}

/// What the HTTP server does with what has arrived.
pub enum HttpAction {
    /// Wait for more.
    Wait,
    /// Serve the status page.
    Get,
    /// Start an upload of this many bytes, the first of which are here.
    Post { size: u32, first: Vec<u8> },
    /// Drop the connection.
    Bad,
}

/// Bytes of the body taken together with the headers, at most.
pub const FIRST_LEN: usize = 512;

/// Dispatch a request: returns how many bytes to consume and what to do.
/// Nothing is consumed until the whole header has arrived.
pub fn http_idle(buf: &[u8]) -> (r: (usize, HttpAction))
    ensures
        match http::end_of_headers(buf@, 0) {
            None => r.0 == 0 && r.1 is Wait,
            Some(h) => if text::begins(buf@, text::lit("GET ")) {
                r.0 == buf@.len() && r.1 is Get
            } else if text::begins(buf@, text::lit("POST /update")) {
                let body = buf@.skip(h);
                let n = if body.len() <= FIRST_LEN {
                    body.len() as int
                } else {
                    FIRST_LEN as int
                };
                &&& r.0 == h + n
                &&& r.1 matches HttpAction::Post { size, first } && size == line_value(
                    buf@.take(h),
                    0,
                    text::lit("content-length:"),
                ) && first@ == body.take(n)
            } else if buf@.len() >= 5 {
                r.0 == buf@.len() && r.1 is Bad
            } else {
                r.0 == 0 && r.1 is Wait
            },
        },
        r.0 <= buf@.len(),
{
    match headers_end(buf) {
        None => (0, HttpAction::Wait),
        Some(h) => {
            if starts_with(buf, "GET ".as_bytes()) {
                (buf.len(), HttpAction::Get)
            } else if starts_with(buf, "POST /update".as_bytes()) {
                let head = slice_subrange(buf, 0, h);
                assert(head@ == buf@.take(h as int));
                let size: u32 = content_length(head);
                let room: usize = buf.len() - h;
                let n: usize = if room <= FIRST_LEN {
                    room
                } else {
                    FIRST_LEN
                };
                let mut first: Vec<u8> = Vec::new();
                append(&mut first, slice_subrange(buf, h, h + n));
                assert(first@ =~= buf@.skip(h as int).take(n as int));
                (h + n, HttpAction::Post { size, first })
            } else if buf.len() >= 5 {
                (buf.len(), HttpAction::Bad)
            } else {
                (0, HttpAction::Wait)
            }
        },
    }
}

/// The state of the HTTP server.
pub enum Update {
    /// Not updating; requests are served.
    Idle,
    /// An image is being streamed into flash.
    Recv(Upload),
    /// The reply was sent; reboot once the clock passes `at`.
    Reboot { at: u64 },
}

/// What the HTTP server does on a poll.
#[derive(Copy, Clone, PartialEq, Eq, Structural)]
pub enum HttpTurn {
    /// Reboot into the new image.
    Reboot,
    /// Nothing.
    Rest,
    /// Listen again, forgetting an unfinished upload.
    Listen,
    /// Look at the next request.
    Serve,
    /// Take in more of the image.
    Receive,
}

/// What the server does at time `now`, with the socket open or not.
pub open spec fn turn_of(u: Update, now: u64, open: bool) -> HttpTurn {
    match u {
        Update::Reboot { at } => if now >= at {
            HttpTurn::Reboot
        } else {
            HttpTurn::Rest
        },
        Update::Idle => if open {
            HttpTurn::Serve
        } else {
            HttpTurn::Listen
        },
        Update::Recv(_) => if open {
            HttpTurn::Receive
        } else {
            HttpTurn::Listen
        },
    }
}

impl Update {
    /// Decide what to do at time `now`, with the socket open or not. A server
    /// that listens again is idle.
    pub fn turn(&mut self, now: u64, open: bool) -> (r: HttpTurn)
        ensures
            r == turn_of(*old(self), now, open),
            *final(self) == if r == HttpTurn::Listen {
                Update::Idle
            } else {
                *old(self)
            },
    {
        let r = self.choice(now, open);
        if r == HttpTurn::Listen {
            *self = Update::Idle;
        }
        r
    }

    fn choice(&self, now: u64, open: bool) -> (r: HttpTurn)
        ensures
            r == turn_of(*self, now, open),
    {
        match self {
            Update::Reboot { at } => {
                if now >= *at {
                    HttpTurn::Reboot
                } else {
                    HttpTurn::Rest
                }
            },
            Update::Idle => {
                if open {
                    HttpTurn::Serve
                } else {
                    HttpTurn::Listen
                }
            },
            Update::Recv(_) => {
                if open {
                    HttpTurn::Receive
                } else {
                    HttpTurn::Listen
                }
            },
        }
    }

    /// Once the whole image was written: the reply to send, and the server goes
    /// on to reboot half a second later. `None` while the upload is not done.
    pub fn finish_if_done(&mut self, now: u64) -> (r: Option<Vec<u8>>)
        requires
            now <= u64::MAX - 500,
        ensures
            match *old(self) {
                Update::Recv(u) => if u@.off >= u@.size {
                    &&& r matches Some(v) && v@ == update_ok_page(
                        u.size,
                        u.crc ^ 0xFFFF_FFFF,
                        u.base,
                    )
                    &&& *final(self) == (Update::Reboot { at: (now + 500) as u64 })
                } else {
                    r is None && *final(self) == *old(self)
                },
                _ => r is None && *final(self) == *old(self),
            },
    {
        let (size, crc, base): (u32, u32, u32) = match &*self {
            Update::Recv(u) => {
                if !u.done() {
                    return None;
                }
                (u.size, u.final_crc(), u.base)
            },
            _ => return None,
        };
        let v = update_ok(size, crc, base);
        *self = Update::Reboot { at: now + 500 };
        Some(v)
    }
}

/// `n` in lower-case hexadecimal without leading zeros.
pub open spec fn hex(n: nat) -> Seq<u8>
    decreases n,
{
    if n < 16 {
        seq![text::hex_digit(n as int)]
    } else {
        hex(n / 16).push(text::hex_digit(n as int % 16))
    }
}

fn append_hex(v: &mut Vec<u8>, n: u32)
    ensures
        final(v)@ == old(v)@ + hex(n as nat),
    decreases n,
{
    if n < 16 {
        v.push(text::hex_char(n as u8));
        assert(v@ =~= old(v)@ + hex(n as nat));
    } else {
        append_hex(v, n / 16);
        v.push(text::hex_char((n % 16) as u8));
        assert(v@ =~= old(v)@ + hex(n as nat));
    }
}

/// The reply to a finished upload.
pub open spec fn update_ok_page(size: u32, crc: u32, base: u32) -> Seq<u8> {
    text::lit(
        "HTTP/1.0 200 OK\r\nContent-Type: text/plain\r\nConnection: close\r\n\r\nwrote ",
    ) + text::decimal(size as nat) + text::lit(" bytes to slot 0x") + hex(base as nat) + text::lit(
        ", crc32=",
    ) + text::hex8(crc) + text::lit("\nrebooting into it...\n")
}

fn update_ok(size: u32, crc: u32, base: u32) -> (v: Vec<u8>)
    ensures
        v@ == update_ok_page(size, crc, base),
{
    let mut v: Vec<u8> = Vec::new();
    append_str(
        &mut v,
        "HTTP/1.0 200 OK\r\nContent-Type: text/plain\r\nConnection: close\r\n\r\nwrote ",
    );
    append_u32(&mut v, size);
    append_str(&mut v, " bytes to slot 0x");
    append_hex(&mut v, base);
    append_str(&mut v, ", crc32=");
    append_hex32(&mut v, crc);
    append_str(&mut v, "\nrebooting into it...\n");
    assert(v@ =~= update_ok_page(size, crc, base));
    v
}

fn write_page(buf: &mut [u8], page: &[u8]) -> (n: usize)
    ensures
        n == portal::clamp(page@, old(buf)@.len()).len(),
        final(buf)@ == portal::clamp(page@, old(buf)@.len()) + old(buf)@.skip(n as int),
{
    let n: usize = if page.len() <= buf.len() {
        page.len()
    } else {
        buf.len()
    };
    let cut = slice_subrange(page, 0, n);
    assert(cut@ =~= portal::clamp(page@, buf@.len()));
    copy_into(buf, cut);
    n
}

/// Format the reply to a finished upload into `buf`, cut off at its end;
/// returns the length written.
pub fn build_update_ok(buf: &mut [u8], size: u32, crc: u32, base: u32) -> (n: usize)
    ensures
        n == portal::clamp(update_ok_page(size, crc, base), old(buf)@.len()).len(),
        final(buf)@ == portal::clamp(update_ok_page(size, crc, base), old(buf)@.len()) + old(buf)@.skip(n as int),
{
    let v = update_ok(size, crc, base);
    write_page(buf, v.as_slice())
}

/// Response head and page up to the address.
pub const PAGE_TOP: &'static str =
    "HTTP/1.0 200 OK\r\nContent-Type: text/html; charset=utf-8\r\nConnection: close\r\n\r\n<!doctype html><html><head><meta name=viewport content=\"width=device-width,initial-scale=1\"><title>RP2350</title></head><body style=\"font-family:sans-serif\"><h1>Pico 2 + W5500</h1><p>Served by the Hubris rp235x-net task over smoltcp (MACRAW).</p><table><tr><td>IP</td><td>";

/// The page after the frame count.
pub const PAGE_BOTTOM: &'static str =
    "</td></tr></table><h2>Firmware update (A/B)</h2><form id=f><input type=file id=u required> <button>Upload &amp; reboot</button></form><pre id=o></pre><script>f.onsubmit=async e=>{e.preventDefault();o.textContent='uploading...';let d=await u.files[0].arrayBuffer();let r=await fetch('/update',{method:'POST',body:d});o.textContent=await r.text();}</script></body></html>";

/// The status page.
pub open spec fn status_page(
    ip: Seq<u8>,
    prefix: u8,
    mac: Seq<u8>,
    uptime_ms: u64,
    rx: u32,
) -> Seq<u8> {
    text::lit(PAGE_TOP) + text::decimal(ip[0] as nat) + text::lit(".") + text::decimal(
        ip[1] as nat,
    ) + text::lit(".") + text::decimal(ip[2] as nat) + text::lit(".") + text::decimal(ip[3] as nat)
        + text::lit("/") + text::decimal(prefix as nat) + text::lit(
        "</td></tr><tr><td>MAC</td><td>",
    ) + text::hex2(mac[0]) + text::lit(":") + text::hex2(mac[1]) + text::lit(":") + text::hex2(
        mac[2],
    ) + text::lit(":") + text::hex2(mac[3]) + text::lit(":") + text::hex2(mac[4]) + text::lit(":")
        + text::hex2(mac[5]) + text::lit("</td></tr><tr><td>Uptime</td><td>") + text::decimal(
        (uptime_ms / 1000) as nat,
    ) + text::lit(" s</td></tr><tr><td>RX frames</td><td>") + text::decimal(rx as nat) + text::lit(
        PAGE_BOTTOM,
    )
}

/// Format the status page into `buf`, cut off at its end; returns the length
/// written.
pub fn build_page(
    buf: &mut [u8],
    ip: [u8; 4],
    prefix: u8,
    mac: [u8; 6],
    uptime_ms: u64,
    rx: u32,
) -> (n: usize)
    ensures
        n == portal::clamp(status_page(ip@, prefix, mac@, uptime_ms, rx), old(buf)@.len()).len(),
        final(buf)@ == portal::clamp(
            status_page(ip@, prefix, mac@, uptime_ms, rx),
            old(buf)@.len(),
        ) + old(buf)@.skip(n as int),
{
    let mut v: Vec<u8> = Vec::new();
    append_str(&mut v, PAGE_TOP);
    append_u32(&mut v, ip[0] as u32);
    append_str(&mut v, ".");
    append_u32(&mut v, ip[1] as u32);
    append_str(&mut v, ".");
    append_u32(&mut v, ip[2] as u32);
    append_str(&mut v, ".");
    append_u32(&mut v, ip[3] as u32);
    append_str(&mut v, "/");
    append_u32(&mut v, prefix as u32);
    append_str(&mut v, "</td></tr><tr><td>MAC</td><td>");
    append_hex_byte(&mut v, mac[0]);
    append_str(&mut v, ":");
    append_hex_byte(&mut v, mac[1]);
    append_str(&mut v, ":");
    append_hex_byte(&mut v, mac[2]);
    append_str(&mut v, ":");
    append_hex_byte(&mut v, mac[3]);
    append_str(&mut v, ":");
    append_hex_byte(&mut v, mac[4]);
    append_str(&mut v, ":");
    append_hex_byte(&mut v, mac[5]);
    append_str(&mut v, "</td></tr><tr><td>Uptime</td><td>");
    append_u64(&mut v, uptime_ms / 1000);
    append_str(&mut v, " s</td></tr><tr><td>RX frames</td><td>");
    append_u32(&mut v, rx);
    append_str(&mut v, PAGE_BOTTOM);
    assert(v@ =~= status_page(ip@, prefix, mac@, uptime_ms, rx));
    write_page(buf, v.as_slice())
}

/// Hardware address used when the flash has no unique ID.
pub const MAC_FALLBACK: [u8; 6] = [0x02, 0xC0, 0xFF, 0xEE, 0x28, 0x61];

/// The hardware address of a board: the low five bytes of its ID behind a first
/// octet that says "locally administered", or the fallback for a zero ID.
pub open spec fn mac_of(id: u64) -> Seq<u8> {
    if id == 0 {
        MAC_FALLBACK@
    } else {
        [
            0x02u8,
            (id % 0x100) as u8,
            (id / 0x100 % 0x100) as u8,
            (id / 0x1_0000 % 0x100) as u8,
            (id / 0x100_0000 % 0x100) as u8,
            (id / 0x1_0000_0000 % 0x100) as u8,
        ]@
    }
}

/// Two boards never share a hardware address, as far as their IDs are read and
/// differ in the bytes that the address takes.
pub proof fn boards_have_their_own_address(a: u64, b: u64)
    requires
        a != 0,
        b != 0,
        a % 0x100_0000_0000 != b % 0x100_0000_0000,
    ensures
        mac_of(a) != mac_of(b),
        mac_of(a)[0] == 0x02,
{
    if mac_of(a) == mac_of(b) {
        assert(mac_of(a)[1] == mac_of(b)[1]);
        assert(mac_of(a)[2] == mac_of(b)[2]);
        assert(mac_of(a)[3] == mac_of(b)[3]);
        assert(mac_of(a)[4] == mac_of(b)[4]);
        assert(mac_of(a)[5] == mac_of(b)[5]);
        low_bytes_add_up(a);
        low_bytes_add_up(b);
    }
}

proof fn low_bytes_add_up(x: u64)
    ensures
        x % 0x100_0000_0000 == x % 0x100 + 0x100 * (x / 0x100 % 0x100) + 0x1_0000 * (x / 0x1_0000
            % 0x100) + 0x100_0000 * (x / 0x100_0000 % 0x100) + 0x1_0000_0000 * (x / 0x1_0000_0000
            % 0x100),
{
    let x = x as int;
    vstd::arithmetic::div_mod::lemma_mod_breakdown(x, 0x100, 0x1_0000_0000);
    vstd::arithmetic::div_mod::lemma_mod_breakdown(x / 0x100, 0x100, 0x100_0000);
    vstd::arithmetic::div_mod::lemma_mod_breakdown(x / 0x1_0000, 0x100, 0x1_0000);
    vstd::arithmetic::div_mod::lemma_mod_breakdown(x / 0x100_0000, 0x100, 0x100);
    assert(x / 0x100 / 0x100 == x / 0x1_0000);
    assert(x / 0x1_0000 / 0x100 == x / 0x100_0000);
    assert(x / 0x100_0000 / 0x100 == x / 0x1_0000_0000);
}

/// Derive a stable, locally administered hardware address from the flash chip's
/// unique ID.
pub fn derive_mac(id: u64) -> (r: [u8; 6])
    ensures
        r@ == mac_of(id),
{
    if id == 0 {
        return [0x02, 0xC0, 0xFF, 0xEE, 0x28, 0x61];
    }
    [
        0x02,
        (id % 0x100) as u8,
        (id / 0x100 % 0x100) as u8,
        (id / 0x1_0000 % 0x100) as u8,
        (id / 0x100_0000 % 0x100) as u8,
        (id / 0x1_0000_0000 % 0x100) as u8,
    ]
}

/// Static address used when DHCP does not bind.
pub const STATIC_ADDR: [u8; 4] = [10, 110, 10, 201];

pub const STATIC_PREFIX: u8 = 24;

/// Default route that goes with it.
pub const STATIC_GW: [u8; 4] = [10, 110, 10, 1];

/// Grace period for DHCP, in ms.
pub const STATIC_FALLBACK_MS: u64 = 8_000;

/// Idle poll cadence, in ms.
pub const POLL_MS: u64 = 5;

/// Receive silence after which the chip is looked at, in ms.
pub const RX_WATCHDOG_MS: u64 = 4_000;

/// What the DHCP client reports.
pub enum DhcpEvent {
    /// Nothing new.
    Quiet,
    /// An address was leased.
    Configured { addr: [u8; 4], prefix: u8, router: Option<[u8; 4]> },
    /// The lease is gone.
    Deconfigured,
}

/// What to do with the interface's address.
pub enum AddrAction {
    /// Leave it.
    Keep,
    /// Install this address, and this default route or none.
    Install { addr: [u8; 4], prefix: u8, route: Option<[u8; 4]> },
    /// Remove address and default route.
    Remove,
}

/// The network task's bookkeeping.
pub struct NetState {
    /// DHCP has configured an address.
    pub bound: bool,
    /// The static fallback address is installed.
    pub static_active: bool,
    pub addr: [u8; 4],
    pub prefix: u8,
    /// Poll counter.
    pub polls: u32,
    /// When the task started, in ms.
    pub start_ms: u64,
    /// Frames received when the watchdog last saw progress, and when that was.
    pub last_rx_count: u32,
    pub last_rx_ms: u64,
}

/// Time from `then` to `now`, modulo 2^64.
pub open spec fn since(now: u64, then: u64) -> int {
    (now - then) % 0x1_0000_0000_0000_0000
}

/// What the receive watchdog wants to know.
#[derive(Copy, Clone, PartialEq, Eq, Structural)]
pub enum Watch {
    /// All is well.
    Fine,
    /// Too long without a frame: is the link up?
    AskLink,
}

/// DHCP stays primary: it has its full grace period from the moment the task
/// starts, however long the system was up before, and once it has bound an
/// address the fallback never takes over.
pub proof fn dhcp_has_its_grace(s: NetState, now: u64)
    requires
        s.bound || since(now, s.start_ms) < STATIC_FALLBACK_MS,
    ensures
        !s.fallback_due(now),
{
}

/// Whether the watchdog asks for the link at `now`, with `rx_count` frames
/// received so far: frames have been missing for too long.
pub open spec fn asks_link(s: NetState, now: u64, rx_count: u32) -> bool {
    &&& rx_count == s.last_rx_count
    &&& since(now, s.last_rx_ms) > RX_WATCHDOG_MS
}

/// The state after the watchdog was told at `now` whether the link is up: its
/// window begins anew.
pub open spec fn asked(s: NetState, now: u64) -> NetState {
    NetState { last_rx_ms: now, ..s }
}

/// The watchdog asks at most once in each window, whatever it was told.
pub proof fn link_is_asked_once_a_window(s: NetState, now: u64, later: u64, rx_count: u32)
    requires
        since(later, now) <= RX_WATCHDOG_MS,
    ensures
        !asks_link(asked(s, now), later, rx_count),
{
}

/// Whether the watchdog resets the chip at `now`, with `rx_count` frames
/// received so far: frames have been missing for too long, the link is up, and
/// the socket is no longer raw.
pub open spec fn watchdog_resets(
    s: NetState,
    now: u64,
    rx_count: u32,
    link_up: bool,
    raw: bool,
) -> bool {
    &&& asks_link(s, now, rx_count)
    &&& link_up
    &&& !raw
}

/// Silence alone never resets the chip, however long it lasts: it takes a
/// socket that has left the raw mode while the link is up.
pub proof fn silence_alone_never_resets(
    s: NetState,
    now: u64,
    rx_count: u32,
    link_up: bool,
    raw: bool,
)
    requires
        raw || !link_up,
    ensures
        !watchdog_resets(s, now, rx_count, link_up, raw),
{
}

impl NetState {
    /// The state of a task that starts at `now`.
    pub fn new(now: u64) -> (s: NetState)
        ensures
            !s.bound,
            !s.static_active,
            s.addr@ == [0u8, 0, 0, 0]@,
            s.prefix == 0,
            s.polls == 0,
            s.start_ms == now,
            s.last_rx_count == 0,
            s.last_rx_ms == 0,
    {
        NetState {
            bound: false,
            static_active: false,
            addr: [0, 0, 0, 0],
            prefix: 0,
            polls: 0,
            start_ms: now,
            last_rx_count: 0,
            last_rx_ms: 0,
        }
    }

    /// Count a poll; every 250th asks for receiver diagnostics.
    pub fn count_poll(&mut self) -> (diag: bool)
        ensures
            final(self).polls == (old(self).polls + 1) % 0x1_0000_0000,
            diag == (final(self).polls % 250 == 0),
            *final(self) == (NetState { polls: final(self).polls, ..*old(self) }),
    {
        self.polls = self.polls.wrapping_add(1);
        self.polls % 250 == 0
    }

    /// Apply what the DHCP client reports.
    pub fn on_dhcp(&mut self, e: DhcpEvent) -> (a: AddrAction)
        ensures
            match e {
                DhcpEvent::Quiet => a is Keep && *final(self) == *old(self),
                DhcpEvent::Configured { addr, prefix, router } => {
                    &&& a == (AddrAction::Install { addr, prefix, route: router })
                    &&& *final(self) == (NetState {
                        bound: true,
                        static_active: false,
                        addr,
                        prefix,
                        ..*old(self)
                    })
                },
                DhcpEvent::Deconfigured => {
                    &&& a is Remove
                    &&& final(self).addr@ == [0u8, 0, 0, 0]@
                    &&& *final(self) == (NetState {
                        bound: false,
                        addr: final(self).addr,
                        prefix: 0,
                        ..*old(self)
                    })
                },
            },
    {
        match e {
            DhcpEvent::Quiet => AddrAction::Keep,
            DhcpEvent::Configured { addr, prefix, router } => {
                self.bound = true;
                self.static_active = false;
                self.addr = addr;
                self.prefix = prefix;
                AddrAction::Install { addr, prefix, route: router }
            },
            DhcpEvent::Deconfigured => {
                self.bound = false;
                self.addr = [0, 0, 0, 0];
                self.prefix = 0;
                AddrAction::Remove
            },
        }
    }

    /// Whether the static address is to be installed at `now`: DHCP has not
    /// bound within its grace period, and it is not installed yet.
    pub open spec fn fallback_due(&self, now: u64) -> bool {
        !self.bound && !self.static_active && since(now, self.start_ms) >= STATIC_FALLBACK_MS
    }

    /// Fall back to the static address when DHCP has had its chance.
    pub fn fallback(&mut self, now: u64) -> (a: AddrAction)
        ensures
            old(self).fallback_due(now) ==> {
                &&& final(self).addr@ == STATIC_ADDR@
                &&& *final(self) == (NetState {
                    static_active: true,
                    addr: final(self).addr,
                    prefix: STATIC_PREFIX,
                    ..*old(self)
                })
                &&& a matches AddrAction::Install { addr, prefix, route: Some(gw) } && addr
                    == final(self).addr && prefix == STATIC_PREFIX && gw@ == STATIC_GW@
            },
            !old(self).fallback_due(now) ==> a is Keep && *final(self) == *old(self),
    {
        if !self.bound && !self.static_active && now.wrapping_sub(self.start_ms)
            >= STATIC_FALLBACK_MS {
            self.static_active = true;
            let addr: [u8; 4] = [10, 110, 10, 201];
            self.addr = addr;
            self.prefix = STATIC_PREFIX;
            AddrAction::Install { addr, prefix: STATIC_PREFIX, route: Some([10, 110, 10, 1]) }
        } else {
            AddrAction::Keep
        }
    }

    /// Watch for receive progress: `rx_count` frames were received by `now`.
    pub fn watch(&mut self, now: u64, rx_count: u32) -> (w: Watch)
        ensures
            forall|up: bool, raw: bool| #[trigger]
                watchdog_resets(*old(self), now, rx_count, up, raw) == (w == Watch::AskLink && up
                    && !raw),
            rx_count != old(self).last_rx_count ==> w == Watch::Fine && *final(self) == (NetState {
                last_rx_count: rx_count,
                last_rx_ms: now,
                ..*old(self)
            }),
            rx_count == old(self).last_rx_count ==> *final(self) == *old(self) && w == if asks_link(
                *old(self),
                now,
                rx_count,
            ) {
                Watch::AskLink
            } else {
                Watch::Fine
            },
    {
        if rx_count != self.last_rx_count {
            self.last_rx_count = rx_count;
            self.last_rx_ms = now;
            Watch::Fine
        } else if now.wrapping_sub(self.last_rx_ms) > RX_WATCHDOG_MS {
            Watch::AskLink
        } else {
            Watch::Fine
        }
    }

    /// Take in whether the link is up; returns whether the socket's mode is to
    /// be checked. Either way the watchdog's window begins anew.
    pub fn on_link(&mut self, now: u64, up: bool) -> (check: bool)
        ensures
            check == up,
            *final(self) == asked(*old(self), now),
    {
        self.last_rx_ms = now;
        up
    }

    /// Take in whether the socket is raw; returns whether the chip is reset.
    pub fn on_mode(&self, raw: bool) -> (reset: bool)
        ensures
            reset == !raw,
    {
        !raw
    }

    /// The status word that clients read.
    pub open spec fn status_word(&self, link_up: bool) -> nat {
        let link = if link_up {
            0x8000_0000_0000_0000nat
        } else {
            0
        };
        if self.bound || self.static_active {
            link + (if self.bound {
                0x4000_0000_0000_0000nat
            } else {
                0x2000_0000_0000_0000nat
            }) + 0x1_0000_0000 * (self.prefix as nat) + 0x100_0000 * (self.addr@[0] as nat)
                + 0x1_0000 * (self.addr@[1] as nat) + 0x100 * (self.addr@[2] as nat)
                + self.addr@[3] as nat
        } else {
            link
        }
    }

    /// The status word: link, how the address was obtained, prefix and address.
    pub fn status(&self, link_up: bool) -> (r: u64)
        ensures
            r == self.status_word(link_up),
    {
        let mut s: u64 = 0;
        if link_up {
            s = STATUS_LINK_UP;
        }
        if self.bound || self.static_active {
            s = s + if self.bound {
                STATUS_BOUND
            } else {
                STATUS_STATIC
            };
            s = s + 0x1_0000_0000 * (self.prefix as u64);
            s = s + 0x100_0000 * (self.addr[0] as u64) + 0x1_0000 * (self.addr[1] as u64) + 0x100
                * (self.addr[2] as u64) + self.addr[3] as u64;
        }
        s
    }
}

/// Status bit: the Ethernet link is up.
pub const STATUS_LINK_UP: u64 = 0x8000_0000_0000_0000;

/// Status bit: DHCP has bound.
pub const STATUS_BOUND: u64 = 0x4000_0000_0000_0000;

/// Status bit: the static address is active.
pub const STATUS_STATIC: u64 = 0x2000_0000_0000_0000;

/// The address octets of a status word.
pub open spec fn ip_of(status: u64) -> Seq<u8> {
    [
        (status / 0x100_0000 % 0x100) as u8,
        (status / 0x1_0000 % 0x100) as u8,
        (status / 0x100 % 0x100) as u8,
        (status % 0x100) as u8,
    ]@
}

/// The prefix length of a status word.
pub open spec fn prefix_of(status: u64) -> u8 {
    (status / 0x1_0000_0000 % 0x100) as u8
}

/// Unpack the address octets from a status word (a.b.c.d).
pub fn status_ip(status: u64) -> (r: [u8; 4])
    ensures
        r@ == ip_of(status),
{
    [
        (status / 0x100_0000 % 0x100) as u8,
        (status / 0x1_0000 % 0x100) as u8,
        (status / 0x100 % 0x100) as u8,
        (status % 0x100) as u8,
    ]
}

/// Unpack the prefix length from a status word.
pub fn status_prefix(status: u64) -> (r: u8)
    ensures
        r == prefix_of(status),
{
    (status / 0x1_0000_0000 % 0x100) as u8
}

proof fn bytes_of_a_sum(hi: nat, a: u8, b: u8, c: u8, d: u8)
    ensures
        ({
            let w = 0x1_0000_0000 * hi + 0x100_0000 * a + 0x1_0000 * b + 0x100 * c + d;
            &&& w % 0x100 == d
            &&& w / 0x100 % 0x100 == c
            &&& w / 0x1_0000 % 0x100 == b
            &&& w / 0x100_0000 % 0x100 == a
            &&& w / 0x1_0000_0000 == hi
        }),
{
    let w = 0x1_0000_0000 * hi + 0x100_0000 * a + 0x1_0000 * b + 0x100 * c + d;
    let q3 = 0x100_0000 * hi + 0x1_0000 * a + 0x100 * b + c;
    let q2 = 0x1_0000 * hi + 0x100 * a + b;
    let q1 = 0x100 * hi + a;
    assert(w == 0x100 * q3 + d);
    assert(w / 0x100 == q3);
    assert(w == 0x1_0000 * q2 + (0x100 * c + d));
    assert(w / 0x1_0000 == q2);
    assert(w == 0x100_0000 * q1 + (0x1_0000 * b + 0x100 * c + d));
    assert(w / 0x100_0000 == q1);
    assert(w / 0x1_0000_0000 == hi);
}

/// A client reads back the address and prefix that the task has installed.
pub proof fn status_tells_the_address(s: NetState, link_up: bool)
    requires
        s.bound || s.static_active,
    ensures
        s.status_word(link_up) <= u64::MAX,
        ip_of(s.status_word(link_up) as u64) == s.addr@,
        prefix_of(s.status_word(link_up) as u64) == s.prefix,
{
    let flags = (if link_up {
        0x8000_0000nat
    } else {
        0
    }) + (if s.bound {
        0x4000_0000nat
    } else {
        0x2000_0000nat
    });
    let hi = (flags + s.prefix) as nat;
    bytes_of_a_sum(hi, s.addr@[0], s.addr@[1], s.addr@[2], s.addr@[3]);
    assert(s.status_word(link_up) == 0x1_0000_0000 * hi + 0x100_0000 * s.addr@[0] + 0x1_0000
        * s.addr@[1] + 0x100 * s.addr@[2] + s.addr@[3]);
    assert(hi % 0x100 == s.prefix);
    assert(ip_of(s.status_word(link_up) as u64) =~= s.addr@);
}

/// Without an address, a status word tells only the link.
pub proof fn status_without_address(s: NetState, link_up: bool)
    requires
        !s.bound && !s.static_active,
    ensures
        s.status_word(link_up) == if link_up {
            STATUS_LINK_UP
        } else {
            0
        },
{
}

/// How long to wait for the next poll: what the stack asks for, at least 1 ms
/// and at most the idle cadence.
pub fn poll_interval(delay: Option<u64>) -> (r: u64)
    ensures
        r == match delay {
            Some(d) => if d < 1 {
                1
            } else if d > POLL_MS {
                POLL_MS
            } else {
                d
            },
            None => POLL_MS,
        },
{
    match delay {
        Some(d) => {
            if d < 1 {
                1
            } else if d > POLL_MS {
                POLL_MS
            } else {
                d
            }
        },
        None => POLL_MS,
    }
}

/// The reply to an upload says how much was written, and the checksum in eight
/// digits before its last line.
#[verifier::spinoff_prover]
#[verifier::rlimit(60)]
pub proof fn uploads_are_confirmed(size: u32, crc: u32, base: u32)
    ensures
        ({
            let p = update_ok_page(size, crc, base);
            let head = text::lit(
                "HTTP/1.0 200 OK\r\nContent-Type: text/plain\r\nConnection: close\r\n\r\nwrote ",
            );
            let n = p.len() as int;
            &&& p.take(head.len() as int) == head
            &&& text::numbers_in(p.skip(head.len() as int)).take(1) == seq![size as int]
            &&& text::hex_value(p.subrange(n - 30, n - 22)) == crc
        }),
{
    let head = text::lit(
        "HTTP/1.0 200 OK\r\nContent-Type: text/plain\r\nConnection: close\r\n\r\nwrote ",
    );
    let last = text::lit("\nrebooting into it...\n");
    let mid = text::lit(" bytes to slot 0x");
    assert(last.len() == 22) by {
        reveal_strlit("\nrebooting into it...\n");
        vstd::utf8::is_ascii_chars_encode_utf8("\nrebooting into it...\n"@);
    }
    assert(mid.len() > 0 && !text::digit(mid[0])) by {
        reveal_strlit(" bytes to slot 0x");
        vstd::utf8::is_ascii_chars_encode_utf8(" bytes to slot 0x"@);
    }
    let p = update_ok_page(size, crc, base);
    let n = p.len() as int;
    text::hexadecimals_spell_their_number(0, crc);
    assert(p.subrange(n - 30, n - 22) =~= text::hex8(crc));
    assert(p.take(head.len() as int) =~= head);
    let d = text::decimal(size as nat);
    text::a_number_alone(size as nat);
    let rest = p.skip((head.len() + d.len()) as int);
    let tail = mid + hex(base as nat) + text::lit(", crc32=") + text::hex8(crc) + last;
    assert(rest =~= tail);
    assert(rest[0] == mid[0]);
    text::the_end_keeps_the_numbers(d, rest);
    assert(p.skip(head.len() as int) =~= d + rest);
}

proof fn page_words()
    ensures
        text::words_only(text::lit(".")),
        text::words_only(text::lit("/")),
        text::lit("</td></tr><tr><td>MAC</td><td>").len() > 0,
        !text::digit(text::lit("</td></tr><tr><td>MAC</td><td>")[0]),
{
    reveal_strlit(".");
    reveal_strlit("/");
    reveal_strlit("</td></tr><tr><td>MAC</td><td>");
    vstd::utf8::is_ascii_chars_encode_utf8("."@);
    vstd::utf8::is_ascii_chars_encode_utf8("/"@);
    vstd::utf8::is_ascii_chars_encode_utf8("</td></tr><tr><td>MAC</td><td>"@);
}

spec fn begins_with(a: Seq<u8>, x: Seq<u8>) -> bool {
    x.len() >= a.len() && x.take(a.len() as int) == a
}

proof fn longer_texts_begin_alike(a: Seq<u8>, x: Seq<u8>, b: Seq<u8>)
    requires
        begins_with(a, x),
    ensures
        begins_with(a, x + b),
{
    assert((x + b).take(a.len() as int) =~= x.take(a.len() as int));
}

proof fn address_stands_first(top: Seq<u8>, s: Seq<u8>, m: Seq<u8>, p: Seq<u8>)
    requires
        begins_with(top + s + m, p),
        m.len() > 0,
    ensures
        ({
            let rest = p.skip((top + s).len() as int);
            &&& p.skip(top.len() as int) == s + rest
            &&& rest.len() > 0
            &&& rest[0] == m[0]
        }),
{
    let fm = top + s + m;
    let rest = p.skip((top + s).len() as int);
    assert forall|i: int| 0 <= i < fm.len() implies p[i] == fm[i] by {
        assert(p.take(fm.len() as int)[i] == p[i]);
    }
    assert(p.skip(top.len() as int) =~= s + rest);
}

/// Behind its head, the status page says the address, part by part, and the prefix.
#[verifier::spinoff_prover]
#[verifier::rlimit(60)]
pub proof fn pages_say_the_address(ip: Seq<u8>, prefix: u8, mac: Seq<u8>, uptime_ms: u64, rx: u32)
    ensures
        ({
            let p = status_page(ip, prefix, mac, uptime_ms, rx);
            text::numbers_in(p.skip(text::lit(PAGE_TOP).len() as int)).take(5) == seq![
                ip[0] as int,
                ip[1] as int,
                ip[2] as int,
                ip[3] as int,
                prefix as int,
            ]
        }),
{
    page_words();
    let top = text::lit(PAGE_TOP);
    let dot = text::lit(".");
    let s1 = text::decimal(ip[0] as nat);
    let s2 = s1 + dot + text::decimal(ip[1] as nat);
    let s3 = s2 + dot + text::decimal(ip[2] as nat);
    let s4 = s3 + dot + text::decimal(ip[3] as nat);
    let s5 = s4 + text::lit("/") + text::decimal(prefix as nat);
    text::a_number_alone(ip[0] as nat);
    text::words_then_a_number(s1, dot, ip[1] as nat);
    text::words_then_a_number(s2, dot, ip[2] as nat);
    text::words_then_a_number(s3, dot, ip[3] as nat);
    text::words_then_a_number(s4, text::lit("/"), prefix as nat);
    let p = status_page(ip, prefix, mac, uptime_ms, rx);
    let m = text::lit("</td></tr><tr><td>MAC</td><td>");
    let front = top + text::decimal(ip[0] as nat) + dot + text::decimal(ip[1] as nat) + dot
        + text::decimal(ip[2] as nat) + dot + text::decimal(ip[3] as nat) + text::lit("/")
        + text::decimal(prefix as nat);
    assert(front =~= top + s5);
    let fm = front + m;
    assert(begins_with(fm, fm)) by {
        assert(fm.take(fm.len() as int) =~= fm);
    }
    let x0 = fm;
    let x1 = x0 + text::hex2(mac[0]);
    longer_texts_begin_alike(fm, x0, text::hex2(mac[0]));
    let x2 = x1 + text::lit(":");
    longer_texts_begin_alike(fm, x1, text::lit(":"));
    let x3 = x2 + text::hex2(mac[1]);
    longer_texts_begin_alike(fm, x2, text::hex2(mac[1]));
    let x4 = x3 + text::lit(":");
    longer_texts_begin_alike(fm, x3, text::lit(":"));
    let x5 = x4 + text::hex2(mac[2]);
    longer_texts_begin_alike(fm, x4, text::hex2(mac[2]));
    let x6 = x5 + text::lit(":");
    longer_texts_begin_alike(fm, x5, text::lit(":"));
    let x7 = x6 + text::hex2(mac[3]);
    longer_texts_begin_alike(fm, x6, text::hex2(mac[3]));
    let x8 = x7 + text::lit(":");
    longer_texts_begin_alike(fm, x7, text::lit(":"));
    let x9 = x8 + text::hex2(mac[4]);
    longer_texts_begin_alike(fm, x8, text::hex2(mac[4]));
    let x10 = x9 + text::lit(":");
    longer_texts_begin_alike(fm, x9, text::lit(":"));
    let x11 = x10 + text::hex2(mac[5]);
    longer_texts_begin_alike(fm, x10, text::hex2(mac[5]));
    let x12 = x11 + text::lit("</td></tr><tr><td>Uptime</td><td>");
    longer_texts_begin_alike(fm, x11, text::lit("</td></tr><tr><td>Uptime</td><td>"));
    let x13 = x12 + text::decimal((uptime_ms / 1000) as nat);
    longer_texts_begin_alike(fm, x12, text::decimal((uptime_ms / 1000) as nat));
    let x14 = x13 + text::lit(" s</td></tr><tr><td>RX frames</td><td>");
    longer_texts_begin_alike(fm, x13, text::lit(" s</td></tr><tr><td>RX frames</td><td>"));
    let x15 = x14 + text::decimal(rx as nat);
    longer_texts_begin_alike(fm, x14, text::decimal(rx as nat));
    let x16 = x15 + text::lit(PAGE_BOTTOM);
    longer_texts_begin_alike(fm, x15, text::lit(PAGE_BOTTOM));
    assert(p == x16);
    address_stands_first(top, s5, m, p);
    let rest = p.skip(front.len() as int);
    text::the_end_keeps_the_numbers(s5, rest);
    assert(text::numbers_in(s5) =~= seq![
        ip[0] as int,
        ip[1] as int,
        ip[2] as int,
        ip[3] as int,
        prefix as int,
    ]);
}

/// The status word tells how things stand by its three top bits: the link, an
/// address that DHCP gave, and the static one in its place.
pub proof fn status_tells_how_it_came(s: NetState, link_up: bool)
    ensures
        ({
            let w = s.status_word(link_up);
            &&& (w / 0x8000_0000_0000_0000 % 2 == 1) == link_up
            &&& (w / 0x4000_0000_0000_0000 % 2 == 1) == s.bound
            &&& (w / 0x2000_0000_0000_0000 % 2 == 1) == (s.static_active && !s.bound)
        }),
{
    let rest = if s.bound || s.static_active {
        (0x1_0000_0000 * (s.prefix as nat) + 0x100_0000 * (s.addr@[0] as nat) + 0x1_0000 * (
        s.addr@[1] as nat) + 0x100 * (s.addr@[2] as nat) + s.addr@[3] as nat) as int
    } else {
        0
    };
    assert(0 <= rest < 0x2000_0000_0000_0000);
}

} // verus!
