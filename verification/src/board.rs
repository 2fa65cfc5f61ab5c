//! The board: its blocks and their resets, what the boot ROM reads of the
//! image, the identity of the chip, the converter and the colour LED.

use crate::console::{self, parse_number};
use crate::errors::{AdcError, Ws2812Error};
use vstd::prelude::*;
use vstd::slice::slice_subrange;

verus! {

/// The reset bit of the converter.
pub const ADC: u32 = 0x0000_0001;

/// The reset bit of the DMA controller.
pub const DMA: u32 = 0x0000_0004;

/// The reset bit of the first I2C block.
pub const I2C0: u32 = 0x0000_0010;

/// The reset bit of the second I2C block.
pub const I2C1: u32 = 0x0000_0020;

/// The reset bit of the pin functions.
pub const IO_BANK0: u32 = 0x0000_0040;

/// The reset bit of the pads.
pub const PADS_BANK0: u32 = 0x0000_0200;

/// The reset bit of the first programmable IO block.
pub const PIO0: u32 = 0x0000_0800;

/// The reset bit of the second programmable IO block.
pub const PIO1: u32 = 0x0000_1000;

/// The reset bit of the third programmable IO block.
pub const PIO2: u32 = 0x0000_2000;

/// The reset bit of the pulse-width block.
pub const PWM: u32 = 0x0001_0000;

/// The reset bit of the first SPI block.
pub const SPI0: u32 = 0x0004_0000;

/// The reset bit of the second SPI block.
pub const SPI1: u32 = 0x0008_0000;

/// The reset bit of the first timer.
pub const TIMER0: u32 = 0x0080_0000;

/// The reset bit of the second timer.
pub const TIMER1: u32 = 0x0100_0000;

/// The reset bit of the first serial port.
pub const UART0: u32 = 0x0400_0000;

/// The reset bit of the second serial port.
pub const UART1: u32 = 0x0800_0000;

/// The reset bit of the USB controller.
pub const USBCTRL: u32 = 0x1000_0000;

/// The system clock.
pub const SYS_CLK_HZ: u32 = 150_000_000;

/// The resets after the blocks of a mask were let go.
pub fn leave_reset(resets: u32, mask: u32) -> (r: u32)
    ensures
        r == resets & !mask,
{
    resets & !mask
}

/// The resets after the blocks of a mask were taken down.
pub fn enter_reset(resets: u32, mask: u32) -> (r: u32)
    ensures
        r == resets | mask,
{
    resets | mask
}

/// Whether all blocks of a mask run.
pub fn running(done: u32, mask: u32) -> (r: bool)
    ensures
        r <==> done & mask == mask,
{
    done & mask == mask
}

/// Letting go of some blocks clears their resets and leaves the others
/// alone; taking them down sets them and leaves the others alone.
pub proof fn resets_of_others_stay(resets: u32, mask: u32, bit: u32)
    requires
        bit < 32,
    ensures
        (mask >> bit) & 1 == 1 ==> ((resets & !mask) >> bit) & 1 == 0 && ((resets | mask) >> bit) & 1
            == 1,
        (mask >> bit) & 1 == 0 ==> ((resets & !mask) >> bit) & 1 == (resets >> bit) & 1 && ((resets
            | mask) >> bit) & 1 == (resets >> bit) & 1,
{
    assert((mask >> bit) & 1 == 1 ==> ((resets & !mask) >> bit) & 1 == 0 && ((resets | mask) >> bit)
        & 1 == 1) by (bit_vector)
        requires
            bit < 32,
    ;
    assert((mask >> bit) & 1 == 0 ==> ((resets & !mask) >> bit) & 1 == (resets >> bit) & 1 && ((
    resets | mask) >> bit) & 1 == (resets >> bit) & 1) by (bit_vector)
        requires
            bit < 32,
    ;
}

/// The kernel's ticks: cycles of the system clock in a millisecond.
pub fn cycles_per_ms() -> (r: u32)
    ensures
        r == 150_000,
{
    SYS_CLK_HZ / 1000
}

/// The last channel of the converter, which is its temperature sensor.
pub const MAX_CHANNEL: u8 = 4;

/// The channel of the converter that a request names.
pub fn adc_channel(channel: u8) -> (r: Result<u8, AdcError>)
    ensures
        r is Ok <==> channel <= MAX_CHANNEL,
        r matches Ok(c) ==> c == channel,
        r matches Err(e) ==> e == AdcError::InvalidChannel,
{
    if channel > MAX_CHANNEL {
        Err(AdcError::InvalidChannel)
    } else {
        Ok(channel)
    }
}

/// How often a full queue is looked at before the LED's state machine counts
/// as stalled.
pub const LED_SPINS: u32 = 1_000_000;

/// What to do with the queue of the colour LED.
#[derive(Copy, Clone, Debug, PartialEq, Eq, Structural)]
pub enum LedAct {
    /// Look again.
    Look,
    /// Put a word in.
    Put(u32),
}

/// A colour on its way to the LED.
#[derive(Copy, Clone, Debug, PartialEq, Eq, Structural)]
pub struct LedSet {
    /// The colour: green, red, blue from the top of its lower 24 bits.
    pub grb: u32,
    /// How often the queue was full.
    pub spins: u32,
}

impl LedSet {
    /// Set a colour.
    pub fn begin(grb: u32) -> (r: LedSet)
        ensures
            r == (LedSet { grb, spins: 0 }),
    {
        LedSet { grb, spins: 0 }
    }

    /// Look at the queue. The colour is moved to the top of its word, from
    /// where it is shifted out.
    pub fn look(&mut self, full: bool) -> (r: Result<LedAct, Ws2812Error>)
        requires
            old(self).spins <= LED_SPINS,
        ensures
            final(self).grb == old(self).grb,
            !full ==> r == Ok::<LedAct, Ws2812Error>(
                LedAct::Put((old(self).grb % 0x100_0000 * 0x100) as u32),
            ) && final(self).spins == old(self).spins,
            full && old(self).spins < LED_SPINS ==> r == Ok::<LedAct, Ws2812Error>(LedAct::Look)
                && final(self).spins == old(self).spins + 1,
            full && old(self).spins == LED_SPINS ==> r == Err::<LedAct, Ws2812Error>(
                Ws2812Error::Stalled,
            ),
            r is Ok ==> final(self).spins <= LED_SPINS,
    {
        if !full {
            return Ok(LedAct::Put(self.grb % 0x100_0000 * 0x100));
        }
        if self.spins + 1 > LED_SPINS {
            return Err(Ws2812Error::Stalled);
        }
        self.spins = self.spins + 1;
        Ok(LedAct::Look)
    }
}

/// The identity of the chip out of its four parts, the least significant
/// first.
pub open spec fn identity(parts: Seq<u16>) -> int {
    parts[0] + 0x1_0000 * parts[1] + 0x1_0000_0000 * parts[2] + 0x1_0000_0000_0000 * parts[3]
}

/// The identity of the chip.
pub fn chip_id(parts: [u16; 4]) -> (r: u64)
    ensures
        r == identity(parts@),
{
    parts[0] as u64 + 0x1_0000 * (parts[1] as u64) + 0x1_0000_0000 * (parts[2] as u64)
        + 0x1_0000_0000_0000 * (parts[3] as u64)
}

/// The two words in which the identity is left for later, the upper first.
pub fn id_words(id: u64) -> (r: (u32, u32))
    ensures
        r.0 == id / 0x1_0000_0000,
        r.1 == id % 0x1_0000_0000,
{
    ((id / 0x1_0000_0000) as u32, (id % 0x1_0000_0000) as u32)
}

/// The identity out of the two words.
pub fn id_from(hi: u32, lo: u32) -> (r: u64)
    ensures
        r == hi * 0x1_0000_0000 + lo,
{
    hi as u64 * 0x1_0000_0000 + lo as u64
}

/// The identity survives being left in two words.
pub proof fn identity_survives(id: u64)
    ensures
        (id / 0x1_0000_0000) * 0x1_0000_0000 + id % 0x1_0000_0000 == id,
{
}

/// Where the first dot of a text stands from `at` on, or its length.
pub open spec fn dot_from(s: Seq<u8>, at: int) -> int
    decreases s.len() - at,
{
    if at >= s.len() || s[at] == 46 {
        at
    } else {
        dot_from(s, at + 1)
    }
}

/// The version that a text `major.minor` spells, as a word: the major number
/// in the upper half. Without a dot the minor number is 0.
pub open spec fn version_of(s: Seq<u8>) -> Option<nat> {
    let dot = dot_from(s, 0);
    let minor = if dot < s.len() {
        console::number(s.skip(dot + 1), 10, 0xffff)
    } else {
        Some(0)
    };
    match (console::number(s.take(dot), 10, 0xffff), minor) {
        (Some(a), Some(b)) => Some(0x1_0000 * a + b),
        _ => None,
    }
}

/// Parse the version of an image.
pub fn version_word(s: &[u8]) -> (r: Option<u32>)
    ensures
        match version_of(s@) {
            Some(w) => r == Some(w as u32) && w <= u32::MAX,
            None => r is None,
        },
{
    let mut dot: usize = 0;
    while dot < s.len() && s[dot] != 46
        invariant
            dot <= s@.len(),
            dot_from(s@, dot as int) == dot_from(s@, 0),
        decreases s@.len() - dot,
    {
        dot = dot + 1;
    }
    let major = parse_number(slice_subrange(s, 0, dot), 10, 0xffff);
    assert(s@.subrange(0, dot as int) =~= s@.take(dot as int));
    let minor = if dot < s.len() {
        assert(s@.subrange(dot + 1, s@.len() as int) =~= s@.skip(dot + 1));
        parse_number(slice_subrange(s, dot + 1, s.len()), 10, 0xffff)
    } else {
        Some(0)
    };
    match (major, minor) {
        (Some(a), Some(b)) => Some((a * 0x1_0000 + b) as u32),
        _ => None,
    }
}

/// What the boot ROM reads of an image that it copies to memory: the kind of
/// image, its vector table, the copy it asks for, and its version.
pub open spec fn image_block(version: u32, size: u32) -> Seq<u32> {
    seq![
        0xffff_ded3,
        0x1021_0142,
        0x0000_0203,
        0x2000_0000,
        0x0100_0406,
        0xffff_fe90,
        0x2000_0000,
        size,
        0x0000_0248,
        version,
        0x0000_09ff,
        0x0000_0000,
        0xab12_3579,
    ]
}

/// What the boot ROM reads of an image of a version, of which it copies so
/// many bytes.
pub fn image_def(version: u32, size: u32) -> (r: [u32; 13])
    ensures
        r@ == image_block(version, size),
{
    let r: [u32; 13] = [
        0xffff_ded3,
        0x1021_0142,
        0x0000_0203,
        0x2000_0000,
        0x0100_0406,
        0xffff_fe90,
        0x2000_0000,
        size,
        0x0000_0248,
        version,
        0x0000_09ff,
        0x0000_0000,
        0xab12_3579,
    ];
    assert(r@ =~= image_block(version, size));
    r
}

/// The words of the items of a block, as its last item counts them: an item
/// says in its second byte how many words it has.
pub open spec fn item_words(block: Seq<u32>, at: int) -> int
    decreases block.len() - at,
{
    if at < 0 || at >= block.len() || block[at] % 0x100 == 0xff || block[at] / 0x100 % 0x100 == 0 {
        0
    } else {
        let n = (block[at] / 0x100 % 0x100) as int;
        if at + n > block.len() {
            0
        } else {
            n + item_words(block, at + n)
        }
    }
}

/// The block says of itself how long it is: the count in its last item is
/// the length of the items before it.
pub proof fn image_block_counts_its_words(version: u32, size: u32)
    ensures
        item_words(image_block(version, size), 1) == 9,
        image_block(version, size)[10] / 0x100 % 0x100 == 9,
{
    let b = image_block(version, size);
    reveal_with_fuel(item_words, 6);
    assert(b[1] == 0x1021_0142u32);
    assert(b[2] == 0x0000_0203u32);
    assert(b[4] == 0x0100_0406u32);
    assert(b[8] == 0x0000_0248u32);
    assert(b[10] == 0x0000_09ffu32);
    assert(item_words(b, 10) == 0);
    assert(item_words(b, 8) == 2);
    assert(item_words(b, 4) == 6);
    assert(item_words(b, 2) == 8);
}

/// A word that goes to the radio when its link is probed, and whether the
/// radio's answer is read.
#[derive(Copy, Clone, Debug, PartialEq, Eq, Structural)]
pub struct ProbeWord {
    /// The word.
    pub word: u32,
    /// Whether 32 bits are read afterwards.
    pub read: bool,
}

/// The words of the probe: the test register is asked for in both orders of
/// half words, then the bus is set up and the register is asked for again.
pub open spec fn probe() -> Seq<ProbeWord> {
    seq![
        ProbeWord { word: 0x4000_a004, read: true },
        ProbeWord { word: 0xa004_4000, read: true },
        ProbeWord { word: 0x8000_0004, read: false },
        ProbeWord { word: 0x04b3_0002, read: false },
        ProbeWord { word: 0x4000_a004, read: true },
    ]
}

/// The words of the probe.
pub fn cyw43_probe() -> (r: [ProbeWord; 5])
    ensures
        r@ == probe(),
{
    let cmd: u32 = 0x4000_0000 + 0x14 * 0x800 + 4;
    let ctrl: u32 = 0x8000_0000 + 4;
    let r = [
        ProbeWord { word: cmd, read: true },
        ProbeWord { word: crate::gspi::swap16(cmd), read: true },
        ProbeWord { word: ctrl, read: false },
        ProbeWord { word: crate::gspi::swap16(0x0002_04b3), read: false },
        ProbeWord { word: cmd, read: true },
    ];
    assert(r@ =~= probe());
    r
}

/// What the probe leaves behind to show that it ran, with the last level of
/// the data line.
pub fn probe_mark(level: u32) -> (r: u32)
    ensures
        r == 0x600d_0000 + level % 2,
{
    0x600d_0000 + level % 2
}

/// The bits of a word in the order in which they go out, the most significant
/// first.
pub open spec fn word_bits(w: u32) -> Seq<bool> {
    Seq::new(32, |i: int| w as int / (vstd::arithmetic::power2::pow2((31 - i) as nat) as int) % 2 == 1)
}

/// The bits of a word, the most significant first.
pub fn bits_out(w: u32) -> (v: Vec<bool>)
    ensures
        v@ == word_bits(w),
{
    let mut v: Vec<bool> = Vec::new();
    let mut d: u32 = 0x8000_0000;
    let mut i: usize = 0;
    proof {
        vstd::arithmetic::power2::lemma2_to64();
    }
    while i < 32
        invariant
            i <= 32,
            i < 32 ==> d == vstd::arithmetic::power2::pow2((31 - i) as nat),
            v@ == word_bits(w).take(i as int),
        decreases 32 - i,
    {
        proof {
            vstd::arithmetic::power2::lemma_pow2_pos((31 - i) as nat);
            if i < 31 {
                vstd::arithmetic::power2::lemma_pow2_unfold((31 - i) as nat);
            }
        }
        v.push(w / d % 2 == 1);
        d = d / 2;
        i = i + 1;
        assert(v@ =~= word_bits(w).take(i as int));
    }
    assert(word_bits(w).take(32) =~= word_bits(w));
    v
}

/// A word after one more bit was shifted in at its low end.
pub fn bit_in(word: u32, bit: bool) -> (r: u32)
    ensures
        r == word % 0x8000_0000 * 2 + if bit {
            1int
        } else {
            0
        },
{
    word % 0x8000_0000 * 2 + if bit {
        1
    } else {
        0
    }
}

/// Whether the last start was asked to stay in the boot loader.
pub fn wants_bootsel(scratch0: u32) -> (r: bool)
    ensures
        r <==> scratch0 == crate::flash::BOOTSEL_MAGIC,
{
    scratch0 == crate::flash::BOOTSEL_MAGIC
}

/// The item of a kind in a block, from `at` on: its words.
pub open spec fn item_of(block: Seq<u32>, at: int, kind: u32) -> Option<Seq<u32>>
    decreases block.len() - at,
{
    if at < 0 || at >= block.len() || block[at] / 0x100 % 0x100 == 0 || at + (block[at] / 0x100
        % 0x100) > block.len() {
        None
    } else if block[at] % 0x100 == kind {
        Some(block.subrange(at, at + (block[at] / 0x100 % 0x100)))
    } else {
        item_of(block, at + (block[at] / 0x100 % 0x100), kind)
    }
}

/// Whoever walks the items of an image's block finds its version under 0x48, and
/// under 6 what is copied: so many bytes, to the start of the memory.
pub proof fn images_tell_version_and_size(version: u32, size: u32)
    ensures
        item_of(image_block(version, size), 1, 0x48) matches Some(v) && v.len() == 2 && v[1]
            == version,
        item_of(image_block(version, size), 1, 6) matches Some(m) && m.len() == 4 && m[2]
            == 0x2000_0000 && m[3] == size,
        item_of(image_block(version, size), 1, 3) matches Some(t) && t.len() == 2 && t[1]
            == 0x2000_0000,
        image_block(version, size)[0] == 0xffff_ded3,
        image_block(version, size).last() == 0xab12_3579,
{
    let b = image_block(version, size);
    reveal_with_fuel(item_of, 6);
    assert(b[1] == 0x1021_0142u32);
    assert(b[2] == 0x0000_0203u32);
    assert(b[4] == 0x0100_0406u32);
    assert(b[8] == 0x0000_0248u32);
}

proof fn dot_is_found(s: Seq<u8>, k: int, at: int)
    requires
        0 <= at <= k < s.len(),
        s[k] == 46,
        forall|i: int| 0 <= i < k ==> #[trigger] s[i] != 46,
    ensures
        dot_from(s, at) == k,
    decreases k - at,
{
    if at < k {
        dot_is_found(s, k, at + 1);
    }
}

/// A version is read as it is written: the major number is the upper half of the
/// word, and the minor one the lower.
pub proof fn versions_are_read_as_written(major: u16, minor: u16)
    ensures
        version_of(
            crate::text::decimal(major as nat) + seq![46u8] + crate::text::decimal(minor as nat),
        ) == Some((0x1_0000 * major + minor) as nat),
{
    let a = crate::text::decimal(major as nat);
    let b = crate::text::decimal(minor as nat);
    let s = a + seq![46u8] + b;
    let k = a.len() as int;
    crate::text::decimals_spell_their_number(major as nat);
    console::decimals_are_read_back(major as nat, 0xffff);
    console::decimals_are_read_back(minor as nat, 0xffff);
    assert forall|i: int| 0 <= i < k implies #[trigger] s[i] != 46 by {
        assert(s[i] == a[i]);
    }
    dot_is_found(s, k, 0);
    assert(s.take(k) =~= a);
    assert(s.skip(k + 1) =~= b);
}

/// A word that bits were shifted into, one after the other.
pub open spec fn shifted(bits: Seq<bool>) -> int
    decreases bits.len(),
{
    if bits.len() == 0 {
        0
    } else {
        shifted(bits.drop_last()) % 0x8000_0000 * 2 + if bits.last() {
            1int
        } else {
            0
        }
    }
}

proof fn shifted_so_far(w: u32, k: nat)
    requires
        k <= 32,
    ensures
        shifted(word_bits(w).take(k as int)) == w as int / (vstd::arithmetic::power2::pow2(
            (32 - k) as nat,
        ) as int),
    decreases k,
{
    let d = vstd::arithmetic::power2::pow2((32 - k) as nat) as int;
    let t = word_bits(w).take(k as int);
    vstd::arithmetic::power2::lemma2_to64();
    vstd::arithmetic::power2::lemma_pow2_pos((32 - k) as nat);
    if k > 0 {
        shifted_so_far(w, (k - 1) as nat);
        assert(t.drop_last() =~= word_bits(w).take(k - 1));
        vstd::arithmetic::power2::lemma_pow2_unfold((33 - k) as nat);
        let q = w as int / d;
        vstd::arithmetic::div_mod::lemma_div_denominator(w as int, d, 2);
        assert(w as int / (2 * d) == q / 2) by {
            assert(2 * d == d * 2);
        }
        assert(q == q / 2 * 2 + q % 2);
        assert(t.last() == (q % 2 == 1));
        assert(q / 2 < 0x8000_0000) by {
            vstd::arithmetic::div_mod::lemma_div_is_ordered_by_denominator(w as int, 1, d);
        }
        assert(q >= 0) by {
            vstd::arithmetic::div_mod::lemma_div_pos_is_pos(w as int, d);
        }
    } else {
        vstd::arithmetic::div_mod::lemma_basic_div(w as int, d);
    }
}

/// A word whose bits go out and are shifted in again is the same word.
pub proof fn words_survive_the_wire(w: u32)
    ensures
        shifted(word_bits(w)) == w,
{
    shifted_so_far(w, 32);
    vstd::arithmetic::power2::lemma2_to64();
    assert(word_bits(w).take(32) =~= word_bits(w));
}

} // verus!
