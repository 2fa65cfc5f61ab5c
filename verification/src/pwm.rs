//! PWM outputs: duty cycles, tones, sines, the audio ring, and the mixer that
//! fades between a file and a sine.

use crate::errors::PwmError;
use crate::player;
use vstd::prelude::*;

verus! {

/// One sine cycle, scaled to the carrier's wrap with a half-scale offset.
pub const SINE_LUT: [u16; 256] = [
    512, 524, 537, 549, 562, 574, 587, 599, 611, 624, 636, 648, 660, 672, 684, 696,
    707, 719, 730, 741, 753, 764, 774, 785, 796, 806, 816, 826, 836, 846, 855, 864,
    873, 882, 890, 899, 907, 915, 922, 930, 937, 944, 950, 957, 963, 968, 974, 979,
    984, 989, 993, 997, 1001, 1004, 1008, 1011, 1013, 1015, 1017, 1019, 1021, 1022, 1022, 1023,
    1023, 1023, 1022, 1022, 1021, 1019, 1017, 1015, 1013, 1011, 1008, 1004, 1001, 997, 993, 989,
    984, 979, 974, 968, 963, 957, 950, 944, 937, 930, 922, 915, 907, 899, 890, 882,
    873, 864, 855, 846, 836, 826, 816, 806, 796, 785, 774, 764, 753, 741, 730, 719,
    707, 696, 684, 672, 660, 648, 636, 624, 611, 599, 587, 574, 562, 549, 537, 524,
    512, 499, 486, 474, 461, 449, 436, 424, 412, 399, 387, 375, 363, 351, 339, 327,
    316, 304, 293, 282, 270, 259, 249, 238, 227, 217, 207, 197, 187, 177, 168, 159,
    150, 141, 133, 124, 116, 108, 101, 93, 86, 79, 73, 66, 60, 55, 49, 44,
    39, 34, 30, 26, 22, 19, 15, 12, 10, 8, 6, 4, 2, 1, 1, 0,
    0, 0, 1, 1, 2, 4, 6, 8, 10, 12, 15, 19, 22, 26, 30, 34,
    39, 44, 49, 55, 60, 66, 73, 79, 86, 93, 101, 108, 116, 124, 133, 141,
    150, 159, 168, 177, 187, 197, 207, 217, 227, 238, 249, 259, 270, 282, 293, 304,
    316, 327, 339, 351, 363, 375, 387, 399, 412, 424, 436, 449, 461, 474, 486, 499,
];

/// The highest slice.
pub const MAX_SLICE: u8 = 11;

/// Wrap and divider of the 1 kHz duty output.
pub const TOP: u16 = 999;

pub const DIV_INT: u8 = 150;

/// Divider and count rate of the tone output.
pub const TONE_DIV_INT: u8 = 25;

pub const TONE_CLK_HZ: u32 = 6_000_000;

/// Range of the tone output.
pub const TONE_MIN_HZ: u32 = 100;

pub const TONE_MAX_HZ: u32 = 6000;

pub const TONE_MAX_MS: u32 = 5000;

/// Wrap and divider of the sine carrier.
pub const SINE_TOP: u16 = 1023;

pub const SINE_DIV_INT: u8 = 1;

/// Samples a second of the sine output.
pub const SAMPLE_RATE: u32 = 20_000;

/// Cycles between two samples.
pub const SINE_CYCLES_PER_SAMPLE: u32 = 7500;

/// Range of the sine output.
pub const SINE_MIN_HZ: u32 = 50;

pub const SINE_MAX_HZ: u32 = 5000;

pub const SINE_MAX_MS: u32 = 2000;

/// Samples in the audio ring, its bytes, and those of a half.
pub const AUDIO_BUF_SAMPLES: usize = 1024;

pub const AUDIO_RING_BYTES: u32 = 4096;

pub const PLAY_HALF_BYTES: u32 = 2048;

/// Samples in a half.
pub const PLAY_HALF_SAMPLES: usize = 512;

/// Samples a second of the audio ring.
pub const AUDIO_SAMPLE_RATE: u32 = 24414;

/// Range of the audio output.
pub const AUDIO_MIN_HZ: u32 = 50;

pub const AUDIO_MAX_HZ: u32 = 8000;

/// The system clock.
pub const CLK_SYS_HZ: u64 = 150_000_000;

/// Range of the player's sample rates.
pub const PLAY_MIN_RATE: u32 = 8_000;

pub const PLAY_MAX_RATE: u32 = 48_000;

/// The duty of silence.
pub const PLAY_MID: i32 = 512;

/// The highest duty.
pub const PLAY_TOP: i32 = 1023;

/// The frequency of the mixer's sine.
pub const MIX_SINE_HZ: u32 = 660;

/// Full gain.
pub const MIX_GAIN_FULL: i32 = 256;

/// What a slice is programmed with: divider, wrap, and the compare value of a
/// channel.
#[derive(Copy, Clone, Debug, PartialEq, Eq, Structural)]
pub struct SlicePlan {
    pub div: u8,
    pub top: u16,
    pub channel_b: bool,
    pub level: u16,
}

/// Plan a duty cycle at 1 kHz.
pub fn set_duty(slice: u8, chan_b: u8, percent: u8) -> (r: Result<SlicePlan, PwmError>)
    ensures
        slice > MAX_SLICE || percent > 100 ==> r == Err::<SlicePlan, PwmError>(PwmError::BadArg),
        slice <= MAX_SLICE && percent <= 100 ==> r == Ok::<SlicePlan, PwmError>(
            SlicePlan {
                div: DIV_INT,
                top: TOP,
                channel_b: chan_b != 0,
                level: (10 * percent) as u16,
            },
        ),
{
    if slice > MAX_SLICE || percent > 100 {
        return Err(PwmError::BadArg);
    }
    Ok(SlicePlan { div: DIV_INT, top: TOP, channel_b: chan_b != 0, level: 10 * (percent as u16) })
}

/// The share of the period that a duty output is high is the percentage asked
/// for.
pub proof fn duty_is_the_percentage(percent: u8)
    requires
        percent <= 100,
    ensures
        100 * (10 * percent) == percent * (TOP + 1),
{
    assert(percent * (TOP + 1) == 1000 * percent) by (nonlinear_arith)
        requires
            TOP == 999,
    ;
}

/// Check a request to stop a slice.
pub fn disable(slice: u8) -> (r: Result<(), PwmError>)
    ensures
        r == if slice > MAX_SLICE {
            Err::<(), PwmError>(PwmError::BadArg)
        } else {
            Ok(())
        },
{
    if slice > MAX_SLICE {
        Err(PwmError::BadArg)
    } else {
        Ok(())
    }
}

/// A time, at least 1 ms and at most `max`.
pub open spec fn play_time(ms: u32, max: u32) -> u32 {
    if ms < 1 {
        1
    } else if ms > max {
        max
    } else {
        ms
    }
}

fn bounded(ms: u32, max: u32) -> (r: u32)
    requires
        max >= 1,
    ensures
        r == play_time(ms, max),
{
    if ms < 1 {
        1
    } else if ms > max {
        max
    } else {
        ms
    }
}

/// The wrap value of a tone.
pub open spec fn tone_top(freq: u32) -> int {
    TONE_CLK_HZ as int / freq as int - 1
}

/// Plan a square wave: the slice, and for how many ms.
pub fn tone(slice: u8, freq_hz: u32, ms: u32) -> (r: Result<(SlicePlan, u32), PwmError>)
    ensures
        slice > MAX_SLICE || freq_hz < TONE_MIN_HZ || freq_hz > TONE_MAX_HZ ==> r == Err::<
            (SlicePlan, u32),
            PwmError,
        >(PwmError::BadArg),
        slice <= MAX_SLICE && TONE_MIN_HZ <= freq_hz <= TONE_MAX_HZ ==> r == Ok::<
            (SlicePlan, u32),
            PwmError,
        >(
            (
                SlicePlan {
                    div: TONE_DIV_INT,
                    top: tone_top(freq_hz) as u16,
                    channel_b: false,
                    level: (tone_top(freq_hz) / 2 + 1) as u16,
                },
                play_time(ms, TONE_MAX_MS),
            ),
        ),
{
    if slice > MAX_SLICE || freq_hz < TONE_MIN_HZ || freq_hz > TONE_MAX_HZ {
        return Err(PwmError::BadArg);
    }
    proof {
        tone_fits_the_counter(freq_hz);
    }
    let top: u32 = TONE_CLK_HZ / freq_hz - 1;
    let top: u16 = top as u16;
    Ok(
        (
            SlicePlan { div: TONE_DIV_INT, top, channel_b: false, level: top / 2 + 1 },
            bounded(ms, TONE_MAX_MS),
        ),
    )
}

/// A tone has its frequency: as many periods as it has hertz fill a second's
/// counts, but for less than one count a period, and half of each period is
/// high, to a count.
pub proof fn tones_have_their_frequency(freq: u32)
    requires
        TONE_MIN_HZ <= freq <= TONE_MAX_HZ,
    ensures
        TONE_CLK_HZ - freq < (tone_top(freq) + 1) * freq <= TONE_CLK_HZ,
        tone_top(freq) + 1 <= 2 * (tone_top(freq) / 2 + 1) <= tone_top(freq) + 2,
{
    let q = TONE_CLK_HZ as int / freq as int;
    vstd::arithmetic::div_mod::lemma_fundamental_div_mod(TONE_CLK_HZ as int, freq as int);
    vstd::arithmetic::div_mod::lemma_mod_bound(TONE_CLK_HZ as int, freq as int);
    assert(q * freq == freq * q) by (nonlinear_arith);
}

/// A time to play is the one asked for, where that is within the bounds, and the
/// nearest bound otherwise.
pub proof fn times_are_kept(ms: u32, max: u32)
    requires
        max >= 1,
    ensures
        1 <= play_time(ms, max) <= max,
        1 <= ms <= max ==> play_time(ms, max) == ms,
        ms > max ==> play_time(ms, max) == max,
{
}

/// Every tone's wrap value fits the 16-bit counter, and leaves a period of at
/// least a thousand counts.
pub proof fn tone_fits_the_counter(freq: u32)
    requires
        TONE_MIN_HZ <= freq <= TONE_MAX_HZ,
    ensures
        999 <= tone_top(freq) <= 59_999,
{
    assert(6_000_000int / (freq as int) <= 60_000) by (nonlinear_arith)
        requires
            freq >= 100,
    ;
    assert(6_000_000int / (freq as int) >= 1000) by (nonlinear_arith)
        requires
            freq <= 6000,
            freq >= 1,
    ;
}

/// A sine: how far the phase moves a sample, and for how many samples.
#[derive(Copy, Clone, Debug, PartialEq, Eq, Structural)]
pub struct SinePlan {
    pub phase_inc: u32,
    pub samples: u32,
}

/// The phase step of a frequency at a sample rate, the full circle being 2^32.
pub open spec fn phase_step(freq: u32, rate: u32) -> int {
    0x1_0000_0000 * freq / rate as int
}

/// A sine has its frequency: in a second of samples the phase goes round as often
/// as the sine has hertz, but for less than one step of the phase a sample.
pub proof fn sines_have_their_frequency(freq: u32, rate: u32)
    requires
        rate > 0,
    ensures
        0x1_0000_0000 * freq - rate < phase_step(freq, rate) * rate <= 0x1_0000_0000 * freq,
{
    let n = 0x1_0000_0000 * freq;
    let q = phase_step(freq, rate);
    vstd::arithmetic::div_mod::lemma_fundamental_div_mod(n, rate as int);
    vstd::arithmetic::div_mod::lemma_mod_bound(n, rate as int);
    assert(q * rate == rate * q) by (nonlinear_arith);
}

fn phase_inc(freq: u32, rate: u32) -> (r: u32)
    requires
        0 < freq < rate,
    ensures
        r == phase_step(freq, rate),
{
    let circle: u64 = 0x1_0000_0000 * (freq as u64);
    let q: u64 = circle / (rate as u64);
    assert(q <= 0xFFFF_FFFF) by (nonlinear_arith)
        requires
            q == circle / (rate as u64),
            circle == 0x1_0000_0000 * freq,
            freq < rate,
            rate > 0,
    ;
    q as u32
}

/// Plan a sine.
pub fn sine(slice: u8, freq_hz: u32, ms: u32) -> (r: Result<SinePlan, PwmError>)
    ensures
        slice > MAX_SLICE || freq_hz < SINE_MIN_HZ || freq_hz > SINE_MAX_HZ ==> r == Err::<
            SinePlan,
            PwmError,
        >(PwmError::BadArg),
        slice <= MAX_SLICE && SINE_MIN_HZ <= freq_hz <= SINE_MAX_HZ ==> r == Ok::<
            SinePlan,
            PwmError,
        >(
            SinePlan {
                phase_inc: phase_step(freq_hz, SAMPLE_RATE) as u32,
                samples: (play_time(ms, SINE_MAX_MS) * SAMPLE_RATE / 1000) as u32,
            },
        ),
{
    if slice > MAX_SLICE || freq_hz < SINE_MIN_HZ || freq_hz > SINE_MAX_HZ {
        return Err(PwmError::BadArg);
    }
    let ms: u32 = bounded(ms, SINE_MAX_MS);
    Ok(SinePlan { phase_inc: phase_inc(freq_hz, SAMPLE_RATE), samples: ms * SAMPLE_RATE / 1000 })
}

/// A table of one sine cycle that fits the carrier.
pub open spec fn sound_table(lut: Seq<u16>) -> bool {
    &&& lut.len() == 256
    &&& forall|i: int| 0 <= i < 256 ==> #[trigger] lut[i] <= 1023
}

/// The sine table can be played and mixed.
pub proof fn sine_table_is_sound()
    ensures
        sound_table(SINE_LUT@),
{
}

/// The table is one cycle of a sine: its first half reads the same from either
/// end and rises up to its middle, the second half is the first upside down
/// around mid-scale, and it begins at mid-scale.
pub proof fn sine_table_is_a_sine(i: int)
    requires
        0 <= i < 64,
    ensures
        SINE_LUT@[i] <= SINE_LUT@[i + 1],
        SINE_LUT@[64 + i] == SINE_LUT@[64 - i],
        1023 <= SINE_LUT@[i] + SINE_LUT@[128 + i] <= 1024,
        1023 <= SINE_LUT@[64 + i] + SINE_LUT@[192 + i] <= 1024,
        SINE_LUT@[0] == 512,
        SINE_LUT@[64] == 1023,
        SINE_LUT@[192] == 0,
{
}

/// A running sine: the top byte of the phase picks the sample.
#[derive(Copy, Clone, Debug, PartialEq, Eq, Structural)]
pub struct Dds {
    pub phase: u32,
    pub inc: u32,
}

impl Dds {
    /// The next sample.
    pub fn next(&mut self, lut: &[u16]) -> (s: u16)
        requires
            lut@.len() == 256,
        ensures
            s == lut@[old(self).phase as int / 0x100_0000],
            final(self).phase == (old(self).phase + old(self).inc) % 0x1_0000_0000,
            final(self).inc == old(self).inc,
    {
        let s: u16 = lut[(self.phase / 0x100_0000) as usize];
        self.phase = self.phase.wrapping_add(self.inc);
        s
    }
}

/// The whole number of cycles in the ring that is nearest to a frequency, and
/// at least one.
pub open spec fn cycles(freq: u32) -> int {
    let k = (1024 * freq + 12207) / 24414;
    if k < 1 {
        1
    } else {
        k
    }
}

/// Snap a frequency to a whole number of cycles across the ring.
pub fn cycle_count(freq_hz: u32) -> (k: u32)
    ensures
        k == cycles(freq_hz),
{
    let k: u64 = ((freq_hz as u64) * 1024 + 12207) / 24414;
    if k < 1 {
        1
    } else {
        k as u32
    }
}

/// The snapped frequency is the nearest that the ring can hold: it is off by at
/// most half a step.
pub proof fn snapping_is_nearest(freq: u32)
    requires
        freq >= 12,
    ensures
        -24414 <= 2 * (1024 * freq - 24414 * cycles(freq)) <= 24414,
{
}

/// The place in the table for slot `i` when `k` cycles fill the ring.
pub open spec fn table_index(i: int, k: int) -> int {
    i * k * 256 / 1024 % 256
}

/// The ring: `left` cycles in the low halves and `right` cycles in the high
/// halves of its words.
pub open spec fn tone_ring(lut: Seq<u16>, left: int, right: int) -> Seq<u32> {
    Seq::new(
        1024,
        |i: int|
            (lut[table_index(i, left)] + 0x1_0000 * lut[table_index(i, right)]) as u32,
    )
}

fn lookup(lut: &[u16], i: usize, k: u32) -> (r: u16)
    requires
        lut@.len() == 256,
        i < 1024,
        k <= 336,
    ensures
        r == lut@[table_index(i as int, k as int)],
{
    assert(i * k <= 1023 * 336) by (nonlinear_arith)
        requires
            i <= 1023,
            k <= 336,
    ;
    let p: u32 = (i as u32) * k;
    lut[(p * 256 / 1024 % 256) as usize]
}

fn fill_ring(lut: &[u16], left: u32, right: u32) -> (v: Vec<u32>)
    requires
        lut@.len() == 256,
        left <= 336,
        right <= 336,
    ensures
        v@ == tone_ring(lut@, left as int, right as int),
{
    let mut v: Vec<u32> = Vec::new();
    let ghost all = tone_ring(lut@, left as int, right as int);
    let mut i: usize = 0;
    while i < AUDIO_BUF_SAMPLES
        invariant
            i <= AUDIO_BUF_SAMPLES,
            lut@.len() == 256,
            left <= 336,
            right <= 336,
            all == tone_ring(lut@, left as int, right as int),
            v@ == all.take(i as int),
        decreases AUDIO_BUF_SAMPLES - i,
    {
        let l: u32 = lookup(lut, i, left) as u32;
        let r: u32 = lookup(lut, i, right) as u32;
        v.push(l + 0x1_0000 * r);
        i = i + 1;
        assert(v@ =~= all.take(i as int));
    }
    assert(v@ =~= all);
    v
}

/// The ring of two tones, one for each ear.
pub fn audio_stereo(lut: &[u16], hz_left: u32, hz_right: u32) -> (r: Result<Vec<u32>, PwmError>)
    requires
        lut@.len() == 256,
    ensures
        ({
            let good = AUDIO_MIN_HZ <= hz_left <= AUDIO_MAX_HZ && AUDIO_MIN_HZ <= hz_right
                <= AUDIO_MAX_HZ;
            &&& good ==> (r matches Ok(v) && v@ == tone_ring(
                lut@,
                cycles(hz_left),
                cycles(hz_right),
            ))
            &&& !good ==> (r matches Err(e) && e == PwmError::BadArg)
        }),
{
    if hz_left < AUDIO_MIN_HZ || hz_left > AUDIO_MAX_HZ || hz_right < AUDIO_MIN_HZ || hz_right
        > AUDIO_MAX_HZ {
        return Err(PwmError::BadArg);
    }
    Ok(fill_ring(lut, cycle_count(hz_left), cycle_count(hz_right)))
}

/// The ring of one tone in both ears.
pub fn audio_start(lut: &[u16], freq_hz: u32) -> (r: Result<Vec<u32>, PwmError>)
    requires
        lut@.len() == 256,
    ensures
        AUDIO_MIN_HZ <= freq_hz <= AUDIO_MAX_HZ ==> (r matches Ok(v) && v@ == tone_ring(
            lut@,
            cycles(freq_hz),
            cycles(freq_hz),
        )),
        freq_hz < AUDIO_MIN_HZ || freq_hz > AUDIO_MAX_HZ ==> (r matches Err(e) && e
            == PwmError::BadArg),
{
    audio_stereo(lut, freq_hz, freq_hz)
}

/// Each ear hears its own tone and nothing of the other's: the low halves of a
/// ring follow from the left frequency alone and the high halves from the right
/// one alone, and a tone is the same in either ear.
pub proof fn ears_hear_their_own_tone(lut: Seq<u16>, a: int, b: int, c: int, i: int)
    requires
        0 <= i < 1024,
    ensures
        tone_ring(lut, a, c)[i] / 0x1_0000 == tone_ring(lut, b, c)[i] / 0x1_0000,
        tone_ring(lut, c, a)[i] % 0x1_0000 == tone_ring(lut, c, b)[i] % 0x1_0000,
        tone_ring(lut, a, c)[i] / 0x1_0000 == tone_ring(lut, c, a)[i] % 0x1_0000,
        tone_ring(lut, a, c)[i] / 0x1_0000 == tone_ring(lut, c, c)[i] % 0x1_0000,
        tone_ring(lut, a, c)[i] % 0x1_0000 == tone_ring(lut, a, a)[i] / 0x1_0000,
{
}

proof fn index_repeats(n: int)
    requires
        0 <= n,
    ensures
        n * 256 / 1024 % 256 == n % 1024 * 256 / 1024 % 256,
        n * 256 / 1024 % 256 == n % 1024 / 4,
{
    assert(n * 256 / 1024 == n / 4);
    assert(n / 4 % 256 == n % 1024 / 4);
}

/// A tone of `k` cycles goes through the table `k` times as fast as one of a
/// single cycle, which takes four slots for each of its entries.
pub proof fn tones_go_through_the_table(k: int, i: int)
    requires
        0 <= i < 1024,
        0 <= k,
    ensures
        table_index(i, k) == table_index(i * k % 1024, 1),
        table_index(i, 1) == i / 4,
{
    let n = i * k;
    assert(0 <= n) by (nonlinear_arith)
        requires
            n == i * k,
            0 <= i,
            0 <= k,
    ;
    index_repeats(n);
    index_repeats(i);
    assert(n % 1024 * 1 == n % 1024);
    assert(i * 1 == i);
}

/// The ring is made of the table: its slots hold the entries at those places.
pub proof fn rings_hold_the_table(lut: Seq<u16>, left: int, right: int, i: int)
    requires
        0 <= i < 1024,
    ensures
        tone_ring(lut, left, right).len() == 1024,
        tone_ring(lut, left, right)[i] % 0x1_0000 == lut[table_index(i, left)],
        tone_ring(lut, left, right)[i] / 0x1_0000 == lut[table_index(i, right)],
{
}

/// The ring loops without a seam: the slot after the last is the first again.
pub proof fn ring_has_no_seam(k: int)
    ensures
        table_index(1024, k) == table_index(0, k),
{
    assert(1024 * k * 256 / 1024 == 256 * k) by (nonlinear_arith);
    assert(0 * k == 0) by (nonlinear_arith);
    assert(256 * k % 256 == 0) by (nonlinear_arith);
}

/// The player's divider in sixteenths: one sample a wrap, rounded, and within
/// the divider's range.
pub open spec fn divider_q4(rate: u32) -> int {
    let denom = 1024 * rate;
    let q = (16 * CLK_SYS_HZ + denom / 2) / denom;
    if q < 16 {
        16
    } else if q > 0xfff {
        0xfff
    } else {
        q
    }
}

/// The player's divider is the nearest that there is: it is off by at most half a
/// sixteenth of what one sample a wrap asks for.
pub proof fn divider_is_nearest(rate: u32)
    requires
        PLAY_MIN_RATE <= rate <= PLAY_MAX_RATE,
    ensures
        -(1024 * rate) <= 2 * (16 * CLK_SYS_HZ - 1024 * rate * divider_q4(rate)) <= 1024 * rate,
{
    let denom = 1024 * rate;
    let n = 16 * CLK_SYS_HZ + denom / 2;
    let q = n / denom;
    vstd::arithmetic::div_mod::lemma_fundamental_div_mod(n, denom);
    vstd::arithmetic::div_mod::lemma_mod_bound(n, denom);
    assert(16 <= q <= 0xfff) by (nonlinear_arith)
        requires
            n == denom * q + n % denom,
            0 <= n % denom < denom,
            1024 * 8_000 <= denom <= 1024 * 48_000,
            n == 2_400_000_000 + denom / 2,
    ;
}

/// The player's divider: whole part and sixteenths.
pub fn player_divider(rate: u32) -> (r: (u8, u8))
    requires
        rate > 0,
    ensures
        r.0 == divider_q4(rate) / 16,
        r.1 == divider_q4(rate) % 16,
{
    let denom: u64 = 1024 * (rate as u64);
    let q: u64 = (16 * CLK_SYS_HZ + denom / 2) / denom;
    let q: u64 = if q < 16 {
        16
    } else if q > 0xfff {
        0xfff
    } else {
        q
    };
    ((q / 16) as u8, (q % 16) as u8)
}

/// A file's sample rate, forced into the player's range.
pub fn play_rate(rate: u32) -> (r: u32)
    ensures
        r == if rate < PLAY_MIN_RATE {
            PLAY_MIN_RATE
        } else if rate > PLAY_MAX_RATE {
            PLAY_MAX_RATE
        } else {
            rate
        },
{
    if rate < PLAY_MIN_RATE {
        PLAY_MIN_RATE
    } else if rate > PLAY_MAX_RATE {
        PLAY_MAX_RATE
    } else {
        rate
    }
}

/// A sample as a duty: the top ten bits, around mid-scale.
pub open spec fn duty_of(sample: i16) -> int {
    sample as int / 64 + 512
}

/// Map a signed 16-bit sample to a 10-bit duty around mid-scale.
pub fn sample_to_duty(sample: i16) -> (r: u32)
    ensures
        r == duty_of(sample),
        r <= 1023,
{
    ((sample as i32 + 32768) / 64) as u32
}

/// The duty covers its range, is mid-scale for silence, and never falls as the
/// sample rises.
pub proof fn duty_follows_the_sample(a: i16, b: i16)
    requires
        a <= b,
    ensures
        0 <= duty_of(a) <= duty_of(b) <= PLAY_TOP,
        duty_of(0) == PLAY_MID,
        duty_of(-32768i16) == 0,
        duty_of(32767) == 1023,
{
}

/// Pack a stereo pair for the compare register: left low, right high.
pub fn stereo_to_cc(l: i16, r: i16) -> (w: u32)
    ensures
        w == duty_of(l) + 0x1_0000 * duty_of(r),
        w % 0x1_0000 == duty_of(l),
        w / 0x1_0000 == duty_of(r),
{
    sample_to_duty(l) + 0x1_0000 * sample_to_duty(r)
}

/// Sample `k`, silence past the `got` that the decoder gave.
pub open spec fn sample_or_silence(pcm: Seq<i16>, got: int, k: int) -> i16 {
    if k < got {
        pcm[k]
    } else {
        0
    }
}

fn sample_at(pcm: &[i16], got: usize, k: usize) -> (r: i16)
    requires
        k < pcm.len(),
    ensures
        r == sample_or_silence(pcm@, got as int, k as int),
{
    if k < got {
        pcm[k]
    } else {
        0
    }
}

/// A half of the ring, filled from interleaved samples.
pub fn fill_half(pcm: &[i16], got: usize) -> (v: Vec<u32>)
    requires
        pcm@.len() == 1024,
    ensures
        v@ == Seq::new(
            512,
            |i: int|
                (duty_of(sample_or_silence(pcm@, got as int, 2 * i)) + 0x1_0000 * duty_of(
                    sample_or_silence(pcm@, got as int, 2 * i + 1),
                )) as u32,
        ),
        // What was decoded goes to its ear, and the rest is silence.
        forall|i: int|
            0 <= i < 512 && 2 * i + 1 < got ==> (#[trigger] v@[i]) % 0x1_0000 == duty_of(
                pcm@[2 * i],
            ) && v@[i] / 0x1_0000 == duty_of(pcm@[2 * i + 1]),
        forall|i: int|
            0 <= i < 512 && 2 * i >= got ==> (#[trigger] v@[i]) == 0x200_0200,
{
    let mut v: Vec<u32> = Vec::new();
    let mut i: usize = 0;
    while i < PLAY_HALF_SAMPLES
        invariant
            i <= PLAY_HALF_SAMPLES,
            pcm@.len() == 1024,
            v@.len() == i,
            forall|j: int|
                0 <= j < i ==> #[trigger] v@[j] == (duty_of(
                    sample_or_silence(pcm@, got as int, 2 * j),
                ) + 0x1_0000 * duty_of(sample_or_silence(pcm@, got as int, 2 * j + 1))) as u32,
        decreases PLAY_HALF_SAMPLES - i,
    {
        v.push(stereo_to_cc(sample_at(pcm, got, 2 * i), sample_at(pcm, got, 2 * i + 1)));
        i = i + 1;
    }
    v
}

/// The half that the channel reads.
pub fn dma_half(addr: u32, base: u32) -> (r: u32)
    ensures
        r == player::part_of(addr, base, AUDIO_RING_BYTES, PLAY_HALF_BYTES),
        r < 2,
{
    let off: u32 = addr.wrapping_sub(base);
    assert(off == (addr - base) % 0x1_0000_0000);
    off % AUDIO_RING_BYTES / PLAY_HALF_BYTES
}

/// What the mixer fades to.
#[derive(Copy, Clone, Debug, PartialEq, Eq, Structural)]
pub enum MixTarget {
    Wav,
    Sine,
}

/// The mixer: the sine's phase, and the gains of the file and of the sine.
#[derive(Copy, Clone, Debug, PartialEq, Eq, Structural)]
pub struct MixState {
    pub phase: u32,
    pub sine_inc: u32,
    pub ga: i32,
    pub gb: i32,
    pub target: MixTarget,
}

/// One step towards a target.
pub open spec fn stepped(gain: int, target: int) -> int {
    if gain < target {
        gain + 1
    } else if gain > target {
        gain - 1
    } else {
        gain
    }
}

/// Move a gain one step towards its target.
pub fn ramp_toward(gain: i32, target: i32) -> (r: i32)
    ensures
        r == stepped(gain as int, target as int),
{
    if gain < target {
        gain + 1
    } else if gain > target {
        gain - 1
    } else {
        gain
    }
}

/// A gain never overshoots its target: every step that is not there yet brings
/// it nearer by one.
pub proof fn ramps_do_not_overshoot(gain: int, target: int)
    ensures
        gain < target ==> gain < stepped(gain, target) <= target,
        gain > target ==> target <= stepped(gain, target) < gain,
        gain == target ==> stepped(gain, target) == target,
{
}

/// Sound gains: together they are full gain.
pub open spec fn sound_mix(m: MixState) -> bool {
    &&& 0 <= m.ga <= MIX_GAIN_FULL
    &&& m.ga + m.gb == MIX_GAIN_FULL
}

/// The mixer after one sample.
pub open spec fn mix_after(m: MixState) -> MixState {
    MixState {
        phase: ((m.phase + m.sine_inc) % 0x1_0000_0000) as u32,
        ga: stepped(
            m.ga as int,
            if m.target == MixTarget::Sine {
                0
            } else {
                256
            },
        ) as i32,
        gb: stepped(
            m.gb as int,
            if m.target == MixTarget::Sine {
                256
            } else {
                0
            },
        ) as i32,
        ..m
    }
}

/// The duty of a mixed sample: file and sine around mid-scale, each with its
/// gain.
pub open spec fn mixed_duty(m: MixState, sample: i16, sine: u16) -> int {
    let after = mix_after(m);
    let v = 512 + (after.ga * (duty_of(sample) - 512) + after.gb * (sine - 512)) / 256;
    if v < 0 {
        0
    } else if v > PLAY_TOP {
        PLAY_TOP as int
    } else {
        v
    }
}

/// The word of one mixed frame.
pub open spec fn mixed_word(m: MixState, lut: Seq<u16>, l: i16, r: i16) -> u32 {
    let sine = lut[m.phase as int / 0x100_0000];
    (mixed_duty(m, l, sine) + 0x1_0000 * mixed_duty(m, r, sine)) as u32
}

/// At either end of a crossfade only one source is heard, unchanged; in between
/// the mix lies between the two.
pub proof fn the_mix_lies_between(m: MixState, sample: i16, sine: u16)
    requires
        sound_mix(m),
        sine <= 1023,
    ensures
        mix_after(m).ga == MIX_GAIN_FULL ==> mixed_duty(m, sample, sine) == duty_of(sample),
        mix_after(m).gb == MIX_GAIN_FULL ==> mixed_duty(m, sample, sine) == sine,
        duty_of(sample) <= sine ==> duty_of(sample) <= mixed_duty(m, sample, sine) <= sine,
        duty_of(sample) >= sine ==> sine <= mixed_duty(m, sample, sine) <= duty_of(sample),
{
    let after = mix_after(m);
    let (ga, gb) = (after.ga as int, after.gb as int);
    let (a, b) = (duty_of(sample) - 512, sine - 512);
    duty_follows_the_sample(sample, sample);
    assert(ga + gb == 256 && 0 <= ga <= 256);
    if a <= b {
        assert(256 * a <= ga * a + gb * b <= 256 * b) by (nonlinear_arith)
            requires
                ga + gb == 256,
                0 <= ga <= 256,
                a <= b,
        ;
    } else {
        assert(256 * b <= ga * a + gb * b <= 256 * a) by (nonlinear_arith)
            requires
                ga + gb == 256,
                0 <= ga <= 256,
                a > b,
        ;
    }
    if ga == 256 {
        assert(ga * a + gb * b == 256 * a) by (nonlinear_arith)
            requires
                ga == 256,
                gb == 0,
        ;
    }
    if gb == 256 {
        assert(ga * a + gb * b == 256 * b) by (nonlinear_arith)
            requires
                gb == 256,
                ga == 0,
        ;
    }
}

/// Each ear hears the mix of its own channel: the low half of a mixed word
/// follows from the left sample alone, the high half from the right one, and a
/// sample is mixed the same in either ear.
pub proof fn ears_hear_their_own_mix(m: MixState, lut: Seq<u16>, a: i16, b: i16, c: i16)
    requires
        sound_mix(m),
        sound_table(lut),
    ensures
        mixed_word(m, lut, a, c) / 0x1_0000 == mixed_word(m, lut, b, c) / 0x1_0000,
        mixed_word(m, lut, c, a) % 0x1_0000 == mixed_word(m, lut, c, b) % 0x1_0000,
        mixed_word(m, lut, a, c) / 0x1_0000 == mixed_word(m, lut, c, a) % 0x1_0000,
{
    let sine = lut[m.phase as int / 0x100_0000];
    the_mix_lies_between(m, a, sine);
    the_mix_lies_between(m, b, sine);
    the_mix_lies_between(m, c, sine);
}

proof fn product_bound(g: int, x: int)
    requires
        0 <= g <= 256,
        -512 <= x <= 511,
    ensures
        -512 * g <= g * x <= 511 * g,
{
    assert(-512 * g <= g * x <= 511 * g) by (nonlinear_arith)
        requires
            0 <= g <= 256,
            -512 <= x <= 511,
    ;
}

fn blend(ga: i32, gb: i32, sample: i16, sine: u16) -> (r: u32)
    requires
        0 <= ga <= 256,
        ga + gb == 256,
        sine <= 1023,
    ensures
        ({
            let v = 512 + (ga * (duty_of(sample) - 512) + gb * (sine - 512)) / 256;
            0 <= v <= 1023 && r == v
        }),
{
    let a: i32 = sample_to_duty(sample) as i32 - 512;
    let b: i32 = sine as i32 - 512;
    proof {
        product_bound(ga as int, a as int);
        product_bound(gb as int, b as int);
        assert(-512 * 256 <= ga * a + gb * b <= 511 * 256);
    }
    let m: i32 = ga * a + gb * b;
    ((m + 131_072) / 256) as u32
}

impl MixState {
    /// Begin with the file alone, for a sample rate.
    pub fn new(rate: u32) -> (m: MixState)
        requires
            rate > MIX_SINE_HZ,
        ensures
            sound_mix(m),
            m == (MixState {
                phase: 0,
                sine_inc: phase_step(MIX_SINE_HZ, rate) as u32,
                ga: 256,
                gb: 0,
                target: MixTarget::Wav,
            }),
    {
        MixState {
            phase: 0,
            sine_inc: phase_inc(MIX_SINE_HZ, rate),
            ga: 256,
            gb: 0,
            target: MixTarget::Wav,
        }
    }

    /// Mix one frame.
    pub fn mix(&mut self, lut: &[u16], l: i16, r: i16) -> (w: u32)
        requires
            sound_mix(*old(self)),
            sound_table(lut@),
        ensures
            sound_mix(*final(self)),
            *final(self) == mix_after(*old(self)),
            w == mixed_word(*old(self), lut@, l, r),
    {
        let sine: u16 = lut[(self.phase / 0x100_0000) as usize];
        self.phase = self.phase.wrapping_add(self.sine_inc);
        let (ta, tb): (i32, i32) = if self.target == MixTarget::Sine {
            (0, 256)
        } else {
            (256, 0)
        };
        self.ga = ramp_toward(self.ga, ta);
        self.gb = ramp_toward(self.gb, tb);
        blend(self.ga, self.gb, l, sine) + 0x1_0000 * blend(self.ga, self.gb, r, sine)
    }

    /// Fill a half of the ring with mixed frames.
    pub fn mix_fill(&mut self, lut: &[u16], pcm: &[i16], got: usize) -> (v: Vec<u32>)
        requires
            sound_mix(*old(self)),
            sound_table(lut@),
            pcm@.len() == 1024,
        ensures
            sound_mix(*final(self)),
            *final(self) == mix_run(*old(self), 512),
            v@ == Seq::new(
                512,
                |i: int|
                    mixed_word(
                        mix_run(*old(self), i as nat),
                        lut@,
                        sample_or_silence(pcm@, got as int, 2 * i),
                        sample_or_silence(pcm@, got as int, 2 * i + 1),
                    ),
            ),
    {
        let ghost start = *self;
        let mut v: Vec<u32> = Vec::new();
        let mut i: usize = 0;
        while i < PLAY_HALF_SAMPLES
            invariant
                i <= PLAY_HALF_SAMPLES,
                sound_mix(*self),
                sound_table(lut@),
                pcm@.len() == 1024,
                *self == mix_run(start, i as nat),
                v@.len() == i,
                forall|j: int|
                    0 <= j < i ==> #[trigger] v@[j] == mixed_word(
                        mix_run(start, j as nat),
                        lut@,
                        sample_or_silence(pcm@, got as int, 2 * j),
                        sample_or_silence(pcm@, got as int, 2 * j + 1),
                    ),
            decreases PLAY_HALF_SAMPLES - i,
        {
            let l: i16 = sample_at(pcm, got, 2 * i);
            let r: i16 = sample_at(pcm, got, 2 * i + 1);
            let w: u32 = self.mix(lut, l, r);
            v.push(w);
            i = i + 1;
        }
        v
    }
}

/// The mixer after `n` samples.
pub open spec fn mix_run(m: MixState, n: nat) -> MixState
    decreases n,
{
    if n == 0 {
        m
    } else {
        mix_after(mix_run(m, (n - 1) as nat))
    }
}

/// The crossfade stays linear: the two gains always add up to full gain.
pub proof fn gains_add_up(m: MixState)
    requires
        sound_mix(m),
    ensures
        sound_mix(mix_after(m)),
{
}

/// A crossfade is over after as many samples as full gain has steps, whichever
/// way it goes: each sample takes one step of gain from what fades out.
pub proof fn crossfade_ends(m: MixState, n: nat)
    requires
        sound_mix(m),
    ensures
        mix_run(m, n).target == m.target,
        sound_mix(mix_run(m, n)),
        m.target == MixTarget::Sine && n <= m.ga ==> mix_run(m, n).ga == m.ga - n,
        m.target == MixTarget::Sine && n >= m.ga ==> mix_run(m, n).ga == 0,
        m.target == MixTarget::Wav && n <= m.gb ==> mix_run(m, n).gb == m.gb - n,
        m.target == MixTarget::Wav && n >= m.gb ==> mix_run(m, n).gb == 0,
    decreases n,
{
    if n > 0 {
        crossfade_ends(m, (n - 1) as nat);
    }
}

/// The mixer never clips: with sound gains and a sound table the mixed duty is
/// in range before it is clamped.
pub proof fn mixing_never_clips(m: MixState, sample: i16, sine: u16)
    requires
        sound_mix(m),
        sine <= 1023,
    ensures
        ({
            let after = mix_after(m);
            0 <= 512 + (after.ga * (duty_of(sample) - 512) + after.gb * (sine - 512)) / 256
                <= PLAY_TOP
        }),
{
    let after = mix_after(m);
    product_bound(after.ga as int, duty_of(sample) - 512);
    product_bound(after.gb as int, sine - 512);
    assert(-512 * 256 <= after.ga * (duty_of(sample) - 512) + after.gb * (sine - 512) <= 511
        * 256);
}

/// The mixer's two buttons: 1 is released, 0 is pressed.
#[derive(Copy, Clone, Debug, PartialEq, Eq, Structural)]
pub struct Buttons {
    pub wav: u8,
    pub sine: u8,
}

impl Buttons {
    /// Both released.
    pub fn new() -> (b: Buttons)
        ensures
            b == (Buttons { wav: 1, sine: 1 }),
    {
        Buttons { wav: 1, sine: 1 }
    }

    /// Take the buttons' levels: a fresh press picks what to fade to, and the
    /// sine's button wins over the file's.
    pub fn read(&mut self, wav: u8, sine: u8, target: MixTarget) -> (t: MixTarget)
        ensures
            *final(self) == (Buttons { wav, sine }),
            t == if sine == 0 && old(self).sine == 1 {
                MixTarget::Sine
            } else if wav == 0 && old(self).wav == 1 {
                MixTarget::Wav
            } else {
                target
            },
    {
        let mut t = target;
        if wav == 0 && self.wav == 1 {
            t = MixTarget::Wav;
        }
        if sine == 0 && self.sine == 1 {
            t = MixTarget::Sine;
        }
        self.wav = wav;
        self.sine = sine;
        t
    }
}

} // verus!
