//! The I2S output: clock dividers, the tone ring, filling the ring from a
//! decoder, and the probes that tell whether the hardware runs.

use crate::errors::I2sError;
use crate::player;
use vstd::prelude::*;

verus! {

/// The system clock.
pub const SYS_CLK_HZ: u32 = 150_000_000;

/// Cycles of the state machine in a frame: two a bit, sixteen bits a channel.
pub const PIO_CYCLES_PER_FRAME: u32 = 64;

/// Amplitude of the test tone.
pub const TONE_AMPL: u64 = 0x2000;

/// Range of the test tone.
pub const TONE_MIN_HZ: u32 = 50;

pub const TONE_MAX_HZ: u32 = 8000;

/// Sample rates for which the converter's clock locks.
pub const RATE_MIN_HZ: u32 = 32_000;

pub const RATE_MAX_HZ: u32 = 48_000;

/// Frames in the ring; a frame is one word.
pub const RING_FRAMES: usize = 4096;

/// Bytes of the ring, and of a chunk of it.
pub const RING_BYTES: u32 = 16384;

pub const PLAY_CHUNK_BYTES: u32 = 2048;

/// Chunks of the ring, and frames in a chunk.
pub const PLAY_CHUNKS: u32 = 8;

pub const PLAY_CHUNK_FRAMES: usize = 512;

/// The state machine's clock at a sample rate.
pub open spec fn frame_clock(rate: u32) -> int {
    64 * rate
}

/// The divider for a sample rate: whole part and 256ths, cut towards zero.
pub fn clkdiv_for(rate: u32) -> (r: (u16, u8))
    requires
        RATE_MIN_HZ <= rate <= RATE_MAX_HZ,
    ensures
        r.0 == SYS_CLK_HZ as int / frame_clock(rate),
        r.1 == SYS_CLK_HZ as int % frame_clock(rate) * 256 / frame_clock(rate),
        // The system clock, divided by that, is the frame clock or just above it.
        (256 * r.0 + r.1) * frame_clock(rate) <= 256 * SYS_CLK_HZ,
        256 * SYS_CLK_HZ < (256 * r.0 + r.1 + 1) * frame_clock(rate),
{
    let clk: u32 = PIO_CYCLES_PER_FRAME * rate;
    let whole: u32 = SYS_CLK_HZ / clk;
    assert(whole <= 73) by (nonlinear_arith)
        requires
            whole == 150_000_000u32 / clk,
            clk >= 2_048_000,
    ;
    let rest: u32 = SYS_CLK_HZ % clk;
    let frac: u64 = (rest as u64) * 256 / (clk as u64);
    assert(frac < 256) by (nonlinear_arith)
        requires
            rest < clk,
            frac == (rest * 256) / (clk as int),
            clk > 0,
    ;
    proof {
        let (w, r, f, c) = (whole as int, rest as int, frac as int, clk as int);
        vstd::arithmetic::div_mod::lemma_fundamental_div_mod(SYS_CLK_HZ as int, c);
        vstd::arithmetic::div_mod::lemma_fundamental_div_mod(r * 256, c);
        vstd::arithmetic::div_mod::lemma_mod_bound(r * 256, c);
        let m = r * 256 % c;
        assert((256 * w + f) * c <= 256 * SYS_CLK_HZ < (256 * w + f + 1) * c) by (nonlinear_arith)
            requires
                SYS_CLK_HZ == c * w + r,
                r * 256 == c * f + m,
                0 <= m < c,
        ;
    }
    (whole as u16, frac as u8)
}

/// `f`, forced into the range of the test tone.
pub open spec fn tone_freq(f: u32) -> int {
    if f < TONE_MIN_HZ {
        TONE_MIN_HZ as int
    } else if f > TONE_MAX_HZ {
        TONE_MAX_HZ as int
    } else {
        f as int
    }
}

/// The whole number of cycles in the ring that is nearest to a frequency, and
/// at least one.
pub open spec fn cycles(freq: u32, rate: u32) -> int {
    let c = (4096 * tone_freq(freq) + rate as int / 2) / (rate as int);
    if c < 1 {
        1
    } else {
        c
    }
}

/// The snapped frequency is the nearest that the ring can hold: it is off by at
/// most half a step.
pub proof fn snapping_is_nearest(freq: u32, rate: u32)
    requires
        TONE_MIN_HZ <= freq <= TONE_MAX_HZ,
        RATE_MIN_HZ <= rate <= RATE_MAX_HZ,
    ensures
        -rate <= 2 * (4096 * freq - rate * cycles(freq, rate)) <= rate,
{
    let n = 4096 * freq + rate as int / 2;
    let c = n / (rate as int);
    vstd::arithmetic::div_mod::lemma_fundamental_div_mod(n, rate as int);
    vstd::arithmetic::div_mod::lemma_mod_bound(n, rate as int);
    assert(c >= 1) by (nonlinear_arith)
        requires
            n == rate * c + n % (rate as int),
            n % (rate as int) < rate,
            n >= 4096 * 50,
            rate <= 48_000,
    ;
}

/// A frequency outside the range plays as the nearest within it.
pub proof fn tones_are_kept_in_range(freq: u32)
    ensures
        TONE_MIN_HZ <= tone_freq(freq) <= TONE_MAX_HZ,
        TONE_MIN_HZ <= freq <= TONE_MAX_HZ ==> tone_freq(freq) == freq,
        freq < TONE_MIN_HZ ==> tone_freq(freq) == TONE_MIN_HZ,
{
}

/// Snap a frequency to a whole number of cycles across the ring.
pub fn cycle_count(freq: u32, rate: u32) -> (c: u32)
    requires
        RATE_MIN_HZ <= rate <= RATE_MAX_HZ,
    ensures
        c == cycles(freq, rate),
        1 <= c <= 1025,
{
    let f: u32 = if freq < TONE_MIN_HZ {
        TONE_MIN_HZ
    } else if freq > TONE_MAX_HZ {
        TONE_MAX_HZ
    } else {
        freq
    };
    let n: u32 = 4096 * f + rate / 2;
    let c: u32 = n / rate;
    assert(c <= 1025) by (nonlinear_arith)
        requires
            c == n / rate,
            n <= 4096 * 8000 + 24_000,
            rate >= 32_000,
    ;
    if c < 1 {
        1
    } else {
        c
    }
}

/// Half a sine by Bhaskara's approximation, `x` in degrees.
pub open spec fn half_sine(x: int) -> int {
    let q = x * (180 - x);
    4 * q * TONE_AMPL / (40500 - q)
}

/// A sine by Bhaskara's approximation, `deg` below 360.
pub open spec fn sine_of(deg: int) -> int {
    if deg < 180 {
        half_sine(deg)
    } else {
        -half_sine(deg - 180)
    }
}

proof fn half_sine_bounds(x: int)
    requires
        0 <= x <= 180,
    ensures
        0 <= x * (180 - x) <= 8100,
        0 <= half_sine(x) <= TONE_AMPL,
{
    let q = x * (180 - x);
    assert(0 <= q <= 8100) by (nonlinear_arith)
        requires
            q == x * (180 - x),
            0 <= x <= 180,
    ;
    let d = 40500 - q;
    assert(0 <= 4 * q * 8192 / d <= 8192) by (nonlinear_arith)
        requires
            0 <= q <= 8100,
            d == 40500 - q,
    ;
}

/// A sine by Bhaskara's approximation.
pub fn isin(deg: u32) -> (r: i16)
    requires
        deg < 360,
    ensures
        r == sine_of(deg as int),
        -(TONE_AMPL as int) <= r <= TONE_AMPL,
{
    let neg: bool = deg >= 180;
    let half: u32 = if neg {
        deg - 180
    } else {
        deg
    };
    proof {
        half_sine_bounds(half as int);
    }
    let q: u32 = half * (180 - half);
    let s: u64 = 4 * (q as u64) * TONE_AMPL / ((40500 - q) as u64);
    let s: i16 = s as i16;
    if neg {
        -s
    } else {
        s
    }
}

/// The second half of the circle mirrors the first, the sine is zero at both
/// ends and full in the middle, and never leaves its amplitude.
pub proof fn sine_is_symmetric(x: int)
    requires
        0 <= x < 180,
    ensures
        sine_of(x + 180) == -sine_of(x),
        0 <= sine_of(x) <= TONE_AMPL,
        sine_of(0) == 0,
        sine_of(90) == TONE_AMPL,
        half_sine(180 - x) == half_sine(x),
{
    half_sine_bounds(x);
    assert(x * (180 - x) == (180 - x) * (180 - (180 - x))) by (nonlinear_arith);
    assert(0 * (180 - 0) == 0 && 90 * (180 - 90) == 8100);
}

/// A signed sample as the 16 bits that go out.
pub open spec fn bits16(s: int) -> int {
    if s < 0 {
        s + 0x1_0000
    } else {
        s
    }
}

fn sample_bits(s: i16) -> (r: u32)
    ensures
        r == bits16(s as int),
        r <= 0xFFFF,
{
    if s < 0 {
        (s as i32 + 0x1_0000) as u32
    } else {
        s as u32
    }
}

/// A frame of the tone ring: the left sample in the high half.
pub open spec fn frame_of(l: int, r: int) -> u32 {
    (0x1_0000 * bits16(l) + bits16(r)) as u32
}

/// The degrees at frame `f` when `cyc` cycles fill the ring.
pub open spec fn degrees_at(f: int, cyc: int) -> int {
    f * cyc % 4096 * 360 / 4096
}

/// The ring of two tones.
pub open spec fn tone_ring(left: int, right: int) -> Seq<u32> {
    Seq::new(
        4096,
        |f: int| frame_of(sine_of(degrees_at(f, left)), sine_of(degrees_at(f, right))),
    )
}

fn tone_sample(f: usize, cyc: u32) -> (r: i16)
    requires
        f < 4096,
        cyc <= 1025,
    ensures
        r == sine_of(degrees_at(f as int, cyc as int)),
{
    assert(f * cyc <= 4095 * 1025) by (nonlinear_arith)
        requires
            f <= 4095,
            cyc <= 1025,
    ;
    let pos: u32 = (f as u32) * cyc % 4096;
    isin(pos * 360 / 4096)
}

fn fill_ring_tone(left: u32, right: u32) -> (v: Vec<u32>)
    requires
        left <= 1025,
        right <= 1025,
    ensures
        v@ == tone_ring(left as int, right as int),
{
    let mut v: Vec<u32> = Vec::new();
    let ghost all = tone_ring(left as int, right as int);
    let mut f: usize = 0;
    while f < RING_FRAMES
        invariant
            f <= RING_FRAMES,
            left <= 1025,
            right <= 1025,
            all == tone_ring(left as int, right as int),
            v@ == all.take(f as int),
        decreases RING_FRAMES - f,
    {
        let l: u32 = sample_bits(tone_sample(f, left));
        let r: u32 = sample_bits(tone_sample(f, right));
        v.push(0x1_0000 * l + r);
        f = f + 1;
        assert(v@ =~= all.take(f as int));
    }
    assert(v@ =~= all);
    v
}

/// Start a tone for each ear: the divider and the ring.
pub fn play(hz_left: u32, hz_right: u32, rate: u32) -> (r: Result<
    ((u16, u8), Vec<u32>),
    I2sError,
>)
    ensures
        rate < RATE_MIN_HZ || rate > RATE_MAX_HZ ==> (r matches Err(e) && e == I2sError::BadArg),
        RATE_MIN_HZ <= rate <= RATE_MAX_HZ ==> (r matches Ok(p) && p.0.0 == SYS_CLK_HZ as int
            / frame_clock(rate) && p.0.1 == SYS_CLK_HZ as int % frame_clock(rate) * 256
            / frame_clock(rate) && p.1@ == tone_ring(
            cycles(hz_left, rate),
            cycles(hz_right, rate),
        )),
{
    if rate < RATE_MIN_HZ || rate > RATE_MAX_HZ {
        return Err(I2sError::BadArg);
    }
    let div = clkdiv_for(rate);
    let ring = fill_ring_tone(cycle_count(hz_left, rate), cycle_count(hz_right, rate));
    Ok((div, ring))
}

/// A sample goes out in two's complement: its 16 bits are the sample modulo 2^16.
pub proof fn samples_go_out_in_twos_complement(s: int)
    requires
        -0x8000 <= s < 0x8000,
    ensures
        0 <= bits16(s) <= 0xFFFF,
        (bits16(s) - s) % 0x1_0000 == 0,
{
}

proof fn sine_of_bounds(d: int)
    requires
        0 <= d < 360,
    ensures
        -(TONE_AMPL as int) <= sine_of(d) <= TONE_AMPL,
{
    if d < 180 {
        half_sine_bounds(d);
    } else {
        half_sine_bounds(d - 180);
    }
}

/// Each ear hears its own tone and nothing of the other's: the high halves of the
/// ring follow from the left frequency alone and the low halves from the right
/// one alone, and a tone is the same in either ear.
pub proof fn ears_hear_their_own_tone(a: int, b: int, c: int, f: int)
    requires
        0 <= f < 4096,
    ensures
        tone_ring(a, c)[f] % 0x1_0000 == tone_ring(b, c)[f] % 0x1_0000,
        tone_ring(c, a)[f] / 0x1_0000 == tone_ring(c, b)[f] / 0x1_0000,
        tone_ring(a, c)[f] % 0x1_0000 == tone_ring(c, a)[f] / 0x1_0000,
        tone_ring(a, c)[f] % 0x1_0000 == bits16(sine_of(degrees_at(f, c))),
{
    sine_of_bounds(degrees_at(f, a));
    sine_of_bounds(degrees_at(f, b));
    sine_of_bounds(degrees_at(f, c));
}

/// A tone of `cyc` cycles goes round `cyc` times as fast as one of a single
/// cycle, which takes the whole ring for the circle.
pub proof fn tones_go_round(f: int, cyc: int)
    requires
        0 <= f < 4096,
    ensures
        degrees_at(f, cyc) == degrees_at(f * cyc % 4096, 1),
        4096 * degrees_at(f, 1) <= 360 * f < 4096 * (degrees_at(f, 1) + 1),
{
    let n = f * cyc % 4096;
    assert(n * 1 == n && n % 4096 == n);
    assert(f * 1 == f && f % 4096 == f);
}

/// The ring loops without a seam: the frame after the last is the first again.
pub proof fn ring_has_no_seam(cyc: int)
    ensures
        degrees_at(4096, cyc) == degrees_at(0, cyc),
{
    assert(4096 * cyc % 4096 == 0) by (nonlinear_arith);
    assert(0 * cyc == 0) by (nonlinear_arith);
}

/// Check a file's sample rate: other rates would play at the wrong pitch.
pub fn check_rate(rate: u32) -> (r: Result<u32, I2sError>)
    ensures
        r == if RATE_MIN_HZ <= rate <= RATE_MAX_HZ {
            Ok::<u32, I2sError>(rate)
        } else {
            Err(I2sError::BadRate)
        },
{
    if RATE_MIN_HZ <= rate && rate <= RATE_MAX_HZ {
        Ok(rate)
    } else {
        Err(I2sError::BadRate)
    }
}

/// Sample `k`, zero past the `got` that the decoder gave.
pub open spec fn sample_or_zero(pcm: Seq<i16>, got: int, k: int) -> int {
    if k < got {
        pcm[k] as int
    } else {
        0
    }
}

fn sample_at(pcm: &[i16], got: usize, k: usize) -> (r: i16)
    requires
        k < pcm.len(),
    ensures
        r == sample_or_zero(pcm@, got as int, k as int),
{
    if k < got {
        pcm[k]
    } else {
        0
    }
}

/// A frame of a file: the right sample in the high half, the left one in the
/// low half.
pub open spec fn file_frame(l: int, r: int) -> u32 {
    (0x1_0000 * bits16(r) + bits16(l)) as u32
}

/// A chunk of the ring, filled from interleaved samples as they are. Each frame
/// is `(right << 16) | left`, the layout of [`file_frame`]; the tones of
/// [`play`] are laid out the other way round, as [`frame_of`] has them.
pub fn fill_chunk(pcm: &[i16], got: usize) -> (v: Vec<u32>)
    requires
        pcm@.len() == 1024,
    ensures
        v@ == Seq::new(
            512,
            |i: int|
                file_frame(
                    sample_or_zero(pcm@, got as int, 2 * i),
                    sample_or_zero(pcm@, got as int, 2 * i + 1),
                ),
        ),
        // What was decoded goes to its half of the frame, and the rest is silence.
        forall|i: int|
            0 <= i < 512 && 2 * i + 1 < got ==> (#[trigger] v@[i]) % 0x1_0000 == bits16(
                pcm@[2 * i] as int,
            ) && v@[i] / 0x1_0000 == bits16(pcm@[2 * i + 1] as int),
        forall|i: int| 0 <= i < 512 && 2 * i >= got ==> (#[trigger] v@[i]) == 0,
{
    let mut v: Vec<u32> = Vec::new();
    let mut i: usize = 0;
    while i < PLAY_CHUNK_FRAMES
        invariant
            i <= PLAY_CHUNK_FRAMES,
            pcm@.len() == 1024,
            v@.len() == i,
            forall|j: int|
                0 <= j < i ==> #[trigger] v@[j] == file_frame(
                    sample_or_zero(pcm@, got as int, 2 * j),
                    sample_or_zero(pcm@, got as int, 2 * j + 1),
                ),
        decreases PLAY_CHUNK_FRAMES - i,
    {
        let l: u32 = sample_bits(sample_at(pcm, got, 2 * i));
        let r: u32 = sample_bits(sample_at(pcm, got, 2 * i + 1));
        v.push(0x1_0000 * r + l);
        i = i + 1;
    }
    v
}

/// The chunk that the channel reads.
pub fn dma_chunk(addr: u32, base: u32) -> (r: u32)
    ensures
        r == player::part_of(addr, base, RING_BYTES, PLAY_CHUNK_BYTES),
        r < PLAY_CHUNKS,
{
    let off: u32 = addr.wrapping_sub(base);
    assert(off == (addr - base) % 0x1_0000_0000);
    off % RING_BYTES / PLAY_CHUNK_BYTES
}

/// How often `a` occurs in `s`, at most 15.
pub open spec fn hits(s: Seq<u8>, a: u8) -> int
    decreases s.len(),
{
    if s.len() == 0 {
        0
    } else {
        let before = hits(s.drop_last(), a);
        if s.last() % 8 == a && before < 15 {
            before + 1
        } else {
            before
        }
    }
}

fn count_hits(s: &[u8], a: u8) -> (r: u32)
    ensures
        r == hits(s@, a),
        r <= 15,
{
    let mut n: u32 = 0;
    let mut i: usize = 0;
    assert(s@.take(0) =~= Seq::<u8>::empty());
    while i < s.len()
        invariant
            i <= s@.len(),
            n == hits(s@.take(i as int), a),
            n <= 15,
        decreases s@.len() - i,
    {
        assert(s@.take(i + 1).drop_last() =~= s@.take(i as int));
        if s[i] % 8 == a && n < 15 {
            n = n + 1;
        }
        i = i + 1;
    }
    assert(s@.take(i as int) =~= s@);
    n
}

/// The histogram of program addresses: four bits for each of the eight, the
/// lowest first.
pub fn address_histogram(s: &[u8]) -> (r: u32)
    ensures
        r == hits(s@, 0) + 0x10 * hits(s@, 1) + 0x100 * hits(s@, 2) + 0x1000 * hits(s@, 3)
            + 0x1_0000 * hits(s@, 4) + 0x10_0000 * hits(s@, 5) + 0x100_0000 * hits(s@, 6)
            + 0x1000_0000 * hits(s@, 7),
{
    count_hits(s, 0) + 0x10 * count_hits(s, 1) + 0x100 * count_hits(s, 2) + 0x1000 * count_hits(
        s,
        3,
    ) + 0x1_0000 * count_hits(s, 4) + 0x10_0000 * count_hits(s, 5) + 0x100_0000 * count_hits(
        s,
        6,
    ) + 0x1000_0000 * count_hits(s, 7)
}

/// A pin being sampled: its last level, its edges and its ones.
#[derive(Copy, Clone, Debug, PartialEq, Eq, Structural)]
pub struct EdgeCount {
    pub prev: bool,
    pub edges: u32,
    pub ones: u32,
}

impl EdgeCount {
    /// Begin with the pin's level.
    pub fn new(level: bool) -> (e: EdgeCount)
        ensures
            e == (EdgeCount { prev: level, edges: 0, ones: 0 }),
    {
        EdgeCount { prev: level, edges: 0, ones: 0 }
    }

    /// Take a sample.
    pub fn see(&mut self, level: bool)
        requires
            old(self).edges < u32::MAX,
            old(self).ones < u32::MAX,
        ensures
            final(self).prev == level,
            final(self).edges == old(self).edges + (if level != old(self).prev {
                1int
            } else {
                0
            }),
            final(self).ones == old(self).ones + (if level {
                1int
            } else {
                0
            }),
    {
        if level != self.prev {
            self.edges = self.edges + 1;
            self.prev = level;
        }
        if level {
            self.ones = self.ones + 1;
        }
    }

    /// The edges in the high half and the ones in the low half, as far as they
    /// fit.
    pub fn report(&self) -> (r: u32)
        ensures
            r == 0x1_0000 * player::at_most(self.edges, 0xFFFF) + player::at_most(
                self.ones,
                0xFFFF,
            ),
    {
        let e: u32 = if self.edges <= 0xFFFF {
            self.edges
        } else {
            0xFFFF
        };
        let o: u32 = if self.ones <= 0xFFFF {
            self.ones
        } else {
            0xFFFF
        };
        0x1_0000 * e + o
    }
}

} // verus!
