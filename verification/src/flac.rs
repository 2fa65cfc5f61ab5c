//! FLAC playback: block by block rescaling to 16-bit stereo, and decoding of a
//! whole file held in memory.

use crate::audio::DecodeError;
use vstd::prelude::*;

verus! {

/// Largest channel count that is accepted.
pub const FLAC_MAX_CHANNELS: u32 = 2;

/// Largest number of samples per channel and block that is accepted.
pub const FLAC_MAX_BLOCK: u32 = 4608;

/// Most bits per sample that a stream can have.
pub const FLAC_MAX_BITS: u32 = 32;

/// The format that a stream's header announces.
pub struct StreamFormat {
    pub sample_rate: u32,
    pub channels: u32,
    pub bits_per_sample: u32,
    pub max_block_size: u32,
}

/// One decoded block: all samples of the first channel, then those of the next.
pub struct FlacBlock {
    pub duration: u32,
    pub channels: u32,
    pub bits_per_sample: u32,
    pub samples: Vec<i32>,
}

/// What reading a block gave.
pub enum BlockEvent {
    /// A block was decoded.
    Block(FlacBlock),
    /// The stream is over.
    End,
    /// The source failed or the stream is corrupt.
    Failed,
}

/// Why opening a stream failed.
#[derive(Copy, Clone, PartialEq, Eq, Structural)]
pub enum OpenFault {
    /// The byte source failed or ended early.
    Io,
    /// The stream is ill-formed.
    Format,
    /// The stream uses a feature that is not supported.
    Unsupported,
}

/// Map a reason for which a stream could not be opened.
pub fn flac_err(e: OpenFault) -> (r: DecodeError)
    ensures
        r == match e {
            OpenFault::Io => DecodeError::Truncated,
            OpenFault::Unsupported => DecodeError::Unsupported,
            OpenFault::Format => DecodeError::BadMagic,
        },
{
    match e {
        OpenFault::Io => DecodeError::Truncated,
        OpenFault::Unsupported => DecodeError::Unsupported,
        OpenFault::Format => DecodeError::BadMagic,
    }
}

/// A sample rescaled to 16 bits: shifted right by `shift`, or left by its
/// negative, and cut to 16 bits.
pub open spec fn rescaled(v: i32, shift: i32) -> i16 {
    if shift > 0 {
        (v >> shift) as i16
    } else {
        (v << -shift) as i16
    }
}

/// Rescale one sample to 16 bits.
pub fn rescale(v: i32, shift: i32) -> (r: i16)
    requires
        -32 < shift < 32,
    ensures
        r == rescaled(v, shift),
{
    if shift > 0 {
        (v >> shift) as i16
    } else {
        (v << (-shift)) as i16
    }
}

/// A 16-bit stream is passed through bit for bit.
pub proof fn sixteen_bits_are_exact(v: i32)
    requires
        -0x8000 <= v < 0x8000,
    ensures
        rescaled(v, 0) == v,
{
    assert((v << 0i32) as i16 == v) by (bit_vector)
        requires
            -0x8000 <= v < 0x8000,
    ;
}

proof fn shifting_right_divides(v: i32, s: u32)
    requires
        s < 31,
    ensures
        (v >> s) == v as int / vstd::arithmetic::power2::pow2(s as nat) as int,
        vstd::arithmetic::power2::pow2(s as nat) > 0,
    decreases s,
{
    vstd::arithmetic::power2::lemma_pow2_pos(s as nat);
    if s == 0 {
        vstd::arithmetic::power2::lemma2_to64();
        assert((v >> 0u32) == v) by (bit_vector);
        assert(v as int / 1 == v);
    } else {
        let r = (s - 1) as u32;
        let d = vstd::arithmetic::power2::pow2(r as nat) as int;
        shifting_right_divides(v, r);
        assert(2 * (v >> s) <= v >> r && v >> r < 2 * (v >> s) + 2) by (bit_vector)
            requires
                r < 31,
                s == r + 1,
        ;
        vstd::arithmetic::power2::lemma_pow2_unfold(s as nat);
        let q = v as int / d;
        let h = (v >> s) as int;
        let m = v as int % d;
        vstd::arithmetic::div_mod::lemma_fundamental_div_mod(v as int, d);
        vstd::arithmetic::div_mod::lemma_mod_bound(v as int, d);
        assert(0 <= v - 2 * d * h < 2 * d) by (nonlinear_arith)
            requires
                v == d * q + m,
                0 <= m < d,
                2 * h <= q < 2 * h + 2,
        ;
        assert((2 * d) * h == 2 * d * h);
        vstd::arithmetic::div_mod::lemma_fundamental_div_mod_converse(
            v as int,
            2 * d,
            h,
            v - 2 * d * h,
        );
        assert(vstd::arithmetic::power2::pow2(s as nat) as int == 2 * d);
    }
}

proof fn shifting_left_multiplies(v: i32, s: u32)
    requires
        s <= 16,
        -0x8000 <= v * vstd::arithmetic::power2::pow2(s as nat) < 0x8000,
    ensures
        (v << s) == v * vstd::arithmetic::power2::pow2(s as nat),
    decreases s,
{
    if s == 0 {
        vstd::arithmetic::power2::lemma2_to64();
        assert((v << 0u32) == v) by (bit_vector);
    } else {
        let r = (s - 1) as u32;
        let d = vstd::arithmetic::power2::pow2(r as nat) as int;
        vstd::arithmetic::power2::lemma_pow2_unfold(s as nat);
        assert(2 * (v * d) == v * (2 * d)) by (nonlinear_arith);
        shifting_left_multiplies(v, r);
        let x = v << r;
        assert(v << s == 2 * x) by (bit_vector)
            requires
                x == v << r,
                -0x8000 <= x < 0x8000,
                r < 31,
                s == r + 1,
        ;
    }
}

/// Rescaling keeps a sample's share of full scale, whatever its width: a sample
/// of `bits` bits is divided by the power of two that it has too much, rounded
/// down, or multiplied by the one that it has too little.
pub proof fn rescaling_keeps_the_level(v: i32, bits: u32)
    requires
        1 <= bits <= FLAC_MAX_BITS,
        -vstd::arithmetic::power2::pow2((bits - 1) as nat) <= v,
        v < vstd::arithmetic::power2::pow2((bits - 1) as nat),
    ensures
        bits >= 16 ==> rescaled(v, (bits - 16) as i32) == v as int / vstd::arithmetic::power2::pow2(
            (bits - 16) as nat,
        ) as int,
        bits <= 16 ==> rescaled(v, (bits - 16) as i32) == v * vstd::arithmetic::power2::pow2(
            (16 - bits) as nat,
        ),
{
    vstd::arithmetic::power2::lemma2_to64();
    let full = vstd::arithmetic::power2::pow2((bits - 1) as nat) as int;
    if bits >= 16 {
        let s = (bits - 16) as i32;
        let d = vstd::arithmetic::power2::pow2(s as nat) as int;
        shifting_right_divides(v, s as u32);
        vstd::arithmetic::power2::lemma_pow2_adds(15, s as nat);
        assert(full == 0x8000 * d);
        let q = v as int / d;
        vstd::arithmetic::div_mod::lemma_fundamental_div_mod(v as int, d);
        vstd::arithmetic::div_mod::lemma_mod_bound(v as int, d);
        assert(-0x8000 <= q < 0x8000) by (nonlinear_arith)
            requires
                v == d * q + v as int % d,
                0 <= v as int % d < d,
                -0x8000 * d <= v < 0x8000 * d,
        ;
        if s == 0 {
            sixteen_bits_are_exact(v);
            assert(d == 1);
            assert(v as int / 1 == v);
        }
    }
    if bits <= 16 {
        let s = (16 - bits) as i32;
        let d = vstd::arithmetic::power2::pow2(s as nat) as int;
        vstd::arithmetic::power2::lemma_pow2_adds((bits - 1) as nat, s as nat);
        vstd::arithmetic::power2::lemma_pow2_pos(s as nat);
        assert(full * d == 0x8000);
        assert(-0x8000 <= v * d < 0x8000) by (nonlinear_arith)
            requires
                full * d == 0x8000,
                d > 0,
                -full <= v < full,
        ;
        shifting_left_multiplies(v, s as u32);
        if s == 0 {
            sixteen_bits_are_exact(v);
        }
    }
}

/// The state between two calls of the decoder.
pub struct FlacDecoder {
    /// Planar samples of the current block.
    pub buffer: Vec<i32>,
    /// Samples per channel in the current block (0 before the first).
    pub block_size: usize,
    /// Read cursor, in samples per channel.
    pub pos: usize,
    pub sample_rate: u32,
    pub channels: u8,
    /// Bits per sample of the current block, less 16.
    pub shift: i32,
    /// A block failed to decode.
    pub had_error: bool,
    /// The stream has ended, cleanly or not.
    pub done: bool,
}

/// Whether a stream of this format is decoded at all.
pub open spec fn playable(f: StreamFormat) -> bool {
    &&& 1 <= f.channels <= FLAC_MAX_CHANNELS
    &&& f.max_block_size <= FLAC_MAX_BLOCK
}

impl FlacDecoder {
    /// The cursor and the buffer agree.
    pub open spec fn sound(&self) -> bool {
        &&& self.pos <= self.block_size
        &&& -32 < self.shift < 32
        &&& self.block_size <= self.buffer@.len()
        &&& self.channels == 2 ==> 2 * self.block_size <= self.buffer.len()
    }

    /// The left sample at `i` of the current block.
    pub open spec fn left(&self, i: int) -> i16 {
        rescaled(self.buffer@[i], self.shift)
    }

    /// The right sample at `i`: that of the second channel of a stereo block,
    /// else the left one.
    pub open spec fn right(&self, i: int) -> i16 {
        if self.channels == 2 {
            rescaled(self.buffer@[self.block_size + i], self.shift)
        } else {
            self.left(i)
        }
    }

    /// Start decoding a stream of the given format. Refuses more than two
    /// channels and blocks beyond the supported size.
    pub fn new(info: StreamFormat) -> (r: Result<Self, DecodeError>)
        requires
            info.bits_per_sample <= FLAC_MAX_BITS,
        ensures
            match r {
                Ok(d) => {
                    &&& playable(info)
                    &&& d.sound()
                    &&& d.buffer@.len() == 0
                    &&& d.block_size == 0
                    &&& d.pos == 0
                    &&& d.sample_rate == info.sample_rate
                    &&& d.channels == info.channels
                    &&& d.shift == info.bits_per_sample - 16
                    &&& !d.had_error
                    &&& !d.done
                },
                Err(e) => !playable(info) && e == DecodeError::Unsupported,
            },
    {
        if info.channels == 0 || info.channels > FLAC_MAX_CHANNELS {
            return Err(DecodeError::Unsupported);
        }
        if info.max_block_size > FLAC_MAX_BLOCK {
            return Err(DecodeError::Unsupported);
        }
        Ok(
            FlacDecoder {
                buffer: Vec::new(),
                block_size: 0,
                pos: 0,
                sample_rate: info.sample_rate,
                channels: info.channels as u8,
                shift: info.bits_per_sample as i32 - 16,
                had_error: false,
                done: false,
            },
        )
    }

    /// Take in what reading the next block gave. Returns true when there are
    /// samples to emit, false when the stream is over. Once it is over, nothing
    /// is taken in any more.
    pub fn take_block(&mut self, e: BlockEvent) -> (more: bool)
        requires
            old(self).sound(),
            e matches BlockEvent::Block(b) ==> {
                &&& b.channels <= 255
                &&& b.bits_per_sample <= FLAC_MAX_BITS
                &&& b.duration <= b.samples@.len()
                &&& b.channels == 2 ==> 2 * b.duration <= b.samples@.len()
            },
        ensures
            final(self).sound(),
            final(self).sample_rate == old(self).sample_rate,
            old(self).done ==> !more && *final(self) == *old(self),
            !old(self).done ==> match e {
                BlockEvent::Block(b) => {
                    &&& more == (b.duration > 0)
                    &&& final(self).buffer@ == b.samples@
                    &&& final(self).block_size == b.duration
                    &&& final(self).channels == b.channels
                    &&& final(self).shift == b.bits_per_sample - 16
                    &&& final(self).pos == 0
                    &&& final(self).done == (b.duration == 0)
                    &&& final(self).had_error == old(self).had_error
                },
                BlockEvent::End => {
                    &&& !more
                    &&& *final(self) == (FlacDecoder { done: true, ..*old(self) })
                },
                BlockEvent::Failed => {
                    &&& !more
                    &&& *final(self) == (FlacDecoder { done: true, had_error: true, ..*old(self) })
                },
            },
    {
        if self.done {
            return false;
        }
        match e {
            BlockEvent::Block(b) => {
                self.block_size = b.duration as usize;
                self.channels = b.channels as u8;
                self.shift = b.bits_per_sample as i32 - 16;
                self.pos = 0;
                self.buffer = b.samples;
                if self.block_size == 0 {
                    self.done = true;
                    false
                } else {
                    true
                }
            },
            BlockEvent::End => {
                self.done = true;
                false
            },
            BlockEvent::Failed => {
                self.had_error = true;
                self.done = true;
                false
            },
        }
    }

    /// Emit samples of the current block into `out` from index `start` on, as
    /// interleaved L, R pairs, until either runs out. Returns the new end of
    /// the samples in `out`.
    pub fn emit(&mut self, out: &mut [i16], start: usize) -> (end: usize)
        requires
            old(self).sound(),
            start <= old(out)@.len(),
        ensures
            final(self).sound(),
            final(out)@.len() == old(out)@.len(),
            ({
                let room = (old(out)@.len() - start) / 2;
                let held = old(self).block_size - old(self).pos;
                let k = if room < held {
                    room
                } else {
                    held as int
                };
                &&& end == start + 2 * k
                &&& *final(self) == (FlacDecoder {
                    pos: (old(self).pos + k) as usize,
                    ..*old(self)
                })
                &&& forall|i: int|
                    0 <= i < k ==> #[trigger] final(out)@[start + 2 * i] == old(self).left(
                        old(self).pos + i,
                    )
                &&& forall|i: int|
                    0 <= i < k ==> #[trigger] final(out)@[start + 2 * i + 1] == old(self).right(
                        old(self).pos + i,
                    )
                &&& forall|i: int| 0 <= i < start ==> #[trigger] final(out)@[i] == old(out)@[i]
                &&& forall|i: int|
                    end <= i < old(out)@.len() ==> #[trigger] final(out)@[i] == old(out)@[i]
            }),
            // A block of one channel goes to both ears.
            old(self).channels == 1 ==> forall|i: int|
                0 <= i < (end - start) / 2 ==> {
                    &&& #[trigger] final(out)@[start + 2 * i] == rescaled(
                        old(self).buffer@[old(self).pos + i],
                        old(self).shift,
                    )
                    &&& final(out)@[start + 2 * i + 1] == final(out)@[start + 2 * i]
                },
            // Of a block of two, the first channel goes left and the second right.
            old(self).channels == 2 ==> forall|i: int|
                0 <= i < (end - start) / 2 ==> {
                    &&& #[trigger] final(out)@[start + 2 * i] == rescaled(
                        old(self).buffer@[old(self).pos + i],
                        old(self).shift,
                    )
                    &&& final(out)@[start + 2 * i + 1] == rescaled(
                        old(self).buffer@[old(self).block_size + old(self).pos + i],
                        old(self).shift,
                    )
                },
    {
        let ghost pos0 = self.pos as int;
        let ghost o0 = out@;
        let mut count: usize = start;
        let ghost mut k: int = 0;
        while out.len() >= 1 && count < out.len() - 1 && self.pos < self.block_size
            invariant
                self.sound(),
                old(self).sound(),
                *self == (FlacDecoder { pos: self.pos, ..*old(self) }),
                pos0 == old(self).pos,
                self.pos == pos0 + k,
                0 <= k,
                out@.len() == o0.len(),
                count == start + 2 * k,
                count <= out@.len(),
                old(self).channels == 1 ==> forall|i: int|
                    0 <= i < k ==> out@[start + 2 * i + 1] == #[trigger] out@[start + 2 * i],
                forall|i: int|
                    0 <= i < k ==> #[trigger] out@[start + 2 * i] == old(self).left(pos0 + i),
                forall|i: int|
                    0 <= i < k ==> #[trigger] out@[start + 2 * i + 1] == old(self).right(pos0 + i),
                forall|i: int| 0 <= i < start ==> #[trigger] out@[i] == o0[i],
                forall|i: int| count <= i < o0.len() ==> #[trigger] out@[i] == o0[i],
            decreases self.block_size - self.pos,
        {
            let l: i16 = rescale(self.buffer[self.pos], self.shift);
            let r: i16 = if self.channels == 2 {
                rescale(self.buffer[self.block_size + self.pos], self.shift)
            } else {
                l
            };
            self.pos = self.pos + 1;
            out[count] = l;
            out[count + 1] = r;
            count = count + 2;
            proof {
                k = k + 1;
            }
        }
        count
    }

    /// True if a block failed to decode, or the source reports a fault.
    pub fn had_error(&self, source_fault: bool) -> (r: bool)
        ensures
            r == (self.had_error || source_fault),
    {
        self.had_error || source_fault
    }
}

/// Both ears get something of every block: a block of one channel gives the same
/// sample to both, its own; a block of two gives each ear its own channel. The
/// samples are those of the block as it was handed over, in their order.
pub proof fn ears_get_their_channels(d: FlacDecoder, b: FlacBlock, i: int)
    requires
        d.buffer@ == b.samples@,
        d.block_size == b.duration,
        d.channels == b.channels,
        d.shift == b.bits_per_sample - 16,
        0 <= i < b.duration,
    ensures
        b.channels == 1 ==> d.left(i) == d.right(i),
        b.channels == 1 ==> d.left(i) == rescaled(b.samples@[i], (b.bits_per_sample - 16) as i32),
        b.channels == 2 ==> d.left(i) == rescaled(b.samples@[i], (b.bits_per_sample - 16) as i32),
        b.channels == 2 ==> d.right(i) == rescaled(
            b.samples@[b.duration + i],
            (b.bits_per_sample - 16) as i32,
        ),
{
}

/// Bytes below which a stream can be decoded as a whole: that many zero bytes
/// hold more zero bits than a `u32` counts.
pub const STREAM_LIMIT: usize = 0x2000_0000;

/// A stream decoded as a whole: its sample rate, channel count, bits per sample
/// and interleaved samples; `None` for a stream that is not valid FLAC.
pub uninterp spec fn flac_stream(data: Seq<u8>) -> Option<(u32, u32, u32, Seq<i32>)>;

/// Decode a whole FLAC stream with `claxon::FlacReader::new`, `streaminfo` and
/// `samples`. The result is the one that [`flac_stream`] names: it depends on
/// the bytes alone. An error at any sample makes it `None`. Of the format it is
/// claimed that a sample has 1 to 32 bits (the header stores that number less
/// one in five bits). The reader counts a run of zero bits in a `u32`, which a
/// shorter stream than [`STREAM_LIMIT`] cannot overflow.
#[verifier::external_body]
fn decode_stream(data: &[u8]) -> (r: Option<(u32, u32, u32, Vec<i32>)>)
    requires
        data@.len() < STREAM_LIMIT,
    ensures
        match r {
            Some((rate, channels, bits, samples)) => {
                &&& flac_stream(data@) == Some((rate, channels, bits, samples@))
                &&& 1 <= bits <= 32
            },
            None => flac_stream(data@) is None,
        },
{
    let mut reader = claxon::FlacReader::new(data).ok()?;
    let info = reader.streaminfo();
    let samples: Vec<i32> = reader.samples().collect::<claxon::Result<Vec<i32>>>().ok()?;
    Some((info.sample_rate, info.channels, info.bits_per_sample, samples))
}

/// All of `samples` rescaled from `bits` bits to 16.
pub open spec fn all_rescaled(samples: Seq<i32>, bits: u32) -> Seq<i16> {
    Seq::new(samples.len(), |i: int| rescaled(samples[i], (bits - 16) as i32))
}

/// Rescale samples of `bits` bits to 16 bits.
pub fn rescale_all(samples: &[i32], bits: u32) -> (r: Vec<i16>)
    requires
        bits <= FLAC_MAX_BITS,
    ensures
        r@ == all_rescaled(samples@, bits),
{
    let shift: i32 = bits as i32 - 16;
    let mut r: Vec<i16> = Vec::new();
    let mut i: usize = 0;
    while i < samples.len()
        invariant
            i <= samples@.len(),
            bits <= FLAC_MAX_BITS,
            shift == bits - 16,
            r@ == all_rescaled(samples@.take(i as int), bits),
        decreases samples@.len() - i,
    {
        r.push(rescale(samples[i], shift));
        i = i + 1;
        assert(r@ =~= all_rescaled(samples@.take(i as int), bits));
    }
    assert(samples@.take(i as int) =~= samples@);
    r
}

/// Rescaling goes sample by sample: none is lost, added or moved.
pub proof fn rescaling_goes_sample_by_sample(a: Seq<i32>, b: Seq<i32>, bits: u32)
    ensures
        all_rescaled(a + b, bits) == all_rescaled(a, bits) + all_rescaled(b, bits),
        all_rescaled(a, bits).len() == a.len(),
        forall|v: i32|
            #[trigger] all_rescaled(seq![v], bits) == seq![rescaled(v, (bits - 16) as i32)],
{
    assert(all_rescaled(a + b, bits) =~= all_rescaled(a, bits) + all_rescaled(b, bits));
    assert forall|v: i32|
        #[trigger] all_rescaled(seq![v], bits) == seq![rescaled(v, (bits - 16) as i32)] by {
        assert(all_rescaled(seq![v], bits) =~= seq![rescaled(v, (bits - 16) as i32)]);
    }
}

/// A stream decoded to 16-bit samples.
pub struct FlacPcm {
    pub sample_rate: u32,
    pub channels: u32,
    pub bits_per_sample: u32,
    pub samples: Vec<i16>,
}

/// Decode a whole FLAC file to interleaved 16-bit samples; `None` when it is
/// not valid FLAC.
pub fn decode_flac_reference(data: &[u8]) -> (r: Option<FlacPcm>)
    requires
        data@.len() < STREAM_LIMIT,
    ensures
        match flac_stream(data@) {
            Some((rate, channels, bits, samples)) => r matches Some(p) && {
                &&& p.sample_rate == rate
                &&& p.channels == channels
                &&& p.bits_per_sample == bits
                &&& p.samples@ == all_rescaled(samples, bits)
            },
            None => r is None,
        },
{
    match decode_stream(data) {
        None => None,
        Some((sample_rate, channels, bits_per_sample, samples)) => Some(
            FlacPcm {
                sample_rate,
                channels,
                bits_per_sample,
                samples: rescale_all(samples.as_slice(), bits_per_sample),
            },
        ),
    }
}

} // verus!
