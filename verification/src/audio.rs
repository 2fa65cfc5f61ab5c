//! Streaming audio: byte sources, the WAV decoder, and the names by which the
//! other formats are told apart.

use crate::text::{self, same, to_lower};
use vstd::prelude::*;
use vstd::slice::slice_subrange;

verus! {

/// Errors returned while parsing a stream header.
#[derive(Copy, Clone, Debug, PartialEq, Eq, Structural)]
pub enum DecodeError {
    /// The stream ended before the full header could be read.
    Truncated,
    /// A required magic field (RIFF/WAVE/fmt/data) did not match.
    BadMagic,
    /// The stream is not PCM or not 16-bit, or has an unsupported channel
    /// count (only mono and stereo are accepted).
    Unsupported,
}

/// A string of bytes in the abstract.
pub type Bytes = Seq<u8>;

/// A source of raw bytes, pulled on demand.
pub trait ByteSource {
    /// The bytes that the source still delivers before it reports the end.
    spec fn stream(&self) -> Bytes;

    /// Whether a read has failed, as opposed to reaching the end.
    spec fn faulted(&self) -> bool;

    /// Read up to `out.len()` bytes into `out`. Returns the number of bytes
    /// read; 0 signals the end.
    fn read(&mut self, out: &mut [u8]) -> (n: usize)
        ensures
            final(out)@.len() == old(out)@.len(),
            n <= old(out)@.len(),
            n <= old(self).stream().len(),
            final(out)@.take(n as int) == old(self).stream().take(n as int),
            final(self).stream() == old(self).stream().skip(n as int),
            n == 0 && old(out)@.len() > 0 ==> old(self).stream().len() == 0,
    ;

    /// True if a read ever failed with an I/O error (as opposed to a clean
    /// end).
    fn had_error(&self) -> (r: bool)
        ensures
            r == self.faulted(),
    ;
}

/// A streaming PCM decoder that yields interleaved L/R samples.
pub trait Decoder {
    /// The decoder's state is sound.
    open spec fn wf(&self) -> bool {
        true
    }

    /// The sample rate of the stream.
    spec fn rate(&self) -> u32;

    /// The channel count of the source stream.
    spec fn channel_count(&self) -> u8;

    /// Whether a read of the source has failed.
    spec fn failed(&self) -> bool;

    /// Whether no sample is left.
    spec fn exhausted(&self) -> bool;

    /// Sample rate of the decoded stream, in Hz.
    fn sample_rate(&self) -> (r: u32)
        ensures
            r == self.rate(),
    ;

    /// Channel count of the source stream (1 = mono, 2 = stereo).
    fn channels(&self) -> (r: u8)
        ensures
            r == self.channel_count(),
    ;

    /// Fill `out` with the next samples as interleaved L, R pairs (a mono
    /// source is duplicated to both channels). Returns the number of samples
    /// written, always even; 0 means the stream is exhausted.
    fn next_pcm(&mut self, out: &mut [i16]) -> (n: usize)
        requires
            old(self).wf(),
        ensures
            final(self).wf(),
            final(out)@.len() == old(out)@.len(),
            n <= old(out)@.len(),
            n % 2 == 0,
            old(out)@.len() >= 2 ==> (n == 0) == old(self).exhausted(),
            old(self).exhausted() ==> n == 0 && final(self).exhausted(),
            final(self).rate() == old(self).rate(),
    ;

    /// True if the underlying source hit an I/O error.
    fn had_error(&self) -> (r: bool)
        ensures
            r == self.failed(),
    ;
}

/// A byte source over bytes in memory. `chunk` caps each read (0: no cap), as a
/// block device that returns short reads does.
pub struct SliceSource {
    pub data: Vec<u8>,
    pub pos: usize,
    pub chunk: usize,
}

impl ByteSource for SliceSource {
    open spec fn stream(&self) -> Seq<u8> {
        if self.pos <= self.data@.len() {
            self.data@.skip(self.pos as int)
        } else {
            Seq::empty()
        }
    }

    open spec fn faulted(&self) -> bool {
        false
    }

    fn read(&mut self, out: &mut [u8]) -> (n: usize) {
        let ghost stream = self.stream();
        let left: usize = if self.pos <= self.data.len() {
            self.data.len() - self.pos
        } else {
            0
        };
        let mut n: usize = if left < out.len() {
            left
        } else {
            out.len()
        };
        if self.chunk > 0 && self.chunk < n {
            n = self.chunk;
        }
        let mut i: usize = 0;
        while i < n
            invariant
                i <= n <= left,
                n <= out@.len(),
                out@.len() == old(out)@.len(),
                *self == *old(self),
                stream == self.stream(),
                left == stream.len(),
                self.pos + left == self.data.len() || left == 0,
                forall|k: int| 0 <= k < i ==> out@[k] == stream[k],
            decreases n - i,
        {
            out[i] = self.data[self.pos + i];
            i = i + 1;
        }
        if n > 0 {
            self.pos = self.pos + n;
        }
        assert(out@.take(n as int) =~= stream.take(n as int));
        assert(self.stream() =~= stream.skip(n as int));
        n
    }

    fn had_error(&self) -> (r: bool) {
        false
    }
}

/// Read exactly `out.len()` bytes from `src`, however many reads that takes.
/// Returns true only if every byte was read.
pub fn read_exact<S: ByteSource>(src: &mut S, out: &mut [u8]) -> (ok: bool)
    ensures
        final(out)@.len() == old(out)@.len(),
        ok == (old(src).stream().len() >= old(out)@.len()),
        ok ==> final(out)@ == old(src).stream().take(old(out)@.len() as int) && final(src).stream()
            == old(src).stream().skip(old(out)@.len() as int),
        !ok ==> final(src).stream().len() == 0,
{
    let ghost all = src.stream();
    let size: usize = out.len();
    let mut filled: usize = 0;
    while filled < size
        invariant
            filled <= size,
            size == old(out)@.len(),
            out@.len() == size,
            all == old(src).stream(),
            filled <= all.len(),
            src.stream() == all.skip(filled as int),
            out@.take(filled as int) == all.take(filled as int),
        decreases size - filled,
    {
        let ghost head = out@.take(filled as int);
        let (_done, rest) = out.split_at_mut(filled);
        let n: usize = src.read(rest);
        if n == 0 {
            return false;
        }
        assert(out@.take(filled + n) =~= head + rest@.take(n as int));
        filled = filled + n;
        assert(out@.take(filled as int) =~= all.take(filled as int));
        assert(src.stream() =~= all.skip(filled as int));
    }
    assert(out@.take(size as int) =~= out@);
    true
}

/// Little-endian 16-bit value at `i`.
pub open spec fn le16(s: Seq<u8>, i: int) -> u16 {
    (s[i] + 0x100 * s[i + 1]) as u16
}

/// Little-endian 32-bit value at `i`.
pub open spec fn le32(s: Seq<u8>, i: int) -> u32 {
    (s[i] + 0x100 * s[i + 1] + 0x1_0000 * s[i + 2] + 0x100_0000 * s[i + 3]) as u32
}

/// Little-endian 16-bit value of the first two bytes.
pub fn le_u16(b: &[u8]) -> (r: u16)
    requires
        b@.len() >= 2,
    ensures
        r == le16(b@, 0),
{
    b[0] as u16 + 0x100 * (b[1] as u16)
}

/// Little-endian 32-bit value of the first four bytes.
pub fn le_u32(b: &[u8]) -> (r: u32)
    requires
        b@.len() >= 4,
    ensures
        r == le32(b@, 0),
{
    b[0] as u32 + 0x100 * (b[1] as u32) + 0x1_0000 * (b[2] as u32) + 0x100_0000 * (b[3] as u32)
}

/// The signed sample whose little-endian bytes are `lo` and `hi`.
pub open spec fn sample16(lo: u8, hi: u8) -> i16 {
    let v = lo + 0x100 * hi;
    (if v < 0x8000 {
        v
    } else {
        v - 0x1_0000
    }) as i16
}

/// The signed sample whose little-endian bytes are `lo` and `hi`.
pub fn make_sample(lo: u8, hi: u8) -> (r: i16)
    ensures
        r == sample16(lo, hi),
{
    let v: i32 = lo as i32 + 0x100 * (hi as i32);
    if v < 0x8000 {
        v as i16
    } else {
        (v - 0x1_0000) as i16
    }
}

/// A sample is its two bytes' number, the low byte first, in two's complement:
/// the two differ by a multiple of 2^16, and the sample's sign is its top bit.
pub proof fn samples_are_little_endian(lo: u8, hi: u8)
    ensures
        (sample16(lo, hi) - (lo + 256 * hi)) % 0x1_0000 == 0,
        sample16(lo, hi) < 0 <==> hi >= 128,
        sample16(lo, 0) == lo,
        hi < 255 ==> sample16(lo, (hi + 1) as u8) == sample16(lo, hi) + 256 || hi == 127,
{
}

/// A 16-bit number is one of two bytes, a 32-bit number one of two 16-bit ones,
/// the low part first.
pub proof fn numbers_are_little_endian(s: Seq<u8>, i: int)
    requires
        0 <= i,
        i + 4 <= s.len(),
    ensures
        le16(s, i) % 256 == s[i],
        le16(s, i) / 256 == s[i + 1],
        le32(s, i) % 0x1_0000 == le16(s, i),
        le32(s, i) / 0x1_0000 == le16(s, i + 2),
{
    let (a, b, c, d) = (s[i] as int, s[i + 1] as int, s[i + 2] as int, s[i + 3] as int);
    assert(le32(s, i) == a + 0x100 * b + 0x1_0000 * (c + 0x100 * d));
}

/// What is wrong with the 44-byte header at the front of `s`, if anything.
pub open spec fn wav_fault(s: Seq<u8>) -> Option<DecodeError> {
    if s.len() < 44 {
        Some(DecodeError::Truncated)
    } else if s.subrange(0, 4) != text::lit("RIFF") || s.subrange(8, 12) != text::lit("WAVE")
        || s.subrange(12, 16) != text::lit("fmt ") {
        Some(DecodeError::BadMagic)
    } else if le16(s, 20) != 1 || le16(s, 34) != 16 || !(le16(s, 22) == 1 || le16(s, 22) == 2) {
        Some(DecodeError::Unsupported)
    } else if s.subrange(36, 40) != text::lit("data") {
        Some(DecodeError::BadMagic)
    } else {
        None
    }
}

/// Size of the decoder's read buffer: one SD block.
pub const READ_BUF_LEN: usize = 512;

/// Streaming decoder for a canonical 44-byte PCM WAV: RIFF/WAVE, one `fmt `
/// chunk of 16 bytes, PCM tag 1, 16-bit, mono or stereo, followed immediately
/// by the `data` chunk.
pub struct WavDecoder<S: ByteSource> {
    pub src: S,
    pub sample_rate: u32,
    pub channels: u8,
    /// Bytes of PCM data still to consume.
    pub data_remaining: u32,
    /// The most recent chunk pulled from `src`.
    pub buf: [u8; READ_BUF_LEN],
    /// Number of valid bytes in `buf`.
    pub buf_len: usize,
    /// Read cursor into the valid bytes of `buf`.
    pub buf_pos: usize,
}

/// Bytes of one frame (all channels of one sample).
pub open spec fn frame_size(channels: u8) -> int {
    if channels == 2 {
        4
    } else {
        2
    }
}

/// How many frames a decode into `room` pairs yields: as many as fit, as the
/// data chunk still announces, and as the stream still holds.
pub open spec fn frames_ready(channels: u8, room: int, remaining: u32, pending: Seq<u8>) -> int {
    let announced = remaining as int / frame_size(channels);
    let held = pending.len() as int / frame_size(channels);
    let a = if room < announced {
        room
    } else {
        announced
    };
    if a < held {
        a
    } else {
        held
    }
}

/// The left sample of frame `k`.
pub open spec fn left_of(channels: u8, pending: Seq<u8>, k: int) -> i16 {
    sample16(pending[frame_size(channels) * k], pending[frame_size(channels) * k + 1])
}

/// The right sample of frame `k`: that of the second channel, or a mono
/// source's only one.
pub open spec fn right_of(channels: u8, pending: Seq<u8>, k: int) -> i16 {
    if channels == 2 {
        sample16(pending[4 * k + 2], pending[4 * k + 3])
    } else {
        left_of(channels, pending, k)
    }
}

/// What is left of the stream after `k` frames, when the decode stopped for
/// want of room or of announced data (`!dry`), or for want of bytes (`dry`: the
/// incomplete frame is gone too).
pub open spec fn rest_after(channels: u8, pending: Seq<u8>, k: int, dry: bool) -> Seq<u8> {
    if dry {
        Seq::empty()
    } else {
        pending.skip(frame_size(channels) * k)
    }
}

impl<S: ByteSource> WavDecoder<S> {
    /// The read buffer is consistent and the channel count supported.
    pub open spec fn sound(&self) -> bool {
        &&& self.buf_pos <= self.buf_len <= READ_BUF_LEN
        &&& self.channels == 1 || self.channels == 2
    }

    /// The bytes still to be decoded: those buffered, then the source's.
    pub open spec fn pending(&self) -> Seq<u8> {
        self.buf@.subrange(self.buf_pos as int, self.buf_len as int) + self.src.stream()
    }

    /// Parse the 44-byte header off `src` and capture the format. Returns an
    /// error for a truncated header, a bad magic field, or an unsupported
    /// format.
    pub fn new(src: S) -> (r: Result<Self, DecodeError>)
        ensures
            match r {
                Ok(d) => {
                    &&& wav_fault(src.stream()) is None
                    &&& d.sound()
                    &&& d.src.stream() == src.stream().skip(44)
                    &&& d.pending() == src.stream().skip(44)
                    &&& d.channels == le16(src.stream(), 22)
                    &&& d.sample_rate == le32(src.stream(), 24)
                    &&& d.data_remaining == le32(src.stream(), 40)
                },
                Err(e) => wav_fault(src.stream()) == Some(e),
            },
    {
        let ghost s = src.stream();
        let mut src = src;
        let mut hdr: [u8; 44] = [0;44];
        if !read_exact(&mut src, &mut hdr) {
            return Err(DecodeError::Truncated);
        }
        assert(hdr@ == s.take(44));
        let h: &[u8] = &hdr;
        assert(h@.subrange(0, 4) =~= s.subrange(0, 4));
        assert(h@.subrange(8, 12) =~= s.subrange(8, 12));
        assert(h@.subrange(12, 16) =~= s.subrange(12, 16));
        assert(h@.subrange(36, 40) =~= s.subrange(36, 40));
        if !same(slice_subrange(h, 0, 4), "RIFF".as_bytes()) || !same(
            slice_subrange(h, 8, 12),
            "WAVE".as_bytes(),
        ) || !same(slice_subrange(h, 12, 16), "fmt ".as_bytes()) {
            return Err(DecodeError::BadMagic);
        }
        let fmt_tag: u16 = le_u16(slice_subrange(h, 20, 22));
        let channels: u16 = le_u16(slice_subrange(h, 22, 24));
        let sample_rate: u32 = le_u32(slice_subrange(h, 24, 28));
        let bits: u16 = le_u16(slice_subrange(h, 34, 36));
        if fmt_tag != 1 || bits != 16 || !(channels == 1 || channels == 2) {
            return Err(DecodeError::Unsupported);
        }
        if !same(slice_subrange(h, 36, 40), "data".as_bytes()) {
            return Err(DecodeError::BadMagic);
        }
        let data_remaining: u32 = le_u32(slice_subrange(h, 40, 44));
        let d = WavDecoder {
            src,
            sample_rate,
            channels: channels as u8,
            data_remaining,
            buf: [0;READ_BUF_LEN],
            buf_len: 0,
            buf_pos: 0,
        };
        assert(d.pending() =~= s.skip(44));
        Ok(d)
    }

    /// The next raw byte of the stream, refilling the buffer when it is
    /// drained; `None` at the end.
    pub fn next_byte(&mut self) -> (r: Option<u8>)
        requires
            old(self).sound(),
        ensures
            final(self).sound(),
            final(self).channels == old(self).channels,
            final(self).sample_rate == old(self).sample_rate,
            final(self).data_remaining == old(self).data_remaining,
            old(self).pending().len() == 0 ==> r is None && final(self).pending().len() == 0,
            old(self).pending().len() > 0 ==> r == Some(old(self).pending()[0])
                && final(self).pending() == old(self).pending().skip(1),
    {
        let ghost before = self.pending();
        if self.buf_pos == self.buf_len {
            assert(before =~= self.src.stream());
            self.buf_len = self.src.read(&mut self.buf);
            self.buf_pos = 0;
            if self.buf_len == 0 {
                assert(self.pending().len() == 0);
                return None;
            }
            assert(self.buf@.take(self.buf_len as int) =~= before.take(self.buf_len as int));
            assert(self.pending() =~= before);
        }
        let b: u8 = self.buf[self.buf_pos];
        assert(b == self.pending()[0]);
        self.buf_pos = self.buf_pos + 1;
        assert(self.pending() =~= before.skip(1));
        Some(b)
    }

    /// The next little-endian sample; `None` if the stream ends before or
    /// inside it.
    pub fn next_i16(&mut self) -> (r: Option<i16>)
        requires
            old(self).sound(),
        ensures
            final(self).sound(),
            final(self).channels == old(self).channels,
            final(self).sample_rate == old(self).sample_rate,
            final(self).data_remaining == old(self).data_remaining,
            old(self).pending().len() < 2 ==> r is None && final(self).pending().len() == 0,
            old(self).pending().len() >= 2 ==> r == Some(
                sample16(old(self).pending()[0], old(self).pending()[1]),
            ) && final(self).pending() == old(self).pending().skip(2),
    {
        let ghost before = self.pending();
        let lo: u8 = match self.next_byte() {
            Some(b) => b,
            None => return None,
        };
        let hi: u8 = match self.next_byte() {
            Some(b) => b,
            None => return None,
        };
        assert(before.skip(1).skip(1) =~= before.skip(2));
        Some(make_sample(lo, hi))
    }

    fn next_frame(&mut self) -> (r: Option<(i16, i16)>)
        requires
            old(self).sound(),
        ensures
            final(self).sound(),
            final(self).channels == old(self).channels,
            final(self).sample_rate == old(self).sample_rate,
            final(self).data_remaining == old(self).data_remaining,
            old(self).pending().len() < frame_size(old(self).channels) ==> r is None
                && final(self).pending().len() == 0,
            old(self).pending().len() >= frame_size(old(self).channels) ==> r == Some(
                (
                    left_of(old(self).channels, old(self).pending(), 0),
                    right_of(old(self).channels, old(self).pending(), 0),
                ),
            ) && final(self).pending() == old(self).pending().skip(frame_size(old(self).channels)),
    {
        let ghost before = self.pending();
        if self.channels == 2 {
            let l = self.next_i16();
            let r = self.next_i16();
            assert(before.len() >= 4 ==> before.skip(2).skip(2) =~= before.skip(4));
            match (l, r) {
                (Some(l), Some(r)) => Some((l, r)),
                _ => None,
            }
        } else {
            match self.next_i16() {
                Some(s) => Some((s, s)),
                None => None,
            }
        }
    }

    /// Fill `out` with the next samples mixed down to mono: a stereo frame is
    /// averaged, rounding towards zero. Returns the number of samples written.
    pub fn next_mono(&mut self, out: &mut [i16]) -> (n: usize)
        requires
            old(self).sound(),
        ensures
            final(self).sound(),
            final(self).channels == old(self).channels,
            final(self).sample_rate == old(self).sample_rate,
            final(out)@.len() == old(out)@.len(),
            ({
                let ch = old(self).channels;
                let p = old(self).pending();
                let k = frames_ready(ch, old(out)@.len() as int, old(self).data_remaining, p);
                &&& n == k
                &&& forall|i: int|
                    0 <= i < k ==> #[trigger] final(out)@[i] == mono_mix(
                        left_of(ch, p, i),
                        right_of(ch, p, i),
                    )
                &&& forall|i: int|
                    k <= i < old(out)@.len() ==> #[trigger] final(out)@[i] == old(out)@[i]
                &&& final(self).data_remaining == old(self).data_remaining - frame_size(ch) * k
                &&& final(self).pending() == rest_after(
                    ch,
                    p,
                    k,
                    k < old(out)@.len() && final(self).data_remaining >= frame_size(ch),
                )
            }),
    {
        let ghost p = self.pending();
        let ghost ch = self.channels;
        let ghost fb = frame_size(ch);
        let ghost r0 = self.data_remaining;
        let ghost o0 = out@;
        let frame_bytes: u32 = 2 * self.channels as u32;
        let mut count: usize = 0;
        let ghost mut used: int = 0;
        assert(p.skip(0) =~= p);
        while count < out.len() && self.data_remaining >= frame_bytes
            invariant_except_break
                self.pending() == p.skip(used),
            invariant
                self.sound(),
                self.channels == ch,
                self.sample_rate == old(self).sample_rate,
                fb == frame_size(ch),
                frame_bytes == fb,
                out@.len() == o0.len(),
                count <= out@.len(),
                used == if ch == 2 {
                    4 * count
                } else {
                    2 * count
                },
                0 <= used <= p.len(),
                self.data_remaining == r0 - used,
                forall|i: int|
                    0 <= i < count ==> #[trigger] out@[i] == mono_mix(
                        left_of(ch, p, i),
                        right_of(ch, p, i),
                    ),
                forall|i: int| count <= i < o0.len() ==> #[trigger] out@[i] == o0[i],
            ensures
                ((count == out@.len() || self.data_remaining < frame_bytes) && self.pending() == p.skip(
                    used,
                )) || (count < out@.len() && self.data_remaining >= frame_bytes && p.len() - used < fb
                    && self.pending().len() == 0),
            decreases out@.len() - count,
        {
            let ghost before = self.pending();
            let (l, r): (i16, i16) = match self.next_frame() {
                Some(f) => f,
                None => break,
            };
            assert(left_of(ch, before, 0) == left_of(ch, p, count as int));
            assert(right_of(ch, before, 0) == right_of(ch, p, count as int));
            let sum: i32 = l as i32 + r as i32;
            let mixed: i32 = if self.channels != 2 {
                l as i32
            } else if sum < 0 {
                -((-sum) / 2)
            } else {
                sum / 2
            };
            out[count] = mixed as i16;
            count = count + 1;
            self.data_remaining = self.data_remaining - frame_bytes;
            proof {
                used = used + fb;
                assert(before.skip(fb) =~= p.skip(used));
            }
        }
        assert(self.data_remaining >= frame_bytes && count < out@.len() ==> self.pending()
            =~= Seq::empty());
        count
    }
}

/// The average of two samples, rounded towards zero.
pub open spec fn mono_mix(l: i16, r: i16) -> i16 {
    let sum = l + r;
    (if sum < 0 {
        -((-sum) / 2)
    } else {
        sum / 2
    }) as i16
}

impl<S: ByteSource> Decoder for WavDecoder<S> {
    open spec fn wf(&self) -> bool {
        self.sound()
    }

    open spec fn rate(&self) -> u32 {
        self.sample_rate
    }

    open spec fn channel_count(&self) -> u8 {
        self.channels
    }

    open spec fn failed(&self) -> bool {
        self.src.faulted()
    }

    open spec fn exhausted(&self) -> bool {
        frames_ready(self.channels, 1, self.data_remaining, self.pending()) == 0
    }

    fn sample_rate(&self) -> (r: u32) {
        self.sample_rate
    }

    fn channels(&self) -> (r: u8) {
        self.channels
    }

    fn had_error(&self) -> (r: bool) {
        self.src.had_error()
    }

    fn next_pcm(&mut self, out: &mut [i16]) -> (n: usize)
        ensures
            final(self).channels == old(self).channels,
            final(self).sample_rate == old(self).sample_rate,
            ({
                let ch = old(self).channels;
                let p = old(self).pending();
                let k = frames_ready(ch, old(out)@.len() as int / 2, old(self).data_remaining, p);
                &&& n == 2 * k
                &&& forall|i: int|
                    0 <= i < k ==> #[trigger] final(out)@[2 * i] == left_of(ch, p, i)
                &&& forall|i: int|
                    0 <= i < k ==> #[trigger] final(out)@[2 * i + 1] == right_of(ch, p, i)
                &&& forall|i: int|
                    2 * k <= i < old(out)@.len() ==> #[trigger] final(out)@[i] == old(out)@[i]
                &&& final(self).data_remaining == old(self).data_remaining - frame_size(ch) * k
                &&& final(self).pending() == rest_after(
                    ch,
                    p,
                    k,
                    k < old(out)@.len() as int / 2 && final(self).data_remaining >= frame_size(ch),
                )
            }),
    {
        let ghost p = self.pending();
        let ghost ch = self.channels;
        let ghost fb = frame_size(ch);
        let ghost r0 = self.data_remaining;
        let ghost o0 = out@;
        let frame_bytes: u32 = 2 * self.channels as u32;
        let mut count: usize = 0;
        let ghost mut k: int = 0;
        let ghost mut used: int = 0;
        assert(p.skip(0) =~= p);
        while out.len() >= 1 && count < out.len() - 1 && self.data_remaining >= frame_bytes
            invariant_except_break
                self.pending() == p.skip(used),
            invariant
                self.sound(),
                self.channels == ch,
                self.sample_rate == old(self).sample_rate,
                fb == frame_size(ch),
                frame_bytes == fb,
                out@.len() == o0.len(),
                count == 2 * k,
                0 <= k,
                count <= out@.len(),
                used == if ch == 2 {
                    4 * k
                } else {
                    2 * k
                },
                0 <= used <= p.len(),
                self.data_remaining == r0 - used,
                forall|i: int| 0 <= i < k ==> #[trigger] out@[2 * i] == left_of(ch, p, i),
                forall|i: int| 0 <= i < k ==> #[trigger] out@[2 * i + 1] == right_of(ch, p, i),
                forall|i: int| 2 * k <= i < o0.len() ==> #[trigger] out@[i] == o0[i],
            ensures
                ((count + 1 >= out@.len() || self.data_remaining < frame_bytes) && self.pending() == p.skip(
                    used,
                )) || (count + 1 < out@.len() && self.data_remaining >= frame_bytes && p.len() - used < fb
                    && self.pending().len() == 0),
            decreases out@.len() - count,
        {
            let ghost before = self.pending();
            let (l, r): (i16, i16) = match self.next_frame() {
                Some(f) => f,
                None => break,
            };
            assert(left_of(ch, before, 0) == left_of(ch, p, k));
            assert(right_of(ch, before, 0) == right_of(ch, p, k));
            out[count] = l;
            out[count + 1] = r;
            count = count + 2;
            self.data_remaining = self.data_remaining - frame_bytes;
            proof {
                k = k + 1;
                used = used + fb;
                assert(before.skip(fb) =~= p.skip(used));
            }
        }
        assert(self.data_remaining >= frame_bytes && count + 1 < out@.len() ==> self.pending()
            =~= Seq::empty());
        count
    }
}

/// A mono source goes to both ears; of a stereo source the even samples go left
/// and the odd ones right.
pub proof fn wav_ears_get_their_channels(p: Seq<u8>, k: int)
    ensures
        right_of(1, p, k) == left_of(1, p, k),
        left_of(2, p, k) == left_of(1, p, 2 * k),
        right_of(2, p, k) == left_of(1, p, 2 * k + 1),
        left_of(1, p, k) == sample16(p[2 * k], p[2 * k + 1]),
{
}

/// The mix of two samples is their average, rounded towards zero: between the
/// two, off by at most a half, the same whichever comes first, and as far from
/// zero when both change their sign.
pub proof fn mono_is_the_average(l: i16, r: i16)
    requires
        l > -0x8000,
        r > -0x8000,
    ensures
        -1 <= 2 * mono_mix(l, r) - (l + r) <= 1,
        mono_mix(l, r) == mono_mix(r, l),
        mono_mix((-l) as i16, (-r) as i16) == -mono_mix(l, r),
        mono_mix(l, l) == l,
        l + r >= 0 ==> 2 * mono_mix(l, r) <= l + r,
{
}

/// The canonical header of a PCM file, up to its data.
pub open spec fn wav_header(channels: u8, rate: u32, riff: Seq<u8>, mid: Seq<u8>, len: u32) -> Seq<
    u8,
> {
    text::lit("RIFF") + riff + text::lit("WAVE") + text::lit("fmt ") + [16u8, 0, 0, 0, 1, 0]@ + [
        channels,
        0u8,
    ]@ + words_le(rate) + mid + [16u8, 0]@ + text::lit("data") + words_le(len)
}

/// The bytes of a number, low byte first.
pub open spec fn words_le(n: u32) -> Seq<u8> {
    [
        (n % 256) as u8,
        (n / 256 % 256) as u8,
        (n / 0x1_0000 % 256) as u8,
        (n / 0x100_0000) as u8,
    ]@
}

proof fn wav_names()
    ensures
        text::lit("RIFF") == [82u8, 73, 70, 70]@,
        text::lit("WAVE") == [87u8, 65, 86, 69]@,
        text::lit("fmt ") == [102u8, 109, 116, 32]@,
        text::lit("data") == [100u8, 97, 116, 97]@,
{
    reveal_strlit("RIFF");
    reveal_strlit("WAVE");
    reveal_strlit("fmt ");
    reveal_strlit("data");
    vstd::utf8::is_ascii_chars_encode_utf8("RIFF"@);
    vstd::utf8::is_ascii_chars_encode_utf8("WAVE"@);
    vstd::utf8::is_ascii_chars_encode_utf8("fmt "@);
    vstd::utf8::is_ascii_chars_encode_utf8("data"@);
    assert(text::lit("RIFF") =~= [82u8, 73, 70, 70]@);
    assert(text::lit("WAVE") =~= [87u8, 65, 86, 69]@);
    assert(text::lit("fmt ") =~= [102u8, 109, 116, 32]@);
    assert(text::lit("data") =~= [100u8, 97, 116, 97]@);
}

/// A file that begins with the canonical header is taken for a mono or stereo
/// one, and its rate, channels and length are those that the header was made
/// with, whatever stands in the fields that are not looked at.
pub proof fn wav_headers_are_understood(
    channels: u8,
    rate: u32,
    riff: Seq<u8>,
    mid: Seq<u8>,
    len: u32,
    data: Seq<u8>,
)
    requires
        riff.len() == 4,
        mid.len() == 6,
    ensures
        ({
            let s = wav_header(channels, rate, riff, mid, len) + data;
            &&& wav_fault(s) is None <==> channels == 1 || channels == 2
            &&& wav_fault(s) is Some ==> wav_fault(s) == Some(DecodeError::Unsupported)
            &&& le16(s, 22) == channels
            &&& le32(s, 24) == rate
            &&& le32(s, 40) == len
            &&& s.skip(44) == data
        }),
{
    wav_names();
    let s = wav_header(channels, rate, riff, mid, len) + data;
    assert(s.subrange(0, 4) =~= text::lit("RIFF"));
    assert(s.subrange(8, 12) =~= text::lit("WAVE"));
    assert(s.subrange(12, 16) =~= text::lit("fmt "));
    assert(s.subrange(36, 40) =~= text::lit("data"));
    assert(s[20] == 1 && s[21] == 0 && s[22] == channels && s[23] == 0);
    assert(s.subrange(24, 28) =~= words_le(rate));
    assert(s[24] == words_le(rate)[0] && s[25] == words_le(rate)[1] && s[26] == words_le(rate)[2]
        && s[27] == words_le(rate)[3]);
    assert(s[34] == 16 && s[35] == 0);
    assert(s[40] == words_le(len)[0] && s[41] == words_le(len)[1] && s[42] == words_le(len)[2]
        && s[43] == words_le(len)[3]);
    words_le_value(rate);
    words_le_value(len);
    assert(s.skip(44) =~= data);
}

proof fn words_le_value(n: u32)
    ensures
        words_le(n)[0] + 0x100 * words_le(n)[1] + 0x1_0000 * words_le(n)[2] + 0x100_0000
            * words_le(n)[3] == n,
{
}

/// Where a decode stops does not matter: decoding into `a` pairs and then into
/// `b` gives the frames that decoding into `a + b` at once gives.
pub proof fn decoding_resumes(ch: u8, a: int, b: int, remaining: u32, p: Seq<u8>)
    requires
        ch == 1 || ch == 2,
        0 <= a,
        0 <= b,
    ensures
        ({
            let k1 = frames_ready(ch, a, remaining, p);
            let left = (remaining - frame_size(ch) * k1) as u32;
            let rest = rest_after(ch, p, k1, k1 < a && left >= frame_size(ch));
            let k2 = frames_ready(ch, b, left, rest);
            &&& 0 <= frame_size(ch) * k1 <= remaining
            &&& k1 + k2 == frames_ready(ch, a + b, remaining, p)
            &&& forall|i: int|
                0 <= i < k2 ==> #[trigger] left_of(ch, rest, i) == left_of(ch, p, k1 + i)
            &&& forall|i: int|
                0 <= i < k2 ==> #[trigger] right_of(ch, rest, i) == right_of(ch, p, k1 + i)
        }),
{
    let k1 = frames_ready(ch, a, remaining, p);
    if ch == 2 {
        assert(frame_size(ch) == 4);
        assert(0 <= 4 * k1 <= remaining);
    } else {
        assert(frame_size(ch) == 2);
        assert(0 <= 2 * k1 <= remaining);
    }
    let left = (remaining - frame_size(ch) * k1) as u32;
    let rest = rest_after(ch, p, k1, k1 < a && left >= frame_size(ch));
    let k2 = frames_ready(ch, b, left, rest);
    assert forall|i: int| 0 <= i < k2 implies #[trigger] left_of(ch, rest, i) == left_of(
        ch,
        p,
        k1 + i,
    ) by {
        assert(rest == p.skip(frame_size(ch) * k1));
    }
    assert forall|i: int| 0 <= i < k2 implies #[trigger] right_of(ch, rest, i) == right_of(
        ch,
        p,
        k1 + i,
    ) by {
        assert(rest == p.skip(frame_size(ch) * k1));
        assert(left_of(ch, rest, i) == left_of(ch, p, k1 + i));
    }
}

/// The data chunk: the bytes that the header announces, as far as they are
/// there.
pub open spec fn data_chunk(announced: u32, p: Seq<u8>) -> Seq<u8> {
    if announced < p.len() {
        p.take(announced as int)
    } else {
        p
    }
}

/// The frames that a data chunk holds, each as a left and a right sample. Bytes
/// that fill no frame are left out.
pub open spec fn wav_frames(ch: u8, data: Seq<u8>) -> Seq<(i16, i16)> {
    Seq::new(
        (data.len() as int / frame_size(ch)) as nat,
        |k: int| (left_of(ch, data, k), right_of(ch, data, k)),
    )
}

/// Where a run of decodes stands: the frames that came out, and what is still
/// announced and still to be decoded.
#[verifier::ext_equal]
pub struct WavRun {
    pub frames: Seq<(i16, i16)>,
    pub remaining: u32,
    pub rest: Seq<u8>,
}

/// One more decode, into a buffer of `len` samples.
pub open spec fn wav_step(ch: u8, s: WavRun, len: nat) -> WavRun {
    let room = len as int / 2;
    let k = frames_ready(ch, room, s.remaining, s.rest);
    let left = (s.remaining - frame_size(ch) * k) as u32;
    WavRun {
        frames: s.frames + Seq::new(
            k as nat,
            |i: int| (left_of(ch, s.rest, i), right_of(ch, s.rest, i)),
        ),
        remaining: left,
        rest: rest_after(ch, s.rest, k, k < room && left >= frame_size(ch)),
    }
}

/// A run of decodes into buffers of these lengths.
pub open spec fn wav_run(ch: u8, lens: Seq<nat>, remaining: u32, p: Seq<u8>) -> WavRun
    decreases lens.len(),
{
    if lens.len() == 0 {
        WavRun { frames: Seq::empty(), remaining, rest: p }
    } else {
        wav_step(ch, wav_run(ch, lens.drop_last(), remaining, p), lens.last())
    }
}

/// Frames that buffers of these lengths have room for.
pub open spec fn wav_room(lens: Seq<nat>) -> int
    decreases lens.len(),
{
    if lens.len() == 0 {
        0
    } else {
        wav_room(lens.drop_last()) + lens.last() as int / 2
    }
}

proof fn step_takes_the_next_frames(ch: u8, s: WavRun, len: nat)
    requires
        ch == 1 || ch == 2,
    ensures
        ({
            let todo = wav_frames(ch, data_chunk(s.remaining, s.rest));
            let room = len as int / 2;
            let k = if room < todo.len() {
                room
            } else {
                todo.len() as int
            };
            let t = wav_step(ch, s, len);
            &&& t.frames == s.frames + todo.take(k)
            &&& wav_frames(ch, data_chunk(t.remaining, t.rest)) == todo.skip(k)
        }),
{
    let fb = frame_size(ch);
    let data = data_chunk(s.remaining, s.rest);
    let todo = wav_frames(ch, data);
    let room = len as int / 2;
    let k = frames_ready(ch, room, s.remaining, s.rest);
    let t = wav_step(ch, s, len);
    assert(k == if room < todo.len() {
        room
    } else {
        todo.len() as int
    });
    assert(0 <= fb * k <= data.len()) by {
        if ch == 2 {
            assert(0 <= 4 * k <= data.len());
        } else {
            assert(0 <= 2 * k <= data.len());
        }
    }
    assert forall|i: int| 0 <= i < todo.len() implies #[trigger] todo[i] == (
        left_of(ch, s.rest, i),
        right_of(ch, s.rest, i),
    ) by {
        assert(left_of(ch, data, i) == left_of(ch, s.rest, i));
    }
    assert(t.frames =~= s.frames + todo.take(k));
    let after = data_chunk(t.remaining, t.rest);
    if k < room && t.remaining >= fb {
        assert(todo.len() == k);
    } else {
        assert(after =~= data.skip(fb * k));
        assert forall|i: int| 0 <= i < todo.len() - k implies #[trigger] wav_frames(ch, after)[i]
            == todo[k + i] by {
            assert(left_of(ch, after, i) == left_of(ch, data, k + i));
        }
    }
    assert(wav_frames(ch, after) =~= todo.skip(k));
}

proof fn prefix_grows(all: Seq<(i16, i16)>, n: int, k: int)
    requires
        0 <= n <= all.len(),
        0 <= k <= all.len() - n,
    ensures
        all.take(n) + all.skip(n).take(k) == all.take(n + k),
        all.skip(n).skip(k) == all.skip(n + k),
{
    assert(all.take(n) + all.skip(n).take(k) =~= all.take(n + k));
    assert(all.skip(n).skip(k) =~= all.skip(n + k));
}

proof fn run_is_a_prefix(ch: u8, lens: Seq<nat>, remaining: u32, p: Seq<u8>)
    requires
        ch == 1 || ch == 2,
    ensures
        ({
            let all = wav_frames(ch, data_chunk(remaining, p));
            let r = wav_run(ch, lens, remaining, p);
            let n = r.frames.len() as int;
            &&& n == if wav_room(lens) < all.len() {
                wav_room(lens)
            } else {
                all.len() as int
            }
            &&& r.frames == all.take(n)
            &&& wav_frames(ch, data_chunk(r.remaining, r.rest)) == all.skip(n)
        }),
    decreases lens.len(),
{
    let all = wav_frames(ch, data_chunk(remaining, p));
    let r = wav_run(ch, lens, remaining, p);
    if lens.len() == 0 {
        assert(r.frames =~= all.take(0));
        assert(all.skip(0) =~= all);
    } else {
        run_is_a_prefix(ch, lens.drop_last(), remaining, p);
        let s = wav_run(ch, lens.drop_last(), remaining, p);
        step_takes_the_next_frames(ch, s, lens.last());
        let n = s.frames.len() as int;
        let room = lens.last() as int / 2;
        let k = if room < all.len() - n {
            room
        } else {
            all.len() - n
        };
        prefix_grows(all, n, k);
        assert(r.frames == all.take(n + k));
        assert(r.frames.len() == n + k);
    }
}

/// Decodes in turn give the frames of the data chunk from its first on, as many
/// as the buffers have room for.
pub proof fn runs_decode_the_data_in_order(ch: u8, lens: Seq<nat>, remaining: u32, p: Seq<u8>)
    requires
        ch == 1 || ch == 2,
    ensures
        ({
            let all = wav_frames(ch, data_chunk(remaining, p));
            wav_run(ch, lens, remaining, p).frames == all.take(
                if wav_room(lens) < all.len() {
                    wav_room(lens)
                } else {
                    all.len() as int
                },
            )
        }),
{
    run_is_a_prefix(ch, lens, remaining, p);
}

/// Decodes into buffers of any lengths, until one with room for a frame gives
/// none, yield every frame of the data chunk once, in order, and nothing from
/// behind it.
pub proof fn runs_to_the_end_decode_everything(ch: u8, lens: Seq<nat>, remaining: u32, p: Seq<u8>)
    requires
        ch == 1 || ch == 2,
        lens.len() > 0,
        lens.last() >= 2,
        wav_run(ch, lens, remaining, p).frames == wav_run(
            ch,
            lens.drop_last(),
            remaining,
            p,
        ).frames,
    ensures
        wav_run(ch, lens, remaining, p).frames == wav_frames(ch, data_chunk(remaining, p)),
{
    let all = wav_frames(ch, data_chunk(remaining, p));
    run_is_a_prefix(ch, lens, remaining, p);
    run_is_a_prefix(ch, lens.drop_last(), remaining, p);
    assert(all.take(all.len() as int) =~= all);
}

/// The kind of an audio file.
#[derive(Copy, Clone, Debug, PartialEq, Eq, Structural)]
pub enum Codec {
    /// FLAC.
    Flac,
    /// MP3.
    Mp3,
    /// WAV, which everything else is taken for.
    Wav,
}

/// The kind of an audio file by its name, for a player that knows FLAC or not.
pub open spec fn codec_named(name: Seq<u8>, flac: bool) -> Codec {
    if flac && ends_with_ext(name, text::lit(".fla")) {
        Codec::Flac
    } else if ends_with_ext(name, text::lit(".mp3")) {
        Codec::Mp3
    } else {
        Codec::Wav
    }
}

/// The kind of an audio file by its name.
pub fn codec_of(name: &[u8], flac: bool) -> (r: Codec)
    ensures
        r == codec_named(name@, flac),
{
    if flac && is_flac_name(name) {
        Codec::Flac
    } else if is_mp3_name(name) {
        Codec::Mp3
    } else {
        Codec::Wav
    }
}

/// The kind of an audio file on a host, where the FLAC extension has all its
/// letters.
pub fn file_codec(name: &[u8]) -> (r: Codec)
    ensures
        r == if ends_with_ext(name@, text::lit(".flac")) {
            Codec::Flac
        } else if ends_with_ext(name@, text::lit(".mp3")) {
            Codec::Mp3
        } else {
            Codec::Wav
        },
{
    if has_ext(name, ".flac".as_bytes()) {
        Codec::Flac
    } else if is_mp3_name(name) {
        Codec::Mp3
    } else {
        Codec::Wav
    }
}

/// `s` with its letters in lower case.
pub open spec fn lowered(s: Seq<u8>) -> Seq<u8> {
    Seq::new(s.len(), |i: int| text::lower(s[i]))
}

/// What counts is the end of the name, and not its case: a name is a FLAC or an
/// MP3 file whatever stands before the extension.
pub proof fn names_tell_the_codec(stem: Seq<u8>, ext: Seq<u8>)
    ensures
        lowered(ext) == text::lit(".fla") ==> codec_named(stem + ext, true) == Codec::Flac,
        lowered(ext) == text::lit(".mp3") ==> codec_named(stem + ext, false) == Codec::Mp3
            && codec_named(stem + ext, true) == Codec::Mp3,
        lowered(ext) == text::lit(".wav") ==> codec_named(stem + ext, true) == Codec::Wav
            && codec_named(stem + ext, false) == Codec::Wav,
        lowered(ext) == text::lit(".fla") ==> codec_named(stem + ext, false) == Codec::Wav,
{
    reveal_strlit(".fla");
    reveal_strlit(".mp3");
    reveal_strlit(".wav");
    vstd::utf8::is_ascii_chars_encode_utf8(".fla"@);
    vstd::utf8::is_ascii_chars_encode_utf8(".mp3"@);
    vstd::utf8::is_ascii_chars_encode_utf8(".wav"@);
    let name = stem + ext;
    assert(text::lit(".fla")[1] == 102 && text::lit(".mp3")[1] == 109 && text::lit(".wav")[1]
        == 119);
    if ext.len() == 4 {
        assert forall|i: int| 0 <= i < 4 implies text::lower(#[trigger] name[name.len() - 4 + i])
            == lowered(ext)[i] by {
            assert(name[name.len() - 4 + i] == ext[i]);
        }
        assert(text::lower(name[name.len() - 4 + 1]) == lowered(ext)[1]);
    }
}

/// True if `name` (a FAT short name) has the FLAC extension. FAT extensions are
/// at most three characters, so `.FLAC` is stored as `.FLA`.
pub fn is_flac_name(name: &[u8]) -> (r: bool)
    ensures
        r == ends_with_ext(name@, text::lit(".fla")),
{
    has_ext(name, ".fla".as_bytes())
}

/// True if `name` (a FAT short name) ends in the `.mp3` extension.
pub fn is_mp3_name(name: &[u8]) -> (r: bool)
    ensures
        r == ends_with_ext(name@, text::lit(".mp3")),
{
    has_ext(name, ".mp3".as_bytes())
}

/// Whether `name` ends in `ext`, letters compared without case.
pub open spec fn ends_with_ext(name: Seq<u8>, ext: Seq<u8>) -> bool {
    &&& ext.len() <= name.len()
    &&& forall|i: int|
        0 <= i < ext.len() ==> text::lower(#[trigger] name[name.len() - ext.len() + i]) == ext[i]
}

fn has_ext(name: &[u8], ext: &[u8]) -> (r: bool)
    ensures
        r == ends_with_ext(name@, ext@),
{
    if name.len() < ext.len() {
        return false;
    }
    let start: usize = name.len() - ext.len();
    let mut i: usize = 0;
    while i < ext.len()
        invariant
            i <= ext.len(),
            start + ext.len() == name.len(),
            forall|j: int| 0 <= j < i ==> text::lower(#[trigger] name@[start + j]) == ext@[j],
        decreases ext@.len() - i,
    {
        if to_lower(name[start + i]) != ext[i] {
            assert(text::lower(name@[name@.len() - ext@.len() + i as int]) != ext@[i as int]);
            return false;
        }
        i = i + 1;
    }
    true
}

} // verus!
