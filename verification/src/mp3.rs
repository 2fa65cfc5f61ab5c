//! MP3 playback: the sliding window of compressed bytes and the pacing of the
//! frame decoder. The frames themselves are decoded elsewhere, to floating
//! point; what is handed back here are 16-bit samples.

use crate::audio::{ByteSource, DecodeError};
use vstd::prelude::*;
use vstd::slice::slice_subrange;

verus! {

/// Size of the compressed input window, in bytes.
pub const MP3_IN_LEN: usize = 4096;

/// Refill once fewer than this many bytes are resident: the largest frame is
/// 1441 bytes, so a whole frame is always there.
pub const MP3_IN_LOWATER: usize = 2048;

/// Bytes to keep when a full window yields no frame and its front is dropped.
pub const MP3_RESYNC_KEEP: usize = 1536;

/// The window of compressed bytes.
pub struct Mp3Window {
    pub buf: Vec<u8>,
    /// Number of valid bytes in `buf`.
    pub len: usize,
    /// Read cursor into the valid bytes.
    pub pos: usize,
    /// The source has reported its end.
    pub io_done: bool,
}

/// What to do next.
#[derive(Copy, Clone, PartialEq, Eq, Structural)]
pub enum WindowStep {
    /// Hand the resident bytes to the frame decoder.
    Decode,
    /// Nothing is left to decode.
    End,
}

/// How a pass through the frame decoder ended.
#[derive(Copy, Clone, PartialEq, Eq, Structural)]
pub enum PassEnd {
    /// A frame was produced.
    Frame,
    /// No frame yet; go on.
    Again,
    /// Nothing is left to decode.
    End,
}

/// How much a stream still holds, as far as the pacing goes: the bytes that are
/// resident or to come, and whether the source has reported its end.
pub open spec fn work<S: ByteSource>(w: Mp3Window, src: S) -> nat {
    2 * (w.resident() + src.stream()).len() + if w.io_done {
        0nat
    } else {
        1nat
    }
}

impl Mp3Window {
    /// The window's fields agree.
    pub open spec fn sound(&self) -> bool {
        &&& self.buf@.len() == MP3_IN_LEN
        &&& self.pos <= self.len <= MP3_IN_LEN
    }

    /// The bytes that are resident and not yet consumed.
    pub open spec fn resident(&self) -> Seq<u8> {
        self.buf@.subrange(self.pos as int, self.len as int)
    }

    /// An empty window.
    pub fn new() -> (w: Mp3Window)
        ensures
            w.sound(),
            w.resident().len() == 0,
            w.pos == 0,
            !w.io_done,
    {
        let mut buf: Vec<u8> = Vec::new();
        buf.resize(MP3_IN_LEN, 0);
        Mp3Window { buf, len: 0, pos: 0, io_done: false }
    }

    /// The bytes to hand to the frame decoder.
    pub fn input(&self) -> (r: &[u8])
        requires
            self.sound(),
        ensures
            r@ == self.resident(),
    {
        slice_subrange(self.buf.as_slice(), self.pos, self.len)
    }

    fn slide(&mut self)
        requires
            old(self).sound(),
        ensures
            final(self).sound(),
            final(self).resident() == old(self).resident(),
            final(self).pos == 0,
            final(self).io_done == old(self).io_done,
    {
        let tail: usize = self.len - self.pos;
        let ghost kept = self.resident();
        let ghost b0 = self.buf@;
        if self.pos > 0 {
            let mut i: usize = 0;
            while i < tail
                invariant
                    i <= tail,
                    self.buf@.len() == MP3_IN_LEN,
                    b0.len() == MP3_IN_LEN,
                    self.pos + tail == self.len,
                    self.len <= MP3_IN_LEN,
                    self.pos > 0,
                    self.io_done == old(self).io_done,
                    forall|k: int| 0 <= k < i ==> self.buf@[k] == b0[self.pos + k],
                    forall|k: int| i <= k < MP3_IN_LEN ==> self.buf@[k] == b0[k],
                    kept == b0.subrange(self.pos as int, self.len as int),
                decreases tail - i,
            {
                let b: u8 = self.buf[self.pos + i];
                self.buf[i] = b;
                i = i + 1;
            }
            self.pos = 0;
            self.len = tail;
        }
        assert(self.resident() =~= kept);
    }

    /// Slide the unconsumed bytes to the front and read fresh ones behind them,
    /// until the window is full or the source has ended.
    pub fn refill_input<S: ByteSource>(&mut self, src: &mut S)
        requires
            old(self).sound(),
        ensures
            final(self).sound(),
            final(self).pos == 0,
            final(self).resident() + final(src).stream() == old(self).resident() + old(src).stream(),
            final(self).len >= old(self).len - old(self).pos,
            final(self).io_done || final(self).len == MP3_IN_LEN,
            old(self).io_done ==> final(self).io_done && final(self).resident() == old(self).resident() && final(src).stream() == old(src).stream(),
            !old(self).io_done && final(self).io_done ==> final(src).stream().len() == 0,
    {
        let ghost all = self.resident() + src.stream();
        self.slide();
        while self.len < MP3_IN_LEN && !self.io_done
            invariant
                self.sound(),
                self.pos == 0,
                self.len >= old(self).len - old(self).pos,
                self.resident() + src.stream() == all,
                old(self).io_done ==> self.io_done && self.resident() == old(self).resident()
                    && src.stream() == old(src).stream(),
                !old(self).io_done && self.io_done ==> src.stream().len() == 0,
            decreases MP3_IN_LEN - self.len + (if self.io_done {
                0int
            } else {
                1int
            }),
        {
            let at: usize = self.len;
            let ghost before = self.resident();
            let ghost stream = src.stream();
            let (_head, rest) = self.buf.as_mut_slice().split_at_mut(at);
            let n: usize = src.read(rest);
            if n == 0 {
                self.io_done = true;
                assert(self.resident() =~= before);
                assert(src.stream() =~= stream);
            } else {
                self.len = at + n;
                assert(self.resident() =~= before + stream.take(n as int));
                assert(self.resident() + src.stream() =~= before + stream);
            }
        }
    }

    /// Get ready for a pass of the frame decoder: refill when fewer bytes than
    /// the low-water mark are resident.
    pub fn before_decode<S: ByteSource>(&mut self, src: &mut S) -> (step: WindowStep)
        requires
            old(self).sound(),
        ensures
            final(self).sound(),
            final(self).resident() + final(src).stream() == old(self).resident() + old(src).stream(),
            (step == WindowStep::End) == (final(self).resident().len() == 0),
            final(self).io_done || final(self).resident().len() >= MP3_IN_LOWATER,
            old(self).io_done ==> final(self).io_done,
            work(*final(self), *final(src)) <= work(*old(self), *old(src)),
            old(self).io_done || old(self).resident().len() >= MP3_IN_LOWATER ==> *final(self)
                == *old(self) && *final(src) == *old(src),
    {
        if !self.io_done && self.len - self.pos < MP3_IN_LOWATER {
            self.refill_input(src);
        }
        if self.pos >= self.len {
            WindowStep::End
        } else {
            WindowStep::Decode
        }
    }

    /// Account for a pass of the frame decoder that consumed `consumed` bytes
    /// and did or did not produce a frame. A pass without progress refills the
    /// window, and drops the front of a full window that cannot be
    /// synchronised. Whatever the frame decoder makes of the bytes, a pass that
    /// is followed by another leaves strictly less to do.
    pub fn after_decode<S: ByteSource>(&mut self, consumed: usize, frame: bool, src: &mut S) -> (r:
        PassEnd)
        requires
            old(self).sound(),
            consumed <= old(self).resident().len(),
        ensures
            final(self).sound(),
            r == PassEnd::Again ==> work(*final(self), *final(src)) < work(*old(self), *old(src)),
            frame || consumed > 0 ==> {
                &&& r == if frame {
                    PassEnd::Frame
                } else {
                    PassEnd::Again
                }
                &&& *final(self) == (Mp3Window {
                    pos: (old(self).pos + consumed) as usize,
                    ..*old(self)
                })
                &&& *final(src) == *old(src)
            },
            !frame && consumed == 0 && old(self).io_done ==> r == PassEnd::End && *final(self)
                == *old(self) && *final(src) == *old(src),
            !frame && consumed == 0 && !old(self).io_done ==> {
                &&& r == PassEnd::Again
                &&& (final(self).pos == 0 && final(self).resident() + final(src).stream() == old(self).resident() + old(src).stream() && final(self).io_done && final(self).len
                    < MP3_IN_LEN) || (final(self).pos == MP3_IN_LEN - MP3_RESYNC_KEEP && final(self).len == MP3_IN_LEN && final(self).resident() + final(src).stream() == (old(self).resident() + old(src).stream()).skip(MP3_IN_LEN - MP3_RESYNC_KEEP))
            },
    {
        self.pos = self.pos + consumed;
        if frame {
            return PassEnd::Frame;
        }
        if consumed == 0 {
            if self.io_done {
                return PassEnd::End;
            }
            let ghost all = self.resident() + src.stream();
            self.refill_input(src);
            if self.pos == 0 && self.len == MP3_IN_LEN {
                self.pos = MP3_IN_LEN - MP3_RESYNC_KEEP;
                assert(self.resident() + src.stream() =~= all.skip(MP3_IN_LEN - MP3_RESYNC_KEEP));
            }
        }
        PassEnd::Again
    }

    /// Get ready for a pass while looking for the first frame: refill an empty
    /// window as long as the source lasts. A stream of which nothing is left is
    /// no MP3 stream.
    pub fn before_first<S: ByteSource>(&mut self, src: &mut S) -> (r: Result<(), DecodeError>)
        requires
            old(self).sound(),
        ensures
            final(self).sound(),
            final(self).resident() + final(src).stream() == old(self).resident() + old(src).stream(),
            r == (if final(self).resident().len() == 0 {
                Err::<(), DecodeError>(DecodeError::Unsupported)
            } else {
                Ok(())
            }),
            old(self).resident().len() == 0 && old(self).io_done ==> r is Err,
            r is Err ==> final(self).io_done,
            old(self).io_done ==> final(self).io_done,
            work(*final(self), *final(src)) <= work(*old(self), *old(src)),
            old(self).resident().len() > 0 ==> *final(self) == *old(self) && *final(src)
                == *old(src),
    {
        if self.pos >= self.len {
            if self.io_done {
                return Err(DecodeError::Unsupported);
            }
            self.refill_input(src);
            if self.pos >= self.len {
                return Err(DecodeError::Unsupported);
            }
        }
        Ok(())
    }

    /// Account for a pass while looking for the first frame: whether it was
    /// found. The stream is given up as no MP3 stream once the source has run
    /// dry and a pass makes no progress; a pass that is followed by another
    /// leaves strictly less to do, so the search ends.
    pub fn after_first<S: ByteSource>(&mut self, consumed: usize, frame: bool, src: &mut S) -> (r:
        Result<bool, DecodeError>)
        requires
            old(self).sound(),
            consumed <= old(self).resident().len(),
        ensures
            final(self).sound(),
            r == Ok::<bool, DecodeError>(false) ==> work(*final(self), *final(src)) < work(*old(self), *old(src)),
            frame || consumed > 0 ==> {
                &&& r == Ok::<bool, DecodeError>(frame)
                &&& *final(self) == (Mp3Window {
                    pos: (old(self).pos + consumed) as usize,
                    ..*old(self)
                })
                &&& *final(src) == *old(src)
            },
            !frame && consumed == 0 ==> {
                let all = old(self).resident() + old(src).stream();
                let now = final(self).resident() + final(src).stream();
                &&& final(self).io_done || final(self).len == MP3_IN_LEN
                &&& r == if final(self).len < MP3_IN_LEN && (old(self).io_done || final(self).len
                    == 0) {
                    Err::<bool, DecodeError>(DecodeError::Unsupported)
                } else {
                    Ok(false)
                }
                &&& final(self).len == MP3_IN_LEN ==> final(self).pos == MP3_IN_LEN
                    - MP3_RESYNC_KEEP && now == all.skip(MP3_IN_LEN - MP3_RESYNC_KEEP)
                &&& final(self).len < MP3_IN_LEN ==> final(self).pos == 0 && now == all
            },
    {
        self.pos = self.pos + consumed;
        if frame {
            return Ok(true);
        }
        if consumed == 0 {
            let dry: bool = self.io_done;
            let ghost all = self.resident() + src.stream();
            self.refill_input(src);
            if self.len == MP3_IN_LEN {
                self.pos = MP3_IN_LEN - MP3_RESYNC_KEEP;
                assert(self.resident() + src.stream() =~= all.skip(MP3_IN_LEN - MP3_RESYNC_KEEP));
            } else if dry || self.len == 0 {
                return Err(DecodeError::Unsupported);
            }
        }
        Ok(false)
    }
}

/// The state of a playing MP3 stream: the samples of the current frame and the
/// format it announced.
pub struct Nanomp3Decoder {
    /// Samples of the current frame, interleaved.
    pub pcm: Vec<i16>,
    /// Number of samples in `pcm` that belong to the frame.
    pub pcm_len: usize,
    /// Read cursor into them.
    pub pcm_pos: usize,
    pub sample_rate: u32,
    pub channels: u8,
}

impl Nanomp3Decoder {
    /// The frame is whole: the cursor is at a frame boundary and every sample
    /// up to the end is there.
    pub open spec fn sound(&self) -> bool {
        &&& self.pcm_pos <= self.pcm_len <= self.pcm.len()
        &&& self.channels == 2 ==> self.pcm_len % 2 == 0 && self.pcm_pos % 2 == 0
    }

    /// Samples that one output pair uses up.
    pub open spec fn stride(&self) -> int {
        if self.channels == 2 {
            2
        } else {
            1
        }
    }

    /// Start playing with the first frame: `per_channel` samples per channel.
    pub fn new(pcm: Vec<i16>, per_channel: usize, channels: u8, sample_rate: u32) -> (d: Self)
        requires
            channels == 1 || channels == 2,
            per_channel * channels <= pcm@.len(),
        ensures
            d.sound(),
            d.pcm@ == pcm@,
            d.pcm_len == per_channel * channels,
            d.pcm_pos == 0,
            d.channels == channels,
            d.sample_rate == sample_rate,
    {
        let n: usize = if channels == 2 {
            assert(pcm.len() == pcm@.len());
            2 * per_channel
        } else {
            per_channel
        };
        Nanomp3Decoder { pcm, pcm_len: n, pcm_pos: 0, sample_rate, channels }
    }

    /// Take in the next frame. Its channel count replaces the current one; the
    /// sample rate stays that of the first frame.
    pub fn take_frame(&mut self, pcm: Vec<i16>, per_channel: usize, channels: u8)
        requires
            channels == 1 || channels == 2,
            per_channel * channels <= pcm@.len(),
        ensures
            final(self).sound(),
            final(self).pcm@ == pcm@,
            final(self).pcm_len == per_channel * channels,
            final(self).pcm_pos == 0,
            final(self).channels == channels,
            final(self).sample_rate == old(self).sample_rate,
    {
        let d = Nanomp3Decoder::new(pcm, per_channel, channels, self.sample_rate);
        *self = d;
    }

    /// Emit samples of the current frame into `out` from index `start` on, as
    /// interleaved L, R pairs (a mono frame is duplicated), until either runs
    /// out. Returns the new end of the samples in `out`.
    pub fn emit(&mut self, out: &mut [i16], start: usize) -> (end: usize)
        requires
            old(self).sound(),
            start <= old(out)@.len(),
        ensures
            final(self).sound(),
            final(out)@.len() == old(out)@.len(),
            ({
                let room = (old(out)@.len() - start) / 2;
                let held = (old(self).pcm_len - old(self).pcm_pos) / old(self).stride();
                let k = if room < held {
                    room
                } else {
                    held
                };
                &&& end == start + 2 * k
                &&& *final(self) == (Nanomp3Decoder {
                    pcm_pos: (old(self).pcm_pos + old(self).stride() * k) as usize,
                    ..*old(self)
                })
                &&& forall|i: int|
                    0 <= i < k ==> #[trigger] final(out)@[start + 2 * i] == old(self).pcm@[old(self).pcm_pos + old(self).stride() * i]
                &&& forall|i: int|
                    0 <= i < k ==> #[trigger] final(out)@[start + 2 * i + 1] == old(self).pcm@[old(self).pcm_pos + old(self).stride() * i + old(self).stride() - 1]
                &&& forall|i: int| 0 <= i < start ==> #[trigger] final(out)@[i] == old(out)@[i]
                &&& forall|i: int|
                    end <= i < old(out)@.len() ==> #[trigger] final(out)@[i] == old(out)@[i]
            }),
            // A mono frame goes to both ears.
            old(self).channels == 1 ==> forall|i: int|
                0 <= i < (end - start) / 2 ==> {
                    &&& #[trigger] final(out)@[start + 2 * i] == old(self).pcm@[old(self).pcm_pos
                        + i]
                    &&& final(out)@[start + 2 * i + 1] == final(out)@[start + 2 * i]
                },
            // Of a stereo frame every other sample goes left, beginning with the first.
            old(self).channels == 2 ==> forall|i: int|
                0 <= i < (end - start) / 2 ==> {
                    &&& #[trigger] final(out)@[start + 2 * i] == old(self).pcm@[old(self).pcm_pos
                        + 2 * i]
                    &&& final(out)@[start + 2 * i + 1] == old(self).pcm@[old(self).pcm_pos + 2 * i
                        + 1]
                },
    {
        let ghost pos0 = self.pcm_pos as int;
        let ghost o0 = out@;
        let ghost st = self.stride();
        let mut count: usize = start;
        let ghost mut k: int = 0;
        while out.len() >= 1 && count < out.len() - 1 && self.pcm_pos < self.pcm_len
            invariant
                self.sound(),
                old(self).sound(),
                *self == (Nanomp3Decoder { pcm_pos: self.pcm_pos, ..*old(self) }),
                pos0 == old(self).pcm_pos,
                st == old(self).stride(),
                self.pcm_pos == pos0 + (if self.channels == 2 {
                    2 * k
                } else {
                    k
                }),
                0 <= k,
                out@.len() == o0.len(),
                count == start + 2 * k,
                count <= out@.len(),
                forall|i: int|
                    0 <= i < k ==> #[trigger] out@[start + 2 * i] == old(self).pcm@[pos0 + st * i],
                forall|i: int|
                    0 <= i < k ==> #[trigger] out@[start + 2 * i + 1] == old(self).pcm@[pos0 + st
                        * i + st - 1],
                forall|i: int| 0 <= i < start ==> #[trigger] out@[i] == o0[i],
                forall|i: int| count <= i < o0.len() ==> #[trigger] out@[i] == o0[i],
            decreases self.pcm_len - self.pcm_pos,
        {
            let l: i16 = self.pcm[self.pcm_pos];
            let r: i16 = if self.channels == 2 {
                self.pcm[self.pcm_pos + 1]
            } else {
                l
            };
            if self.channels == 2 {
                self.pcm_pos = self.pcm_pos + 2;
            } else {
                self.pcm_pos = self.pcm_pos + 1;
            }
            out[count] = l;
            out[count + 1] = r;
            count = count + 2;
            proof {
                k = k + 1;
            }
        }
        count
    }
}

} // verus!
