//! Decoding: WAV files, FLAC blocks and streams, the MP3 window, and names.

use rp235x::audio::{
    codec_of, is_flac_name, is_mp3_name, Codec, DecodeError, Decoder, SliceSource, WavDecoder,
};
use rp235x::flac::{
    decode_flac_reference, flac_err, rescale, rescale_all, BlockEvent, FlacBlock, FlacDecoder,
    OpenFault, StreamFormat,
};
use rp235x::mp3::{
    Mp3Window, Nanomp3Decoder, PassEnd, WindowStep, MP3_IN_LEN, MP3_RESYNC_KEEP,
};

fn wav(channels: u16, rate: u32, bits: u16, announced: u32, pcm: &[u8]) -> Vec<u8> {
    let mut v = Vec::new();
    v.extend_from_slice(b"RIFF");
    v.extend_from_slice(&(36 + announced).to_le_bytes());
    v.extend_from_slice(b"WAVEfmt ");
    v.extend_from_slice(&16u32.to_le_bytes());
    v.extend_from_slice(&1u16.to_le_bytes());
    v.extend_from_slice(&channels.to_le_bytes());
    v.extend_from_slice(&rate.to_le_bytes());
    v.extend_from_slice(&(rate * channels as u32 * 2).to_le_bytes());
    v.extend_from_slice(&(channels * 2).to_le_bytes());
    v.extend_from_slice(&bits.to_le_bytes());
    v.extend_from_slice(b"data");
    v.extend_from_slice(&announced.to_le_bytes());
    v.extend_from_slice(pcm);
    v
}

fn source(data: Vec<u8>, chunk: usize) -> SliceSource {
    SliceSource { data, pos: 0, chunk }
}

#[test]
fn a_stereo_wav_comes_out_interleaved() {
    let pcm = [1, 0, 0xfe, 0xff, 0, 0x80, 0xff, 0x7f];
    let mut d = WavDecoder::new(source(wav(2, 44_100, 16, 8, &pcm), 0)).ok().expect("wav");
    assert_eq!(d.sample_rate(), 44_100);
    assert_eq!(d.channels(), 2);
    let mut out = [0i16; 16];
    assert_eq!(d.next_pcm(&mut out), 4);
    assert_eq!(&out[..4], &[1, -2, -32768, 32767]);
    assert_eq!(d.next_pcm(&mut out), 0);
    assert!(!d.had_error());
}

#[test]
fn a_mono_wav_goes_to_both_sides() {
    let pcm = [1, 0, 2, 0, 3, 0];
    let mut d = WavDecoder::new(source(wav(1, 8_000, 16, 6, &pcm), 0)).ok().expect("wav");
    let mut out = [0i16; 6];
    assert_eq!(d.next_pcm(&mut out), 6);
    assert_eq!(out, [1, 1, 2, 2, 3, 3]);
}

#[test]
fn short_reads_and_small_buffers_give_the_same_samples() {
    let pcm: Vec<u8> = (0..=255u8).cycle().take(1200).collect();
    let file = wav(2, 44_100, 16, 1200, &pcm);
    let mut whole = WavDecoder::new(source(file.clone(), 0)).ok().expect("wav");
    let mut want = [0i16; 700];
    let n = whole.next_pcm(&mut want);
    assert_eq!(n, 600);
    for chunk in [1usize, 3, 7, 100] {
        let mut d = WavDecoder::new(source(file.clone(), chunk)).ok().expect("wav");
        let mut got: Vec<i16> = Vec::new();
        loop {
            let mut out = [0i16; 10];
            let k = d.next_pcm(&mut out);
            if k == 0 {
                break;
            }
            got.extend_from_slice(&out[..k]);
        }
        assert_eq!(got[..], want[..n]);
    }
}

#[test]
fn buffers_of_any_lengths_decode_the_whole_chunk() {
    let bytes: Vec<u8> = (0..=255u8).cycle().take(300).collect();
    // Announced less than there is, more than there is, and no whole frames.
    for (channels, announced) in [(2u16, 202u32), (1, 203), (2, 9_000), (1, 9_000)] {
        let len = (announced as usize).min(bytes.len());
        let size = 2 * channels as usize;
        let mut want: Vec<i16> = Vec::new();
        for f in bytes[..len].chunks_exact(size) {
            want.push(i16::from_le_bytes([f[0], f[1]]));
            want.push(i16::from_le_bytes([f[size - 2], f[size - 1]]));
        }
        for lens in [vec![2usize], vec![3, 0, 1, 10, 2], vec![512], vec![7, 64, 2]] {
            let file = wav(channels, 8_000, 16, announced, &bytes);
            let mut d = WavDecoder::new(source(file, 5)).ok().expect("wav");
            let mut got: Vec<i16> = Vec::new();
            for &room in lens.iter().cycle() {
                let mut out = vec![0i16; room];
                let k = d.next_pcm(&mut out);
                if k == 0 && room >= 2 {
                    break;
                }
                got.extend_from_slice(&out[..k]);
            }
            assert_eq!(got, want);
        }
    }
}

#[test]
fn an_announced_length_ends_the_data() {
    let mut d = WavDecoder::new(source(wav(1, 8_000, 16, 4, &[1, 0, 2, 0, 3, 0]), 0)).ok().expect("wav");
    let mut out = [0i16; 8];
    assert_eq!(d.next_pcm(&mut out), 4);
    // A file that is cut off ends with its last whole frame.
    let mut d = WavDecoder::new(source(wav(2, 8_000, 16, 400, &[1, 0, 2, 0, 3]), 0)).ok().expect("wav");
    assert_eq!(d.next_pcm(&mut out), 2);
    assert_eq!(&out[..2], &[1, 2]);
    assert_eq!(d.next_pcm(&mut out), 0);
}

#[test]
fn stereo_is_mixed_to_mono() {
    let pcm = [10, 0, 20, 0, 0xff, 0xff, 0xfe, 0xff];
    let mut d = WavDecoder::new(source(wav(2, 8_000, 16, 8, &pcm), 0)).ok().expect("wav");
    let mut out = [0i16; 4];
    assert_eq!(d.next_mono(&mut out), 2);
    // (10 + 20) / 2 and (-1 - 2) / 2, towards zero.
    assert_eq!(&out[..2], &[15, -1]);
}

#[test]
fn bad_headers_are_refused() {
    let good = wav(1, 8_000, 16, 0, &[]);
    assert_eq!(WavDecoder::new(source(good[..43].to_vec(), 0)).err(), Some(DecodeError::Truncated));
    let mut bad = good.clone();
    bad[0] = b'X';
    assert_eq!(WavDecoder::new(source(bad, 0)).err(), Some(DecodeError::BadMagic));
    let mut bad = good.clone();
    bad[36] = b'L';
    assert_eq!(WavDecoder::new(source(bad, 0)).err(), Some(DecodeError::BadMagic));
    let wide = wav(1, 8_000, 24, 0, &[]);
    assert_eq!(WavDecoder::new(source(wide, 0)).err(), Some(DecodeError::Unsupported));
    let many = wav(6, 8_000, 16, 0, &[]);
    assert_eq!(WavDecoder::new(source(many, 0)).err(), Some(DecodeError::Unsupported));
}

#[test]
fn names_choose_the_decoder() {
    assert!(is_mp3_name(b"SONG.MP3"));
    assert!(is_mp3_name(b"song.mp3"));
    assert!(!is_mp3_name(b"mp3"));
    assert!(is_flac_name(b"SONG.FLA"));
    assert!(!is_flac_name(b"SONG.FLAC"));
    assert_eq!(codec_of(b"A.FLA", true), Codec::Flac);
    assert_eq!(codec_of(b"A.FLA", false), Codec::Wav);
    assert_eq!(codec_of(b"A.MP3", false), Codec::Mp3);
    assert_eq!(codec_of(b"A.WAV", true), Codec::Wav);
}

// A stream of one block of sixteen equal samples for each channel.
const STEREO_16: [u8; 57] = [
    0x66, 0x4c, 0x61, 0x43, 0x80, 0x00, 0x00, 0x22, 0x00, 0x10, 0x00, 0x10, 0x00, 0x00, 0x00, 0x00,
    0x00, 0x00, 0x0a, 0xc4, 0x42, 0xf0, 0x00, 0x00, 0x00, 0x10, 0x00, 0x00, 0x00, 0x00, 0x00, 0x00,
    0x00, 0x00, 0x00, 0x00, 0x00, 0x00, 0x00, 0x00, 0x00, 0x00, 0xff, 0xf8, 0x69, 0x18, 0x00, 0x0f,
    0x92, 0x00, 0x12, 0x34, 0x00, 0xff, 0xfe, 0xbb, 0x77,
];

const MONO_24: [u8; 55] = [
    0x66, 0x4c, 0x61, 0x43, 0x80, 0x00, 0x00, 0x22, 0x00, 0x10, 0x00, 0x10, 0x00, 0x00, 0x00, 0x00,
    0x00, 0x00, 0x0a, 0xc4, 0x41, 0x70, 0x00, 0x00, 0x00, 0x10, 0x00, 0x00, 0x00, 0x00, 0x00, 0x00,
    0x00, 0x00, 0x00, 0x00, 0x00, 0x00, 0x00, 0x00, 0x00, 0x00, 0xff, 0xf8, 0x69, 0x0c, 0x00, 0x0f,
    0x9b, 0x00, 0x12, 0x34, 0x56, 0xc9, 0x5b,
];

const MONO_8: [u8; 53] = [
    0x66, 0x4c, 0x61, 0x43, 0x80, 0x00, 0x00, 0x22, 0x00, 0x10, 0x00, 0x10, 0x00, 0x00, 0x00, 0x00,
    0x00, 0x00, 0x0a, 0xc4, 0x40, 0x70, 0x00, 0x00, 0x00, 0x10, 0x00, 0x00, 0x00, 0x00, 0x00, 0x00,
    0x00, 0x00, 0x00, 0x00, 0x00, 0x00, 0x00, 0x00, 0x00, 0x00, 0xff, 0xf8, 0x69, 0x02, 0x00, 0x0f,
    0xb7, 0x00, 0xfd, 0x78, 0x2f,
];

#[test]
fn a_flac_stream_is_decoded_whole() {
    let pcm = decode_flac_reference(&STEREO_16).expect("valid stream");
    assert_eq!((pcm.sample_rate, pcm.channels, pcm.bits_per_sample), (44_100, 2, 16));
    assert_eq!(pcm.samples.len(), 32);
    for i in 0..16 {
        assert_eq!(pcm.samples[2 * i], 0x1234);
        assert_eq!(pcm.samples[2 * i + 1], -2);
    }
}

#[test]
fn flac_samples_are_brought_to_sixteen_bits() {
    let pcm = decode_flac_reference(&MONO_24).expect("valid stream");
    assert_eq!(pcm.bits_per_sample, 24);
    assert_eq!(pcm.samples, vec![0x1234i16; 16]);
    let pcm = decode_flac_reference(&MONO_8).expect("valid stream");
    assert_eq!(pcm.bits_per_sample, 8);
    assert_eq!(pcm.samples, vec![-768i16; 16]);
}

#[test]
fn a_broken_flac_stream_is_refused() {
    assert!(decode_flac_reference(b"not flac at all").is_none());
    let mut bad = STEREO_16;
    bad[50] ^= 1;
    assert!(decode_flac_reference(&bad).is_none());
}

#[test]
fn rescaling_shifts_both_ways() {
    assert_eq!(rescale(0x123456, 8), 0x1234);
    assert_eq!(rescale(-1, 8), -1);
    assert_eq!(rescale(-3, -8), -768);
    assert_eq!(rescale(77, 0), 77);
    assert_eq!(rescale_all(&[256, -256], 24), vec![1, -1]);
}

#[test]
fn flac_faults_have_names() {
    assert_eq!(flac_err(OpenFault::Io), DecodeError::Truncated);
    assert_eq!(flac_err(OpenFault::Format), DecodeError::BadMagic);
    assert_eq!(flac_err(OpenFault::Unsupported), DecodeError::Unsupported);
}

fn format(channels: u32, bits: u32, block: u32) -> StreamFormat {
    StreamFormat { sample_rate: 48_000, channels, bits_per_sample: bits, max_block_size: block }
}

#[test]
fn only_small_flac_streams_are_played() {
    assert!(FlacDecoder::new(format(3, 16, 4096)).is_err());
    assert!(FlacDecoder::new(format(2, 16, 4609)).is_err());
    assert!(FlacDecoder::new(format(2, 16, 4608)).is_ok());
}

#[test]
fn flac_blocks_come_out_interleaved() {
    let mut d = FlacDecoder::new(format(2, 16, 4096)).ok().expect("playable");
    let block = FlacBlock { duration: 3, channels: 2, bits_per_sample: 16, samples: vec![1, 2, 3, 4, 5, 6] };
    assert!(d.take_block(BlockEvent::Block(block)));
    let mut out = [0i16; 4];
    assert_eq!(d.emit(&mut out, 0), 4);
    assert_eq!(out, [1, 4, 2, 5]);
    let mut out = [0i16; 8];
    assert_eq!(d.emit(&mut out, 2), 4);
    assert_eq!(out, [0, 0, 3, 6, 0, 0, 0, 0]);
    assert!(!d.take_block(BlockEvent::End));
    assert!(!d.had_error(false));
    assert!(d.had_error(true));
}

#[test]
fn a_failed_flac_block_is_an_error() {
    let mut d = FlacDecoder::new(format(1, 16, 4096)).ok().expect("playable");
    assert!(!d.take_block(BlockEvent::Failed));
    assert!(d.had_error(false));
}

#[test]
fn the_mp3_window_keeps_unread_bytes() {
    let data: Vec<u8> = (0..5000u32).map(|i| (i % 251) as u8).collect();
    let mut src = source(data.clone(), 0);
    let mut w = Mp3Window::new();
    assert!(w.input().is_empty());
    assert!(matches!(w.before_decode(&mut src), WindowStep::Decode));
    assert_eq!(w.input(), &data[..4096]);
    assert!(matches!(w.after_decode(3000, true, &mut src), PassEnd::Frame));
    assert!(matches!(w.before_decode(&mut src), WindowStep::Decode));
    assert_eq!(w.input(), &data[3000..]);
}

#[test]
fn an_empty_mp3_ends_at_once() {
    let mut src = source(Vec::new(), 0);
    let mut w = Mp3Window::new();
    assert!(matches!(w.before_decode(&mut src), WindowStep::End));
}

#[test]
fn mp3_frames_come_out_as_pairs() {
    let mut d = Nanomp3Decoder::new(vec![1, 2, 3], 3, 1, 44_100);
    let mut out = [0i16; 4];
    assert_eq!(d.emit(&mut out, 0), 4);
    assert_eq!(out, [1, 1, 2, 2]);
    assert_eq!(d.emit(&mut out, 0), 2);
    assert_eq!(&out[..2], &[3, 3]);
    d.take_frame(vec![5, 6], 1, 2);
    assert_eq!(d.emit(&mut out, 2), 4);
    assert_eq!(&out[2..], &[5, 6]);
}

#[test]
fn a_stream_without_frames_is_given_up() {
    let mut src = SliceSource { data: vec![7; 9000], pos: 0, chunk: 100 };
    let mut w = Mp3Window::new();
    w.refill_input(&mut src);
    assert_eq!(w.len, MP3_IN_LEN);
    let mut passes = 0;
    let end = loop {
        if let Err(e) = w.before_first(&mut src) {
            break e;
        }
        passes += 1;
        assert!(passes < 10);
        match w.after_first(0, false, &mut src) {
            Ok(found) => assert!(!found),
            Err(e) => break e,
        }
    };
    assert_eq!(end, DecodeError::Unsupported);
    assert!(w.io_done);
    // Two windows were dropped down to their tails, the rest made no progress.
    assert_eq!(w.input().len(), 9000 - 2 * (MP3_IN_LEN - MP3_RESYNC_KEEP));
}

#[test]
fn a_large_tag_is_skipped() {
    let mut src = SliceSource { data: vec![7; 5000], pos: 0, chunk: 0 };
    let mut w = Mp3Window::new();
    w.refill_input(&mut src);
    // The frame decoder eats the whole window without a frame.
    let n = w.input().len();
    assert_eq!(w.after_first(n, false, &mut src), Ok(false));
    assert_eq!(w.before_first(&mut src), Ok(()));
    assert_eq!(w.input().len(), 5000 - MP3_IN_LEN);
    assert_eq!(w.after_first(10, true, &mut src), Ok(true));
}

#[test]
fn an_empty_stream_is_no_mp3_stream() {
    let mut src = SliceSource { data: Vec::new(), pos: 0, chunk: 0 };
    let mut w = Mp3Window::new();
    assert_eq!(w.before_first(&mut src), Err(DecodeError::Unsupported));
    assert!(w.io_done);
    assert_eq!(w.before_first(&mut src), Err(DecodeError::Unsupported));
}
