//! The players: tones, rings, the mixer and the digital output.

use rp235x::errors::{I2sError, PwmError};
use rp235x::i2s;
use rp235x::player::{aligned, pack_play_reply, ring_part, ChunkFill, Crossings, HalfFill, StallWatch};
use rp235x::pwm::{
    audio_start, audio_stereo, cycle_count, disable, dma_half, fill_half, play_rate, player_divider,
    ramp_toward, sample_to_duty, set_duty, sine, stereo_to_cc, tone, Buttons, Dds, MixState,
    MixTarget, SINE_LUT,
};

#[test]
fn duty_is_the_percentage() {
    let p = set_duty(4, 1, 40).ok().expect("in range");
    assert_eq!((p.div, p.top, p.channel_b, p.level), (150, 999, true, 400));
    assert!(set_duty(12, 0, 1).err() == Some(PwmError::BadArg));
    assert!(set_duty(0, 0, 101).err() == Some(PwmError::BadArg));
    assert!(disable(11).is_ok());
    assert!(disable(12).err() == Some(PwmError::BadArg));
}

#[test]
fn tones_are_square_waves() {
    let (p, ms) = tone(1, 440, 9000).ok().expect("in range");
    assert_eq!((p.div, p.top, p.level), (25, 13635, 6818));
    assert_eq!(ms, 5000);
    assert!(tone(1, 99, 1).err() == Some(PwmError::BadArg));
    assert!(tone(1, 6001, 1).err() == Some(PwmError::BadArg));
    let s = sine(1, 1000, 500).ok().expect("in range");
    assert_eq!((s.phase_inc, s.samples), (214_748_364, 10_000));
}

#[test]
fn the_sine_table_is_a_sine() {
    assert_eq!(SINE_LUT.len(), 256);
    for i in 0..256usize {
        let want = (511.5 + 511.5 * (std::f64::consts::TAU * i as f64 / 256.0).sin()).round() as i32;
        assert!((SINE_LUT[i] as i32 - want).abs() <= 1, "{}", i);
    }
    let mut d = Dds { phase: 0, inc: 0x4000_0000 };
    assert_eq!(d.next(&SINE_LUT), SINE_LUT[0]);
    assert_eq!(d.next(&SINE_LUT), SINE_LUT[64]);
    assert_eq!(d.next(&SINE_LUT), SINE_LUT[128]);
}

#[test]
fn a_tone_ring_has_no_seam() {
    assert_eq!(cycle_count(440), 18);
    let r = audio_start(&SINE_LUT, 440).ok().expect("in range");
    assert_eq!(r.len(), 1024);
    let s = audio_stereo(&SINE_LUT, 440, 880).ok().expect("in range");
    assert_eq!(s[0] & 0xffff, s[0] >> 16);
    assert!(audio_stereo(&SINE_LUT, 49, 440).is_err());
    assert!(audio_start(&SINE_LUT, 8001).is_err());
}

#[test]
fn the_player_follows_the_rate() {
    assert_eq!(player_divider(44_100), (3, 5));
    assert_eq!(play_rate(7_999), 8_000);
    assert_eq!(play_rate(44_100), 44_100);
    assert_eq!(play_rate(96_000), 48_000);
}

#[test]
fn samples_become_duties() {
    assert_eq!(sample_to_duty(0), 512);
    assert_eq!(sample_to_duty(-32768), 0);
    assert_eq!(sample_to_duty(32767), 1023);
    assert_eq!(stereo_to_cc(-32768, 32767), 1023 << 16);
    let mut pcm = vec![0i16; 1024];
    pcm[0] = 32767;
    pcm[2] = 32767;
    let v = fill_half(&pcm, 2);
    assert_eq!(v.len(), 512);
    assert_eq!(v[0], 1023 + (512 << 16));
    // What was not decoded is silence.
    assert_eq!(v[1], 512 + (512 << 16));
}

#[test]
fn the_ring_is_told_in_parts() {
    assert_eq!(dma_half(0x2000_0000, 0x2000_0000), 0);
    assert_eq!(dma_half(0x2000_0800, 0x2000_0000), 1);
    assert_eq!(dma_half(0x2000_1000, 0x2000_0000), 0);
    assert_eq!(ring_part(0x100, 0x80, 0x100, 0x40), 2);
    assert_eq!(aligned(0x1001, 0x1000), 0x2000);
    assert_eq!(aligned(0x1000, 0x1000), 0x1000);
}

#[test]
fn ramps_reach_their_target() {
    let mut g = 0;
    let mut steps = 0;
    while g != 256 {
        let next = ramp_toward(g, 256);
        assert!(next > g);
        g = next;
        steps += 1;
        assert!(steps <= 256);
    }
    assert_eq!(ramp_toward(256, 256), 256);
    assert!(ramp_toward(256, 0) < 256);
}

#[test]
fn the_mixer_fades_over() {
    let mut m = MixState::new(44_100);
    let w = m.mix(&SINE_LUT, 32767, -32768);
    assert_eq!((m.ga, m.gb), (256, 0));
    assert_eq!(w & 0xffff, sample_to_duty(32767));
    m.target = MixTarget::Sine;
    for _ in 0..100_000 {
        m.mix(&SINE_LUT, 0, 0);
        assert_eq!(m.ga + m.gb, 256);
    }
    assert_eq!((m.ga, m.gb), (0, 256));
    // And back: one step a sample.
    let mut back = MixState { target: MixTarget::Wav, ..m };
    for n in 1..=256 {
        back.mix(&SINE_LUT, 0, 0);
        assert_eq!((back.ga, back.gb), (n, 256 - n));
    }
    back.mix(&SINE_LUT, 0, 0);
    assert_eq!((back.ga, back.gb), (256, 0));
    let v = m.mix_fill(&SINE_LUT, &[0i16; 1024], 0);
    assert_eq!(v.len(), 512);
    for w in v {
        assert!(w & 0xffff <= 1023 && w >> 16 <= 1023);
    }
}

#[test]
fn buttons_choose_the_source() {
    let mut b = Buttons::new();
    let t = b.read(1, 0, MixTarget::Wav);
    assert!(t == MixTarget::Sine);
    let t = b.read(0, 0, t);
    assert!(t == MixTarget::Wav);
    let t = b.read(0, 0, t);
    assert!(t == MixTarget::Wav);
}

#[test]
fn halves_are_refilled_in_turn() {
    let mut h = HalfFill::new(0, false);
    assert_eq!(h.turn(0), None);
    assert_eq!(h.turn(1), Some(0));
    h.refilled(0, 1024, 1);
    assert_eq!((h.refills, h.underruns, h.eof), (1, 0, false));
    assert_eq!(h.turn(0), Some(1));
    h.refilled(1, 0, 1);
    assert_eq!((h.refills, h.underruns, h.eof), (2, 1, true));
}

#[test]
fn chunks_are_refilled_in_turn() {
    let mut c = ChunkFill::new(8, false);
    assert_eq!(c.turn(0), None);
    assert_eq!(c.turn(1), Some(0));
    c.refilled(1024, 1);
    assert_eq!(c.turn(1), None);
    for _ in 0..7 {
        c.refilled(1024, 0);
    }
    assert_eq!(c.next, 0);
    assert_eq!(c.refills, 8);
}

#[test]
fn crossings_are_counted() {
    let mut c = Crossings::new(0, 2);
    assert!(!c.see(0));
    assert!(c.see(1));
    assert!(!c.done());
    assert!(c.see(0));
    assert!(c.done());
}

#[test]
fn a_stalled_player_is_noticed() {
    let mut w = StallWatch::new(1000);
    let mut looks = 0;
    for _ in 0..0x4_0000 {
        if w.poll() {
            looks += 1;
        }
    }
    assert_eq!(looks, 1);
    assert!(!w.wedged(1500));
    assert!(w.wedged(1501));
    w.progress(1400);
    assert!(!w.wedged(1900));
}

#[test]
fn a_play_is_reported_in_a_word() {
    assert_eq!(pack_play_reply(44_100, 3, 9, true), 44_100 + (3 << 16) + (1 << 23) + (9 << 24));
    assert_eq!(pack_play_reply(44_100, 1000, 1000, false), 44_100 + (0x7f << 16) + (0xff << 24));
}

#[test]
fn the_digital_output_is_clocked() {
    assert_eq!(i2s::clkdiv_for(44_100), (53, 37));
    assert_eq!(i2s::cycle_count(440, 44_100), 41);
    assert!(i2s::check_rate(44_100) == Ok(44_100));
    assert!(i2s::check_rate(22_050) == Err(I2sError::BadRate));
    assert!(i2s::play(440, 440, 31_999).err() == Some(I2sError::BadArg));
    let (div, ring) = i2s::play(440, 880, 44_100).ok().expect("in range");
    assert_eq!(div, (53, 37));
    assert_eq!(ring.len(), 4096);
    assert_eq!(ring[0], 0);
}

#[test]
fn the_integer_sine_is_symmetric() {
    assert_eq!(i2s::isin(0), 0);
    assert_eq!(i2s::isin(90), 0x2000);
    assert_eq!(i2s::isin(270), -0x2000);
    for d in 0..180 {
        assert_eq!(i2s::isin(d), -i2s::isin(d + 180));
        let want = 8192.0 * (d as f64).to_radians().sin();
        assert!((i2s::isin(d) as f64 - want).abs() < 20.0, "{}", d);
    }
}

#[test]
fn frames_are_packed_for_the_output() {
    let mut pcm = vec![0i16; 1024];
    pcm[0] = 0x1234;
    pcm[1] = -2;
    pcm[3] = 7;
    let v = i2s::fill_chunk(&pcm, 2);
    // The right sample is in the high half.
    assert_eq!(v[0], 0xfffe_1234);
    assert_eq!(v[1], 0);
    assert_eq!(i2s::dma_chunk(0x2000_0800, 0x2000_0000), 1);
    assert_eq!(i2s::dma_chunk(0x2000_4000, 0x2000_0000), 0);
}

#[test]
fn a_running_program_visits_its_addresses() {
    assert_eq!(i2s::address_histogram(&[0, 1, 1, 7]), 0x1000_0021);
    let mut e = i2s::EdgeCount::new(false);
    for level in [true, true, false, true] {
        e.see(level);
    }
    assert_eq!(e.report(), 0x0003_0003);
}
