//! The smaller devices: S-Link, the clock, I2C, the display, the mailbox,
//! pins, the serial port and the board.

use rp235x::board;
use rp235x::ds1302;
use rp235x::errors::{AdcError, Ds1302Error, GpioError, I2cError, St7789Error, Ws2812Error};
use rp235x::gpio::{operate, read, Pad, PinRequest, PinWrite};
use rp235x::i2c::{probe, set_speed, BusOp, Cond, Next, Seen, TargetOp, Transfer, Window};
use rp235x::mailbox::{bench_request, bench_time, next_beat, respond, Act, Exchange, Status};
use rp235x::slink::{
    classify, frame_valid, send, stress_frame, Flood, Pulse, Receiver, Soak, Symbol, Widths,
};
use rp235x::st7789;
use rp235x::text;
use rp235x::uart::{baud_registers, write_u32};
use rp235x::words;

// Play pulses to a receiver that looks at the line.
fn hear(pulses: &[Pulse], widths: &mut Widths) -> Option<u32> {
    let mut r = Receiver::begin(100);
    let mut line: Vec<bool> = Vec::new();
    for p in pulses {
        for _ in 0..p.us {
            line.push(!p.low);
        }
    }
    let mut now = 0usize;
    loop {
        let high = if now < line.len() { line[now] } else { true };
        assert!(r.may_look());
        let s = r.look(high, widths);
        now += s.wait_us as usize;
        if s.done.is_some() {
            return s.done;
        }
        assert!(now < 1_000_000);
    }
}

#[test]
fn a_frame_is_heard_as_it_was_sent() {
    let mut w = Widths::new();
    assert_eq!(hear(&send(0xa5, 0x3c, 0x81, 3), &mut w), Some(0x03a5_3c81));
    assert_eq!(hear(&send(0xa5, 0x3c, 0x81, 2), &mut w), Some(0x02a5_3c00));
    assert_eq!(hear(&send(0, 0, 0, 200), &mut w), Some(0x0300_0000));
    assert_eq!((w.ones.min, w.ones.max), (1200, 1200));
    assert_eq!((w.zeros.min, w.zeros.max), (600, 600));
    assert_eq!(w.ones.margin(), 1200 << 16 | 1200);
}

#[test]
fn a_quiet_line_is_given_up() {
    let mut w = Widths::new();
    assert_eq!(hear(&[], &mut w), Some(0));
    // Noise is no frame.
    let noise = [Pulse { low: true, us: 500 }];
    assert_eq!(hear(&noise, &mut w), Some(0));
    assert_eq!(w.ones.margin(), 0);
}

#[test]
fn marks_have_meanings() {
    assert_eq!(classify(2400), Symbol::Sync);
    assert_eq!(classify(1799), Symbol::One);
    assert_eq!(classify(900), Symbol::One);
    assert_eq!(classify(899), Symbol::Zero);
    assert_eq!(classify(299), Symbol::Glitch);
}

#[test]
fn a_flood_is_all_good() {
    let mut f = Flood::begin(3);
    let mut s = Soak::begin(3);
    let mut w = Widths::new();
    assert!(s.more(0, 10));
    assert!(!s.more(10, 10));
    while let Some(p) = f.next() {
        assert_eq!(p.last().map(|p| p.us), Some(5000));
        let r = hear(&p, &mut w).expect("a frame");
        s.count(r);
    }
    assert_eq!((s.good, s.bad), (3, 0));
    assert!(!s.more(0, 10));
    assert_eq!(s.result(), 3);
    let mut s = Soak::begin(3);
    s.count(0);
    s.count(0x0301_0203);
    assert_eq!(s.result(), 1 << 16);
}

#[test]
fn stress_frames_check_themselves() {
    assert_eq!(stress_frame(0xff), [0xff, 0x5a, 0x32]);
    assert!(frame_valid(0xff, 0x5a, 0x32));
    assert!(!frame_valid(0xff, 0x5a, 0x33));
    assert!(!frame_valid(0xff, 0x5b, 0x32));
}

#[test]
fn the_clock_counts_in_decimal() {
    assert_eq!(ds1302::bcd2dec(0x59), 59);
    assert_eq!(ds1302::dec2bcd(59), 0x59);
    for d in 0..100u8 {
        assert_eq!(ds1302::bcd2dec(ds1302::dec2bcd(d)), d);
    }
}

#[test]
fn the_clock_tells_what_it_was_set_to() {
    let packed = 0x0019_010c_1f17_3b3a;
    let ws = ds1302::set(packed).ok().expect("a time");
    assert_eq!((ws[0].cmd, ws[0].val), (0x8e, 0));
    assert_eq!((ws[1].cmd, ws[1].val), (0x80, 0x58));
    let mut raw = [0u8; 7];
    for i in 0..7 {
        raw[i] = ws[i + 1].val;
    }
    assert_eq!(ds1302::now(raw), packed);
    // Status bits do not count.
    raw[0] |= 0x80;
    assert_eq!(ds1302::now(raw), packed);
    assert_eq!(ds1302::read_commands()[6], 0x8d);
}

#[test]
fn impossible_times_are_refused() {
    for bad in [
        60,
        60 << 8,
        24 << 16,
        0x0000_0001_0000_0000,
        32 << 24 | 1 << 32,
        1 << 24,
        1 << 24 | 13 << 32,
        1 << 24 | 1 << 32 | 8 << 40,
        1 << 24 | 1 << 32 | 100 << 48,
    ] {
        assert!(ds1302::set(bad).err() == Some(Ds1302Error::BadArg), "{:x}", bad);
    }
    assert!(ds1302::set(1 << 24 | 1 << 32).is_ok());
}

#[test]
fn bytes_cross_the_wire() {
    let w = ds1302::write_reg(ds1302::RegWrite { cmd: 0x80, val: 0x05 });
    assert_eq!(w.len(), 18);
    assert_eq!(w[0], ds1302::Wire::Enable(true));
    assert_eq!(w[8], ds1302::Wire::Out(true));
    assert_eq!(w[9], ds1302::Wire::Out(true));
    assert_eq!(w[10], ds1302::Wire::Out(false));
    let r = ds1302::read_reg(0x81);
    assert_eq!(r.iter().filter(|s| **s == ds1302::Wire::In).count(), 8);
    assert_eq!(r[9], ds1302::Wire::Release);
    let bits = [true, false, true, false, false, false, false, true];
    assert_eq!(ds1302::byte_in(bits), 0x85);
}

#[test]
fn the_bus_is_timed() {
    let t = set_speed(100);
    assert_eq!((t.fast, t.hcnt, t.lcnt), (false, 600, 900));
    let t = set_speed(400);
    assert_eq!((t.fast, t.hcnt, t.lcnt), (true, 150, 225));
    let t = set_speed(0);
    assert_eq!((t.fast, t.hcnt, t.lcnt), (false, 60_000, 24_464));
}

fn seen(abort: bool, ready: bool, byte: u8) -> Seen {
    Seen { abort, ready, byte }
}

#[test]
fn a_write_goes_out_byte_by_byte() {
    let mut t = Transfer::write(vec![7, 8]);
    let (ops, n) = t.next(seen(false, false, 0));
    assert!(ops.is_empty() && n == Next::Look(Cond::Room));
    let (ops, _) = t.next(seen(false, true, 0));
    assert_eq!(ops, vec![BusOp::Send { byte: 7, stop: false }]);
    let (ops, n) = t.next(seen(false, true, 0));
    assert_eq!(ops, vec![BusOp::Send { byte: 8, stop: true }]);
    assert_eq!(n, Next::Look(Cond::Stop));
    let (ops, n) = t.next(seen(false, true, 0));
    assert_eq!(ops, vec![BusOp::ClearStop]);
    assert_eq!(n, Next::Look(Cond::Abort));
    let (ops, n) = t.next(seen(false, false, 0));
    assert!(ops.is_empty());
    assert_eq!(n, Next::Done(Ok(())));
}

#[test]
fn a_read_comes_in_byte_by_byte() {
    let mut t = Transfer::read(2);
    let (ops, n) = t.next(seen(false, true, 0));
    assert_eq!(ops, vec![BusOp::Fetch { stop: false }]);
    assert_eq!(n, Next::Look(Cond::Data));
    let (_, n) = t.next(seen(false, true, 0x11));
    assert_eq!(n, Next::Look(Cond::Room));
    let (ops, _) = t.next(seen(false, true, 0));
    assert_eq!(ops, vec![BusOp::Fetch { stop: true }]);
    let (_, n) = t.next(seen(false, true, 0x22));
    assert_eq!(n, Next::Done(Ok(())));
    assert_eq!(t.bytes(), &vec![0x11, 0x22]);
}

#[test]
fn an_empty_address_answers_no() {
    let mut t = Transfer::read(1);
    let (ops, n) = t.next(seen(true, false, 0));
    assert_eq!(ops, vec![BusOp::ClearAbort]);
    assert_eq!(n, Next::Done(Err(I2cError::Nak)));
    assert!(probe(Err(I2cError::Nak)) == Ok(false));
    assert!(probe(Ok(())) == Ok(true));
    assert!(probe(Err(I2cError::Timeout)) == Err(I2cError::Timeout));
}

#[test]
fn a_stuck_bus_times_out() {
    let mut t = Transfer::read(1);
    let mut looks = 0u32;
    loop {
        looks += 1;
        let (_, n) = t.next(seen(false, false, 0));
        if let Next::Done(r) = n {
            assert_eq!(r, Err(I2cError::Timeout));
            break;
        }
    }
    assert_eq!(looks, 2_000_000);
}

#[test]
fn a_target_serves_its_window() {
    let mut w = Window::new();
    assert!(w.on_interrupt(true, false, false) == vec![TargetOp::ClearRequest]);
    w.serve(&[1, 2]);
    assert_eq!(
        w.on_interrupt(true, true, true),
        vec![
            TargetOp::ClearRequest,
            TargetOp::Load(1),
            TargetOp::Load(2),
            TargetOp::ClearAbort,
            TargetOp::Drain,
        ]
    );
    assert!(w.on_interrupt(false, false, false).is_empty());
}

#[test]
fn rectangles_are_clipped() {
    let f = st7789::fill_rect(230, 130, 100, 100, 0x1234);
    assert_eq!(f.len(), 3);
    assert_eq!((f[0].cmd, f[0].data.clone()), (0x2a, vec![1, 14, 1, 23]));
    assert_eq!((f[1].cmd, f[1].data.clone()), (0x2b, vec![0, 183, 0, 187]));
    assert_eq!((f[2].cmd, f[2].data.clone(), f[2].times), (0x2c, vec![0x12, 0x34], 50));
    assert!(st7789::fill_rect(240, 0, 1, 1, 0).is_empty());
    assert!(st7789::fill_rect(0, 0, 0, 1, 0).is_empty());
    assert!(st7789::rect(240, 0, 1, 1, 0).err() == Some(St7789Error::BadArg));
    assert!(st7789::rect(239, 134, 1, 1, 0).is_ok());
    assert_eq!(st7789::fill(0)[2].times, 32_400);
    let b = st7789::bars();
    assert_eq!(b.len(), 24);
    assert_eq!(b[5].data, vec![0xff, 0xe0]);
}

#[test]
fn letters_are_drawn() {
    // The letter A of the font, with its left-most dot in the lowest bit.
    let rows = [0x0c, 0x1e, 0x33, 0x33, 0x3f, 0x33, 0x33, 0x00];
    let want = st7789::glyph(1, 2, rows, 0xffff);
    let got = st7789::text(1, 2, 0xffff, b"A").ok().expect("on the panel");
    assert_eq!(got.len(), 3);
    for i in 0..3 {
        assert_eq!(got[i].cmd, want[i].cmd);
        assert_eq!(got[i].data, want[i].data);
    }
    // The top row of the A: dots 2 and 3, twice as wide.
    let top: Vec<bool> = got[2].data.chunks(2).take(16).map(|p| p == [0xff, 0xff]).collect();
    let dots: Vec<usize> = (0..16).filter(|i| top[*i]).collect();
    assert_eq!(dots, vec![4, 5, 6, 7]);
    assert_eq!(got[2].data.len(), 512);
}

#[test]
fn text_runs_over_lines_and_stops_at_the_end() {
    let t = st7789::text(14, 0, 1, b"ab").ok().expect("on the panel");
    assert_eq!(t.len(), 6);
    assert_eq!(t[0].data, vec![1, 8, 1, 23]);
    assert_eq!(t[3].data, vec![0, 40, 0, 55]);
    assert_eq!(t[4].data, vec![0, 69, 0, 84]);
    let t = st7789::text(14, 7, 1, b"abc").ok().expect("on the panel");
    assert_eq!(t.len(), 3);
    let t = st7789::text(0, 0, 1, &[b'x'; 100]).ok().expect("on the panel");
    assert_eq!(t.len(), 48 * 3);
    // Beyond the font there is nothing to draw.
    let t = st7789::text(0, 0, 1, &[200]).ok().expect("on the panel");
    assert_eq!(t[2].data, vec![0u8; 512]);
    assert!(st7789::text(15, 0, 1, b"a").is_err());
    assert!(st7789::text(0, 8, 1, b"a").is_err());
}

#[test]
fn the_panel_is_cleared_before_it_is_lit() {
    let v = st7789::panel_init();
    assert!(matches!(v[0], st7789::Start::Reset(false)));
    assert!(matches!(v[v.len() - 1], st7789::Start::Backlight(true)));
    assert!(matches!(&v[v.len() - 2], st7789::Start::Send(f) if f.cmd == 0x2c && f.times == 32_400));
    let lights = v.iter().filter(|s| matches!(s, st7789::Start::Backlight(_))).count();
    assert_eq!(lights, 1);
}

#[test]
fn an_answer_follows_its_request() {
    let mut x = Exchange::begin(21);
    let full = Status { valid: true, ready: true };
    let empty = Status { valid: false, ready: true };
    assert_eq!(x.look(full), Act::Discard);
    assert_eq!(x.look(empty), Act::Look);
    assert_eq!(x.look(Status { valid: false, ready: false }), Act::Look);
    assert_eq!(x.look(empty), Act::Write(21));
    assert_eq!(x.look(empty), Act::Look);
    assert_eq!(x.look(full), Act::Take);

    let mut x = Exchange::begin(1);
    x.look(empty);
    x.look(empty);
    let mut looks = 0u32;
    while x.look(empty) != Act::GiveUp {
        looks += 1;
    }
    assert_eq!(looks, 5_000_000);
}

#[test]
fn the_second_core_answers() {
    let mut buf = vec![0u32; 1024];
    buf[0] = 0xffff_ffff;
    buf[1] = 2;
    buf[2] = 100;
    assert_eq!(respond(21, &buf), 43);
    assert_eq!(respond(0x7fff_ffff, &buf), 0xffff_ffff);
    assert_eq!(respond(0x8000_0008, &buf), 1);
    assert_eq!(respond(0x8000_000b, &buf), 1);
    assert_eq!(respond(0xffff_ffff, &buf), 101);
    assert_eq!(bench_request(3, 2), Some(2));
    assert_eq!(bench_request(3, 3), None);
    assert_eq!(bench_time(10, 0x1_0000_0015), 11);
    assert_eq!(next_beat(0xffff_ffff), 0);
}

#[test]
fn pins_are_operated() {
    assert!(operate(25, PinRequest::Toggle) == Ok(vec![PinWrite::Toggle(1 << 25)]));
    assert!(operate(31, PinRequest::High) == Ok(vec![PinWrite::Raise(1 << 31)]));
    assert!(operate(0, PinRequest::Low) == Ok(vec![PinWrite::Lower(1)]));
    assert!(operate(32, PinRequest::Low) == Err(GpioError::InvalidPin));
    assert!(operate(3, PinRequest::Function(0x20)) == Err(GpioError::InvalidPin));
    assert!(
        operate(3, PinRequest::Input)
            == Ok(vec![
                PinWrite::Pad(3, Pad { output_off: true, input_on: true }),
                PinWrite::Function(3, 5),
                PinWrite::Release(8),
            ])
    );
    assert!(read(7, 0x80) == Ok(1));
    assert!(read(8, 0x80) == Ok(0));
    assert!(read(32, 0x80) == Err(GpioError::InvalidPin));
}

#[test]
fn the_serial_port_is_timed() {
    assert_eq!(baud_registers(150_000_000), (81, 24));
    assert_eq!(baud_registers(12_000_000), (6, 33));
    assert_eq!(baud_registers(1000), (1, 0));
    assert_eq!(write_u32(0), b"0");
    assert_eq!(write_u32(4_294_967_295), b"4294967295");
}

#[test]
fn blocks_leave_their_reset() {
    assert_eq!(board::leave_reset(0xffff_ffff, board::ADC | board::DMA), 0xffff_fffa);
    assert_eq!(board::enter_reset(0, board::USBCTRL), 0x1000_0000);
    assert!(board::running(0x11, board::I2C0));
    assert!(!board::running(0x10, board::I2C0 | board::ADC));
    assert_eq!(board::cycles_per_ms(), 150_000);
}

#[test]
fn the_board_knows_itself() {
    assert_eq!(board::chip_id([0xcdef, 0x89ab, 0x4567, 0x0123]), 0x0123_4567_89ab_cdef);
    let (hi, lo) = board::id_words(0x0123_4567_89ab_cdef);
    assert_eq!((hi, lo), (0x0123_4567, 0x89ab_cdef));
    assert_eq!(board::id_from(hi, lo), 0x0123_4567_89ab_cdef);
    let d = board::image_def(0x0001_0002, 0x2_0000);
    assert_eq!((d[0], d[7], d[9], d[12]), (0xffff_ded3, 0x2_0000, 0x0001_0002, 0xab12_3579));
    assert!(board::wants_bootsel(0xb007_5e1f));
    assert!(!board::wants_bootsel(0));
    assert!(board::adc_channel(4) == Ok(4));
    assert!(board::adc_channel(5) == Err(AdcError::InvalidChannel));
}

#[test]
fn the_radio_is_probed() {
    let p = board::cyw43_probe();
    assert_eq!(p[0].word, 0x4000_a004);
    assert_eq!(p[1].word, 0xa004_4000);
    assert_eq!(p[3].word, 0x04b3_0002);
    assert!(!p[2].read && p[4].read);
    assert_eq!(board::probe_mark(3), 0x600d_0001);
    let mut back = 0u32;
    for bit in board::bits_out(0x8000_0001) {
        back = board::bit_in(back, bit);
    }
    assert_eq!(back, 0x8000_0001);
}

#[test]
fn the_colour_led_is_fed() {
    let mut l = board::LedSet::begin(0xff12_3456);
    assert!(l.look(true) == Ok(board::LedAct::Look));
    assert!(l.look(false) == Ok(board::LedAct::Put(0x1234_5600)));
    let mut l = board::LedSet { grb: 0, spins: 1_000_000 };
    assert!(l.look(true) == Err(Ws2812Error::Stalled));
}

#[test]
fn words_hold_bytes() {
    let w = words::pack(&[1, 2, 3, 4, 5], 2);
    assert_eq!(w, vec![0x0403_0201, 5]);
    assert_eq!(words::unpack(&w), vec![1, 2, 3, 4, 5, 0, 0, 0]);
    assert_eq!(words::get_byte(0x0403_0201, 2), 3);
    assert!(words::bit_of(0x80, 7));
    assert!(!words::bit_of(0x80, 6));
}

#[test]
fn numbers_are_written() {
    let mut v = Vec::new();
    text::append_u64(&mut v, 18_446_744_073_709_551_615);
    text::append_hex32(&mut v, 0xbeef);
    text::append_pad2(&mut v, 7);
    text::append_upper_hex(&mut v, 0xab, 4);
    assert_eq!(v, b"184467440737095516150000beef0700AB");
}
