//! The shell: output buffering, line editing, parsing and the replies.

use rp235x::command::{dispatch, LedVerb, PinVerb, Verb, WifiVerb};
use rp235x::console::{
    parse_hex_bytes, parse_hex_u32, parse_hex_u8, parse_u32, parse_u8, split_words,
    subcommand_rest, trim, trim_start, word_end, Key, LineEditor, Out,
};
use rp235x::errors::SdError;
use rp235x::report;
use rp235x::shell::{led_plan, pin_op, PinOp, Shell};

#[test]
fn output_keeps_its_order() {
    let mut o = Out::new();
    let mut seen: Vec<u8> = Vec::new();
    let text: Vec<u8> = (0..1000u32).map(|i| (i % 256) as u8).collect();
    for part in text.chunks(7) {
        for piece in o.put(part) {
            assert_eq!(piece.len(), 256);
            seen.extend_from_slice(&piece);
        }
    }
    if let Some(rest) = o.flush() {
        seen.extend_from_slice(&rest);
    }
    assert_eq!(seen, text);
    assert!(o.flush().is_none());
}

#[test]
fn lines_are_edited() {
    let mut e = LineEditor::new();
    assert!(matches!(e.key(b'h'), Key::Echo(_)));
    e.key(b'x');
    match e.key(8) {
        Key::Echo(v) => assert_eq!(v, [8, 32, 8]),
        _ => panic!("no echo"),
    }
    e.key(b'i');
    assert!(matches!(e.key(27), Key::Ignored));
    match e.key(13) {
        Key::Submit(v) => assert_eq!(v, b"hi"),
        _ => panic!("not submitted"),
    }
    assert!(matches!(e.key(0x7f), Key::Ignored));
    match e.key(10) {
        Key::Submit(v) => assert!(v.is_empty()),
        _ => panic!("not submitted"),
    }
}

#[test]
fn long_lines_are_cut() {
    let mut e = LineEditor::new();
    for _ in 0..128 {
        assert!(matches!(e.key(b'a'), Key::Echo(_)));
    }
    assert!(matches!(e.key(b'a'), Key::Ignored));
    match e.key(13) {
        Key::Submit(v) => assert_eq!(v.len(), 128),
        _ => panic!("not submitted"),
    }
}

#[test]
fn words_are_split() {
    assert_eq!(split_words(b"  led  on "), vec![b"led".to_vec(), b"on".to_vec()]);
    assert!(split_words(b"   ").is_empty());
    assert_eq!(word_end(b"ab cd", 0), 2);
    assert_eq!(trim(b"  x y  "), b"x y");
    assert_eq!(trim_start(b"  x "), b"x ");
    assert_eq!(subcommand_rest(b"uart send  hello world", b"send"), b"hello world");
}

#[test]
fn all_white_space_separates_words() {
    let spaces = [
        '\u{9}', '\u{a}', '\u{b}', '\u{c}', '\u{d}', ' ', '\u{85}', '\u{a0}', '\u{1680}', '\u{2000}',
        '\u{200a}', '\u{2028}', '\u{2029}', '\u{202f}', '\u{205f}', '\u{3000}',
    ];
    for c in spaces {
        assert!(c.is_whitespace());
        let line = format!("{c}ab{c}{c}cd {c}");
        assert_eq!(split_words(line.as_bytes()), vec![b"ab".to_vec(), b"cd".to_vec()]);
        assert_eq!(trim(line.as_bytes()), line.trim().as_bytes());
        assert_eq!(trim_start(line.as_bytes()), line.trim_start().as_bytes());
        assert_eq!(parse_hex_bytes(format!("a5{c}5a").as_bytes(), 32), Some(vec![0xa5, 0x5a]));
        let c = dispatch(format!("sd write NOTE.TXT{c}{c}some text").as_bytes());
        assert_eq!(c.name, b"NOTE.TXT");
        assert_eq!(c.data, b"some text");
    }
    for c in (0..0x3100u32).filter_map(char::from_u32) {
        let words = split_words(format!("a{c}b").as_bytes()).len();
        assert_eq!(words, if c.is_whitespace() { 2 } else { 1 });
    }
    // Neighbours of white space are not.
    for c in ['\u{84}', '\u{a1}', '\u{200b}', '\u{2030}', '\u{3001}', '\u{e9}'] {
        assert!(!c.is_whitespace());
        let word = format!("a{c}b");
        assert_eq!(split_words(word.as_bytes()), vec![word.as_bytes().to_vec()]);
        let edge = format!("{c}a{c}");
        assert_eq!(trim(edge.as_bytes()), edge.as_bytes());
    }
}

#[test]
fn numbers_are_parsed() {
    assert_eq!(parse_u32(b"4294967295"), Some(4294967295));
    assert_eq!(parse_u32(b"4294967296"), None);
    assert_eq!(parse_u32(b"12x"), None);
    assert_eq!(parse_u32(b""), None);
    assert_eq!(parse_u8(b"255"), Some(255));
    assert_eq!(parse_u8(b"256"), None);
    assert_eq!(parse_u8(b"+7"), Some(7));
    assert_eq!(parse_hex_u32(b"fFfF"), Some(0xffff));
    assert_eq!(parse_hex_u8(b"1g"), None);
    assert_eq!(parse_hex_bytes(b"a5 5a3c", 32), Some(vec![0xa5, 0x5a, 0x3c]));
    assert_eq!(parse_hex_bytes(b"a5 5", 32), None);
    assert_eq!(parse_hex_bytes(b"+f", 32), None);
    assert_eq!(parse_hex_bytes(b"a5 f+", 32), None);
    assert_eq!(parse_hex_bytes(b"a55a", 1), None);
    assert_eq!(parse_hex_bytes(b"", 1), Some(vec![]));
}

#[test]
fn commands_are_understood() {
    assert!(matches!(dispatch(b"").verb, Verb::Nothing));
    assert!(matches!(dispatch(b"help").verb, Verb::Help));
    assert!(matches!(dispatch(b"led blink").verb, Verb::Led { verb: LedVerb::Blink }));
    assert!(matches!(dispatch(b"led dim 40").verb, Verb::LedDim { pct: 40 }));
    assert!(matches!(dispatch(b"gpio read 7").verb, Verb::Gpio { verb: PinVerb::Read, pin: 7 }));
    assert!(matches!(dispatch(b"wifi mac").verb, Verb::Wifi { verb: WifiVerb::Mac }));
    assert!(matches!(dispatch(b"i2c scan").verb, Verb::I2cScan));
    assert!(matches!(dispatch(b"adc read 4").verb, Verb::AdcRead { ch: 4 }));
    assert!(matches!(dispatch(b"flash erase 1000").verb, Verb::FlashErase { off: 0x1000 }));
    assert!(matches!(dispatch(b"rgb 1 2 3").verb, Verb::Rgb { grb: 0x0002_0103 }));
    assert!(matches!(dispatch(b"reboot bootsel").verb, Verb::Reboot { bootsel: 1 }));
    assert!(matches!(dispatch(b"reboot").verb, Verb::Reboot { bootsel: 0 }));
}

#[test]
fn commands_carry_their_bytes() {
    let c = dispatch(b"uart send hello there");
    assert!(matches!(c.verb, Verb::UartSend));
    assert_eq!(c.data, b"hello there");
    let c = dispatch(b"spi xfer a5 5a 3c");
    assert!(matches!(c.verb, Verb::SpiXfer));
    assert_eq!(c.data, vec![0xa5, 0x5a, 0x3c]);
    let c = dispatch(b"sd write NOTE.TXT some text");
    assert!(matches!(c.verb, Verb::SdWrite));
    assert_eq!(c.name, b"NOTE.TXT");
    assert_eq!(c.data, b"some text");
}

#[test]
fn a_clock_setting_is_packed() {
    match dispatch(b"rtc set 25 12 31 23 59 58").verb {
        Verb::RtcSet { packed } => assert_eq!(packed, 0x0019_010c_1f17_3b3a),
        _ => panic!("not understood"),
    }
}

#[test]
fn an_update_needs_a_size_and_a_checksum() {
    assert!(matches!(dispatch(b"update 100 deadbeef").verb, Verb::Update { size: 0x100, crc: 0xdead_beef }));
    assert!(matches!(dispatch(b"update 40001 0").verb, Verb::Say));
    assert!(matches!(dispatch(b"update 100").verb, Verb::Say));
}

#[test]
fn wrong_commands_are_answered() {
    let c = dispatch(b"adc read x");
    assert!(matches!(c.verb, Verb::Say));
    assert_eq!(c.data, b"usage: adc read <0-4>\r\n");
    let c = dispatch(b"flash read zz");
    assert_eq!(c.data, b"bad offset (hex, e.g. flash read 160)\r\n");
}

#[test]
fn the_heartbeat_stops_for_the_led() {
    let mut s = Shell::new();
    let mut toggles = 0;
    for _ in 0..50 {
        if s.idle_turn() {
            toggles += 1;
        }
    }
    assert_eq!(toggles, 2);
    s.note(Verb::Led { verb: LedVerb::On });
    for _ in 0..50 {
        assert!(!s.idle_turn());
    }
    s.note(Verb::Led { verb: LedVerb::Blink });
    let mut toggles = 0;
    for _ in 0..50 {
        if s.idle_turn() {
            toggles += 1;
        }
    }
    assert_eq!(toggles, 2);
}

#[test]
fn pin_commands_become_operations() {
    assert!(pin_op(PinVerb::High, 3) == PinOp::SetHigh { pin: 3 });
    assert!(pin_op(PinVerb::Read, 4) == PinOp::Read { pin: 4 });
    let p = led_plan(Verb::LedDim { pct: 10 });
    assert!(p.prepare.is_empty());
    assert_eq!(
        p.act,
        vec![
            PinOp::SetFunction { pin: 25, function: 4 },
            PinOp::SetDuty { slice: 4, channel: 1, percent: 10 },
        ]
    );
    let p = led_plan(Verb::Led { verb: LedVerb::Off });
    assert_eq!(p.prepare, vec![PinOp::DisableSlice { slice: 4 }, PinOp::ConfigureOutput { pin: 25 }]);
    assert_eq!(p.act, vec![PinOp::SetLow { pin: 25 }]);
}

#[test]
fn replies_are_formatted() {
    assert_eq!(report::temp(876), b"die temp 27.1 C (raw 876)\r\n");
    assert_eq!(report::temp(4095), b"die temp -1479.7 C (raw 4095)\r\n");
    assert_eq!(report::temp_reply(None), b"adc error\r\n");
    assert_eq!(
        report::bench_report("x ", 1000, 10, 200_000),
        b"x 1000 bytes in 10 ms = 100000 B/s (50% of 200000 theoretical)\r\n"
    );
    assert_eq!(report::rtc_time(0x0019_010c_1f17_3b3a), b"2025-12-31 23:59:58\r\n");
    assert_eq!(
        report::hexdump(0x10, b"ABCDEFGHIJKLMNOP\n"),
        b"00000010: 41 42 43 44 45 46 47 48 49 4a 4b 4c 4d 4e 4f 50  |ABCDEFGHIJKLMNOP|\r\n00000020: 0a  |.|\r\n"
    );
    assert_eq!(report::sd_init_reply(Ok(3)), b"init ok: SDv2 SDHC/block-addressed\r\n");
    assert_eq!(report::sd_init_reply(Err(SdError::Timeout)), b"init error 2\r\n");
    assert_eq!(report::tick_line(7, 3, true), b"tick 7 uart_rx=3 spi=OK\r\n");
    assert_eq!(report::tick_line(7, 0, false), b"tick 7 uart_rx=0 spi=BAD\r\n");
}

#[test]
fn slots_are_reported() {
    assert_eq!(
        report::slot_report(8, [0xd3, 0xde, 0xff, 0xff, 0x0a, 0, 0, 0], 1, 2, 0x2000),
        b"flash[0..8] n=8 bytes=d3 de ff ff 0a 00 00 00 \r\nverA=00000001 verB=00000002 target=0x00002000\r\n"
    );
}

#[test]
fn printable_runs_are_found() {
    let mut block = vec![0u8; 512];
    block[5..9].copy_from_slice(b"abcd");
    block[20..23].copy_from_slice(b"xyz");
    block[508..].copy_from_slice(b"tail");
    let (text, hits) = report::find_runs(9, &block);
    assert_eq!(text, b"9+5: abcd\r\n9+508: tail\r\n");
    assert_eq!(hits, 2);
    assert_eq!(report::find_done(2), b"done, 2 run(s)\r\n");
    assert_eq!(report::find_error(9), b"read error at block 9\r\n");
}

#[test]
fn the_help_names_every_command() {
    let h = String::from_utf8(report::help()).expect("text");
    for name in ["status", "led", "gpio", "uart", "spi", "i2c", "flash", "rom", "temp", "adc", "sd ", "rtc", "core1", "slink", "rgb"] {
        assert!(h.contains(name), "{}", name);
    }
}
