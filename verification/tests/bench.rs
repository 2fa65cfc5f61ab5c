//! The benches, the search for text, and what commands say.

use rp235x::bench::{
    bus_report, i2c_all_line, i2c_all_untried, i2c_bench_reply, reportable, Bench, Bus, Find,
    I2C_PIECE, PIECE,
};
use rp235x::board::version_word;
use rp235x::command::{LedVerb, Verb, WifiVerb};
use rp235x::fat::{cat_next, fat_removed, CatNext};
use rp235x::report::{announcement, led_reply, rgb_reply, wifi_led_reply};

fn text(v: Vec<u8>) -> String {
    String::from_utf8(v).unwrap()
}

#[test]
fn a_bench_goes_in_pieces() {
    let mut b = Bench::begin(600, PIECE);
    let mut pieces: Vec<u32> = Vec::new();
    while let Some(n) = b.next() {
        pieces.push(n);
        b.moved(true);
    }
    assert_eq!(pieces, vec![256, 256, 88]);
    assert_eq!(b.done, 600);
    assert!(!b.failed);
}

#[test]
fn an_empty_bench_is_over_at_once() {
    assert_eq!(Bench::begin(0, PIECE).next(), None);
}

#[test]
fn a_failed_piece_ends_a_bench() {
    let mut b = Bench::begin(100, I2C_PIECE);
    b.moved(true);
    b.moved(false);
    assert_eq!(b.next(), None);
    assert_eq!(b.done, 32);
    assert_eq!(
        text(i2c_bench_reply(&b, 5, 100)),
        "i2c bench: read error (target present?)\r\n"
    );
    assert_eq!(
        text(i2c_all_line(&b, 5, 100)),
        "  i2c:   no target at that address\r\n"
    );
}

#[test]
fn a_good_bench_is_reported() {
    let mut b = Bench::begin(4096, I2C_PIECE);
    while b.next().is_some() {
        b.moved(true);
    }
    assert_eq!(
        text(i2c_bench_reply(&b, 400, 100)),
        "i2c: 4096 bytes in 400 ms = 10240 B/s (92% of 11111 theoretical)\r\n"
    );
    assert_eq!(
        text(i2c_all_line(&b, 400, 100)),
        "  i2c:   4096 bytes in 400 ms = 10240 B/s (92% of 11111 theoretical)\r\n"
    );
    assert_eq!(
        text(bus_report(Bus::UartOut, 4096, 356)),
        "uart tx: 4096 bytes in 356 ms = 11505 B/s (99% of 11520 theoretical)\r\n"
    );
    assert_eq!(
        text(bus_report(Bus::UartIn, 0, 3000)),
        "uart rx: 0 bytes in 3000 ms = 0 B/s (0% of 11520 theoretical)\r\n"
    );
    assert_eq!(
        text(bus_report(Bus::Spi, 4096, 0)),
        "spi: 4096 bytes in 0 ms = 0 B/s (0% of 187500 theoretical)\r\n"
    );
    assert!(text(bus_report(Bus::UartInTable, 4096, 356)).starts_with("  uart:  4096"));
    assert!(text(bus_report(Bus::SpiInTable, 4096, 22)).starts_with("  spi:   4096"));
    assert_eq!(
        text(i2c_all_untried()),
        "  i2c:   (give a target addr: `bench all 42`)\r\n"
    );
}

#[test]
fn a_rate_beyond_the_report_is_told() {
    assert!(reportable(4096, 356));
    assert!(reportable(u32::MAX, 0));
    assert!(!reportable(0x1000_0000, 1000));
}

#[test]
fn a_search_goes_block_by_block() {
    let mut f = Find::begin(u32::MAX, 2);
    let mut block = [0u8; 512];
    block[3..7].copy_from_slice(b"boot");
    assert_eq!(f.next(), Some(u32::MAX));
    assert_eq!(text(f.feed(Some(&block))), "4294967295+3: boot\r\n");
    assert_eq!(f.next(), Some(0));
    assert_eq!(text(f.feed(Some(&[0u8; 512]))), "");
    assert_eq!(f.next(), None);
    assert_eq!(text(f.finish()), "done, 1 run(s)\r\n");
}

#[test]
fn a_search_stops_at_a_bad_block() {
    let mut f = Find::begin(7, 5);
    assert_eq!(text(f.feed(Some(b"abcd\0efgh"))), "7+0: abcd\r\n7+5: efgh\r\n");
    assert_eq!(text(f.feed(None)), "read error at block 8\r\n");
    assert_eq!(f.next(), None);
    assert_eq!(text(f.feed(Some(b"abcd"))), "");
    assert_eq!(text(f.finish()), "done, 2 run(s)\r\n");
}

#[test]
fn led_replies() {
    let unknown = Verb::Led { verb: LedVerb::Unknown };
    assert_eq!(text(led_reply(unknown, true)), "usage: led on|off|toggle|blink\r\n");
    assert_eq!(text(led_reply(Verb::Led { verb: LedVerb::On }, true)), "ok\r\n");
    assert_eq!(text(led_reply(Verb::LedDim { pct: 3 }, false)), "error\r\n");
    assert_eq!(text(rgb_reply(true)), "ok\r\n");
    assert_eq!(text(rgb_reply(false)), "error\r\n");
    assert_eq!(text(wifi_led_reply(true)), "led on\r\n");
    assert_eq!(text(wifi_led_reply(false)), "led off\r\n");
}

#[test]
fn commands_announce_themselves() {
    assert_eq!(text(announcement(Verb::BenchAll)), "bus throughput (4096 bytes each):\r\n");
    assert_eq!(
        text(announcement(Verb::Wifi { verb: WifiVerb::Scan })),
        "scanning...\r\n"
    );
    assert_eq!(
        text(announcement(Verb::Wifi { verb: WifiVerb::Ap })),
        "starting AP 'Pico2W-Setup'...\r\n"
    );
    assert_eq!(
        text(announcement(Verb::UartUpdate { size: 1, crc: 2 })),
        "waiting for image over UART...\r\n"
    );
    assert_eq!(text(announcement(Verb::SlinkListen { ms: 5 })), "listening 5 ms...\r\n");
    assert_eq!(
        text(announcement(Verb::Crash)),
        "crashing shell (jefe should restart me)...\r\n"
    );
    assert_eq!(text(announcement(Verb::Ticks)), "");
}

#[test]
fn a_version_is_two_numbers() {
    assert_eq!(version_word(b"1.0"), Some(0x0001_0000));
    assert_eq!(version_word(b"3"), Some(0x0003_0000));
    assert_eq!(version_word(b"2.7"), Some(0x0002_0007));
    assert_eq!(version_word(b"65535.65535"), Some(0xffff_ffff));
    assert_eq!(version_word(b"65536.0"), None);
    assert_eq!(version_word(b"1."), None);
    assert_eq!(version_word(b"1.2.3"), None);
    assert_eq!(version_word(b""), None);
}

#[test]
fn a_file_is_printed_to_its_end() {
    assert_eq!(cat_next(Some(64), false), CatNext::More);
    assert_eq!(cat_next(Some(64), true), CatNext::Done);
    assert_eq!(cat_next(Some(0), false), CatNext::Done);
    assert_eq!(cat_next(None, false), CatNext::Failed);
    assert_eq!(text(fat_removed()), "removed\r\n");
}
