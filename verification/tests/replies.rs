//! What the shell replies, letter for letter.

use rp235x::audio::{file_codec, Codec};
use rp235x::errors::{FlashError, SdError};
use rp235x::fat::{fat_failure, FatCommand, FatStep};
use rp235x::report::{
    adc_reply, bytes_read, core1_bulk, core1_pipe, core1_speed, core1_stress, flash_erased,
    flash_programmed, flash_read_reply, gpio_level, gpio_reply, i2c_read_reply, i2c_scan,
    i2c_speed, i2c_target_reply, i2c_theoretical, i2c_write_reply, rom_entry, rtc_set_reply,
    sd_read_reply, slink_flooded, slink_heard, slink_sent, slink_soaked, spi_loaded,
    spi_received, spi_role_reply, spi_status, temp_reply, ticks, uart_received, uart_sent,
    uart_status, wifi_ap_reply, wifi_mac_reply, wifi_scan_reply, wifi_status_reply, FlashOutcome,
    SCAN_LEN,
};
use rp235x::usb::{EndpointType, Endpoints, Setup};

fn text(v: Vec<u8>) -> String {
    String::from_utf8(v).unwrap()
}

#[test]
fn the_uptime_is_told() {
    assert_eq!(text(ticks(12345)), "uptime 12345 ms\r\n");
    assert_eq!(text(ticks(0)), "uptime 0 ms\r\n");
}

#[test]
fn the_self_tests_tell_what_came_back() {
    assert_eq!(text(uart_status(15)), "uart: rx=15 (loopback OK)\r\n");
    assert_eq!(text(uart_status(0)), "uart: rx=0 (no loopback jumper?)\r\n");
    assert_eq!(text(uart_status(3)), "uart: rx=3\r\n");
    assert_eq!(text(spi_status(&[0xA5, 0x5A, 0x3C])), "spi:  loopback OK\r\n");
    assert_eq!(text(spi_status(&[0xA5, 0x5A, 0x3D])), "spi:  loopback FAILED\r\n");
}

#[test]
fn a_scan_lists_who_answered() {
    let mut answers = vec![false; SCAN_LEN];
    assert_eq!(text(i2c_scan(&answers)), "i2c:  no devices\r\n");
    answers[0] = true;
    answers[0x42 - 8] = true;
    assert_eq!(text(i2c_scan(&answers)), "i2c:  0x08, 0x42\r\n");
}

#[test]
fn pins_are_told() {
    assert_eq!(text(gpio_level(7, 1)), "pin 7 = 1\r\n");
    assert_eq!(text(gpio_level(25, 0)), "pin 25 = 0\r\n");
    assert_eq!(text(gpio_reply(true)), "ok\r\n");
    assert_eq!(text(gpio_reply(false)), "error (bad pin?)\r\n");
}

#[test]
fn uart_traffic_is_told() {
    assert_eq!(text(uart_sent(3)), "sent 5 bytes\r\n");
    assert_eq!(text(uart_received(b"a\x01~")), "rx 3 bytes: a\\x01~\r\n");
    assert_eq!(text(uart_received(b"")), "rx 0 bytes\r\n");
}

#[test]
fn spi_traffic_is_told() {
    assert_eq!(text(bytes_read(&[1, 0xff])), "rx: 01 ff\r\n");
    assert_eq!(text(spi_received(&[1, 0xff])), "rx 2: 01 ff\r\n");
    assert_eq!(text(spi_loaded(4)), "loaded 4 bytes into TX FIFO\r\n");
    assert_eq!(text(spi_role_reply(true)), "spi role = peripheral (slave)\r\n");
    assert_eq!(text(spi_role_reply(false)), "spi role = controller\r\n");
}

#[test]
fn i2c_traffic_is_told() {
    assert_eq!(text(i2c_read_reply(Some(&[0x10, 0x20]))), "rx: 10 20\r\n");
    assert_eq!(text(i2c_read_reply(None)), "error (nak/timeout)\r\n");
    assert_eq!(text(i2c_write_reply(true)), "ok\r\n");
    assert_eq!(text(i2c_write_reply(false)), "error (nak/timeout)\r\n");
    assert_eq!(
        text(i2c_target_reply(Some(7), 0x42)),
        "serving 7 bytes at 0x42 (this board is now an I2C target)\r\n"
    );
    assert_eq!(text(i2c_target_reply(None, 0x42)), "error\r\n");
    assert_eq!(text(i2c_speed(400)), "i2c speed set to 400 kHz\r\n");
    assert_eq!(i2c_theoretical(100), 11111);
    assert_eq!(i2c_theoretical(400), 44444);
}

#[test]
fn flash_operations_are_told() {
    let misaligned = FlashOutcome::Failed(FlashError::BadAlignment);
    let late = FlashOutcome::Failed(FlashError::Timeout);
    assert_eq!(text(flash_erased(FlashOutcome::Done)), "erased\r\n");
    assert_eq!(text(flash_erased(misaligned)), "not 4K-aligned\r\n");
    assert_eq!(text(flash_erased(late)), "error\r\n");
    assert_eq!(text(flash_programmed(FlashOutcome::Done)), "programmed\r\n");
    assert_eq!(text(flash_programmed(misaligned)), "crosses a page boundary\r\n");
    assert_eq!(text(flash_programmed(late)), "error\r\n");
    assert_eq!(text(flash_read_reply(0x160, Some(b"A\x00"))), "00000160: 41 00  |A.|\r\n");
    assert_eq!(text(flash_read_reply(0x160, None)), "error (bad address)\r\n");
}

#[test]
fn a_rom_code_is_told() {
    assert_eq!(text(rom_entry(b"FO", 0x1234)), "rom['FO'] = 0x00001234\r\n");
    assert_eq!(text(rom_entry(b"ZZ", 0)), "rom['ZZ'] = 0x00000000 (absent)\r\n");
}

#[test]
fn analog_values_are_told() {
    assert_eq!(text(adc_reply(2, Some(100))), "adc[2] = 100\r\n");
    assert_eq!(text(adc_reply(9, None)), "error (bad channel?)\r\n");
    assert_eq!(text(temp_reply(None)), "adc error\r\n");
}

#[test]
fn the_radio_is_told() {
    assert_eq!(text(wifi_mac_reply(Some([1, 2, 3, 4, 5, 15]))), "mac = 01:02:03:04:05:0f\r\n");
    assert_eq!(text(wifi_mac_reply(None)), "wifi not ready\r\n");
    assert_eq!(
        text(wifi_status_reply(Some(0xfeed_bead))),
        "status = 0xfeedbead (feedbead = up)\r\n"
    );
    assert_eq!(text(wifi_status_reply(None)), "wifi not ready\r\n");
    assert_eq!(text(wifi_scan_reply(Some(3))), "found 3 AP result frames\r\n");
    assert_eq!(text(wifi_scan_reply(None)), "scan failed\r\n");
    assert_eq!(text(wifi_ap_reply(Some(1))), "ap up, bss status = 1\r\n");
    assert_eq!(text(wifi_ap_reply(None)), "ap failed\r\n");
}

#[test]
fn mailbox_rates_are_told() {
    assert_eq!(
        text(core1_stress(2000, 500, 0, 0)),
        "stress: 2000 exchanges in 500 ms (4000 exch/s), bad=0 timeouts=0 -- PASS\r\n"
    );
    assert_eq!(
        text(core1_stress(5_000_000, 1000, 1, 0)),
        "stress: 5000000 exchanges in 1000 ms (705032 exch/s), bad=1 timeouts=0 -- FAIL\r\n"
    );
    assert_eq!(
        text(core1_speed(1_000_000, 500)),
        "core1 speed: 1000000 round-trips in 500 ms = 2000000 exch/s, 15625 KB/s \
         (8 B/exchange on the FIFO)\r\n"
    );
    assert_eq!(
        text(core1_speed(10, 0)),
        "core1 speed: 10 round-trips in 0 ms = 0 exch/s, 0 KB/s (8 B/exchange on the FIFO)\r\n"
    );
    assert_eq!(
        text(core1_bulk(4096, 1000, 100)),
        "core1 bulk: 1000 x 4096 B in 100 ms = 40000 KB/s one-way \
         (core0->shared SRAM->core1)\r\n"
    );
    assert_eq!(
        text(core1_pipe(1000, 100)),
        "core1 pipe: 1000 x 2048 B in 100 ms = 20000 KB/s one-way (pipelined, 2 SRAM banks)\r\n"
    );
}

#[test]
fn control_frames_are_told() {
    assert_eq!(text(slink_sent(0x90, 0x01, 0, 2)), "sent 2 bytes: 90 01\r\n");
    assert_eq!(text(slink_sent(0x90, 0x01, 0x0a, 3)), "sent 3 bytes: 90 01 0a\r\n");
    assert_eq!(text(slink_heard(0)), "no frame (timeout)\r\n");
    assert_eq!(text(slink_heard(0x0290_0100)), "rx 2 bytes: 90 01\r\n");
    assert_eq!(text(slink_heard(0x0390_010a)), "rx 3 bytes: 90 01 0a\r\n");
    assert_eq!(text(slink_flooded(5)), "flood done (5 frames sent)\r\n");
    assert_eq!(
        text(slink_soaked(256, (1100 << 16) | 1300, (550 << 16) | 650)),
        "soak: good=256 bad=0 (PASS)\r\n  mark width us: ones 1100-1300 (nom 1200), \
         zeros 550-650 (nom 600)\r\n"
    );
    assert_eq!(
        text(slink_soaked((2 << 16) | 1, 0, 0)),
        "soak: good=1 bad=2 (CHECK)\r\n  mark width us: ones 0-0 (nom 1200), \
         zeros 0-0 (nom 600)\r\n"
    );
}

#[test]
fn the_clock_is_told() {
    assert_eq!(text(rtc_set_reply(true)), "ok\r\n");
    assert_eq!(text(rtc_set_reply(false)), "bad time (check ranges)\r\n");
}

#[test]
fn card_failures_are_told() {
    assert_eq!(text(sd_read_reply(Err(SdError::Init))), "read error 1\r\n");
    assert_eq!(text(sd_read_reply(Err(SdError::Timeout))), "read error 2\r\n");
    assert!(text(sd_read_reply(Ok(&[0x41; 16])))
        .starts_with("00000000: 41 41 41 41 41 41 41 41 41 41 41 41 41 41 41 41  |AAAA"));
    assert_eq!(
        text(fat_failure(FatCommand::Ls, FatStep::OpenVolume)),
        "sd ls: open volume failed\r\n"
    );
    assert_eq!(
        text(fat_failure(FatCommand::Cat, FatStep::OpenFile)),
        "sd cat: file not found\r\n"
    );
    assert_eq!(text(fat_failure(FatCommand::Cat, FatStep::Read)), "\r\nsd cat: read error\r\n");
    assert_eq!(
        text(fat_failure(FatCommand::Write, FatStep::Close)),
        "sd write: flush/close error\r\n"
    );
    assert_eq!(
        text(fat_failure(FatCommand::Rm, FatStep::Delete)),
        "sd rm: delete failed (not found?)\r\n"
    );
    assert_eq!(
        text(fat_failure(FatCommand::Ls, FatStep::List)),
        "sd ls: directory read error\r\n"
    );
}

#[test]
fn a_name_tells_the_codec() {
    assert!(file_codec(b"song.flac") == Codec::Flac);
    assert!(file_codec(b"song.mp3") == Codec::Mp3);
    assert!(file_codec(b"song.wav") == Codec::Wav);
}

#[test]
fn a_bus_reset_programs_the_endpoints_in_order() {
    let mut e = Endpoints::new();
    assert!(e.ep_allocate(None, true, EndpointType::Control, 64).is_ok());
    assert!(e.ep_allocate(None, false, EndpointType::Control, 64).is_ok());
    assert!(e.ep_allocate(None, false, EndpointType::Bulk, 64).is_ok());
    assert!(e.ep_allocate(None, true, EndpointType::Interrupt, 8).is_ok());
    assert_eq!(
        e.ep_reset_all(),
        vec![
            Setup {
                control: 0,
                buffer: 2,
                ep_type: EndpointType::Interrupt,
                address: 0x1c0,
                receives: false,
                length: 0,
            },
            Setup {
                control: 1,
                buffer: 3,
                ep_type: EndpointType::Bulk,
                address: 0x180,
                receives: true,
                length: 64,
            },
        ]
    );
}
