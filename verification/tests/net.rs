//! The Ethernet task: checksums, uploads, requests, pages and the address.

use rp235x::net::{
    build_page, build_update_ok, content_length, crc32, derive_mac, http_idle, poll_interval,
    status_ip, status_prefix, update_target_base, AddrAction, DhcpEvent, FlashOp, HttpAction,
    HttpTurn, NetState, Update, Upload, Watch, PART_A, PART_B,
};

fn crc_of(bytes: &[u8]) -> u32 {
    crc32(0xffff_ffff, bytes) ^ 0xffff_ffff
}

#[test]
fn the_crc_is_the_usual_one() {
    assert_eq!(crc_of(b"123456789"), 0xcbf4_3926);
    assert_eq!(crc_of(b""), 0);
}

#[test]
fn the_crc_streams() {
    let c = crc32(0xffff_ffff, b"1234");
    assert_eq!(crc32(c, b"56789") ^ 0xffff_ffff, 0xcbf4_3926);
}

#[test]
fn an_update_spares_the_newer_slot() {
    let table = [0xd3, 0xde, 0xff, 0xff, 0x0a, 0, 0, 0];
    assert_eq!(update_target_base(&table, &[1, 0, 0, 0], &[2, 0, 0, 0]), PART_A);
    assert_eq!(update_target_base(&table, &[0, 1, 0, 0], &[2, 0, 0, 0]), PART_B);
    assert_eq!(update_target_base(&table, &[3, 0, 0, 0], &[3, 0, 0, 0]), PART_A);
    assert_eq!(update_target_base(&table, &[], &[1, 0, 0, 0]), PART_A);
    assert_eq!(update_target_base(&[0; 8], &[1, 0, 0, 0], &[2, 0, 0, 0]), 0);
    assert_eq!(update_target_base(&table[..4], &[1, 0, 0, 0], &[2, 0, 0, 0]), 0);
}

fn apply(flash: &mut Vec<u8>, ops: Vec<FlashOp>) {
    for op in ops {
        match op {
            FlashOp::Erase { addr } => {
                for b in &mut flash[addr as usize..addr as usize + 4096] {
                    *b = 0xff;
                }
            }
            FlashOp::Program { addr, data } => {
                for (i, b) in data.iter().enumerate() {
                    flash[addr as usize + i] &= *b;
                }
            }
        }
    }
}

#[test]
fn an_upload_writes_the_image() {
    let image: Vec<u8> = (0..600u32).map(|i| (i % 256) as u8).collect();
    for piece in [1usize, 100, 256, 600] {
        let mut flash = vec![0u8; 8192];
        let mut u = Upload::begin(0, 600);
        for part in image.chunks(piece) {
            assert!(!u.done());
            let ops = u.feed(part);
            apply(&mut flash, ops);
        }
        assert!(u.done());
        assert_eq!(u.final_crc(), 0x2b00_c0c1);
        assert_eq!(flash[..600], image[..]);
        assert_eq!(flash[600], 0xff);
        assert_eq!(flash[4096], 0);
    }
}

#[test]
fn bytes_past_the_image_are_ignored() {
    let mut u = Upload::begin(0x2000, 3);
    let ops = u.feed(b"abcdef");
    assert_eq!(ops.len(), 2);
    assert!(u.done());
    assert_eq!(u.final_crc(), crc_of(b"abc"));
    assert!(u.feed(b"more").is_empty());
}

#[test]
fn any_announced_size_is_taken() {
    let mut u = Upload::begin(PART_A, 0xffff_ffff);
    let ops = u.feed(&[7; 300]);
    assert_eq!(ops.len(), 2);
    assert!(!u.done());
}

#[test]
fn nothing_is_written_past_the_address_space() {
    // The first page is the last one that has an address.
    let mut u = Upload::begin(0xffff_ff00, 300);
    let ops = u.feed(&[7; 300]);
    assert_eq!(ops.len(), 2);
    assert!(matches!(ops[0], FlashOp::Erase { addr: 0xffff_ff00 }));
    assert!(matches!(ops[1], FlashOp::Program { addr: 0xffff_ff00, .. }));
    assert!(u.done());
    assert_eq!(u.final_crc(), crc_of(&[7; 300]));
}

#[test]
fn the_length_of_an_upload_is_read() {
    assert_eq!(content_length(b"POST /update HTTP/1.1\r\nCONTENT-LENGTH: 1234\r\n\r\n"), 1234);
    assert_eq!(content_length(b"POST /update HTTP/1.1\r\n\r\n"), 0);
    // Modulo 2^32.
    assert_eq!(content_length(b"Content-Length: 4294967297\r\n"), 1);
}

#[test]
fn requests_are_dispatched() {
    let (n, a) = http_idle(b"GET / HTTP/1.1\r\n\r\n");
    assert_eq!(n, 18);
    assert!(matches!(a, HttpAction::Get));
    // Nothing is consumed of a header that is not all there.
    let (n, a) = http_idle(b"GET / HTTP/1.1\r\nHost: x\r\n");
    assert_eq!(n, 0);
    assert!(matches!(a, HttpAction::Wait));

    let (n, a) = http_idle(b"POST /update HTTP/1.1\r\nContent-Length: 9\r\n");
    assert_eq!(n, 0);
    assert!(matches!(a, HttpAction::Wait));

    let req = b"POST /update HTTP/1.1\r\nContent-Length: 9\r\n\r\nabc";
    let (n, a) = http_idle(req);
    assert_eq!(n, req.len());
    match a {
        HttpAction::Post { size, first } => {
            assert_eq!(size, 9);
            assert_eq!(first, b"abc");
        }
        _ => panic!("not an upload"),
    }

    let (n, a) = http_idle(b"PUT /x\r\n\r\n");
    assert_eq!(n, 10);
    assert!(matches!(a, HttpAction::Bad));
    let (n, a) = http_idle(b"PU");
    assert_eq!(n, 0);
    assert!(matches!(a, HttpAction::Wait));
}

#[test]
fn an_upload_ends_in_a_restart() {
    let mut u = Upload::begin(PART_A, 1);
    u.feed(b"x");
    let mut s = Update::Recv(u);
    assert!(matches!(s.turn(10, true), HttpTurn::Receive));
    let page = s.finish_if_done(1000).expect("reply");
    let want = format!(
        "HTTP/1.0 200 OK\r\nContent-Type: text/plain\r\nConnection: close\r\n\r\nwrote 1 bytes to slot 0x2000, crc32={:08x}\nrebooting into it...\n",
        crc_of(b"x")
    );
    assert_eq!(page, want.as_bytes());
    assert!(matches!(s.turn(1499, true), HttpTurn::Rest));
    assert!(matches!(s.turn(1500, true), HttpTurn::Reboot));
    assert!(s.finish_if_done(2000).is_none());
    assert!(matches!(Update::Idle.turn(0, true), HttpTurn::Serve));
}

#[test]
fn a_closed_socket_ends_an_upload() {
    let mut s = Update::Recv(Upload::begin(PART_A, 100));
    assert!(matches!(s.turn(10, false), HttpTurn::Listen));
    assert!(matches!(s, Update::Idle));
    assert!(matches!(s.turn(11, true), HttpTurn::Serve));
    let mut s = Update::Reboot { at: 20 };
    assert!(matches!(s.turn(10, false), HttpTurn::Rest));
    assert!(matches!(s, Update::Reboot { at: 20 }));
}

#[test]
fn pages_are_cut_to_their_room() {
    let mut big = [0u8; 2048];
    let n = build_page(&mut big, [10, 1, 2, 3], 24, [2, 0, 0xab, 0, 0, 1], 65_432, 7);
    let text = String::from_utf8(big[..n].to_vec()).expect("text");
    assert!(text.contains("10.1.2.3/24</td>"));
    assert!(text.contains("02:00:ab:00:00:01"));
    assert!(text.contains("<td>65 s</td>"));
    assert!(text.contains("<td>7"));
    let mut small = [0u8; 100];
    assert_eq!(build_page(&mut small, [10, 1, 2, 3], 24, [2, 0, 0xab, 0, 0, 1], 65_432, 7), 100);
    assert_eq!(small[..], big[..100]);
    assert_eq!(build_update_ok(&mut small, 1, 2, 3), 100);
}

#[test]
fn addresses_come_from_the_flash_id() {
    assert_eq!(derive_mac(0), [0x02, 0xc0, 0xff, 0xee, 0x28, 0x61]);
    assert_eq!(derive_mac(0x1122_3344_5566_7788), [0x02, 0x88, 0x77, 0x66, 0x55, 0x44]);
}

#[test]
fn the_status_tells_the_address() {
    let mut s = NetState::new(0);
    assert_eq!(s.status(false), 0);
    assert_eq!(s.status(true), 0x8000_0000_0000_0000);
    let a = s.on_dhcp(DhcpEvent::Configured { addr: [192, 168, 1, 77], prefix: 24, router: None });
    assert!(matches!(a, AddrAction::Install { addr: [192, 168, 1, 77], prefix: 24, route: None }));
    let w = s.status(true);
    assert_eq!(w, 0xc000_0018_c0a8_014d);
    assert_eq!(status_ip(w), [192, 168, 1, 77]);
    assert_eq!(status_prefix(w), 24);
    assert!(matches!(s.on_dhcp(DhcpEvent::Quiet), AddrAction::Keep));
    assert!(matches!(s.on_dhcp(DhcpEvent::Deconfigured), AddrAction::Remove));
    assert_eq!(s.status(false), 0);
}

#[test]
fn a_static_address_is_the_fallback() {
    let mut s = NetState::new(100);
    assert!(matches!(s.fallback(8_099), AddrAction::Keep));
    assert!(matches!(s.fallback(8_100), AddrAction::Install { addr: [10, 110, 10, 201], prefix: 24, .. }));
    assert!(matches!(s.fallback(9_000), AddrAction::Keep));
    assert_eq!(status_ip(s.status(false)), [10, 110, 10, 201]);
    assert_eq!(s.status(false) >> 61, 1);
}

#[test]
fn a_silent_receiver_is_looked_after() {
    let mut s = NetState::new(0);
    assert!(matches!(s.watch(4_000, 0), Watch::Fine));
    assert!(matches!(s.watch(4_001, 0), Watch::AskLink));
    assert!(matches!(s.watch(4_002, 5), Watch::Fine));
    assert!(!s.on_link(9_000, false));
    assert!(s.on_link(9_000, true));
    assert!(matches!(s.watch(12_000, 5), Watch::Fine));
}

#[test]
fn polls_come_often_enough() {
    assert_eq!(poll_interval(None), 5);
    assert_eq!(poll_interval(Some(0)), 1);
    assert_eq!(poll_interval(Some(3)), 3);
    assert_eq!(poll_interval(Some(1000)), 5);
}

#[test]
fn boards_differ_in_their_address() {
    assert_eq!(derive_mac(0x1122_3344_5566_7788), [2, 0x88, 0x77, 0x66, 0x55, 0x44]);
    assert_eq!(derive_mac(0), [2, 0xC0, 0xFF, 0xEE, 0x28, 0x61]);
    assert_ne!(derive_mac(1), derive_mac(0x1_0000_0001));
}

#[test]
fn silence_alone_does_not_reset() {
    let mut s = NetState::new(0);
    assert!(s.watch(4000, 0) == Watch::Fine);
    assert!(s.watch(4001, 0) == Watch::AskLink);
    assert!(!s.on_link(4001, false));
    assert!(s.on_link(4001, true));
    assert!(!s.on_mode(true));
    assert!(s.on_mode(false));
    assert!(s.watch(8001, 0) == Watch::Fine);
    assert!(s.watch(8002, 0) == Watch::AskLink);
    assert!(s.watch(9000, 1) == Watch::Fine);
}

#[test]
fn the_link_is_asked_once_a_window() {
    let mut s = NetState::new(0);
    assert!(s.watch(4_001, 0) == Watch::AskLink);
    assert!(!s.on_link(4_001, false));
    assert!(s.watch(4_006, 0) == Watch::Fine);
    assert!(s.watch(8_001, 0) == Watch::Fine);
    assert!(s.watch(8_002, 0) == Watch::AskLink);
}

#[test]
fn diagnostics_come_every_so_often() {
    let mut s = NetState::new(0);
    let asked = (0..1000).filter(|_| s.count_poll()).count();
    assert_eq!(asked, 4);
}
