//! Image transfers over the console and between boards.

use rp235x::net::crc32;
use rp235x::update::{
    page16, AckWait, Fill, Link, Readback, Receiver, RecvAsk, RecvEvent, SendAsk, SendEvent,
    Sender, TokenWait, Wait,
};

fn crc_of(bytes: &[u8]) -> u32 {
    crc32(0xffff_ffff, bytes) ^ 0xffff_ffff
}

#[test]
fn pages_have_a_sum() {
    assert_eq!(page16(&[]), 0);
    assert_eq!(page16(&[1, 2, 3]), 6);
    assert_eq!(page16(&[0xff; 257]), 65535);
    assert_eq!(page16(&[0xff; 258]), 254);
}

#[test]
fn a_console_transfer_is_written_page_by_page() {
    let image: Vec<u8> = (0..300u32).map(|i| (i % 256) as u8).collect();
    let (mut r, s) = Receiver::begin(Link::Usb, 0x2000, 300, crc_of(&image));
    assert_eq!(s.say, b"target flash 0x00002000\r\n");
    assert_eq!(s.send, b"GO\r\n");
    assert!(matches!(s.ask, RecvAsk::Page { n: 256 }));
    let s = r.next(RecvEvent::Page(image[..256].to_vec()));
    assert!(matches!(s.ask, RecvAsk::Write { addr: 0x2000, erase: true }));
    let s = r.next(RecvEvent::Written);
    assert_eq!(s.send, b".");
    assert!(matches!(s.ask, RecvAsk::Page { n: 44 }));
    let s = r.next(RecvEvent::Page(image[256..].to_vec()));
    assert!(matches!(s.ask, RecvAsk::Write { addr: 0x2100, erase: false }));
    let s = r.next(RecvEvent::Written);
    assert!(matches!(s.ask, RecvAsk::Verify { base: 0x2000, size: 300 }));
    let s = r.next(RecvEvent::Crc { crc: crc_of(&image) });
    assert_eq!(s.say, b"\r\nOK crc verified; `reboot` to apply\r\n");
    assert_eq!(s.send, b"OK\r\n");
    assert!(matches!(s.ask, RecvAsk::Stop));
}

#[test]
fn a_wrong_checksum_is_reported() {
    let (mut r, _) = Receiver::begin(Link::Usb, 0, 1, 0x1234);
    r.next(RecvEvent::Page(vec![7]));
    r.next(RecvEvent::Written);
    let s = r.next(RecvEvent::Crc { crc: 0xabcd });
    assert_eq!(s.say, b"\r\nCRC MISMATCH: flash 0000abcd != 00001234 -- do NOT reboot; retry\r\n");
    assert_eq!(s.send, b"ERR\r\n");
}

#[test]
fn a_bad_page_is_asked_for_again() {
    let (mut r, _) = Receiver::begin(Link::Uart, 0, 2, 0);
    for _ in 0..12 {
        let s = r.next(RecvEvent::Page(vec![1, 2]));
        assert!(matches!(s.ask, RecvAsk::Check));
        let s = r.next(RecvEvent::Check { sum: 4 });
        assert_eq!(s.send, b"!");
        assert!(matches!(s.ask, RecvAsk::Page { n: 2 }));
    }
    r.next(RecvEvent::Page(vec![1, 2]));
    let s = r.next(RecvEvent::Check { sum: 4 });
    assert_eq!(s.say, b"\r\ntoo many page errors\r\n");
    assert!(matches!(s.ask, RecvAsk::Stop));
}

#[test]
fn failures_end_a_transfer() {
    let (mut r, _) = Receiver::begin(Link::Usb, 0, 2, 0);
    let s = r.next(RecvEvent::Timeout);
    assert_eq!(s.say, b"\r\ntimeout waiting for data\r\n");
    assert!(matches!(s.ask, RecvAsk::Stop));

    let (mut r, _) = Receiver::begin(Link::Usb, 0, 2, 0);
    r.next(RecvEvent::Page(vec![1, 2]));
    assert_eq!(r.next(RecvEvent::EraseFailed).say, b"\r\nerase failed\r\n");

    let (mut r, _) = Receiver::begin(Link::Usb, 0, 2, 0);
    r.next(RecvEvent::Page(vec![1, 2]));
    assert_eq!(r.next(RecvEvent::ProgramFailed).say, b"\r\nprogram failed\r\n");
}

// Run a sender against a receiver, with the flash of each a plain vector.
fn push(image: &[u8]) -> (Vec<u8>, Vec<u8>) {
    let (mut s, first) = Sender::begin(image.len() as u32);
    assert_eq!(first.say, b"waiting for peer GO over UART...\r\n");
    assert!(matches!(first.ask, SendAsk::WaitGo { units: 800 }));
    let (mut r, go) = Receiver::begin(Link::Uart, 0, image.len() as u32, crc_of(image));
    assert_eq!(go.send, b"GO\r\n");
    let mut flash: Vec<u8> = Vec::new();
    let mut step = s.next(SendEvent::Token { seen: true, ms: 0 });
    loop {
        match step.ask {
            SendAsk::ReadFlash { off, n } => {
                let page = image[off as usize..(off + n) as usize].to_vec();
                step = s.next(SendEvent::Page(page));
                let framed = step.send.clone();
                let n = framed.len() - 2;
                r.next(RecvEvent::Page(framed[..n].to_vec()));
                let sum = u16::from_le_bytes([framed[n], framed[n + 1]]);
                let w = r.next(RecvEvent::Check { sum });
                assert!(matches!(w.ask, RecvAsk::Write { .. }));
                flash.extend_from_slice(&framed[..n]);
                let done = r.next(RecvEvent::Written);
                assert_eq!(done.send, b".");
                step = s.next(SendEvent::Ack { taken: true });
            }
            SendAsk::WaitOk { units } => {
                assert_eq!(units, 1500);
                step = s.next(SendEvent::Token { seen: true, ms: 42 });
            }
            SendAsk::Stop => return (flash, step.say),
            _ => panic!("unexpected question"),
        }
    }
}

#[test]
fn a_pushed_image_arrives() {
    let image: Vec<u8> = (0..700u32).map(|i| (i * 7 % 256) as u8).collect();
    let (flash, say) = push(&image);
    assert_eq!(flash, image);
    assert_eq!(say, b"\r\npush OK: peer verified; 700 bytes in 42 ms\r\n");
}

#[test]
fn a_sender_gives_up() {
    let (mut s, _) = Sender::begin(10);
    let step = s.next(SendEvent::Token { seen: false, ms: 0 });
    assert_eq!(step.say, b"no GO (is the peer in uart-update?)\r\n");
    assert!(matches!(step.ask, SendAsk::Stop));

    let (mut s, _) = Sender::begin(2);
    s.next(SendEvent::Token { seen: true, ms: 0 });
    let first = s.next(SendEvent::Page(vec![1, 2]));
    assert_eq!(first.send, vec![1, 2, 3, 0]);
    for _ in 0..12 {
        let again = s.next(SendEvent::Ack { taken: false });
        assert_eq!(again.send, vec![1, 2, 3, 0]);
    }
    let last = s.next(SendEvent::Ack { taken: false });
    assert_eq!(last.say, b"\r\npeer ACK timeout / too many retries\r\n");

    let (mut s, _) = Sender::begin(2);
    s.next(SendEvent::Token { seen: true, ms: 0 });
    assert_eq!(s.next(SendEvent::ReadFailed).say, b"flash read failed\r\n");
}

#[test]
fn a_readback_sums_the_image() {
    let image: Vec<u8> = (0..300u32).map(|i| (i % 256) as u8).collect();
    let mut r = Readback::begin(0x1000, 300);
    assert_eq!(r.want(), Some((0x1000, 256)));
    r.feed(&image[..256]);
    assert_eq!(r.want(), Some((0x1100, 44)));
    r.feed(&image[256..]);
    assert_eq!(r.want(), None);
    assert_eq!(r.finish(true), crc_of(&image));
    assert_eq!(r.finish(false), 0);
}

#[test]
fn a_token_is_found_across_reads() {
    let mut w = TokenWait::begin("GO", 2);
    assert_eq!(w.feed(b"xG"), Wait::Again);
    assert_eq!(w.feed(b"GO"), Wait::Yes);
    let mut w = TokenWait::begin("GO", 2);
    assert_eq!(w.feed(b""), Wait::Sleep);
    assert_eq!(w.feed(b""), Wait::Sleep);
    assert_eq!(w.feed(b""), Wait::No);
}

#[test]
fn an_answer_is_a_dot_or_a_mark() {
    let mut w = AckWait::begin(1);
    assert_eq!(w.feed(b"xx"), Wait::Again);
    assert_eq!(w.feed(b"x!."), Wait::No);
    let mut w = AckWait::begin(1);
    assert_eq!(w.feed(b"."), Wait::Yes);
    assert_eq!(w.feed(b""), Wait::Sleep);
    assert_eq!(w.feed(b""), Wait::No);
}

#[test]
fn a_fill_waits_for_its_bytes() {
    let mut f = Fill::begin(10);
    assert_eq!(f.feed(4), Wait::Again);
    assert_eq!(f.feed(0), Wait::Sleep);
    assert_eq!(f.feed(6), Wait::Yes);
    let mut f = Fill::begin(10);
    for _ in 0..500 {
        assert_eq!(f.feed(0), Wait::Sleep);
    }
    assert_eq!(f.feed(0), Wait::No);
}
