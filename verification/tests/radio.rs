//! The Wi-Fi chip: its bus, its start, its requests and its frames.

use rp235x::gspi::{cmd_word, swap16, Answer, Ask, BringUp, BusOp, Move};
use rp235x::portal::{load_creds, store_creds};
use rp235x::sdpcm::{
    ap_script, board_ssid, build_data_frame, clm_request, control_script, eth_fits, heard_network,
    answer_words, join_script, led_request, mac_from, mac_request, recv_frame, rx_info, rx_length, rx_words,
    scan_script, send_turn, Exchange, Flow, JoinPoll, Joined, Networks, Next, RxInfo, Scan,
    SendTurn, TxIface,
};

#[test]
fn command_words_have_fields() {
    assert_eq!(cmd_word(false, 0, 0x14, 4), 0x4000_a004);
    assert_eq!(cmd_word(true, 1, 0x1000a, 1), 0xd000_0000 + 0x1000a * 0x800 + 1);
    assert_eq!(swap16(0x1234_5678), 0x5678_1234);
    assert_eq!(swap16(swap16(0xdead_beef)), 0xdead_beef);
}

// The words that a step clocks out, and how many it reads back.
fn transfers(m: &Move) -> Vec<(Vec<u32>, usize)> {
    let mut v = Vec::new();
    for op in &m.ops {
        if let BusOp::Transfer { out, read } = op {
            v.push((out.clone(), *read));
        }
    }
    v
}

#[test]
fn the_chip_starts() {
    let firmware: Vec<u8> = (0..300u32).map(|i| (i % 251) as u8).collect();
    let (mut b, mut m) = BringUp::begin();
    let mut pieces: Vec<u8> = Vec::new();
    let mut steps = 0;
    let clm: Vec<u8> = (0..200u32).map(|i| (i % 199) as u8).collect();
    let mut in_clm = false;
    loop {
        steps += 1;
        assert!(steps < 1000);
        let a = match m.ask {
            Ask::Words => {
                assert!(!transfers(&m).is_empty());
                // The test pattern with its halves swapped; every status bit set.
                Answer::Words { w0: 0xbead_feed, w1: 0xffff_ffff }
            }
            Ask::FindFirmware => Answer::Blob { start: 16, end: 16 + 300 },
            Ask::FindClm => {
                in_clm = true;
                Answer::Blob { start: 1000, end: 1200 }
            }
            Ask::Bytes { pos, n } => {
                assert!(n <= 128);
                if in_clm {
                    let at = pos as usize - 1000;
                    Answer::Bytes(clm[at..at + n as usize].to_vec())
                } else {
                    let at = pos as usize - 16;
                    let piece = firmware[at..at + n as usize].to_vec();
                    pieces.extend_from_slice(&piece);
                    Answer::Bytes(piece)
                }
            }
            Ask::Control => break,
            Ask::GiveUp => panic!("gave up"),
        };
        m = b.next(a);
    }
    assert_eq!(pieces, firmware);
    assert_eq!(b.clm, clm);
    assert_eq!(b.chip, 0xfeed_bead);
}

#[test]
fn a_missing_firmware_ends_the_start() {
    let (mut b, mut m) = BringUp::begin();
    loop {
        match m.ask {
            Ask::Words => m = b.next(Answer::Words { w0: 0xbead_feed, w1: 0xffff_ffff }),
            Ask::FindFirmware | Ask::FindClm => m = b.next(Answer::Missing),
            Ask::GiveUp => break,
            _ => panic!("went on"),
        }
    }
}

#[test]
fn a_silent_chip_is_asked_again() {
    let (mut b, mut m) = BringUp::begin();
    let first = transfers(&m);
    m = b.next(Answer::Words { w0: 0, w1: 0 });
    assert_eq!(transfers(&m), first);
    assert!(matches!(m.ask, Ask::Words));
}

#[test]
fn waiting_frames_have_a_length() {
    assert_eq!(rx_length(0), None);
    assert_eq!(rx_length(0x100 + 11 * 0x200), None);
    assert_eq!(rx_length(100 * 0x200), None);
    assert_eq!(rx_length(0x100 + 100 * 0x200), Some(100));
    assert_eq!(rx_words(100), 25);
    assert_eq!(rx_words(101), 26);
}

fn frame(chan: u32, credit: u32, id: u32, status: u32) -> Vec<u32> {
    let mut fr = vec![0u32; 512];
    fr[1] = 0x0c00_0000 + chan * 0x100;
    fr[2] = credit * 0x100;
    fr[5] = id * 0x1_0000;
    fr[6] = status;
    fr
}

#[test]
fn headers_are_read() {
    let i = rx_info(&frame(0, 9, 7, 0x55));
    assert_eq!((i.chan, i.credit, i.id, i.status), (0, 9, 7, 0x55));
    let i = rx_info(&frame(2, 9, 7, 0x55));
    assert_eq!((i.chan, i.credit, i.id), (2, 9, 0));
}

#[test]
fn credit_moves_a_little_way() {
    let mut f = Flow::new();
    f.take_credit(rx_info(&frame(0, f.credit as u32 + 4, 0, 0)));
    let c = f.credit;
    f.take_credit(rx_info(&frame(0, (c as u32 + 21) % 256, 0, 0)));
    assert_eq!(f.credit, c);
    f.take_credit(rx_info(&frame(3, (c as u32 + 1) % 256, 0, 0)));
    assert_eq!(f.credit, c);
}

#[test]
fn a_request_waits_for_its_own_answer() {
    let mut f = Flow { tx_seq: 5, credit: 5 };
    let (mut x, n) = Exchange::start(3, 10, &mut f);
    assert!(matches!(n, Next::Poll { .. }));
    let n = x.next(&mut f, Some(RxInfo { chan: 1, status: 0, credit: 8, id: 0 }));
    assert_eq!(n, Next::Send { cycles: 0, seq: 5 });
    assert_eq!(f.tx_seq, 6);
    let n = x.next(&mut f, Some(RxInfo { chan: 0, status: 1, credit: 8, id: 2 }));
    assert!(matches!(n, Next::Poll { .. }));
    let n = x.next(&mut f, Some(RxInfo { chan: 0, status: 0x1f, credit: 8, id: 3 }));
    assert_eq!(n, Next::Over { cycles: 0, status: 0x1f });
}

#[test]
fn a_request_without_an_answer_ends() {
    let mut f = Flow { tx_seq: 5, credit: 9 };
    let (mut x, n) = Exchange::start(3, 2, &mut f);
    assert_eq!(n, Next::Send { cycles: 0, seq: 5 });
    assert_eq!(x.next(&mut f, None), Next::Poll { cycles: 20_000 });
    // The last empty poll is followed by a pause too.
    assert_eq!(x.next(&mut f, None), Next::Over { cycles: 20_000, status: 0xeeee_eeee });
    assert_eq!(x.next(&mut f, None), Next::Over { cycles: 0, status: 0xeeee_eeee });
}

#[test]
fn a_request_without_credit_is_sent_in_the_end() {
    let mut f = Flow { tx_seq: 5, credit: 5 };
    let (mut x, n) = Exchange::start(3, 2, &mut f);
    assert_eq!(n, Next::Poll { cycles: 0 });
    for _ in 1..8000 {
        assert_eq!(x.next(&mut f, None), Next::Poll { cycles: 10_000 });
    }
    assert_eq!(x.next(&mut f, None), Next::Send { cycles: 10_000, seq: 5 });
    assert_eq!(f.tx_seq, 6);
}

#[test]
fn a_joined_station_sends_on_its_own_interface() {
    let mut tx = TxIface::new();
    assert_eq!(tx.iface, 1);
    let mut join = JoinPoll::new();
    for status in [0, 0, 0, 1, 0, 0, 0] {
        tx.take_join(join.poll(status));
        assert_eq!(tx.iface, 1);
    }
    tx.take_join(join.poll(0));
    assert_eq!(tx.iface, 0);
    tx.take_join(Joined::No);
    assert_eq!(tx.iface, 0);
    assert_eq!(build_data_frame(7, tx.iface, &[0; 14])[5] & 0xff, 0);
    assert_eq!(build_data_frame(7, 1, &[0; 14])[5] & 0xff, 1);
}

#[test]
fn a_frame_without_credit_is_dropped() {
    let mut f = Flow { tx_seq: 5, credit: 5 };
    assert!(matches!(send_turn(&mut f, 0, None), SendTurn::Poll { .. }));
    assert_eq!(send_turn(&mut f, 8000, None), SendTurn::Drop { cycles: 10_000 });
    let mut f = Flow { tx_seq: 5, credit: 6 };
    assert!(matches!(send_turn(&mut f, 0, None), SendTurn::Send { seq: 5 }));
    assert_eq!(f.tx_seq, 6);
}

#[test]
fn ethernet_frames_survive_the_channel() {
    let eth: Vec<u8> = (0..61u8).collect();
    let v = build_data_frame(7, 1, &eth);
    assert_eq!(v[0], 0xe000_0000 + 18 + 61);
    let mut fr = vec![0u32; 512];
    fr[..v.len() - 1].copy_from_slice(&v[1..]);
    assert!(eth_fits(&fr, 1600));
    assert_eq!(recv_frame(&fr, 1600), eth);
    assert_eq!(recv_frame(&fr, 10), eth[..10]);
}

#[test]
fn requests_are_framed() {
    let r = led_request(true);
    let v = r.frame(9);
    assert_eq!(v[2], 0x0c00_0009);
    assert_eq!(v[0] & 0xffff, 28 + r.len);
    assert_eq!(v[1], (28 + r.len) + 0x1_0000 * (0xffff - (28 + r.len)));
    assert_eq!(v[4], r.cmd);
    assert_eq!(v[6] >> 16, r.id as u32);
    assert_eq!(v[8..], r.payload[..]);

    let m = mac_request(4, 0);
    let bytes: Vec<u8> = m.payload.iter().flat_map(|w| w.to_le_bytes()).collect();
    assert!(bytes.starts_with(b"cur_etheraddr\0"));
    let c = clm_request(&[1, 2, 3]);
    let bytes: Vec<u8> = c.payload.iter().flat_map(|w| w.to_le_bytes()).collect();
    assert!(bytes.starts_with(b"clmload\0"));
    assert!(!control_script().is_empty());
    assert!(!scan_script().is_empty());
}

#[test]
fn an_address_is_taken_out_of_its_answer() {
    let mut fr = frame(0, 0, 4, 0);
    fr[3 + 4] = 0x4433_2211;
    fr[3 + 5] = 0x0000_6655;
    assert_eq!(mac_from(&fr), [0x11, 0x22, 0x33, 0x44, 0x55, 0x66]);
    assert_eq!(answer_words(&fr).0, 0x4433_2211);
}

fn result(name: &[u8]) -> Vec<u32> {
    let mut bytes = vec![0u8; 2048];
    bytes[7] = 12;
    bytes[5] = 1;
    bytes[12 + 110] = name.len() as u8;
    bytes[12 + 111..12 + 111 + name.len()].copy_from_slice(name);
    let mut fr = Vec::new();
    for c in bytes.chunks(4) {
        fr.push(u32::from_le_bytes([c[0], c[1], c[2], c[3]]));
    }
    fr
}

#[test]
fn networks_are_listed_once() {
    assert_eq!(heard_network(&result(b"Home")), Some(b"Home".to_vec()));
    assert_eq!(heard_network(&result(b"")), None);
    assert_eq!(heard_network(&result(b"a\x01b")), None);
    let mut n = Networks::new();
    n.hear(&result(b"Home"));
    n.hear(&result(b"Cafe"));
    n.hear(&result(b"Home"));
    let bytes: Vec<u8> = n.packed_list().iter().flat_map(|w| w.to_le_bytes()).collect();
    assert!(bytes.starts_with(b"Home\nCafe\n\0"));
    assert_eq!(n.names.len(), 2);
}

#[test]
fn a_scan_polls_so_often() {
    let mut scan = Scan::new();
    let mut flow = Flow::new();
    let home = result(b"Home");
    // A pause after an empty poll, none after a frame.
    assert_eq!(scan.turn(&mut flow, None, &home), 8_000);
    assert!(scan.heard.names.is_empty());
    let info = rx_info(&home);
    assert_eq!(scan.turn(&mut flow, Some(info), &home), 0);
    // Only the event channel brings results.
    let cafe = result(b"Cafe");
    assert_eq!(scan.turn(&mut flow, Some(RxInfo { chan: 2, ..info }), &cafe), 0);
    assert_eq!(scan.heard.names, vec![b"Home".to_vec()]);
    assert_eq!(scan.heard.events, 1);
    let mut polls = 3;
    while !scan.done() {
        scan.turn(&mut flow, None, &home);
        polls += 1;
    }
    assert_eq!(polls, 15_000);
}

#[test]
fn a_join_must_be_stable() {
    let mut p = JoinPoll::new();
    for _ in 0..3 {
        assert!(matches!(p.poll(0), Joined::NotYet));
    }
    assert!(matches!(p.poll(1), Joined::NotYet));
    for _ in 0..3 {
        assert!(matches!(p.poll(0), Joined::NotYet));
    }
    assert!(matches!(p.poll(0), Joined::Yes));
    let mut p = JoinPoll::new();
    for _ in 0..39 {
        assert!(matches!(p.poll(1), Joined::NotYet));
    }
    assert!(matches!(p.poll(1), Joined::No));
}

#[test]
fn the_board_has_a_name() {
    assert_eq!(board_ssid(0x0123_4567_89ab_cdef), b"hubris-0123456789ABCDEF");
    assert!(!ap_script(&board_ssid(1)).is_empty());
    let c = load_creds(&store_creds(b"Home", b"pw"));
    assert!(!join_script(&c).is_empty());
}
