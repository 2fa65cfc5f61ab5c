//! The SD card, the file system, the flash and its boot ROM, the blob store.

use rp235x::auxflash::{check_slot, get_active_slot, next_piece, AuxFlashError, Scan, ScanAsk, Store};
use rp235x::errors::{FlashError, SdError};
use rp235x::fat::{
    block_at, df_boot, df_error, df_info, df_mbr, df_report, fat_written, ls_end, ls_line, DfError,
    DummyTime, Entry, RtcTime, Timestamp, Volume,
};
use rp235x::flash::{erase, program, read_len, reboot, rom_lookup, Busy, Restart, WriteOp};
use rp235x::romapi::{rom_table_lookup, RT_FLAG_DATA, RT_FLAG_FUNC_ARM_SEC};
use rp235x::sdcard::{
    init_next, init_start, pad_block, read_on_block, read_on_byte, read_on_r1, read_start,
    write_on_block, write_on_busy, write_on_r1, write_on_response, write_start, BusOp, Card, Expect,
    InitState, Pipeline, R1Poll, ReadWant, Reply, Step, WriteState, WriteWant,
};

fn sent(ops: &[BusOp]) -> Vec<u8> {
    let mut v = Vec::new();
    for op in ops {
        if let BusOp::Send(b) = op {
            v.push(*b);
        }
    }
    v
}

#[test]
fn a_good_card_comes_up() {
    let s = init_start();
    assert_eq!(sent(&s.ops)[10..], [0xff, 0x40, 0, 0, 0, 0, 0x95]);
    let s = init_next(s.state, Reply::R1(1));
    assert_eq!(sent(&s.ops), vec![0xff, 0x48, 0, 0, 1, 0xaa, 0x87]);
    let s = init_next(s.state, Reply::R1(1));
    assert!(matches!(s.expect, Expect::Four));
    let s = init_next(s.state, Reply::Four(0, 0, 1, 0xaa));
    assert_eq!(sent(&s.ops), vec![0xff, 0x77, 0, 0, 0, 0, 1]);
    let s = init_next(s.state, Reply::R1(1));
    assert_eq!(sent(&s.ops), vec![0xff, 0x69, 0x40, 0, 0, 0, 1]);
    let s = init_next(s.state, Reply::R1(0));
    assert_eq!(sent(&s.ops), vec![0xff, 0x7a, 0, 0, 0, 0, 1]);
    let s = init_next(s.state, Reply::R1(0));
    let s = init_next(s.state, Reply::Four(0xc0, 0, 0, 0));
    assert!(matches!(s.expect, Expect::Ready(3)));
    let mut card = Card::new();
    card.begin_init();
    assert!(card.end_init(s.expect) == Ok(3));
    assert_eq!(card.address_of(7), 7);
}

fn drive(replies: &[Reply]) -> Step {
    let mut s = init_start();
    for r in replies {
        s = init_next(s.state, *r);
    }
    s
}

#[test]
fn an_old_card_is_addressed_by_bytes() {
    let s = drive(&[
        Reply::R1(1),
        Reply::R1(5),
        Reply::R1(1),
        Reply::R1(0),
        Reply::R1(0),
        Reply::Four(0x80, 0, 0, 0),
    ]);
    assert_eq!(sent(&s.ops), vec![0xff, 0x50, 0, 0, 2, 0, 1]);
    let s = init_next(s.state, Reply::R1(0));
    assert!(matches!(s.expect, Expect::Ready(0)));
    let mut card = Card::new();
    card.begin_init();
    assert!(card.end_init(s.expect) == Ok(0));
    assert_eq!(card.address_of(7), 3584);
}

#[test]
fn a_dead_card_is_given_up() {
    let mut s = init_start();
    let mut answers = 0;
    while !matches!(s.expect, Expect::Failed(_)) {
        s = init_next(s.state, Reply::R1(0xff));
        answers += 1;
    }
    assert_eq!(answers, 16);
    assert!(matches!(s.expect, Expect::Failed(SdError::Init)));
    assert!(matches!(s.state, InitState::Over));
    assert!(s.ops == vec![BusOp::CsHigh]);

    // One that never leaves idle.
    let mut s = drive(&[Reply::R1(1), Reply::R1(5)]);
    let mut answers = 0;
    while !matches!(s.expect, Expect::Failed(_)) {
        s = init_next(s.state, Reply::R1(1));
        answers += 1;
    }
    assert_eq!(answers, 4000);
    assert!(matches!(s.expect, Expect::Failed(SdError::Timeout)));

    // One that echoes something else, and one that refuses a command.
    let s = drive(&[Reply::R1(1), Reply::R1(1), Reply::Four(0, 0, 1, 0xab)]);
    assert!(matches!(s.expect, Expect::Failed(SdError::Init)));
    let s = drive(&[Reply::R1(1), Reply::R1(5), Reply::R1(1), Reply::R1(0), Reply::R1(4)]);
    assert!(matches!(s.expect, Expect::Failed(SdError::Cmd)));
}

#[test]
fn answers_come_within_eight_bytes() {
    let mut p = R1Poll::new();
    for _ in 0..3 {
        assert_eq!(p.take(0xff), None);
    }
    assert_eq!(p.take(0x05), Some(0x05));
    let mut p = R1Poll::new();
    for _ in 0..7 {
        assert_eq!(p.take(0xff), None);
    }
    assert_eq!(p.take(0x84), Some(0xff));
}

#[test]
fn a_block_is_read() {
    let card = Card { ccs: true, v2: true, ready: true };
    let s = read_start(&card, 0x0102_0304);
    assert!(s.ops[0] == BusOp::CsLow);
    assert_eq!(sent(&s.ops), vec![0xff, 0x51, 1, 2, 3, 4, 1]);
    assert!(matches!(read_on_r1(0).want, ReadWant::Byte));
    assert!(matches!(read_on_r1(4).want, ReadWant::Failed(SdError::Cmd)));
    assert!(matches!(read_on_byte(5, 0xfe).want, ReadWant::Block));
    assert!(matches!(read_on_byte(5, 0xff).want, ReadWant::Byte));
    assert!(matches!(read_on_byte(0, 0xff).want, ReadWant::Failed(SdError::Timeout)));
    assert!(matches!(read_on_byte(5, 0x08).want, ReadWant::Failed(SdError::DataError)));
    assert!(matches!(read_on_block(true).want, ReadWant::Done));
    assert!(matches!(read_on_block(false).want, ReadWant::Failed(SdError::Timeout)));
    let fresh = Card::new();
    assert!(matches!(read_start(&fresh, 0).want, ReadWant::Failed(SdError::NotInitialized)));
}

#[test]
fn a_block_is_written() {
    let card = Card { ccs: false, v2: true, ready: true };
    let s = write_start(&card, 2);
    assert_eq!(sent(&s.ops), vec![0xff, 0x58, 0, 0, 4, 0, 1]);
    assert!(matches!(write_on_r1(0).want, WriteWant::Block));
    assert!(matches!(write_on_r1(1).want, WriteWant::Failed(SdError::Cmd)));
    assert!(matches!(write_on_block(true).want, WriteWant::Byte));
    assert!(matches!(write_on_response(3, 0xe5).want, WriteWant::Byte));
    assert!(matches!(write_on_response(3, 0xeb).want, WriteWant::Failed(SdError::DataError)));
    // A card counts as done only after it was busy.
    assert!(matches!(write_on_busy(false, 5, 0xff).want, WriteWant::Byte));
    assert!(matches!(write_on_busy(false, 0, 0xff).want, WriteWant::Failed(SdError::Timeout)));
    assert!(matches!(write_on_busy(true, 5, 0xff).want, WriteWant::Done));
    assert!(matches!(write_start(&Card::new(), 0).want, WriteWant::Failed(SdError::NotInitialized)));
    let b = pad_block(b"abc");
    assert_eq!(b.len(), 512);
    assert_eq!(&b[..4], b"abc\0");
}

#[test]
fn a_transfer_keeps_the_queue_short() {
    let mut p = Pipeline::new(20);
    let mut high = 0;
    while !p.complete() {
        let before = p.rx;
        while p.may_send() {
            p.sent();
        }
        high = high.max(p.tx - p.rx);
        if p.may_receive() {
            p.received();
        }
        assert!(p.end_pass(before));
    }
    assert_eq!(high, 8);
    assert_eq!(p.rx, 20);
}

#[test]
fn errors_have_numbers() {
    assert_eq!(SdError::Init.code(), 1);
    assert_eq!(SdError::Timeout.code(), 2);
    assert_eq!(SdError::Cmd.code(), 3);
    assert_eq!(SdError::DataError.code(), 4);
    assert_eq!(SdError::NotInitialized.code(), 5);
}

#[test]
fn times_are_those_of_the_clock() {
    let t = DummyTime.get_timestamp();
    assert_eq!((t.year_since_1970, t.zero_indexed_month, t.zero_indexed_day), (55, 0, 0));
    let t = RtcTime { packed: 0x0019_010c_1f17_3b3a }.get_timestamp();
    assert_eq!((t.year_since_1970, t.zero_indexed_month, t.zero_indexed_day), (55, 11, 30));
    assert_eq!((t.hours, t.minutes, t.seconds), (23, 59, 58));
    assert_eq!(block_at(100, 3), 103);
}

#[test]
fn directories_are_listed() {
    let e = Entry {
        base: b"NOTE".to_vec(),
        ext: b"TXT".to_vec(),
        directory: false,
        volume: false,
        size: 42,
        modified: Timestamp {
            year_since_1970: 55,
            zero_indexed_month: 11,
            zero_indexed_day: 30,
            hours: 23,
            minutes: 59,
            seconds: 58,
        },
    };
    assert_eq!(ls_line(&e).expect("a line"), b"NOTE.TXT\t42\t2025-12-31 23:59\r\n");
    let v = Entry { base: Vec::new(), ext: Vec::new(), directory: false, volume: true, size: 0, modified: e.modified };
    assert!(ls_line(&v).is_none());
    assert!(ls_end(1).is_empty());
    assert_eq!(ls_end(0), b"(empty)\r\n");
    assert_eq!(fat_written(5), b"wrote 5 bytes\r\n");
}

fn boot_sector(per_cluster: u8, total: u32) -> Vec<u8> {
    let mut b = vec![0u8; 512];
    b[11] = 0;
    b[12] = 2;
    b[13] = per_cluster;
    b[14] = 32;
    b[16] = 2;
    b[32..36].copy_from_slice(&total.to_le_bytes());
    b[36..40].copy_from_slice(&100u32.to_le_bytes());
    b[44] = 2;
    b[48] = 1;
    b[510] = 0x55;
    b[511] = 0xaa;
    b
}

#[test]
fn free_space_is_counted() {
    let mut mbr = vec![0u8; 512];
    mbr[446 + 4] = 0x0c;
    mbr[454..458].copy_from_slice(&2048u32.to_le_bytes());
    assert!(matches!(df_mbr(&mbr), Err(DfError::NoMbr)));
    mbr[510] = 0x55;
    mbr[511] = 0xaa;
    assert!(df_mbr(&mbr) == Ok(2048));

    // 32 reserved sectors and two tables of 100.
    let v = df_boot(&boot_sector(8, 232 + 8 * 1000), 2048).ok().expect("a volume");
    assert_eq!(v.clusters, 1000);
    assert_eq!(v.per_cluster, 8);
    assert_eq!(v.info, Some(2049));
    assert!(df_boot(&boot_sector(0, 9000), 0) == Err(DfError::Unsupported));
    assert!(df_boot(&boot_sector(8, 232), 0) == Err(DfError::BadGeometry));
    assert!(df_boot(&[0u8; 512], 0) == Err(DfError::BadBoot));
    assert_eq!(df_error(DfError::ReadMbr), b"sd df: read MBR failed\r\n");
    assert_eq!(df_error(DfError::ReadBoot), b"sd df: read boot sector failed\r\n");

    let mut info = vec![0u8; 512];
    assert_eq!(df_info(&info, 1000), None);
    info[0..4].copy_from_slice(b"RRaA");
    info[484..488].copy_from_slice(b"rrAa");
    info[488..492].copy_from_slice(&600u32.to_le_bytes());
    assert_eq!(df_info(&info, 1000), Some(600));
    assert_eq!(df_info(&info, 599), None);

    let v = Volume { clusters: 1000, per_cluster: 8, info: None };
    assert_eq!(
        df_report(&v, None),
        b"total 3 MiB, used/free unknown (no valid FSInfo; real df scans the FAT)\r\n"
    );
    assert_eq!(
        df_report(&v, Some(600)),
        b"total 3 MiB, used 1 MiB, free 2 MiB (FSInfo cached free-count, may be stale)\r\n"
    );
}

#[test]
fn the_flash_is_guarded() {
    let size = 4 * 1024 * 1024;
    assert!(read_len(size, size - 10, 64) == Ok(10));
    assert!(read_len(size, 0, 64) == Ok(64));
    assert!(read_len(size, size, 64) == Err(FlashError::BadAddress));
    assert!(erase(size, 0x12_3000) == Ok(vec![0x20, 0x12, 0x30, 0x00]));
    assert!(erase(size, 0x12_3400) == Err(FlashError::BadAlignment));
    assert!(erase(size, size) == Err(FlashError::BadAddress));
    assert!(program(size, 0x1_02fe, &[7, 8]) == Ok(vec![0x02, 0x01, 0x02, 0xfe, 7, 8]));
    assert!(program(size, 0x1_02ff, &[7, 8]) == Err(FlashError::BadAlignment));
    assert!(program(size, 0, &[]) == Err(FlashError::BadAlignment));
    assert!(program(size, size - 1, &[7, 8]) == Err(FlashError::BadAddress));
}

#[test]
fn a_busy_chip_is_waited_for() {
    let (mut w, first) = WriteOp::begin(vec![0x20, 0, 0, 0]);
    assert_eq!(first, vec![vec![0x06], vec![0x20, 0, 0, 0]]);
    assert!(matches!(w.status(3), Busy::Again));
    match w.status(2) {
        Busy::Over(tail, r) => {
            assert_eq!(tail, vec![vec![0xff], vec![0x66], vec![0x99], vec![0xff]]);
            assert!(r.is_ok());
        }
        Busy::Again => panic!("still busy"),
    }
}

#[test]
fn restarts_leave_a_word() {
    assert!(reboot(1)[0] == Restart::Scratch0(0xb007_5e1f));
    let r = reboot(0);
    assert!(r[0] == Restart::Scratch0(0));
    assert!(r[1] == Restart::Select(0xffff_fffe));
    assert!(r[4] == Restart::Trigger);
}

fn rom() -> Vec<u8> {
    let mut rom = vec![0u8; 0x8000];
    rom[0x7df6] = 0x00;
    rom[0x7df7] = 0x01;
    let table: [u16; 10] = [
        u16::from_le_bytes(*b"AB"), 0x0005, 0x1111, 0x2222,
        u16::from_le_bytes(*b"FO"), 0x0044, 0x3333, 0x4444,
        0, 0,
    ];
    for (i, h) in table.iter().enumerate() {
        rom[0x100 + 2 * i..0x102 + 2 * i].copy_from_slice(&h.to_le_bytes());
    }
    rom
}

#[test]
fn rom_entries_are_found() {
    let r = rom();
    assert_eq!(rom_table_lookup(&r, *b"AB", RT_FLAG_FUNC_ARM_SEC), 0x2222);
    assert_eq!(rom_table_lookup(&r, *b"FO", RT_FLAG_FUNC_ARM_SEC), 0x3333);
    assert_eq!(rom_table_lookup(&r, *b"FO", RT_FLAG_DATA), 0x4444);
    assert_eq!(rom_table_lookup(&r, *b"AB", RT_FLAG_DATA), 0);
    assert_eq!(rom_table_lookup(&r, *b"ZZ", RT_FLAG_DATA), 0);
    assert_eq!(rom_lookup(&r, u16::from_le_bytes(*b"FO")), 0x3333);
    let mut bad = rom();
    bad[0x7df7] = 0xff;
    assert_eq!(rom_table_lookup(&bad, *b"FO", RT_FLAG_DATA), 0);
    bad[0x7df6] = 0x01;
    bad[0x7df7] = 0x01;
    assert_eq!(rom_table_lookup(&bad, *b"FO", RT_FLAG_DATA), 0);
}

#[test]
fn blobs_are_read_within_their_slot() {
    let s = Store { slots: 2, slot_size: 0x10_0000 };
    assert!(s.read_at(1, 16, 100) == Ok(0x10_0010));
    assert!(s.read_at(2, 0, 0) == Err(AuxFlashError::InvalidSlot));
    assert!(s.read_at(1, 0xf_ffff, 2) == Err(AuxFlashError::AddressOverflow));
    assert!(s.read_at(1, 0xffff_ffff, 2) == Err(AuxFlashError::AddressOverflow));
    assert!(s.slot_at(1) == Ok(0x10_0000));
    assert!(s.slot_at(2) == Err(AuxFlashError::InvalidSlot));
    assert_eq!(next_piece(1000), 256);
    assert_eq!(next_piece(100), 100);
}

#[test]
fn a_slot_is_checked() {
    let s = Store { slots: 1, slot_size: 4096 };
    let a = [1u8; 32];
    let b = [2u8; 32];
    assert!(check_slot(&s, 0, Ok(a), Ok(a)) == Ok(a));
    assert!(check_slot(&s, 0, Ok(a), Ok(b)) == Err(AuxFlashError::ChckMismatch));
    assert!(check_slot(&s, 1, Ok(a), Ok(a)) == Err(AuxFlashError::InvalidSlot));
    assert!(check_slot(&s, 0, Err(AuxFlashError::Unreadable), Ok(a)) == Err(AuxFlashError::Unreadable));
    assert!(get_active_slot(Some(1)) == Ok(1));
    assert!(get_active_slot(None) == Err(AuxFlashError::NoActiveSlot));
}

#[test]
fn the_first_fitting_slot_is_in_use() {
    let want = [7u8; 32];
    let other = [8u8; 32];
    let stored = [Some(other), Some(want), None, Some(want)];
    let actual = [Some(other), Some(other), None, Some(want)];
    let mut s = Scan::begin(want, 4);
    let mut asked = Vec::new();
    loop {
        match s.asks() {
            ScanAsk::Stored(i) => {
                asked.push((i, false));
                s.answer(stored[i as usize]);
            }
            ScanAsk::Actual(i) => {
                asked.push((i, true));
                s.answer(actual[i as usize]);
            }
            ScanAsk::Found(r) => {
                assert_eq!(r, Some(3));
                break;
            }
        }
    }
    // Contents are summed only where the claim fits.
    assert_eq!(asked, vec![(0, false), (1, false), (1, true), (2, false), (3, false), (3, true)]);
    assert!(matches!(Scan::begin(want, 0).asks(), ScanAsk::Found(None)));
}

#[test]
fn a_dead_bus_is_no_finished_write() {
    let mut state = WriteState::Busy { seen: false, left: 9 };
    let mut polls = 0;
    while let WriteState::Busy { seen, left } = state {
        let s = write_on_busy(seen, left, 0xff);
        polls += 1;
        state = s.state;
        if matches!(state, WriteState::Over) {
            assert!(matches!(s.want, WriteWant::Failed(SdError::Timeout)));
            assert!(s.ops == vec![BusOp::CsHigh]);
        }
    }
    assert_eq!(polls, 10);
}

#[test]
fn a_busy_card_is_done_when_it_lets_go() {
    let mut state = WriteState::Busy { seen: false, left: 9 };
    let mut done = false;
    for b in [0, 0, 0, 0x80] {
        let WriteState::Busy { seen, left } = state else {
            panic!("over too early");
        };
        let s = write_on_busy(seen, left, b);
        state = s.state;
        done = matches!(s.want, WriteWant::Done);
    }
    assert!(done);
}
