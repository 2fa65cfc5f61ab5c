//! The Ethernet controller, against a simulated chip.

use rp235x::w5500::{
    judge_packet, send_report, shows_link, shows_macraw, Accesses, BusAccess, DelayNs, Levels,
    OutputPin, Packet, ScriptedBus, SpiDevice, TracedDelay, TracedPin, Waits, W5500,
};
use std::cell::RefCell;
use std::rc::Rc;

struct Chip {
    common: Vec<u8>,
    socket: Vec<u8>,
    tx: Vec<u8>,
    rx: Vec<u8>,
    sent: Vec<Vec<u8>>,
    resets: Vec<bool>,
    fail_sends: u32,
}

impl Chip {
    fn new() -> Chip {
        let mut c = Chip {
            common: vec![0; 64],
            socket: vec![0; 64],
            tx: vec![0; 65536],
            rx: vec![0; 65536],
            sent: Vec::new(),
            resets: Vec::new(),
            fail_sends: 0,
        };
        c.common[0x39] = 4;
        c.common[0x2e] = 1;
        c.socket[0x20] = 0x40;
        c
    }

    fn half(&self, at: usize) -> u16 {
        u16::from_be_bytes([self.socket[at], self.socket[at + 1]])
    }

    fn set_half(&mut self, at: usize, v: u16) {
        self.socket[at..at + 2].copy_from_slice(&v.to_be_bytes());
    }

    // Put a frame where the driver looks for it.
    fn receive(&mut self, frame: &[u8]) {
        let wr = self.half(0x2a);
        let len = (frame.len() + 2) as u16;
        let mut packet = len.to_be_bytes().to_vec();
        packet.extend_from_slice(frame);
        for (i, b) in packet.iter().enumerate() {
            self.rx[wr.wrapping_add(i as u16) as usize] = *b;
        }
        let wr = wr.wrapping_add(len);
        self.set_half(0x2a, wr);
        let rsr = self.half(0x26) + len;
        self.set_half(0x26, rsr);
    }

    fn command(&mut self, c: u8) {
        match c {
            0x01 => self.socket[3] = 0x42,
            0x20 => {
                if self.fail_sends > 0 {
                    self.fail_sends -= 1;
                    self.socket[2] |= 0x08;
                } else {
                    self.socket[2] |= 0x10;
                    let wr = self.half(0x24);
                    let rd = self.half(0x22);
                    let n = wr.wrapping_sub(rd);
                    let frame = (0..n).map(|i| self.tx[rd.wrapping_add(i) as usize]).collect();
                    self.sent.push(frame);
                }
                let wr = self.half(0x24);
                self.set_half(0x22, wr);
            }
            0x40 => {
                let left = self.half(0x2a).wrapping_sub(self.half(0x28));
                self.set_half(0x26, left);
            }
            _ => {}
        }
    }
}

#[derive(Clone)]
struct Bus(Rc<RefCell<Chip>>);

impl SpiDevice for Bus {
    fn seen(&self) -> Accesses {
        unreachable!("never computed")
    }

    fn read(&mut self, header: [u8; 3], n: usize) -> Vec<u8> {
        let c = self.0.borrow();
        let addr = u16::from_be_bytes([header[0], header[1]]);
        let mut v = Vec::new();
        for i in 0..n {
            let a = addr.wrapping_add(i as u16) as usize;
            v.push(match header[2] >> 3 {
                0 => c.common[a],
                1 => c.socket[a],
                2 => c.tx[a],
                _ => c.rx[a],
            });
        }
        assert_eq!(header[2] & 4, 0);
        v
    }

    fn write(&mut self, header: [u8; 3], data: &[u8]) {
        let mut c = self.0.borrow_mut();
        let addr = u16::from_be_bytes([header[0], header[1]]);
        assert_eq!(header[2] & 4, 4);
        for (i, b) in data.iter().enumerate() {
            let a = addr.wrapping_add(i as u16) as usize;
            match header[2] >> 3 {
                0 => c.common[a] = if a == 0 { *b & 0x7f } else { *b },
                1 => {
                    if a == 1 {
                        c.command(*b);
                    } else if a == 2 {
                        c.socket[2] &= !*b;
                    } else {
                        c.socket[a] = *b;
                    }
                }
                2 => c.tx[a] = *b,
                _ => c.rx[a] = *b,
            }
        }
    }
}

struct Line(Rc<RefCell<Chip>>);

impl OutputPin for Line {
    fn driven(&self) -> Levels {
        unreachable!("never computed")
    }

    fn set_low(&mut self) {
        self.0.borrow_mut().resets.push(false);
    }
    fn set_high(&mut self) {
        self.0.borrow_mut().resets.push(true);
    }
}

struct NoDelay;

impl DelayNs for NoDelay {
    fn waited(&self) -> Waits {
        unreachable!("never computed")
    }

    fn delay_us(&mut self, _us: u32) {}
}

fn device() -> (W5500<Bus, Line>, Rc<RefCell<Chip>>) {
    let chip = Rc::new(RefCell::new(Chip::new()));
    let dev = W5500::new(
        Bus(chip.clone()),
        Some(Line(chip.clone())),
        &mut NoDelay,
        [2, 0, 0, 0, 0, 9],
    );
    (dev, chip)
}

#[test]
fn the_chip_is_set_up() {
    let (mut dev, chip) = device();
    assert_eq!(dev.version(), 4);
    assert!(dev.is_link_up());
    assert!(dev.in_macraw());
    let c = chip.borrow();
    assert_eq!(c.common[9..15], [2, 0, 0, 0, 0, 9]);
    assert_eq!(c.resets, vec![true, false, true]);
    assert_eq!(c.socket[0], 0xb4);
}

#[test]
fn frames_are_received() {
    let (mut dev, chip) = device();
    let mut buf = [0u8; 64];
    assert_eq!(dev.receive(&mut buf), None);
    chip.borrow_mut().receive(b"first frame");
    chip.borrow_mut().receive(b"second");
    assert_eq!(dev.receive(&mut buf), Some(11));
    assert_eq!(&buf[..11], b"first frame");
    assert_eq!(dev.receive(&mut buf), Some(6));
    assert_eq!(&buf[..6], b"second");
    assert_eq!(dev.receive(&mut buf), None);
}

#[test]
fn frames_too_long_are_dropped() {
    let (mut dev, chip) = device();
    chip.borrow_mut().receive(&[7; 100]);
    chip.borrow_mut().receive(b"next");
    let mut buf = [0u8; 64];
    assert_eq!(dev.receive(&mut buf), None);
    assert_eq!(dev.receive(&mut buf), Some(4));
    assert_eq!(&buf[..4], b"next");
}

#[test]
fn nonsense_lengths_empty_the_buffer() {
    let (mut dev, chip) = device();
    chip.borrow_mut().receive(b"frame");
    chip.borrow_mut().rx[0] = 0xff;
    let mut buf = [0u8; 64];
    assert_eq!(dev.receive(&mut buf), None);
    chip.borrow_mut().receive(b"good");
    assert_eq!(dev.receive(&mut buf), Some(4));
}

#[test]
fn frames_are_sent() {
    let (mut dev, chip) = device();
    let r = dev.transmit(b"hello, wire");
    assert!(r.ok);
    assert_eq!(chip.borrow().sent, vec![b"hello, wire".to_vec()]);
    let r = dev.transmit(b"again");
    assert!(r.ok);
    assert_eq!(chip.borrow().sent[1], b"again");
}

#[test]
fn a_failed_send_is_reported() {
    let (mut dev, chip) = device();
    chip.borrow_mut().fail_sends = 100;
    let r = dev.transmit(b"x");
    assert!(!r.ok);
    assert!(chip.borrow().sent.is_empty());
}

// A driver on a bus that answers with `answers` once the socket is open, and how
// many accesses it took to get there.
fn scripted(answers: &[u8]) -> (W5500<ScriptedBus, TracedPin>, usize) {
    let mut script = vec![0x42];
    script.extend_from_slice(answers);
    let bus = ScriptedBus { answers: script, pos: 0, trace: Vec::new() };
    let mut delay = TracedDelay { waits: Vec::new() };
    let dev = W5500::new(bus, None, &mut delay, [2, 0, 0, 0, 0, 9]);
    assert_eq!(delay.waits, vec![2000]);
    // The software reset, the set-up of the eight sockets, and one poll.
    (dev, 1 + 3 + 14 + 2 + 1)
}

fn read(header: [u8; 3], data: &[u8]) -> BusAccess {
    BusAccess { write: false, header, data: data.to_vec() }
}

fn write(header: [u8; 3], data: &[u8]) -> BusAccess {
    BusAccess { write: true, header, data: data.to_vec() }
}

fn trace_after(dev: W5500<ScriptedBus, TracedPin>, skip: usize) -> Vec<BusAccess> {
    let (bus, rst) = dev.free();
    assert!(rst.is_none());
    bus.trace.into_iter().skip(skip).collect()
}

#[test]
fn the_bring_up_goes_over_the_bus() {
    let bus = ScriptedBus { answers: vec![0, 0x42], pos: 0, trace: Vec::new() };
    let pin = TracedPin { levels: Vec::new() };
    let mut delay = TracedDelay { waits: Vec::new() };
    let dev = W5500::new(bus, Some(pin), &mut delay, [2, 0, 0, 0, 0, 9]);
    assert_eq!(delay.waits, vec![1000, 500, 2000, 2000]);
    let (bus, pin) = dev.free();
    assert_eq!(pin.expect("reset line").levels, vec![true, false, true]);
    let mut want = vec![
        write([0, 0, 0x04], &[0x80]),
        write([0, 9, 0x04], &[2, 0, 0, 0, 0, 9]),
        write([0, 0x1e, 0x0c], &[16]),
        write([0, 0x1f, 0x0c], &[16]),
    ];
    for n in 1..8u8 {
        let control = ((4 * n + 1) << 3) | 4;
        want.push(write([0, 0x1e, control], &[0]));
        want.push(write([0, 0x1f, control], &[0]));
    }
    want.push(write([0, 0, 0x0c], &[0xb4]));
    want.push(write([0, 1, 0x0c], &[1]));
    want.push(read([0, 3, 0x08], &[0]));
    want.push(read([0, 3, 0x08], &[0x42]));
    assert_eq!(bus.trace, want);
}

#[test]
fn a_reception_goes_over_the_bus() {
    // Two sizes that agree, the read pointer, the packet's length, the frame.
    let (mut dev, skip) =
        scripted(&[0, 5, 0, 5, 0xff, 0xfe, 0, 5, b'a', b'b', b'c']);
    let mut buf = [9u8; 4];
    assert_eq!(dev.receive(&mut buf), Some(3));
    assert_eq!(&buf, b"abc\x09");
    assert_eq!(
        trace_after(dev, skip),
        vec![
            read([0, 0x26, 0x08], &[0, 5]),
            read([0, 0x26, 0x08], &[0, 5]),
            read([0, 0x28, 0x08], &[0xff, 0xfe]),
            read([0xff, 0xfe, 0x18], &[0, 5]),
            read([0, 0, 0x18], b"abc"),
            write([0, 0x28, 0x0c], &[0, 3]),
            write([0, 1, 0x0c], &[0x40]),
        ]
    );
}

#[test]
fn an_empty_buffer_is_left_alone() {
    let (mut dev, skip) = scripted(&[0, 3, 0, 1, 0, 1]);
    let mut buf = [9u8; 4];
    assert_eq!(dev.receive(&mut buf), None);
    assert_eq!(buf, [9; 4]);
    // The first two sizes differ, so there is a third.
    assert_eq!(trace_after(dev, skip).len(), 3);
}

#[test]
fn a_nonsensical_packet_moves_to_the_write_pointer() {
    let (mut dev, skip) = scripted(&[0, 5, 0, 5, 0, 0, 0, 6, 0x12, 0x34, 0x12, 0x34]);
    let mut buf = [9u8; 4];
    assert_eq!(dev.receive(&mut buf), None);
    assert_eq!(buf, [9; 4]);
    let t = trace_after(dev, skip);
    assert_eq!(
        &t[4..],
        &[
            read([0, 0x2a, 0x08], &[0x12, 0x34]),
            read([0, 0x2a, 0x08], &[0x12, 0x34]),
            write([0, 0x28, 0x0c], &[0x12, 0x34]),
            write([0, 1, 0x0c], &[0x40]),
        ]
    );
}

#[test]
fn a_transmission_goes_over_the_bus() {
    // Room for 4096 bytes, the write pointer, one poll too early, SENDOK.
    let (mut dev, skip) = scripted(&[0x10, 0, 0x10, 0, 0xff, 0xff, 0, 0x10]);
    let r = dev.transmit(b"xyz");
    assert!(r.ok);
    assert_eq!(r.attempts, 1);
    assert_eq!(r.eir, 0x10);
    assert_eq!(
        trace_after(dev, skip),
        vec![
            read([0, 0x20, 0x08], &[0x10, 0]),
            read([0, 0x20, 0x08], &[0x10, 0]),
            read([0, 0x24, 0x08], &[0xff, 0xff]),
            write([0xff, 0xff, 0x14], b"xyz"),
            write([0, 0x24, 0x0c], &[0, 2]),
            write([0, 1, 0x0c], &[0x20]),
            read([0, 2, 0x08], &[0]),
            read([0, 2, 0x08], &[0x10]),
            write([0, 2, 0x0c], &[0x18]),
        ]
    );
}

#[test]
fn nothing_is_written_without_room() {
    // The free space reads 0 for good.
    let (mut dev, skip) = scripted(&[]);
    let r = dev.transmit(b"x");
    assert!(!r.ok);
    assert_eq!(r.eir, 0);
    let t = trace_after(dev, skip);
    assert_eq!(t.len(), 2 * 200_001);
    assert!(t.iter().all(|a| !a.write));
}

#[test]
fn a_silent_chip_is_no_success() {
    // Room and a write pointer, then the interrupt register reads 0 for good.
    let (mut dev, skip) = scripted(&[0x10, 0, 0x10, 0, 0, 0]);
    let r = dev.transmit(b"x");
    assert!(!r.ok);
    assert_eq!(r.attempts, 1);
    assert_eq!(r.eir, 0);
    assert_eq!(trace_after(dev, skip).len(), 2 + 4 + 200_001);
}

#[test]
fn the_registers_are_read_where_they_are() {
    let (mut dev, skip) = scripted(&[4, 1, 0x42, 0x12, 0x34, 5, 6, 7]);
    assert_eq!(dev.version(), 4);
    assert!(dev.is_link_up());
    assert!(dev.in_macraw());
    assert_eq!(dev.rx_diag(), (0x1234, 5, 6, 7));
    assert_eq!(
        trace_after(dev, skip),
        vec![
            read([0, 0x39, 0], &[4]),
            read([0, 0x2e, 0], &[1]),
            read([0, 3, 0x08], &[0x42]),
            read([0, 0x26, 0x08], &[0x12, 0x34]),
            read([0, 2, 0x08], &[5]),
            read([0, 3, 0x08], &[6]),
            read([0, 0x2e, 0], &[7]),
        ]
    );
}

#[test]
fn the_chips_answers_are_judged() {
    assert_eq!(judge_packet(10, 0, 1, 100), Packet::Flush);
    assert_eq!(judge_packet(10, 0, 11, 100), Packet::Flush);
    assert_eq!(judge_packet(10, 0xffff, 10, 7), Packet::Skip { next: 9 });
    assert_eq!(judge_packet(10, 0xffff, 10, 8), Packet::Take { at: 1, len: 8, next: 9 });
    assert_eq!(judge_packet(10, 5, 2, 0), Packet::Take { at: 7, len: 0, next: 7 });
    assert!(send_report(0x07).is_none());
    let r = send_report(0x08).expect("over");
    assert!(!r.ok && r.attempts == 1 && r.eir == 0x08);
    assert!(send_report(0x18).expect("over").ok);
    assert!(shows_link(0xff) && !shows_link(0xfe));
    assert!(shows_macraw(0x42) && !shows_macraw(0x02));
}

#[test]
fn a_second_bring_up_is_like_the_first() {
    let (mut dev, skip) = scripted(&[0x42]);
    let mut delay = TracedDelay { waits: vec![7] };
    dev.reinit(&mut delay);
    assert_eq!(delay.waits, vec![7, 2000]);
    let (bus, _) = dev.free();
    assert_eq!(bus.trace[..skip], bus.trace[skip..]);
}
