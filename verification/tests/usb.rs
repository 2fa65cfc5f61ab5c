//! The USB device: endpoints, packets and interrupts.

use rp235x::ring::Ring;
use rp235x::usb::{
    ep_addr_to_ep_buf_ctrl_idx, unique_serial, ChunkWrite, Endpoint, EndpointAddress, EndpointType,
    Endpoints, Interrupts, PollResult, ReadAction, UsbError,
};

fn at(index: u8, is_in: bool) -> EndpointAddress {
    EndpointAddress { index, is_in }
}

const QUIET: Interrupts = Interrupts { bus_reset: false, setup_req: false, suspend: false, resume: false };

#[test]
fn endpoints_get_slots() {
    assert_eq!(ep_addr_to_ep_buf_ctrl_idx(at(0, true)), 0);
    assert_eq!(ep_addr_to_ep_buf_ctrl_idx(at(0, false)), 1);
    assert_eq!(ep_addr_to_ep_buf_ctrl_idx(at(3, true)), 6);
    assert_eq!(ep_addr_to_ep_buf_ctrl_idx(at(3, false)), 7);
}

#[test]
fn endpoints_are_allocated_apart() {
    let mut e = Endpoints::new();
    let a = e.ep_allocate(Some(at(0, false)), false, EndpointType::Control, 64);
    assert!(a == Ok(at(0, false)));
    let a = e.ep_allocate(Some(at(0, true)), true, EndpointType::Control, 64);
    assert!(a == Ok(at(0, true)));
    let a = e.ep_allocate(None, true, EndpointType::Bulk, 64).ok().expect("room");
    let b = e.ep_allocate(None, true, EndpointType::Bulk, 64).ok().expect("room");
    assert!(a.is_in && b.is_in && a.index != b.index);
    let x: Endpoint = e.slots[ep_addr_to_ep_buf_ctrl_idx(a)].expect("there");
    let y: Endpoint = e.slots[ep_addr_to_ep_buf_ctrl_idx(b)].expect("there");
    assert!(x.buffer_at() != y.buffer_at());
    // A slot is given once.
    assert!(e.ep_allocate(Some(a), true, EndpointType::Bulk, 64) == Err(UsbError::InvalidEndpoint));
}

#[test]
fn endpoints_stay_in_the_controllers_memory() {
    let mut e = Endpoints::new();
    // Three of 16 blocks and one of ten fill the 58 that there are.
    for size in [1023, 1023, 1023, 640] {
        assert!(e.ep_allocate(None, true, EndpointType::Isochronous, size).is_ok());
    }
    assert_eq!(e.next_offset, 58);
    let r = e.ep_allocate(None, true, EndpointType::Isochronous, 1);
    assert!(r == Err(UsbError::EndpointMemoryOverflow));
    assert_eq!(e.next_offset, 58);
    // The last buffer ends where the memory does.
    let last = e.slots[ep_addr_to_ep_buf_ctrl_idx(at(4, true))].expect("there");
    assert_eq!(last.buffer_at() + 640, 4096);
    assert!(e.slots[ep_addr_to_ep_buf_ctrl_idx(at(5, true))].is_none());
}

#[test]
fn endpoints_that_the_controller_lacks_are_refused() {
    let mut e = Endpoints::new();
    for index in [16, 127, 255] {
        let a = at(index, true);
        let r = e.ep_allocate(Some(a), true, EndpointType::Bulk, 64);
        assert!(r == Err(UsbError::EndpointOverflow));
        let r = e.ep_allocate(Some(a), true, EndpointType::Control, 64);
        assert!(r == Err(UsbError::Unsupported));
        assert!(e.ep_write(a, false, 1).err() == Some(UsbError::InvalidEndpoint));
        let r = e.ep_read(at(index, false), true, 1, 64, &[0; 8]);
        assert!(r.err() == Some(UsbError::InvalidEndpoint));
    }
    assert_eq!(e.next_offset, 0);
    assert!(e.slots.iter().all(|s| s.is_none()));
    assert_eq!(ep_addr_to_ep_buf_ctrl_idx(at(16, false)), 33);
}

#[test]
fn an_endpoint_past_the_memory_is_refused() {
    let mut e = Endpoints::new();
    for _ in 0..3 {
        assert!(e.ep_allocate(None, true, EndpointType::Isochronous, 1023).is_ok());
    }
    let r = e.ep_allocate(None, true, EndpointType::Isochronous, 641);
    assert!(r == Err(UsbError::EndpointMemoryOverflow));
    assert_eq!(e.next_offset, 48);
}

#[test]
fn packets_go_out() {
    let mut e = Endpoints::new();
    let a = e.ep_allocate(None, true, EndpointType::Bulk, 64).ok().expect("room");
    assert!(e.ep_write(a, false, 64).is_ok());
    assert!(e.ep_write(a, true, 64).err() == Some(UsbError::WouldBlock));
    assert!(e.ep_write(a, false, 65).err() == Some(UsbError::BufferOverflow));
    assert!(e.ep_write(at(9, true), false, 1).err() == Some(UsbError::InvalidEndpoint));
}

#[test]
fn packets_come_in() {
    let mut e = Endpoints::new();
    let a = e.ep_allocate(None, false, EndpointType::Bulk, 64).ok().expect("room");
    match e.ep_read(a, true, 10, 64, &[0; 8]) {
        Ok(ReadAction::Data { len, .. }) => assert_eq!(len, 10),
        _ => panic!("no data"),
    }
    assert!(e.ep_read(a, false, 10, 64, &[0; 8]).err() == Some(UsbError::WouldBlock));
    assert!(e.ep_read(a, true, 10, 9, &[0; 8]).err() == Some(UsbError::BufferOverflow));
}

#[test]
fn interrupts_are_sorted() {
    let mut e = Endpoints::new();
    assert!(matches!(e.poll(QUIET, 0), PollResult::Nothing));
    assert!(matches!(e.poll(Interrupts { bus_reset: true, ..QUIET }, 5), PollResult::Reset));
    assert!(matches!(e.poll(Interrupts { suspend: true, ..QUIET }, 0), PollResult::Suspend));
    assert!(matches!(e.poll(Interrupts { resume: true, ..QUIET }, 0), PollResult::Resume));
    // Slots 2 (in 1), 5 (out 2) and 7 (out 3).
    match e.poll(QUIET, 0b1010_0100) {
        PollResult::Data { ep_out, ep_in_complete, ep_setup } => {
            assert_eq!(ep_out, 0b1100);
            assert_eq!(ep_in_complete, 0b10);
            assert_eq!(ep_setup, 0);
        }
        _ => panic!("no data"),
    }
}

#[test]
fn every_board_has_a_serial() {
    assert_eq!(unique_serial(0x0123_4567_89ab_cdef), b"H0123456789ABCDEF");
    assert_ne!(unique_serial(1), unique_serial(2));
}

#[test]
fn a_chunk_is_tried_until_it_is_out() {
    let mut c = ChunkWrite::begin(0, 10);
    assert!(c.tried(4));
    assert!(c.tried(0));
    assert!(!c.tried(6));
    assert_eq!(c.sent, 10);
    let mut c = ChunkWrite::begin(0, 10);
    let mut tries = 1;
    while c.tried(0) {
        tries += 1;
    }
    assert_eq!(tries, 2000);
}

#[test]
fn a_full_ring_keeps_the_newest() {
    let mut r = Ring::new(4);
    r.push_all(b"abcde");
    assert_eq!(r.read(10), b"cde");
    assert_eq!(r.pop(), None);
    r.push(b'x');
    r.push(b'y');
    assert_eq!(r.pop(), Some(b'x'));
    assert_eq!(r.read(1), b"y");
}
