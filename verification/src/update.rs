//! Moving a firmware image between boards: the paced page protocol, the side
//! that receives into flash, the side that pushes, and the waits in between.

use crate::net::{self, crc32};
use crate::text::{self, append, append_hex32, append_str, append_u32};
use vstd::prelude::*;

verus! {

/// Bytes in a page.
pub const PAGE: u32 = 256;

/// How often a page may be wrong before the transfer is given up.
pub const MAX_TRIES: u32 = 12;

/// A transport for an image: the console (a host) or UART (a peer board). The
/// protocol is the same over each, except that pages on UART carry a checksum.
#[derive(Copy, Clone, Debug, PartialEq, Eq, Structural)]
pub enum Link {
    Usb,
    Uart,
}

/// The sum of the bytes, modulo 2^16.
pub open spec fn sum16(s: Seq<u8>) -> u16
    decreases s.len(),
{
    if s.len() == 0 {
        0
    } else {
        ((sum16(s.drop_last()) + s.last()) % 0x1_0000) as u16
    }
}

/// 16-bit additive checksum of a page, for per-page integrity over UART.
pub fn page16(data: &[u8]) -> (r: u16)
    ensures
        r == sum16(data@),
{
    let mut sum: u16 = 0;
    let mut i: usize = 0;
    assert(data@.take(0) =~= Seq::<u8>::empty());
    while i < data.len()
        invariant
            i <= data@.len(),
            sum == sum16(data@.take(i as int)),
        decreases data@.len() - i,
    {
        assert(data@.take(i + 1).drop_last() =~= data@.take(i as int));
        sum = ((sum as u32 + data[i] as u32) % 0x1_0000) as u16;
        i = i + 1;
    }
    assert(data@.take(i as int) =~= data@);
    sum
}

/// The size of the page at `off`.
pub open spec fn page_len(size: u32, off: u32) -> int {
    if size - off <= PAGE {
        size - off
    } else {
        PAGE as int
    }
}

fn page_at(size: u32, off: u32) -> (n: u32)
    requires
        off <= size,
    ensures
        n == page_len(size, off),
{
    if size - off <= PAGE {
        size - off
    } else {
        PAGE
    }
}

/// What a receiver waits for.
#[derive(Copy, Clone, Debug, PartialEq, Eq, Structural)]
pub enum RecvPhase {
    /// The bytes of the page.
    Page,
    /// The checksum of the page.
    Check,
    /// The flash.
    Write,
    /// The checksum of what the flash now holds.
    Verify,
    /// Nothing more.
    Done,
}

/// What the receiver asks for next.
#[derive(Copy, Clone, Debug, PartialEq, Eq, Structural)]
pub enum RecvAsk {
    /// Read this many bytes from the link.
    Page { n: u32 },
    /// Read the two checksum bytes from the link.
    Check,
    /// Erase the sector at `addr` if told so, then program the page there.
    Write { addr: u32, erase: bool },
    /// Read the image back from flash and checksum it.
    Verify { base: u32, size: u32 },
    /// Nothing: the transfer is over.
    Stop,
}

/// What happened.
pub enum RecvEvent {
    /// The page's bytes.
    Page(Vec<u8>),
    /// The page's checksum.
    Check { sum: u16 },
    /// Nothing came in time.
    Timeout,
    /// The page is in flash.
    Written,
    EraseFailed,
    ProgramFailed,
    /// The checksum of what the flash holds.
    Crc { crc: u32 },
}

/// What the receiver does: text for the console, bytes for the link, and what
/// it asks for.
pub struct RecvStep {
    pub say: Vec<u8>,
    pub send: Vec<u8>,
    pub ask: RecvAsk,
}

/// An image being received.
pub struct Receiver {
    pub link: Link,
    pub base: u32,
    pub size: u32,
    pub want_crc: u32,
    pub off: u32,
    pub tries: u32,
    pub page: Vec<u8>,
    pub phase: RecvPhase,
}

/// An image being received, in the abstract.
#[verifier::ext_equal]
pub struct Receiving {
    pub link: Link,
    pub base: u32,
    pub size: u32,
    pub want_crc: u32,
    pub off: u32,
    pub tries: u32,
    pub page: Seq<u8>,
    pub phase: RecvPhase,
}

/// What happened, in the abstract.
pub enum RecvInput {
    Page(Seq<u8>),
    Check { sum: u16 },
    Timeout,
    Written,
    EraseFailed,
    ProgramFailed,
    Crc { crc: u32 },
}

/// What the receiver does, in the abstract.
#[verifier::ext_equal]
pub struct RecvOutput {
    pub say: Seq<u8>,
    pub send: Seq<u8>,
    pub ask: RecvAsk,
}

impl Receiver {
    /// Where the transfer stands.
    pub open spec fn view(&self) -> Receiving {
        Receiving {
            link: self.link,
            base: self.base,
            size: self.size,
            want_crc: self.want_crc,
            off: self.off,
            tries: self.tries,
            page: self.page@,
            phase: self.phase,
        }
    }
}

impl RecvEvent {
    /// What happened.
    pub open spec fn view(&self) -> RecvInput {
        match self {
            RecvEvent::Page(v) => RecvInput::Page(v@),
            RecvEvent::Check { sum } => RecvInput::Check { sum: *sum },
            RecvEvent::Timeout => RecvInput::Timeout,
            RecvEvent::Written => RecvInput::Written,
            RecvEvent::EraseFailed => RecvInput::EraseFailed,
            RecvEvent::ProgramFailed => RecvInput::ProgramFailed,
            RecvEvent::Crc { crc } => RecvInput::Crc { crc: *crc },
        }
    }
}

impl RecvStep {
    /// What the receiver does.
    pub open spec fn view(&self) -> RecvOutput {
        RecvOutput { say: self.say@, send: self.send@, ask: self.ask }
    }
}

/// A sound state of a receiver.
pub open spec fn sound_receiver(r: Receiving) -> bool {
    &&& r.base + r.size <= 0x1_0000_0000
    &&& r.off <= r.size
    &&& r.tries <= MAX_TRIES
    &&& r.phase == RecvPhase::Page ==> r.off < r.size
    &&& (r.phase == RecvPhase::Check || r.phase == RecvPhase::Write) ==> {
        &&& r.off < r.size
        &&& r.page.len() == page_len(r.size, r.off)
    }
    &&& r.phase == RecvPhase::Verify ==> r.off == r.size
}

/// Whether this can happen to a receiver.
pub open spec fn recv_can(r: Receiving, e: RecvInput) -> bool {
    match e {
        RecvInput::Page(p) => r.phase == RecvPhase::Page && p.len() == page_len(r.size, r.off),
        RecvInput::Check { .. } => r.phase == RecvPhase::Check,
        RecvInput::Timeout => r.phase == RecvPhase::Page || r.phase == RecvPhase::Check,
        RecvInput::Written | RecvInput::EraseFailed | RecvInput::ProgramFailed => r.phase
            == RecvPhase::Write,
        RecvInput::Crc { .. } => r.phase == RecvPhase::Verify,
    }
}

/// The transfer is given up: a text for the console, an error for the sender.
pub open spec fn recv_fail(r: Receiving, say: Seq<u8>) -> (Receiving, RecvOutput) {
    (
        Receiving { phase: RecvPhase::Done, ..r },
        RecvOutput { say, send: text::lit("ERR\r\n"), ask: RecvAsk::Stop },
    )
}

/// Ask for the page at the current offset, or verify once there is none.
pub open spec fn recv_next_page(r: Receiving, send: Seq<u8>) -> (Receiving, RecvOutput) {
    if r.off < r.size {
        (
            Receiving { phase: RecvPhase::Page, ..r },
            RecvOutput {
                say: Seq::empty(),
                send,
                ask: RecvAsk::Page { n: page_len(r.size, r.off) as u32 },
            },
        )
    } else {
        (
            Receiving { phase: RecvPhase::Verify, ..r },
            RecvOutput {
                say: Seq::empty(),
                send,
                ask: RecvAsk::Verify { base: r.base, size: r.size },
            },
        )
    }
}

/// Write the page at hand.
pub open spec fn recv_write(r: Receiving) -> (Receiving, RecvOutput) {
    (
        Receiving { phase: RecvPhase::Write, ..r },
        RecvOutput {
            say: Seq::empty(),
            send: Seq::empty(),
            ask: RecvAsk::Write { addr: (r.base + r.off) as u32, erase: r.off % 4096 == 0 },
        },
    )
}

/// The verdict on the whole image.
pub open spec fn crc_verdict(want: u32, crc: u32) -> Seq<u8> {
    if crc == want {
        text::lit("\r\nOK crc verified; `reboot` to apply\r\n")
    } else {
        text::lit("\r\nCRC MISMATCH: flash ") + text::hex8(crc) + text::lit(" != ") + text::hex8(
            want,
        ) + text::lit(" -- do NOT reboot; retry\r\n")
    }
}

/// One step of a receiver.
pub open spec fn recv_next(r: Receiving, e: RecvInput) -> (Receiving, RecvOutput) {
    match e {
        RecvInput::Page(p) => {
            let q = Receiving { page: p, ..r };
            if r.link == Link::Usb {
                recv_write(q)
            } else {
                (
                    Receiving { phase: RecvPhase::Check, ..q },
                    RecvOutput { say: Seq::empty(), send: Seq::empty(), ask: RecvAsk::Check },
                )
            }
        },
        RecvInput::Check { sum } => if sum16(r.page) == sum {
            recv_write(r)
        } else if r.tries + 1 > MAX_TRIES {
            recv_fail(r, text::lit("\r\ntoo many page errors\r\n"))
        } else {
            recv_next_page(Receiving { tries: (r.tries + 1) as u32, ..r }, text::lit("!"))
        },
        RecvInput::Timeout => recv_fail(
            r,
            if r.phase == RecvPhase::Page {
                text::lit("\r\ntimeout waiting for data\r\n")
            } else {
                Seq::empty()
            },
        ),
        RecvInput::Written => recv_next_page(
            Receiving { off: (r.off + r.page.len()) as u32, tries: 0, ..r },
            text::lit("."),
        ),
        RecvInput::EraseFailed => recv_fail(r, text::lit("\r\nerase failed\r\n")),
        RecvInput::ProgramFailed => recv_fail(r, text::lit("\r\nprogram failed\r\n")),
        RecvInput::Crc { crc } => (
            Receiving { phase: RecvPhase::Done, ..r },
            RecvOutput {
                say: crc_verdict(r.want_crc, crc),
                send: if crc == r.want_crc {
                    text::lit("OK\r\n")
                } else {
                    text::lit("ERR\r\n")
                },
                ask: RecvAsk::Stop,
            },
        ),
    }
}

fn bytes_of(s: &str) -> (v: Vec<u8>)
    ensures
        v@ == text::lit(s),
{
    let mut v: Vec<u8> = Vec::new();
    append_str(&mut v, s);
    assert(v@ =~= text::lit(s));
    v
}

impl Receiver {
    /// Begin to receive `size` bytes into the slot at `base`: tell the console
    /// where they go, and the sender to go.
    pub fn begin(link: Link, base: u32, size: u32, want_crc: u32) -> (r: (Receiver, RecvStep))
        requires
            base + size <= 0x1_0000_0000,
        ensures
            sound_receiver(r.0@),
            ({
                let start = Receiving {
                    link,
                    base,
                    size,
                    want_crc,
                    off: 0,
                    tries: 0,
                    page: Seq::empty(),
                    phase: RecvPhase::Page,
                };
                let (state, out) = recv_next_page(start, text::lit("GO\r\n"));
                &&& r.0@ == state
                &&& r.1@ == (RecvOutput {
                    say: text::lit("target flash 0x") + text::hex8(base) + text::lit("\r\n"),
                    ..out
                })
            }),
    {
        let mut say: Vec<u8> = Vec::new();
        append_str(&mut say, "target flash 0x");
        append_hex32(&mut say, base);
        append_str(&mut say, "\r\n");
        assert(say@ =~= text::lit("target flash 0x") + text::hex8(base) + text::lit("\r\n"));
        let mut r = Receiver {
            link,
            base,
            size,
            want_crc,
            off: 0,
            tries: 0,
            page: Vec::new(),
            phase: RecvPhase::Page,
        };
        assert(r@.page =~= Seq::<u8>::empty());
        let step = r.next_page("GO\r\n");
        (r, RecvStep { say, send: step.send, ask: step.ask })
    }

    fn next_page(&mut self, send: &str) -> (s: RecvStep)
        requires
            old(self)@.off <= old(self)@.size,
        ensures
            (final(self)@, s@) == recv_next_page(old(self)@, text::lit(send)),
    {
        let send = bytes_of(send);
        let s = if self.off < self.size {
            self.phase = RecvPhase::Page;
            RecvStep {
                say: Vec::new(),
                send,
                ask: RecvAsk::Page { n: page_at(self.size, self.off) },
            }
        } else {
            self.phase = RecvPhase::Verify;
            RecvStep {
                say: Vec::new(),
                send,
                ask: RecvAsk::Verify { base: self.base, size: self.size },
            }
        };
        assert(s@.say =~= Seq::<u8>::empty());
        s
    }

    fn fail(&mut self, say: &str) -> (s: RecvStep)
        ensures
            (final(self)@, s@) == recv_fail(old(self)@, text::lit(say)),
    {
        self.phase = RecvPhase::Done;
        RecvStep { say: bytes_of(say), send: bytes_of("ERR\r\n"), ask: RecvAsk::Stop }
    }

    fn write(&mut self) -> (s: RecvStep)
        requires
            old(self)@.base + old(self)@.off <= u32::MAX,
        ensures
            (final(self)@, s@) == recv_write(old(self)@),
    {
        self.phase = RecvPhase::Write;
        let s = RecvStep {
            say: Vec::new(),
            send: Vec::new(),
            ask: RecvAsk::Write { addr: self.base + self.off, erase: self.off % 4096 == 0 },
        };
        assert(s@.say =~= Seq::<u8>::empty() && s@.send =~= Seq::<u8>::empty());
        s
    }

    /// Take what happened and say what to do.
    pub fn next(&mut self, e: RecvEvent) -> (s: RecvStep)
        requires
            sound_receiver(old(self)@),
            recv_can(old(self)@, e@),
        ensures
            sound_receiver(final(self)@),
            (final(self)@, s@) == recv_next(old(self)@, e@),
    {
        match e {
            RecvEvent::Page(p) => {
                self.page = p;
                match self.link {
                    Link::Usb => self.write(),
                    Link::Uart => {
                        self.phase = RecvPhase::Check;
                        let s = RecvStep {
                            say: Vec::new(),
                            send: Vec::new(),
                            ask: RecvAsk::Check,
                        };
                        assert(s@.say =~= Seq::<u8>::empty() && s@.send =~= Seq::<u8>::empty());
                        s
                    },
                }
            },
            RecvEvent::Check { sum } => {
                if page16(self.page.as_slice()) == sum {
                    self.write()
                } else if self.tries + 1 > MAX_TRIES {
                    self.fail("\r\ntoo many page errors\r\n")
                } else {
                    self.tries = self.tries + 1;
                    self.next_page("!")
                }
            },
            RecvEvent::Timeout => match self.phase {
                RecvPhase::Page => self.fail("\r\ntimeout waiting for data\r\n"),
                _ => {
                    self.phase = RecvPhase::Done;
                    let s = RecvStep {
                        say: Vec::new(),
                        send: bytes_of("ERR\r\n"),
                        ask: RecvAsk::Stop,
                    };
                    assert(s@.say =~= Seq::<u8>::empty());
                    s
                },
            },
            RecvEvent::Written => {
                self.off = self.off + self.page.len() as u32;
                self.tries = 0;
                self.next_page(".")
            },
            RecvEvent::EraseFailed => self.fail("\r\nerase failed\r\n"),
            RecvEvent::ProgramFailed => self.fail("\r\nprogram failed\r\n"),
            RecvEvent::Crc { crc } => {
                self.phase = RecvPhase::Done;
                let want: u32 = self.want_crc;
                let mut say: Vec<u8> = Vec::new();
                if crc == want {
                    append_str(&mut say, "\r\nOK crc verified; `reboot` to apply\r\n");
                } else {
                    append_str(&mut say, "\r\nCRC MISMATCH: flash ");
                    append_hex32(&mut say, crc);
                    append_str(&mut say, " != ");
                    append_hex32(&mut say, want);
                    append_str(&mut say, " -- do NOT reboot; retry\r\n");
                }
                assert(say@ =~= crc_verdict(want, crc));
                let send = if crc == want {
                    bytes_of("OK\r\n")
                } else {
                    bytes_of("ERR\r\n")
                };
                RecvStep { say, send, ask: RecvAsk::Stop }
            },
        }
    }
}

/// What a write step does to the flash.
pub open spec fn write_acts(ask: RecvAsk, page: Seq<u8>) -> Seq<net::FlashAct> {
    match ask {
        RecvAsk::Write { addr, erase } => (if erase {
            seq![net::FlashAct::Erase { addr }]
        } else {
            Seq::empty()
        }) + seq![net::FlashAct::Program { addr, data: page }],
        _ => Seq::empty(),
    }
}

/// Feed one page, unharmed, and let it be written: where the transfer stands
/// then, and what was asked of the flash.
pub open spec fn page_taken(r: Receiving, page: Seq<u8>) -> (Receiving, RecvAsk) {
    let (a, x) = recv_next(r, RecvInput::Page(page));
    let (b, y) = if r.link == Link::Uart {
        recv_next(a, RecvInput::Check { sum: sum16(page) })
    } else {
        (a, x)
    };
    (recv_next(b, RecvInput::Written).0, y.ask)
}

/// Feed the rest of an image, page by page and each page unharmed: where the
/// transfer ends, and what it did to the flash.
pub open spec fn unharmed(r: Receiving, image: Seq<u8>) -> (Receiving, Seq<net::FlashAct>)
    decreases image.len() - r.off,
{
    if r.phase != RecvPhase::Page || r.off >= image.len() || r.size != image.len() {
        (r, Seq::empty())
    } else {
        let page = image.subrange(r.off as int, r.off + page_len(r.size, r.off));
        let (c, ask) = page_taken(r, page);
        if c.off <= r.off {
            (r, Seq::empty())
        } else {
            let (d, rest) = unharmed(c, image);
            (d, write_acts(ask, page) + rest)
        }
    }
}

proof fn page_goes_to_its_place(r: Receiving, page: Seq<u8>)
    requires
        sound_receiver(r),
        r.phase == RecvPhase::Page,
        page.len() == page_len(r.size, r.off),
    ensures
        ({
            let (c, ask) = page_taken(r, page);
            &&& sound_receiver(c)
            &&& c.off == r.off + page.len()
            &&& c.phase == if c.off < r.size {
                RecvPhase::Page
            } else {
                RecvPhase::Verify
            }
            &&& c.base == r.base && c.size == r.size
            &&& write_acts(ask, page) == net::page_acts(r.base as int, r.off as int, page)
        }),
{
    assert(write_acts(page_taken(r, page).1, page) =~= net::page_acts(
        r.base as int,
        r.off as int,
        page,
    ));
}

/// An image that arrives unharmed, over either link, is written page by page at
/// its place, each sector erased before its first page, and is then verified.
pub proof fn image_is_written(r: Receiving, image: Seq<u8>)
    requires
        sound_receiver(r),
        r.phase == RecvPhase::Page,
        r.off % 256 == 0,
        r.size == image.len(),
    ensures
        unharmed(r, image).1 == net::image_acts(r.base as int, image, r.off as int),
        unharmed(r, image).0.phase == RecvPhase::Verify,
        unharmed(r, image).0.off == r.size,
    decreases r.size - r.off,
{
    let n = page_len(r.size, r.off);
    let page = image.subrange(r.off as int, r.off + n);
    page_goes_to_its_place(r, page);
    let (c, ask) = page_taken(r, page);
    let acts = net::page_acts(r.base as int, r.off as int, page);
    if c.off < r.size {
        image_is_written(c, image);
    } else {
        assert(unharmed(c, image) == (c, Seq::<net::FlashAct>::empty()));
        assert(acts + Seq::<net::FlashAct>::empty() =~= acts);
        if n < 256 {
            assert(page =~= image.skip(r.off as int));
        } else {
            assert(net::image_acts(r.base as int, image, r.off + 256) == Seq::<
                net::FlashAct,
            >::empty());
        }
    }
}

/// Over UART nothing is written but a page whose checksum was right.
pub proof fn only_checked_pages_are_written(r: Receiving, e: RecvInput)
    requires
        sound_receiver(r),
        recv_can(r, e),
        r.link == Link::Uart,
        recv_next(r, e).1.ask is Write,
    ensures
        e == (RecvInput::Check { sum: sum16(r.page) }),
{
}

/// The update is confirmed exactly when the flash reads back with the checksum
/// that was announced.
pub proof fn confirmed_means_verified(r: Receiving, crc: u32)
    requires
        sound_receiver(r),
        r.phase == RecvPhase::Verify,
    ensures
        crc == r.want_crc ==> recv_next(r, RecvInput::Crc { crc }).1.send == text::lit("OK\r\n"),
        crc != r.want_crc ==> recv_next(r, RecvInput::Crc { crc }).1.send == text::lit(
            "ERR\r\n",
        ),
{
}

/// What a sender waits for.
#[derive(Copy, Clone, Debug, PartialEq, Eq, Structural)]
pub enum SendPhase {
    /// The peer's go.
    Go,
    /// The page from the own flash.
    Read,
    /// The peer's answer to a page.
    Ack,
    /// The peer's final word.
    Final,
    /// Nothing more.
    Done,
}

/// What the sender asks for next.
#[derive(Copy, Clone, Debug, PartialEq, Eq, Structural)]
pub enum SendAsk {
    /// Wait for `GO`, up to this many idle turns.
    WaitGo { units: u32 },
    /// Read a page of the own flash.
    ReadFlash { off: u32, n: u32 },
    /// Wait for the answer to a page, up to this many idle turns.
    WaitAck { units: u32 },
    /// Wait for `OK`, up to this many idle turns.
    WaitOk { units: u32 },
    /// Nothing: the transfer is over.
    Stop,
}

/// What happened.
pub enum SendEvent {
    /// The token came, or did not; `ms` since the go.
    Token { seen: bool, ms: u32 },
    /// The page read from flash.
    Page(Vec<u8>),
    ReadFailed,
    /// The peer took the page, or wants it again.
    Ack { taken: bool },
}

/// What the sender does.
pub struct SendStep {
    pub say: Vec<u8>,
    pub send: Vec<u8>,
    pub ask: SendAsk,
}

/// An image being pushed.
pub struct Sender {
    pub size: u32,
    pub off: u32,
    pub tries: u32,
    pub page: Vec<u8>,
    pub phase: SendPhase,
}

/// An image being pushed, in the abstract.
#[verifier::ext_equal]
pub struct Sending {
    pub size: u32,
    pub off: u32,
    pub tries: u32,
    pub page: Seq<u8>,
    pub phase: SendPhase,
}

/// What happened, in the abstract.
pub enum SendInput {
    Token { seen: bool, ms: u32 },
    Page(Seq<u8>),
    ReadFailed,
    Ack { taken: bool },
}

/// What the sender does, in the abstract.
#[verifier::ext_equal]
pub struct SendOutput {
    pub say: Seq<u8>,
    pub send: Seq<u8>,
    pub ask: SendAsk,
}

impl Sender {
    /// Where the transfer stands.
    pub open spec fn view(&self) -> Sending {
        Sending {
            size: self.size,
            off: self.off,
            tries: self.tries,
            page: self.page@,
            phase: self.phase,
        }
    }
}

impl SendEvent {
    /// What happened.
    pub open spec fn view(&self) -> SendInput {
        match self {
            SendEvent::Token { seen, ms } => SendInput::Token { seen: *seen, ms: *ms },
            SendEvent::Page(v) => SendInput::Page(v@),
            SendEvent::ReadFailed => SendInput::ReadFailed,
            SendEvent::Ack { taken } => SendInput::Ack { taken: *taken },
        }
    }
}

impl SendStep {
    /// What the sender does.
    pub open spec fn view(&self) -> SendOutput {
        SendOutput { say: self.say@, send: self.send@, ask: self.ask }
    }
}

/// A sound state of a sender.
pub open spec fn sound_sender(s: Sending) -> bool {
    &&& s.off <= s.size
    &&& s.tries <= MAX_TRIES
    &&& s.phase == SendPhase::Read ==> s.off < s.size
    &&& s.phase == SendPhase::Ack ==> s.off < s.size && s.page.len() == page_len(s.size, s.off)
}

/// Whether this can happen to a sender.
pub open spec fn send_can(s: Sending, e: SendInput) -> bool {
    match e {
        SendInput::Token { .. } => s.phase == SendPhase::Go || s.phase == SendPhase::Final,
        SendInput::Page(p) => s.phase == SendPhase::Read && p.len() == page_len(s.size, s.off),
        SendInput::ReadFailed => s.phase == SendPhase::Read,
        SendInput::Ack { .. } => s.phase == SendPhase::Ack,
    }
}

/// A page as it goes over the wire: its bytes and its checksum, low byte first.
pub open spec fn framed_page(p: Seq<u8>) -> Seq<u8> {
    p + seq![(sum16(p) % 256) as u8, (sum16(p) / 256) as u8]
}

/// Ask for the next page of the own flash, or for the peer's final word.
pub open spec fn send_next_page(s: Sending) -> (Sending, SendOutput) {
    if s.off < s.size {
        (
            Sending { phase: SendPhase::Read, ..s },
            SendOutput {
                say: Seq::empty(),
                send: Seq::empty(),
                ask: SendAsk::ReadFlash { off: s.off, n: page_len(s.size, s.off) as u32 },
            },
        )
    } else {
        (
            Sending { phase: SendPhase::Final, ..s },
            SendOutput {
                say: Seq::empty(),
                send: Seq::empty(),
                ask: SendAsk::WaitOk { units: 1500 },
            },
        )
    }
}

/// The transfer is over, with a text for the console.
pub open spec fn send_stop(s: Sending, say: Seq<u8>) -> (Sending, SendOutput) {
    (
        Sending { phase: SendPhase::Done, ..s },
        SendOutput { say, send: Seq::empty(), ask: SendAsk::Stop },
    )
}

/// Send the page at hand and wait for its answer.
pub open spec fn send_page(s: Sending) -> (Sending, SendOutput) {
    (
        Sending { phase: SendPhase::Ack, ..s },
        SendOutput {
            say: Seq::empty(),
            send: framed_page(s.page),
            ask: SendAsk::WaitAck { units: 800 },
        },
    )
}

/// The final report.
pub open spec fn push_report(ok: bool, size: u32, ms: u32) -> Seq<u8> {
    (if ok {
        text::lit("\r\npush OK: peer verified; ")
    } else {
        text::lit("\r\npush done (peer status?); ")
    }) + text::decimal(size as nat) + text::lit(" bytes in ") + text::decimal(ms as nat)
        + text::lit(" ms\r\n")
}

/// One step of a sender.
pub open spec fn send_next(s: Sending, e: SendInput) -> (Sending, SendOutput) {
    match e {
        SendInput::Token { seen, ms } => if s.phase == SendPhase::Final {
            send_stop(s, push_report(seen, s.size, ms))
        } else if seen {
            send_next_page(s)
        } else {
            send_stop(s, text::lit("no GO (is the peer in uart-update?)\r\n"))
        },
        SendInput::Page(p) => send_page(Sending { page: p, tries: 0, ..s }),
        SendInput::ReadFailed => send_stop(s, text::lit("flash read failed\r\n")),
        SendInput::Ack { taken } => if taken {
            send_next_page(Sending { off: (s.off + s.page.len()) as u32, ..s })
        } else if s.tries + 1 > MAX_TRIES {
            send_stop(s, text::lit("\r\npeer ACK timeout / too many retries\r\n"))
        } else {
            send_page(Sending { tries: (s.tries + 1) as u32, ..s })
        },
    }
}

impl Sender {
    /// Begin to push `size` bytes of the own flash: wait for the peer's go.
    pub fn begin(size: u32) -> (r: (Sender, SendStep))
        ensures
            sound_sender(r.0@),
            r.0@ == (Sending {
                size,
                off: 0,
                tries: 0,
                page: Seq::empty(),
                phase: SendPhase::Go,
            }),
            r.1@ == (SendOutput {
                say: text::lit("waiting for peer GO over UART...\r\n"),
                send: Seq::empty(),
                ask: SendAsk::WaitGo { units: 800 },
            }),
    {
        let s = Sender { size, off: 0, tries: 0, page: Vec::new(), phase: SendPhase::Go };
        let step = SendStep {
            say: bytes_of("waiting for peer GO over UART...\r\n"),
            send: Vec::new(),
            ask: SendAsk::WaitGo { units: 800 },
        };
        assert(s@.page =~= Seq::<u8>::empty() && step@.send =~= Seq::<u8>::empty());
        (s, step)
    }

    fn next_page(&mut self) -> (r: SendStep)
        requires
            old(self)@.off <= old(self)@.size,
        ensures
            (final(self)@, r@) == send_next_page(old(self)@),
    {
        let ask = if self.off < self.size {
            self.phase = SendPhase::Read;
            SendAsk::ReadFlash { off: self.off, n: page_at(self.size, self.off) }
        } else {
            self.phase = SendPhase::Final;
            SendAsk::WaitOk { units: 1500 }
        };
        let r = SendStep { say: Vec::new(), send: Vec::new(), ask };
        assert(r@.say =~= Seq::<u8>::empty() && r@.send =~= Seq::<u8>::empty());
        r
    }

    fn stop(&mut self, say: Vec<u8>) -> (r: SendStep)
        ensures
            (final(self)@, r@) == send_stop(old(self)@, say@),
    {
        self.phase = SendPhase::Done;
        let r = SendStep { say, send: Vec::new(), ask: SendAsk::Stop };
        assert(r@.send =~= Seq::<u8>::empty());
        r
    }

    fn send(&mut self) -> (r: SendStep)
        ensures
            (final(self)@, r@) == send_page(old(self)@),
    {
        self.phase = SendPhase::Ack;
        let sum: u16 = page16(self.page.as_slice());
        let mut send: Vec<u8> = Vec::new();
        append(&mut send, self.page.as_slice());
        send.push((sum % 256) as u8);
        send.push((sum / 256) as u8);
        assert(send@ =~= framed_page(self.page@));
        let r = SendStep { say: Vec::new(), send, ask: SendAsk::WaitAck { units: 800 } };
        assert(r@.say =~= Seq::<u8>::empty());
        r
    }

    /// Take what happened and say what to do.
    pub fn next(&mut self, e: SendEvent) -> (r: SendStep)
        requires
            sound_sender(old(self)@),
            send_can(old(self)@, e@),
        ensures
            sound_sender(final(self)@),
            (final(self)@, r@) == send_next(old(self)@, e@),
    {
        match e {
            SendEvent::Token { seen, ms } => match self.phase {
                SendPhase::Final => {
                    let mut say: Vec<u8> = Vec::new();
                    if seen {
                        append_str(&mut say, "\r\npush OK: peer verified; ");
                    } else {
                        append_str(&mut say, "\r\npush done (peer status?); ");
                    }
                    append_u32(&mut say, self.size);
                    append_str(&mut say, " bytes in ");
                    append_u32(&mut say, ms);
                    append_str(&mut say, " ms\r\n");
                    assert(say@ =~= push_report(seen, self.size, ms));
                    self.stop(say)
                },
                _ => {
                    if seen {
                        self.next_page()
                    } else {
                        self.stop(bytes_of("no GO (is the peer in uart-update?)\r\n"))
                    }
                },
            },
            SendEvent::Page(p) => {
                self.page = p;
                self.tries = 0;
                self.send()
            },
            SendEvent::ReadFailed => self.stop(bytes_of("flash read failed\r\n")),
            SendEvent::Ack { taken } => {
                if taken {
                    self.off = self.off + self.page.len() as u32;
                    self.next_page()
                } else if self.tries + 1 > MAX_TRIES {
                    self.stop(bytes_of("\r\npeer ACK timeout / too many retries\r\n"))
                } else {
                    self.tries = self.tries + 1;
                    self.send()
                }
            },
        }
    }
}

/// A page that a sender frames is one that a receiver accepts: read back with
/// its two checksum bytes, it is asked to be written.
pub proof fn framed_pages_are_accepted(r: Receiving, page: Seq<u8>)
    requires
        sound_receiver(r),
        r.phase == RecvPhase::Page,
        r.link == Link::Uart,
        page.len() == page_len(r.size, r.off),
    ensures
        ({
            let wire = framed_page(page);
            let n = page.len() as int;
            let a = recv_next(r, RecvInput::Page(wire.take(n))).0;
            let sum = (wire[n] + 256 * wire[n + 1]) as u16;
            recv_next(a, RecvInput::Check { sum }).1.ask is Write
        }),
{
    let wire = framed_page(page);
    assert(wire.take(page.len() as int) =~= page);
}

/// Reading an image back in pieces to checksum it.
#[derive(Copy, Clone, Debug, PartialEq, Eq, Structural)]
pub struct Readback {
    pub base: u32,
    pub size: u32,
    pub off: u32,
    pub crc: u32,
}

impl Readback {
    /// Begin with the image of `size` bytes at `base`.
    pub fn begin(base: u32, size: u32) -> (r: Readback)
        ensures
            r == (Readback { base, size, off: 0, crc: 0xFFFF_FFFF }),
    {
        Readback { base, size, off: 0, crc: 0xFFFF_FFFF }
    }

    /// The next piece to read, as address and length; `None` at the end.
    pub fn want(&self) -> (w: Option<(u32, u32)>)
        requires
            self.base + self.size <= 0x1_0000_0000,
            self.off <= self.size,
        ensures
            self.off == self.size ==> w is None,
            self.off < self.size ==> w == Some(
                ((self.base + self.off) as u32, page_len(self.size, self.off) as u32),
            ),
    {
        if self.off < self.size {
            Some((self.base + self.off, page_at(self.size, self.off)))
        } else {
            None
        }
    }

    /// Take in what was read.
    pub fn feed(&mut self, bytes: &[u8])
        requires
            old(self).off + bytes@.len() <= old(self).size,
        ensures
            *final(self) == (Readback {
                off: (old(self).off + bytes@.len()) as u32,
                crc: net::crc_of(old(self).crc, bytes@),
                ..*old(self)
            }),
    {
        self.crc = crc32(self.crc, bytes);
        self.off = self.off + bytes.len() as u32;
    }

    /// The checksum of the image: 0 when it could not be read.
    pub fn finish(&self, readable: bool) -> (crc: u32)
        ensures
            crc == if readable {
                self.crc ^ 0xFFFF_FFFF
            } else {
                0
            },
    {
        if readable {
            self.crc ^ 0xFFFF_FFFF
        } else {
            0
        }
    }
}

/// What a wait does after a read.
#[derive(Copy, Clone, Debug, PartialEq, Eq, Structural)]
pub enum Wait {
    /// It is over: what was waited for came.
    Yes,
    /// It is over: the answer was no, or nothing came in time.
    No,
    /// Read again at once.
    Again,
    /// Sleep a turn, then read again.
    Sleep,
}

/// How many bytes of the token were seen last, after one more byte.
pub open spec fn matched_after(token: Seq<u8>, m: int, b: u8) -> int {
    if b == token[m] {
        m + 1
    } else if b == token[0] {
        1
    } else {
        0
    }
}

/// How many bytes of the token were seen last, after more bytes; the whole
/// token once it was seen.
pub open spec fn matched_over(token: Seq<u8>, m: int, s: Seq<u8>) -> int
    decreases s.len(),
{
    if s.len() == 0 {
        m
    } else {
        let k = matched_over(token, m, s.drop_last());
        if k >= token.len() {
            k
        } else {
            matched_after(token, k, s.last())
        }
    }
}

/// Waiting for a token in what the peer sends.
pub struct TokenWait {
    pub token: Vec<u8>,
    pub matched: usize,
    pub idle: u32,
    pub units: u32,
}

impl TokenWait {
    /// A sound wait.
    pub open spec fn wf(&self) -> bool {
        &&& self.matched < self.token@.len()
        &&& self.idle <= self.units
        &&& self.units < u32::MAX
    }

    /// Wait for a token, up to `units` idle turns in a row.
    pub fn begin(token: &str, units: u32) -> (w: TokenWait)
        requires
            text::lit(token).len() > 0,
            units < u32::MAX,
        ensures
            w.wf(),
            w.token@ == text::lit(token),
            w.matched == 0,
            w.idle == 0,
            w.units == units,
    {
        let t = bytes_of(token);
        TokenWait { token: t, matched: 0, idle: 0, units }
    }

    /// Take in what was read (nothing, when it is empty).
    pub fn feed(&mut self, rx: &[u8]) -> (r: Wait)
        requires
            old(self).wf(),
        ensures
            final(self).token == old(self).token,
            final(self).units == old(self).units,
            r != Wait::Yes && r != Wait::No ==> final(self).wf(),
            rx@.len() == 0 ==> {
                &&& final(self).matched == old(self).matched
                &&& final(self).idle == old(self).idle + 1
                &&& r == if old(self).idle + 1 > old(self).units {
                    Wait::No
                } else {
                    Wait::Sleep
                }
            },
            rx@.len() > 0 ==> {
                let k = matched_over(old(self).token@, old(self).matched as int, rx@);
                &&& final(self).idle == 0
                &&& final(self).matched == k
                &&& r == if k >= old(self).token@.len() {
                    Wait::Yes
                } else {
                    Wait::Again
                }
            },
    {
        if rx.len() == 0 {
            self.idle = self.idle + 1;
            if self.idle > self.units {
                return Wait::No;
            }
            return Wait::Sleep;
        }
        self.idle = 0;
        let ghost m0 = self.matched as int;
        let ghost token = self.token@;
        let mut i: usize = 0;
        assert(rx@.take(0) =~= Seq::<u8>::empty());
        while i < rx.len()
            invariant
                i <= rx@.len(),
                self.token == old(self).token,
                self.units == old(self).units,
                self.units < u32::MAX,
                self.idle == 0,
                token == self.token@,
                m0 == old(self).matched,
                rx@.len() > 0,
                self.matched < self.token.len(),
                self.matched == matched_over(token, m0, rx@.take(i as int)),
            decreases rx@.len() - i,
        {
            assert(rx@.take(i + 1).drop_last() =~= rx@.take(i as int));
            let b: u8 = rx[i];
            if b == self.token[self.matched] {
                self.matched = self.matched + 1;
                if self.matched == self.token.len() {
                    proof {
                        matched_stays(token, m0, rx@, i + 1);
                    }
                    return Wait::Yes;
                }
            } else if b == self.token[0] {
                self.matched = 1;
                if self.matched == self.token.len() {
                    assert(false);
                }
            } else {
                self.matched = 0;
            }
            i = i + 1;
        }
        assert(rx@.take(i as int) =~= rx@);
        Wait::Again
    }
}

proof fn matched_stays(token: Seq<u8>, m: int, s: Seq<u8>, k: int)
    requires
        0 <= k <= s.len(),
        matched_over(token, m, s.take(k)) >= token.len(),
    ensures
        matched_over(token, m, s) == matched_over(token, m, s.take(k)),
    decreases s.len(),
{
    if k == s.len() {
        assert(s.take(k) =~= s);
    } else {
        assert(s.drop_last().take(k) =~= s.take(k));
        matched_stays(token, m, s.drop_last(), k);
    }
}

/// Whether the token stands in `s`.
pub open spec fn occurs(token: Seq<u8>, s: Seq<u8>) -> bool {
    exists|i: int|
        0 <= i && i + token.len() <= s.len() && #[trigger] s.subrange(i, i + token.len()) == token
}

/// Whether the last `k` bytes of `s` are the first `k` of the token.
pub open spec fn tail_matches(token: Seq<u8>, s: Seq<u8>, k: int) -> bool {
    &&& 0 <= k <= token.len()
    &&& k <= s.len()
    &&& forall|j: int| 0 <= j < k ==> #[trigger] token[j] == s[s.len() - k + j]
}

/// A token whose first byte does not occur in it again.
pub open spec fn no_repeat(token: Seq<u8>) -> bool {
    &&& token.len() > 0
    &&& forall|j: int| 0 < j < token.len() ==> #[trigger] token[j] != token[0]
}

proof fn matching_is_exact(token: Seq<u8>, s: Seq<u8>)
    requires
        no_repeat(token),
    ensures
        ({
            let m = matched_over(token, 0, s);
            &&& 0 <= m <= token.len()
            &&& m == token.len() <==> occurs(token, s)
            &&& m < token.len() ==> tail_matches(token, s, m) && forall|k: int|
                m < k ==> !tail_matches(token, s, k)
        }),
    decreases s.len(),
{
    let m = matched_over(token, 0, s);
    if s.len() == 0 {
        assert(!occurs(token, s));
        assert(tail_matches(token, s, 0));
    } else {
        let t = s.drop_last();
        let b = s.last();
        matching_is_exact(token, t);
        let p = matched_over(token, 0, t);
        if p == token.len() {
            let i = choose|i: int|
                0 <= i && i + token.len() <= t.len() && #[trigger] t.subrange(
                    i,
                    i + token.len(),
                ) == token;
            assert(s.subrange(i, i + token.len()) =~= t.subrange(i, i + token.len()));
            assert(occurs(token, s));
        } else {
            assert forall|k: int| 1 <= k && tail_matches(token, s, k) implies k == m by {
                assert(tail_matches(token, t, k - 1)) by {
                    assert forall|j: int| 0 <= j < k - 1 implies #[trigger] token[j] == t[t.len()
                        - (k - 1) + j] by {
                        assert(token[j] == s[s.len() - k + j]);
                    }
                }
                assert(k - 1 <= p);
                assert(token[k - 1] == b) by {
                    assert(token[k - 1] == s[s.len() - k + (k - 1)]);
                }
                if k - 1 < p && k - 1 >= 1 {
                    assert(token[0] == t[t.len() - (k - 1) + 0]);
                    let j = p - (k - 1);
                    assert(token[j] == t[t.len() - p + j]);
                    assert(false);
                }
            }
            assert(tail_matches(token, s, m)) by {
                if b == token[p] {
                    assert forall|j: int| 0 <= j < p + 1 implies #[trigger] token[j] == s[s.len()
                        - (p + 1) + j] by {
                        if j < p {
                            assert(token[j] == t[t.len() - p + j]);
                        }
                    }
                }
            }
            if m == token.len() {
                let i = s.len() - token.len();
                assert(s.subrange(i, i + token.len()) =~= token);
                assert(occurs(token, s));
            } else if occurs(token, s) {
                let i = choose|i: int|
                    0 <= i && i + token.len() <= s.len() && #[trigger] s.subrange(
                        i,
                        i + token.len(),
                    ) == token;
                if i + token.len() == s.len() {
                    assert(tail_matches(token, s, token.len() as int)) by {
                        assert forall|j: int| 0 <= j < token.len() implies #[trigger] token[j]
                            == s[s.len() - token.len() + j] by {
                            assert(s.subrange(i, i + token.len())[j] == s[i + j]);
                        }
                    }
                    assert(false);
                } else {
                    assert(t.subrange(i, i + token.len()) =~= s.subrange(i, i + token.len()));
                    assert(occurs(token, t));
                    assert(false);
                }
            }
            assert forall|k: int| m < k implies !tail_matches(token, s, k) by {
                if tail_matches(token, s, k) {
                    assert(k == m);
                }
            }
        }
    }
}

/// A token whose first byte does not occur in it again (`GO`, `OK`) is seen
/// exactly when it occurs in what the peer has sent.
pub proof fn token_is_seen_iff_it_occurs(token: Seq<u8>, s: Seq<u8>)
    requires
        no_repeat(token),
    ensures
        matched_over(token, 0, s) >= token.len() <==> occurs(token, s),
{
    matching_is_exact(token, s);
}

/// It does not matter in how many reads the bytes come.
pub proof fn reads_do_not_matter(token: Seq<u8>, m: int, a: Seq<u8>, b: Seq<u8>)
    requires
        matched_over(token, m, a) < token.len(),
    ensures
        matched_over(token, matched_over(token, m, a), b) == matched_over(token, m, a + b),
    decreases b.len(),
{
    if b.len() == 0 {
        assert(a + b =~= a);
    } else {
        assert((a + b).drop_last() =~= a + b.drop_last());
        reads_do_not_matter(token, m, a, b.drop_last());
    }
}

/// Waiting for the answer to a page.
pub struct AckWait {
    pub idle: u32,
    pub units: u32,
}

/// The first answer in what was read: `.` takes the page, `!` wants it again.
pub open spec fn first_answer(s: Seq<u8>, i: int) -> Wait
    decreases s.len() - i,
{
    if i < 0 || i >= s.len() {
        Wait::Again
    } else if s[i] == 46 {
        Wait::Yes
    } else if s[i] == 33 {
        Wait::No
    } else {
        first_answer(s, i + 1)
    }
}

impl AckWait {
    /// Wait up to `units` idle turns.
    pub fn begin(units: u32) -> (w: AckWait)
        ensures
            w == (AckWait { idle: 0, units }),
    {
        AckWait { idle: 0, units }
    }

    /// Take in what was read (nothing, when it is empty). Idle turns add up
    /// over the whole wait.
    pub fn feed(&mut self, rx: &[u8]) -> (r: Wait)
        requires
            old(self).idle <= old(self).units < u32::MAX,
        ensures
            final(self).units == old(self).units,
            rx@.len() == 0 ==> {
                &&& final(self).idle == old(self).idle + 1
                &&& r == if old(self).idle + 1 > old(self).units {
                    Wait::No
                } else {
                    Wait::Sleep
                }
            },
            rx@.len() > 0 ==> final(self).idle == old(self).idle && r == first_answer(rx@, 0),
    {
        if rx.len() == 0 {
            self.idle = self.idle + 1;
            if self.idle > self.units {
                return Wait::No;
            }
            return Wait::Sleep;
        }
        let mut i: usize = 0;
        while i < rx.len()
            invariant
                i <= rx@.len(),
                rx@.len() > 0,
                *self == *old(self),
                first_answer(rx@, 0) == first_answer(rx@, i as int),
            decreases rx@.len() - i,
        {
            if rx[i] == 46 {
                return Wait::Yes;
            }
            if rx[i] == 33 {
                return Wait::No;
            }
            i = i + 1;
        }
        Wait::Again
    }
}

/// Idle turns after which filling a buffer is given up.
pub const FILL_UNITS: u32 = 500;

/// Filling a buffer from a link.
#[derive(Copy, Clone, Debug, PartialEq, Eq, Structural)]
pub struct Fill {
    pub want: usize,
    pub got: usize,
    pub idle: u32,
}

impl Fill {
    /// Begin to fill `want` bytes.
    pub fn begin(want: usize) -> (f: Fill)
        ensures
            f == (Fill { want, got: 0, idle: 0 }),
    {
        Fill { want, got: 0, idle: 0 }
    }

    /// A read gave `n` bytes. The wait is over when the buffer is full, or when
    /// too many reads in a row gave nothing.
    pub fn feed(&mut self, n: usize) -> (r: Wait)
        requires
            old(self).got < old(self).want,
            n <= old(self).want - old(self).got,
            old(self).idle <= FILL_UNITS,
        ensures
            final(self).want == old(self).want,
            n == 0 ==> final(self).got == old(self).got && final(self).idle == old(self).idle + 1
                && r == (if old(self).idle + 1 > FILL_UNITS {
                Wait::No
            } else {
                Wait::Sleep
            }),
            n > 0 ==> final(self).got == old(self).got + n && final(self).idle == 0 && r == (if old(self).got + n == old(self).want {
                Wait::Yes
            } else {
                Wait::Again
            }),
    {
        if n == 0 {
            self.idle = self.idle + 1;
            if self.idle > FILL_UNITS {
                Wait::No
            } else {
                Wait::Sleep
            }
        } else {
            self.idle = 0;
            self.got = self.got + n;
            if self.got == self.want {
                Wait::Yes
            } else {
                Wait::Again
            }
        }
    }
}

proof fn one_more_byte(s: Seq<u8>, x: u8)
    ensures
        sum16(s.push(x)) == (sum16(s) + x) % 0x1_0000,
{
    assert(s.push(x).drop_last() =~= s);
}

proof fn carries_do_not_matter(a: int, t: int, x: int)
    ensures
        ((a + t) % 0x1_0000 + x) % 0x1_0000 == (a + (t + x) % 0x1_0000) % 0x1_0000,
{
}

/// The checksum of a page is the sum of its bytes: none give zero, each further byte
/// counts for itself, and the sums of two parts add up to that of both.
pub proof fn page_sums_add_up(a: Seq<u8>, b: Seq<u8>, x: u8)
    ensures
        sum16(Seq::empty()) == 0,
        sum16(a.push(x)) == (sum16(a) + x) % 0x1_0000,
        sum16(a + b) == (sum16(a) + sum16(b)) % 0x1_0000,
    decreases b.len(),
{
    one_more_byte(a, x);
    if b.len() == 0 {
        assert(a + b =~= a);
        assert(b =~= Seq::empty());
    } else {
        let t = b.drop_last();
        let y = b.last();
        page_sums_add_up(a, t, x);
        assert(a + b =~= (a + t).push(y));
        assert(b =~= t.push(y));
        one_more_byte(a + t, y);
        one_more_byte(t, y);
        carries_do_not_matter(sum16(a) as int, sum16(t) as int, y as int);
    }
}

/// A page is framed by itself and its sum, low byte first.
pub proof fn frames_end_with_the_sum(p: Seq<u8>)
    ensures
        framed_page(p).take(p.len() as int) == p,
        framed_page(p).len() == p.len() + 2,
        framed_page(p)[p.len() as int] + 0x100 * framed_page(p)[p.len() as int + 1] == sum16(p),
{
    assert(framed_page(p).take(p.len() as int) =~= p);
}

/// A finished push says its bytes and its time.
pub proof fn pushes_say_their_numbers(ok: bool, size: u32, ms: u32)
    ensures
        text::numbers_in(push_report(ok, size, ms)).take(2) == seq![size as int, ms as int],
{
    assert(text::words_only(text::lit("\r\npush OK: peer verified; "))) by {
        reveal_strlit("\r\npush OK: peer verified; ");
        vstd::utf8::is_ascii_chars_encode_utf8("\r\npush OK: peer verified; "@);
    }
    assert(text::words_only(text::lit("\r\npush done (peer status?); "))) by {
        reveal_strlit("\r\npush done (peer status?); ");
        vstd::utf8::is_ascii_chars_encode_utf8("\r\npush done (peer status?); "@);
    }
    assert(text::words_only(text::lit(" bytes in "))) by {
        reveal_strlit(" bytes in ");
        vstd::utf8::is_ascii_chars_encode_utf8(" bytes in "@);
    }
    let end = text::lit(" ms\r\n");
    assert(end.len() > 0 && !text::digit(end[0])) by {
        reveal_strlit(" ms\r\n");
        vstd::utf8::is_ascii_chars_encode_utf8(" ms\r\n"@);
    }
    let head = if ok {
        text::lit("\r\npush OK: peer verified; ")
    } else {
        text::lit("\r\npush done (peer status?); ")
    };
    let e = Seq::<u8>::empty();
    text::nothing_is_said();
    assert(e + head =~= head);
    let s1 = head + text::decimal(size as nat);
    let s2 = s1 + text::lit(" bytes in ") + text::decimal(ms as nat);
    text::words_then_a_number(e, head, size as nat);
    text::words_then_a_number(s1, text::lit(" bytes in "), ms as nat);
    text::the_end_keeps_the_numbers(s2, end);
    assert(push_report(ok, size, ms) == s2 + end);
    assert(text::numbers_in(s2) =~= seq![size as int, ms as int]);
}

} // verus!
