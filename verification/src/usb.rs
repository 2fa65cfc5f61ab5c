//! The USB device controller: endpoint allocation, what to program after a bus
//! reset, the decisions around each transfer, and the console's buffers.

use crate::text::{self, append_upper_hex};
use vstd::arithmetic::power2::*;
use vstd::prelude::*;

verus! {

/// Bytes that the console buffers between reads.
pub const RX_RING_LEN: usize = 512;

/// Slots of the controller: endpoint 0 in, endpoint 0 out, endpoint 1 in, and
/// so on.
pub const SLOTS: usize = 32;

/// Bytes of the controller's memory.
pub const MEMORY: u16 = 4096;

/// Blocks of buffer memory: what lies between [`BUFFERS_AT`] and the end of
/// the controller's memory.
pub const BLOCKS: u16 = 58;

/// Bytes in a block.
pub const BLOCK: u16 = 64;

/// Where the buffers begin in the controller's memory, and endpoint 0's.
pub const BUFFERS_AT: u16 = 0x180;

pub const CONTROL_AT: u16 = 0x100;

/// Kinds of endpoints.
#[derive(Copy, Clone, Debug, PartialEq, Eq, Structural)]
pub enum EndpointType {
    Control,
    Isochronous,
    Bulk,
    Interrupt,
}

/// An endpoint's address: its number and whether it sends to the host.
#[derive(Copy, Clone, Debug, PartialEq, Eq, Structural)]
pub struct EndpointAddress {
    pub index: u8,
    pub is_in: bool,
}

/// Why a request was refused.
#[derive(Copy, Clone, Debug, PartialEq, Eq, Structural)]
pub enum UsbError {
    WouldBlock,
    BufferOverflow,
    EndpointOverflow,
    EndpointMemoryOverflow,
    InvalidEndpoint,
    Unsupported,
}

/// An allocated endpoint.
#[derive(Copy, Clone, Debug, PartialEq, Eq, Structural)]
pub struct Endpoint {
    pub ep_type: EndpointType,
    pub max_packet_size: u16,
    /// First block of its buffer.
    pub buffer_offset: u16,
}

/// Blocks that a packet of that size takes.
pub open spec fn blocks_for(size: u16) -> int {
    (size + 63) / 64
}

/// The slot of an address.
pub open spec fn slot_of(a: EndpointAddress) -> int {
    2 * a.index + (if a.is_in {
        0int
    } else {
        1
    })
}

/// The slot of an address.
pub fn ep_addr_to_ep_buf_ctrl_idx(a: EndpointAddress) -> (r: usize)
    ensures
        r == slot_of(a),
{
    2 * (a.index as usize) + if a.is_in {
        0usize
    } else {
        1
    }
}

impl Endpoint {
    /// Where the endpoint's buffer lies in the controller's memory.
    pub fn buffer_at(&self) -> (r: u16)
        requires
            self.buffer_offset <= BLOCKS,
        ensures
            r == if self.ep_type == EndpointType::Control {
                CONTROL_AT as int
            } else {
                BUFFERS_AT + 64 * self.buffer_offset
            },
    {
        if self.ep_type == EndpointType::Control {
            CONTROL_AT
        } else {
            BUFFERS_AT + 64 * self.buffer_offset
        }
    }
}

/// The endpoints of the device.
pub struct Endpoints {
    pub slots: Vec<Option<Endpoint>>,
    /// First block that is still free.
    pub next_offset: u16,
    /// A setup packet waits to be read.
    pub read_setup: bool,
}

/// Whether two endpoints' buffers have no block in common.
pub open spec fn apart(a: Endpoint, b: Endpoint) -> bool {
    a.buffer_offset + blocks_for(a.max_packet_size) <= b.buffer_offset || b.buffer_offset
        + blocks_for(b.max_packet_size) <= a.buffer_offset
}

/// The first free slot of a direction, from endpoint `i` on.
pub open spec fn free_from(slots: Seq<Option<Endpoint>>, is_in: bool, i: int) -> Option<
    EndpointAddress,
>
    decreases 16 - i,
{
    let a = EndpointAddress { index: i as u8, is_in };
    if i < 0 || i >= 16 {
        None
    } else if slots[slot_of(a)] is None {
        Some(a)
    } else {
        free_from(slots, is_in, i + 1)
    }
}

/// The address that a request is about: the one it names, or else the first
/// free one; endpoint 0 is kept for control.
pub open spec fn chosen(
    slots: Seq<Option<Endpoint>>,
    addr: Option<EndpointAddress>,
    is_in: bool,
    ep_type: EndpointType,
) -> Option<EndpointAddress> {
    match addr {
        Some(a) => Some(a),
        None => free_from(
            slots,
            is_in,
            if ep_type == EndpointType::Control {
                0
            } else {
                1
            },
        ),
    }
}

/// Why an endpoint cannot be allocated; `None` when it can.
pub open spec fn refusal(
    e: Endpoints,
    addr: Option<EndpointAddress>,
    is_in: bool,
    ep_type: EndpointType,
    size: u16,
) -> Option<UsbError> {
    match chosen(e.slots@, addr, is_in, ep_type) {
        None => Some(UsbError::EndpointOverflow),
        Some(a) => if (a.index == 0) != (ep_type == EndpointType::Control) {
            Some(UsbError::Unsupported)
        } else if a.index >= 16 {
            Some(UsbError::EndpointOverflow)
        } else if e.slots@[slot_of(a)] is Some {
            Some(UsbError::InvalidEndpoint)
        } else if (ep_type != EndpointType::Isochronous && size > 64) || size > 1023 {
            Some(UsbError::Unsupported)
        } else if a.index != 0 && e.next_offset + blocks_for(size) > BLOCKS {
            Some(UsbError::EndpointMemoryOverflow)
        } else {
            None
        },
    }
}

/// The endpoint in a slot, if the controller has that slot and it is taken.
pub open spec fn endpoint_at(slots: Seq<Option<Endpoint>>, slot: int) -> Option<Endpoint> {
    if slot < slots.len() {
        slots[slot]
    } else {
        None
    }
}

impl Endpoints {
    fn at(&self, slot: usize) -> (r: Option<Endpoint>)
        ensures
            r == endpoint_at(self.slots@, slot as int),
    {
        if slot < self.slots.len() {
            self.slots[slot]
        } else {
            None
        }
    }

    /// Sound endpoints: every buffer lies in the allocated blocks and in the
    /// controller's memory, and no two have a block in common.
    pub open spec fn wf(&self) -> bool {
        &&& self.slots@.len() == SLOTS
        &&& self.next_offset <= BLOCKS
        &&& forall|s: int|
            0 <= s < 2 ==> (#[trigger] self.slots@[s] matches Some(e) ==> e.buffer_offset == 0)
        &&& forall|s: int|
            2 <= s < SLOTS ==> (#[trigger] self.slots@[s] matches Some(e) ==> e.buffer_offset
                + blocks_for(e.max_packet_size) <= self.next_offset)
        &&& forall|s: int|
            2 <= s < SLOTS ==> (#[trigger] self.slots@[s] matches Some(e) ==> BUFFERS_AT + BLOCK * (
            e.buffer_offset + blocks_for(e.max_packet_size)) <= MEMORY)
        &&& forall|s: int, t: int|
            #![trigger self.slots@[s], self.slots@[t]]
            2 <= s < t < SLOTS && self.slots@[s] is Some && self.slots@[t] is Some ==> apart(
                self.slots@[s]->0,
                self.slots@[t]->0,
            )
    }

    /// No endpoints yet.
    pub fn new() -> (e: Endpoints)
        ensures
            e.wf(),
            e.next_offset == 0,
            !e.read_setup,
            forall|s: int| 0 <= s < SLOTS ==> #[trigger] e.slots@[s] is None,
    {
        let mut slots: Vec<Option<Endpoint>> = Vec::new();
        let mut i: usize = 0;
        while i < SLOTS
            invariant
                i <= SLOTS,
                slots@.len() == i,
                forall|s: int| 0 <= s < i ==> #[trigger] slots@[s] is None,
            decreases SLOTS - i,
        {
            slots.push(None);
            i = i + 1;
        }
        Endpoints { slots, next_offset: 0, read_setup: false }
    }

    fn find_free(&self, is_in: bool, start: u8) -> (r: Option<EndpointAddress>)
        requires
            self.wf(),
            start <= 16,
        ensures
            r == free_from(self.slots@, is_in, start as int),
            r matches Some(a) ==> a.index < 16,
    {
        let mut i: u8 = start;
        while i < 16
            invariant
                start <= i <= 16,
                self.wf(),
                free_from(self.slots@, is_in, start as int) == free_from(
                    self.slots@,
                    is_in,
                    i as int,
                ),
            decreases 16 - i,
        {
            let a = EndpointAddress { index: i, is_in };
            if self.slots[ep_addr_to_ep_buf_ctrl_idx(a)].is_none() {
                return Some(a);
            }
            i = i + 1;
        }
        None
    }

    /// Allocate an endpoint.
    pub fn ep_allocate(
        &mut self,
        addr: Option<EndpointAddress>,
        is_in: bool,
        ep_type: EndpointType,
        max_packet_size: u16,
    ) -> (r: Result<EndpointAddress, UsbError>)
        requires
            old(self).wf(),
        ensures
            final(self).wf(),
            final(self).read_setup == old(self).read_setup,
            match refusal(*old(self), addr, is_in, ep_type, max_packet_size) {
                Some(e) => r == Err::<EndpointAddress, UsbError>(e) && *final(self) == *old(self),
                None => {
                    let a = chosen(old(self).slots@, addr, is_in, ep_type)->0;
                    let at = if a.index == 0 {
                        0
                    } else {
                        old(self).next_offset
                    };
                    &&& r == Ok::<EndpointAddress, UsbError>(a)
                    &&& final(self).slots@ == old(self).slots@.update(
                        slot_of(a),
                        Some(Endpoint { ep_type, max_packet_size, buffer_offset: at }),
                    )
                    &&& final(self).next_offset == if a.index == 0 {
                        old(self).next_offset as int
                    } else {
                        old(self).next_offset + blocks_for(max_packet_size)
                    }
                },
            },
    {
        let a = match addr {
            Some(a) => a,
            None => match self.find_free(
                is_in,
                if ep_type == EndpointType::Control {
                    0
                } else {
                    1
                },
            ) {
                Some(a) => a,
                None => return Err(UsbError::EndpointOverflow),
            },
        };
        if (a.index == 0) != (ep_type == EndpointType::Control) {
            return Err(UsbError::Unsupported);
        }
        if a.index >= 16 {
            return Err(UsbError::EndpointOverflow);
        }
        let slot: usize = ep_addr_to_ep_buf_ctrl_idx(a);
        if self.slots[slot].is_some() {
            return Err(UsbError::InvalidEndpoint);
        }
        if (ep_type != EndpointType::Isochronous && max_packet_size > 64) || max_packet_size
            > 1023 {
            return Err(UsbError::Unsupported);
        }
        if a.index == 0 {
            self.slots.set(slot, Some(Endpoint { ep_type, max_packet_size, buffer_offset: 0 }));
        } else {
            let blocks: u16 = (max_packet_size + 63) / 64;
            if self.next_offset + blocks > BLOCKS {
                return Err(UsbError::EndpointMemoryOverflow);
            }
            let at: u16 = self.next_offset;
            self.next_offset = at + blocks;
            self.slots.set(slot, Some(Endpoint { ep_type, max_packet_size, buffer_offset: at }));
        }
        Ok(a)
    }
}

/// What is programmed for an endpoint after a bus reset.
#[derive(Copy, Clone, Debug, PartialEq, Eq, Structural)]
pub struct Setup {
    /// Index of the endpoint's control register.
    pub control: u8,
    /// Index of its buffer-control register.
    pub buffer: u8,
    pub ep_type: EndpointType,
    pub address: u16,
    /// Whether the host may send at once, and how much.
    pub receives: bool,
    pub length: u16,
}

/// What is programmed for the endpoint in slot `s`.
pub open spec fn setup_of(e: Endpoint, s: int) -> Setup {
    Setup {
        control: (s - 2) as u8,
        buffer: s as u8,
        ep_type: e.ep_type,
        address: (BUFFERS_AT + 64 * e.buffer_offset) as u16,
        receives: s % 2 == 1,
        length: if s % 2 == 1 {
            e.max_packet_size
        } else {
            0
        },
    }
}

/// What is programmed for the endpoints in slots 2 to `s`, in order.
pub open spec fn setups(slots: Seq<Option<Endpoint>>, s: int) -> Seq<Setup>
    decreases s,
{
    if s <= 2 {
        Seq::empty()
    } else {
        match slots[s - 1] {
            Some(e) => setups(slots, s - 1).push(setup_of(e, s - 1)),
            None => setups(slots, s - 1),
        }
    }
}

impl Endpoints {
    /// What to program after a bus reset, beside endpoint 0.
    pub fn ep_reset_all(&self) -> (v: Vec<Setup>)
        requires
            self.wf(),
        ensures
            v@ == setups(self.slots@, SLOTS as int),
    {
        let mut v: Vec<Setup> = Vec::new();
        let mut s: usize = 2;
        while s < SLOTS
            invariant
                2 <= s <= SLOTS,
                self.wf(),
                v@ == setups(self.slots@, s as int),
            decreases SLOTS - s,
        {
            if let Some(e) = self.slots[s] {
                assert(self.slots@[s as int] matches Some(x) && x.buffer_offset <= BLOCKS);
                let receives: bool = s % 2 == 1;
                let length: u16 = if receives {
                    e.max_packet_size
                } else {
                    0
                };
                v.push(
                    Setup {
                        control: (s - 2) as u8,
                        buffer: s as u8,
                        ep_type: e.ep_type,
                        address: BUFFERS_AT + 64 * e.buffer_offset,
                        receives,
                        length,
                    },
                );
                assert(v@ =~= setups(self.slots@, s + 1));
            }
            s = s + 1;
        }
        v
    }

    /// Decide a write of `len` bytes, given whether the buffer is still taken:
    /// returns where to copy them.
    pub fn ep_write(&self, a: EndpointAddress, busy: bool, len: usize) -> (r: Result<
        u16,
        UsbError,
    >)
        requires
            self.wf(),
        ensures
            r == match endpoint_at(self.slots@, 2 * a.index) {
                None => Err::<u16, UsbError>(UsbError::InvalidEndpoint),
                Some(e) => if busy {
                    Err(UsbError::WouldBlock)
                } else if len > e.max_packet_size {
                    Err(UsbError::BufferOverflow)
                } else {
                    Ok(
                        if e.ep_type == EndpointType::Control {
                            CONTROL_AT
                        } else {
                            (BUFFERS_AT + 64 * e.buffer_offset) as u16
                        },
                    )
                },
            },
    {
        let slot: usize = 2 * (a.index as usize);
        match self.at(slot) {
            None => Err(UsbError::InvalidEndpoint),
            Some(e) => {
                assert(self.slots@[slot as int] matches Some(x) && x.buffer_offset <= BLOCKS);
                if busy {
                    Err(UsbError::WouldBlock)
                } else if len > e.max_packet_size as usize {
                    Err(UsbError::BufferOverflow)
                } else {
                    Ok(e.buffer_at())
                }
            },
        }
    }
}

/// What a read does.
#[derive(Copy, Clone, Debug, PartialEq, Eq, Structural)]
pub enum ReadAction {
    /// Copy the setup packet; rearm with `length`, available only when the host
    /// will send or expects an empty packet.
    Setup { length: u16, available: bool },
    /// Copy `len` bytes from `at`, clear bit `clear` of the buffer status, and
    /// rearm with `length`, available at once or not.
    Data { at: u16, len: u16, clear: u8, length: u16, available: bool },
}

/// Whether the host sends data after a setup packet, or expects an empty
/// packet.
pub open spec fn data_follows(setup: Seq<u8>) -> bool {
    setup[0] >= 0x80 || setup[6] != 0 || setup[7] != 0
}

/// A packet that is read is no longer than its endpoint allows.
pub open spec fn packet_fits(e: Endpoints, index: int, full: bool, length: u16, cap: int) -> bool {
    match endpoint_at(e.slots@, 2 * index + 1) {
        None => true,
        Some(ep) => {
            ||| index == 0 && e.read_setup
            ||| !full
            ||| length > cap
            ||| length <= ep.max_packet_size
        },
    }
}

/// What a read does, or why it is refused.
pub open spec fn read_outcome(
    e: Endpoints,
    index: int,
    full: bool,
    length: u16,
    cap: int,
    setup: Seq<u8>,
) -> Result<ReadAction, UsbError> {
    match endpoint_at(e.slots@, 2 * index + 1) {
        None => Err(UsbError::InvalidEndpoint),
        Some(ep) => if index == 0 && e.read_setup {
            if cap < 8 {
                Err(UsbError::BufferOverflow)
            } else {
                Ok(
                    ReadAction::Setup {
                        length: ep.max_packet_size,
                        available: data_follows(setup),
                    },
                )
            }
        } else if !full {
            Err(UsbError::WouldBlock)
        } else if length > cap {
            Err(UsbError::BufferOverflow)
        } else {
            Ok(
                ReadAction::Data {
                    at: if ep.ep_type == EndpointType::Control {
                        CONTROL_AT
                    } else {
                        (BUFFERS_AT + 64 * ep.buffer_offset) as u16
                    },
                    len: length,
                    clear: (2 * index + 1) as u8,
                    length: ep.max_packet_size,
                    available: index != 0 || length == ep.max_packet_size,
                },
            )
        },
    }
}

impl Endpoints {
    /// Decide a read into `cap` bytes, given the buffer's state and the setup
    /// packet that the controller holds. A setup packet is read once.
    pub fn ep_read(
        &mut self,
        a: EndpointAddress,
        full: bool,
        length: u16,
        cap: usize,
        setup: &[u8; 8],
    ) -> (r: Result<ReadAction, UsbError>)
        requires
            old(self).wf(),
            packet_fits(*old(self), a.index as int, full, length, cap as int),
        ensures
            final(self).wf(),
            final(self).slots == old(self).slots,
            final(self).next_offset == old(self).next_offset,
            r == read_outcome(*old(self), a.index as int, full, length, cap as int, setup@),
            final(self).read_setup == (old(self).read_setup && !(r matches Ok(
                ReadAction::Setup { .. },
            ))),
    {
        let slot: usize = 2 * (a.index as usize) + 1;
        match self.at(slot) {
            None => Err(UsbError::InvalidEndpoint),
            Some(e) => {
                assert(self.slots@[slot as int] matches Some(x) && x.buffer_offset <= BLOCKS);
                if a.index == 0 && self.read_setup {
                    if cap < 8 {
                        return Err(UsbError::BufferOverflow);
                    }
                    self.read_setup = false;
                    let available: bool = setup[0] >= 0x80 || setup[6] != 0 || setup[7] != 0;
                    Ok(ReadAction::Setup { length: e.max_packet_size, available })
                } else if !full {
                    Err(UsbError::WouldBlock)
                } else if length as usize > cap {
                    Err(UsbError::BufferOverflow)
                } else {
                    Ok(
                        ReadAction::Data {
                            at: e.buffer_at(),
                            len: length,
                            clear: 2 * a.index + 1,
                            length: e.max_packet_size,
                            available: a.index != 0 || length == e.max_packet_size,
                        },
                    )
                }
            },
        }
    }
}

/// The interrupts that are told apart.
#[derive(Copy, Clone, Debug, PartialEq, Eq, Structural)]
pub struct Interrupts {
    pub bus_reset: bool,
    pub setup_req: bool,
    pub suspend: bool,
    pub resume: bool,
}

/// What a poll finds.
#[derive(Copy, Clone, Debug, PartialEq, Eq, Structural)]
pub enum PollResult {
    Nothing,
    Reset,
    Suspend,
    Resume,
    /// One bit per endpoint: data came, data went, a setup packet came.
    Data { ep_out: u16, ep_in_complete: u16, ep_setup: u16 },
}

/// Every second bit of a number, the lowest first.
pub open spec fn every_second(s: nat) -> nat
    decreases s,
{
    if s == 0 {
        0
    } else {
        s % 2 + 2 * every_second(s / 4)
    }
}

proof fn every_second_bound(s: nat, n: nat)
    requires
        s < pow2(2 * n),
    ensures
        every_second(s) < pow2(n),
    decreases n,
{
    if n == 0 {
        lemma2_to64();
    } else {
        lemma_pow2_unfold(2 * n);
        lemma_pow2_unfold((2 * n - 1) as nat);
        lemma_pow2_unfold(n);
        let m = (n - 1) as nat;
        assert(pow2(2 * n) == 4 * pow2(2 * m));
        every_second_bound(s / 4, m);
    }
}

fn gather(s: u32) -> (r: u32)
    ensures
        r == every_second(s as nat),
        r <= 0xFFFF,
    decreases s,
{
    proof {
        lemma2_to64();
        every_second_bound(s as nat, 16);
    }
    if s == 0 {
        0
    } else {
        s % 2 + 2 * gather(s / 4)
    }
}

impl Endpoints {
    /// Sort out what the controller reports: even bits of the buffer status are
    /// transfers to the host, odd bits are transfers from it.
    pub fn poll(&mut self, ints: Interrupts, buff_status: u32) -> (r: PollResult)
        requires
            old(self).wf(),
        ensures
            final(self).wf(),
            final(self).slots == old(self).slots,
            final(self).next_offset == old(self).next_offset,
            ({
                let data = !ints.bus_reset && (buff_status != 0 || ints.setup_req);
                &&& final(self).read_setup == (old(self).read_setup || (data && ints.setup_req))
                &&& r == if ints.bus_reset {
                    PollResult::Reset
                } else if data {
                    PollResult::Data {
                        ep_out: every_second((buff_status / 2) as nat) as u16,
                        ep_in_complete: every_second(buff_status as nat) as u16,
                        ep_setup: if ints.setup_req {
                            1
                        } else {
                            0
                        },
                    }
                } else if ints.suspend {
                    PollResult::Suspend
                } else if ints.resume {
                    PollResult::Resume
                } else {
                    PollResult::Nothing
                }
            }),
    {
        if ints.bus_reset {
            return PollResult::Reset;
        }
        if buff_status == 0 && !ints.setup_req {
            if ints.suspend {
                return PollResult::Suspend;
            }
            if ints.resume {
                return PollResult::Resume;
            }
            return PollResult::Nothing;
        }
        let ep_in_complete: u16 = gather(buff_status) as u16;
        let ep_out: u16 = gather(buff_status / 2) as u16;
        let ep_setup: u16 = if ints.setup_req {
            self.read_setup = true;
            1
        } else {
            0
        };
        PollResult::Data { ep_out, ep_in_complete, ep_setup }
    }
}

/// Bit `i` of a number.
pub open spec fn bit(s: nat, i: nat) -> nat
    decreases i,
{
    if i == 0 {
        s % 2
    } else {
        bit(s / 2, (i - 1) as nat)
    }
}

/// Endpoint `i`'s bit is bit `2 * i` of the status that is gathered.
pub proof fn gathering_sorts_the_bits(s: nat, i: nat)
    ensures
        bit(every_second(s), i) == bit(s, 2 * i),
    decreases i,
{
    if s == 0 {
        zero_has_no_bits(i);
        zero_has_no_bits(2 * i);
    } else if i > 0 {
        gathering_sorts_the_bits(s / 4, (i - 1) as nat);
        reveal_with_fuel(bit, 3);
        assert(every_second(s) / 2 == every_second(s / 4));
        assert(s / 2 / 2 == s / 4);
    }
}

proof fn zero_has_no_bits(i: nat)
    ensures
        bit(0, i) == 0,
    decreases i,
{
    if i > 0 {
        zero_has_no_bits((i - 1) as nat);
    }
}

/// The device's serial number: a letter and its id in upper-case hexadecimal.
pub fn unique_serial(id: u64) -> (v: Vec<u8>)
    ensures
        v@ == seq![72u8] + text::upper_hex(id as nat, 16),
{
    let mut v: Vec<u8> = Vec::new();
    v.push(72);
    append_upper_hex(&mut v, id, 16);
    assert(v@ =~= seq![72u8] + text::upper_hex(id as nat, 16));
    v
}

/// Attempts to hand one chunk to the host before the rest of it is dropped.
pub const WRITE_TRIES: u32 = 2000;

/// Bytes in a chunk.
pub const CHUNK: usize = 64;

/// A chunk being handed to the host.
#[derive(Copy, Clone, Debug, PartialEq, Eq, Structural)]
pub struct ChunkWrite {
    pub len: usize,
    pub sent: usize,
    pub tries: u32,
}

impl ChunkWrite {
    /// The chunk at `off` of `len` bytes to write.
    pub fn begin(off: usize, len: usize) -> (c: ChunkWrite)
        requires
            off < len,
        ensures
            c.len == if len - off <= CHUNK {
                len - off
            } else {
                CHUNK as int
            },
            c.sent == 0,
            c.tries == 0,
    {
        ChunkWrite {
            len: if len - off <= CHUNK {
                len - off
            } else {
                CHUNK
            },
            sent: 0,
            tries: 0,
        }
    }

    /// An attempt took `k` bytes. Returns whether to go on trying.
    pub fn tried(&mut self, k: usize) -> (again: bool)
        requires
            old(self).sent + k <= old(self).len,
            old(self).tries < WRITE_TRIES,
        ensures
            final(self).len == old(self).len,
            final(self).sent == old(self).sent + k,
            final(self).tries == old(self).tries + 1,
            again == (final(self).sent < final(self).len && final(self).tries < WRITE_TRIES),
    {
        self.sent = self.sent + k;
        self.tries = self.tries + 1;
        self.sent < self.len && self.tries < WRITE_TRIES
    }
}

/// Each endpoint's bit of the buffer status is told under its own number and in its
/// own direction.
pub proof fn transfers_are_told_to_their_endpoint(status: u32, a: EndpointAddress)
    ensures
        bit(
            if a.is_in {
                every_second(status as nat)
            } else {
                every_second((status / 2) as nat)
            },
            a.index as nat,
        ) == bit(status as nat, slot_of(a) as nat),
{
    let i = a.index as nat;
    if a.is_in {
        gathering_sorts_the_bits(status as nat, i);
    } else {
        gathering_sorts_the_bits((status / 2) as nat, i);
        assert(bit(status as nat, (2 * i + 1) as nat) == bit((status / 2) as nat, 2 * i));
    }
}

/// No two addresses share a slot, and an endpoint's two directions lie side by side.
pub proof fn slots_are_apart(a: EndpointAddress, b: EndpointAddress)
    ensures
        slot_of(a) == slot_of(b) ==> a == b,
        a.index < 16 ==> 0 <= slot_of(a) < 32,
        a.index == b.index && a.is_in && !b.is_in ==> slot_of(b) == slot_of(a) + 1,
{
}

/// The serial number spells the board's id, all of it.
pub proof fn serials_spell_the_id(id: u64)
    ensures
        text::hex_value(text::upper_hex(id as nat, 16)) == id,
{
    assert(vstd::arithmetic::power::pow(16, 16) == 0x1_0000_0000_0000_0000) by {
        reveal_with_fuel(vstd::arithmetic::power::pow, 17);
    }
    text::upper_case_spells_the_whole(id as nat, 16);
}

/// An endpoint is set up under its own address: its registers are those of its slot,
/// one that receives may do so at once and up to its packet size, and its buffer
/// lies where its blocks do.
pub proof fn endpoints_are_set_up_under_their_address(e: Endpoint, a: EndpointAddress)
    requires
        1 <= a.index < 16,
    ensures
        ({
            let s = setup_of(e, slot_of(a));
            &&& s.buffer == slot_of(a)
            &&& s.control == slot_of(a) - 2
            &&& s.receives == !a.is_in
            &&& s.length == if a.is_in {
                0
            } else {
                e.max_packet_size
            }
            &&& s.ep_type == e.ep_type
        }),
{
}

} // verus!
