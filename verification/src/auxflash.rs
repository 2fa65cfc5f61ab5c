//! The store of firmware blobs: a few slots of a read-only region of the
//! flash, of which one is in use.

use vstd::prelude::*;

verus! {

/// Errors of the store.
#[derive(Copy, Clone, Debug, PartialEq, Eq, Structural)]
pub enum AuxFlashError {
    /// There is no such slot.
    InvalidSlot,
    /// A read beyond the end of a slot.
    AddressOverflow,
    /// No slot holds the right blobs.
    NoActiveSlot,
    /// The store cannot be written.
    SlotActive,
    /// A slot's checksum is not that of its contents.
    ChckMismatch,
    /// The contents of a slot could not be read.
    Unreadable,
}

/// How many bytes a read moves at once.
pub const PIECE: usize = 256;

/// The shape of the store.
#[derive(Copy, Clone, Debug, PartialEq, Eq, Structural)]
pub struct Store {
    /// How many slots it has.
    pub slots: u32,
    /// How large a slot is.
    pub slot_size: u32,
}

/// Whether a read stays within its slot.
pub open spec fn within(s: Store, offset: u32, len: nat) -> bool {
    offset + len <= s.slot_size
}

impl Store {
    /// A store that the address space can hold.
    pub open spec fn wf(self) -> bool {
        self.slots * self.slot_size <= u32::MAX
    }

    /// Where a read of some bytes begins, from the start of the store.
    pub fn read_at(&self, slot: u32, offset: u32, len: usize) -> (r: Result<u32, AuxFlashError>)
        requires
            self.wf(),
        ensures
            r is Ok <==> slot < self.slots && within(*self, offset, len as nat),
            r matches Ok(at) ==> {
                &&& at == slot * self.slot_size + offset
                &&& at + len <= self.slots * self.slot_size
            },
            r matches Err(e) ==> e == if slot >= self.slots {
                AuxFlashError::InvalidSlot
            } else {
                AuxFlashError::AddressOverflow
            },
    {
        if slot >= self.slots {
            return Err(AuxFlashError::InvalidSlot);
        }
        if offset > self.slot_size || len > (self.slot_size - offset) as usize {
            return Err(AuxFlashError::AddressOverflow);
        }
        proof {
            let n = self.slot_size as int;
            assert(slot * n + n <= self.slots * n) by (nonlinear_arith)
                requires
                    slot + 1 <= self.slots,
                    n >= 0,
                    n == self.slot_size,
            ;
            assert(0 <= slot * n) by (nonlinear_arith)
                requires
                    slot >= 0,
                    n >= 0,
            ;
        }
        Ok(slot * self.slot_size + offset)
    }

    /// Where a slot begins.
    pub fn slot_at(&self, slot: u32) -> (r: Result<u32, AuxFlashError>)
        requires
            self.wf(),
        ensures
            r is Ok <==> slot < self.slots,
            r matches Ok(at) ==> at == slot * self.slot_size,
            r matches Err(e) ==> e == AuxFlashError::InvalidSlot,
    {
        match self.read_at(slot, 0, 0) {
            Ok(at) => Ok(at),
            Err(_) => Err(AuxFlashError::InvalidSlot),
        }
    }
}

/// How many bytes are moved next.
pub fn next_piece(left: usize) -> (r: usize)
    ensures
        r == if left <= PIECE {
            left
        } else {
            PIECE
        },
{
    if left <= PIECE {
        left
    } else {
        PIECE
    }
}

/// A checksum.
pub type Checksum = [u8; 32];

/// Whether two checksums are the same.
pub fn same_checksum(a: &Checksum, b: &Checksum) -> (r: bool)
    ensures
        r <==> a@ == b@,
{
    crate::text::same(a, b)
}

/// The checksum of a slot, out of the one it claims and the one its contents
/// have.
pub fn check_slot(
    s: &Store,
    slot: u32,
    claimed: Result<Checksum, AuxFlashError>,
    actual: Result<Checksum, AuxFlashError>,
) -> (r: Result<Checksum, AuxFlashError>)
    ensures
        slot >= s.slots ==> r == Err::<Checksum, AuxFlashError>(AuxFlashError::InvalidSlot),
        slot < s.slots ==> match (claimed, actual) {
            (Err(e), _) => r == Err::<Checksum, AuxFlashError>(e),
            (Ok(_), Err(e)) => r == Err::<Checksum, AuxFlashError>(e),
            (Ok(c), Ok(a)) => if c@ == a@ {
                r == Ok::<Checksum, AuxFlashError>(a)
            } else {
                r == Err::<Checksum, AuxFlashError>(AuxFlashError::ChckMismatch)
            },
        },
{
    if slot >= s.slots {
        return Err(AuxFlashError::InvalidSlot);
    }
    match claimed {
        Err(e) => Err(e),
        Ok(c) => match actual {
            Err(e) => Err(e),
            Ok(a) => if same_checksum(&c, &a) {
                Ok(a)
            } else {
                Err(AuxFlashError::ChckMismatch)
            },
        },
    }
}

/// What the search for the slot in use asks for.
#[derive(Copy, Clone, Debug, PartialEq, Eq, Structural)]
pub enum ScanAsk {
    /// The checksum that a slot claims.
    Stored(u32),
    /// The checksum of a slot's contents.
    Actual(u32),
    /// Nothing: this is the slot in use, if there is one.
    Found(Option<u32>),
}

/// The search for the slot in use.
pub struct Scan {
    want: Checksum,
    slots: u32,
    ask: ScanAsk,
}

/// The question after slot `i` was ruled out.
pub open spec fn after(i: int, slots: u32) -> ScanAsk {
    if i + 1 < slots {
        ScanAsk::Stored((i + 1) as u32)
    } else {
        ScanAsk::Found(None)
    }
}

/// The question after an answer: a slot must claim the wanted checksum, and
/// have it.
pub open spec fn scanned(want: Seq<u8>, slots: u32, ask: ScanAsk, sum: Option<Seq<u8>>) -> ScanAsk {
    match ask {
        ScanAsk::Stored(i) => if sum == Some(want) {
            ScanAsk::Actual(i)
        } else {
            after(i as int, slots)
        },
        ScanAsk::Actual(i) => if sum == Some(want) {
            ScanAsk::Found(Some(i))
        } else {
            after(i as int, slots)
        },
        ScanAsk::Found(r) => ask,
    }
}

/// A checksum's bytes, if there is one.
pub open spec fn bytes_of(c: Option<Checksum>) -> Option<Seq<u8>> {
    match c {
        Some(c) => Some(c@),
        None => None,
    }
}

impl Scan {
    /// The checksum that is searched for.
    pub closed spec fn want(&self) -> Seq<u8> {
        self.want@
    }

    /// How many slots there are.
    pub closed spec fn slots(&self) -> u32 {
        self.slots
    }

    /// What is asked for.
    pub closed spec fn ask(&self) -> ScanAsk {
        self.ask
    }

    /// Begin the search for the slot with a checksum.
    pub fn begin(want: Checksum, slots: u32) -> (r: Scan)
        ensures
            r.want() == want@,
            r.slots() == slots,
            r.ask() == after(-1, slots),
    {
        let ask = if slots > 0 {
            ScanAsk::Stored(0)
        } else {
            ScanAsk::Found(None)
        };
        Scan { want, slots, ask }
    }

    /// What is asked for.
    pub fn asks(&self) -> (r: ScanAsk)
        ensures
            r == self.ask(),
    {
        self.ask
    }

    fn following(&self, i: u32) -> (r: ScanAsk)
        requires
            i < u32::MAX,
        ensures
            r == after(i as int, self.slots),
    {
        if i + 1 < self.slots {
            ScanAsk::Stored(i + 1)
        } else {
            ScanAsk::Found(None)
        }
    }

    /// Take an answer; none where the slot could not be read.
    pub fn answer(&mut self, sum: Option<Checksum>)
        requires
            old(self).ask() matches ScanAsk::Stored(i) ==> i < old(self).slots(),
            old(self).ask() matches ScanAsk::Actual(i) ==> i < old(self).slots(),
        ensures
            final(self).want() == old(self).want(),
            final(self).slots() == old(self).slots(),
            final(self).ask() == scanned(
                old(self).want(),
                old(self).slots(),
                old(self).ask(),
                bytes_of(sum),
            ),
            final(self).ask() matches ScanAsk::Stored(i) ==> i < final(self).slots(),
            final(self).ask() matches ScanAsk::Actual(i) ==> i < final(self).slots(),
    {
        let fits: bool = match sum {
            Some(c) => same_checksum(&c, &self.want),
            None => false,
        };
        match self.ask {
            ScanAsk::Stored(i) => {
                self.ask = if fits {
                    ScanAsk::Actual(i)
                } else {
                    self.following(i)
                };
            },
            ScanAsk::Actual(i) => {
                self.ask = if fits {
                    ScanAsk::Found(Some(i))
                } else {
                    self.following(i)
                };
            },
            ScanAsk::Found(_) => {},
        }
    }
}

/// The slot in use, or the error that there is none.
pub fn get_active_slot(active: Option<u32>) -> (r: Result<u32, AuxFlashError>)
    ensures
        active matches Some(s) ==> r == Ok::<u32, AuxFlashError>(s),
        active is None ==> r == Err::<u32, AuxFlashError>(AuxFlashError::NoActiveSlot),
{
    match active {
        Some(s) => Ok(s),
        None => Err(AuxFlashError::NoActiveSlot),
    }
}

/// The outcome of a search over what the slots claim and what they have.
pub open spec fn search(
    want: Seq<u8>,
    slots: u32,
    ask: ScanAsk,
    stored: Seq<Option<Seq<u8>>>,
    actual: Seq<Option<Seq<u8>>>,
    fuel: nat,
) -> ScanAsk
    decreases fuel,
{
    if fuel == 0 {
        ask
    } else {
        let next = match ask {
            ScanAsk::Stored(i) => scanned(want, slots, ask, stored[i as int]),
            ScanAsk::Actual(i) => scanned(want, slots, ask, actual[i as int]),
            ScanAsk::Found(r) => ask,
        };
        search(want, slots, next, stored, actual, (fuel - 1) as nat)
    }
}

/// A slot that claims the wanted checksum and has it.
pub open spec fn fits(
    want: Seq<u8>,
    stored: Seq<Option<Seq<u8>>>,
    actual: Seq<Option<Seq<u8>>>,
    i: int,
) -> bool {
    stored[i] == Some(want) && actual[i] == Some(want)
}

/// The first slot from `i` on that fits.
pub open spec fn first_fit(
    want: Seq<u8>,
    slots: u32,
    stored: Seq<Option<Seq<u8>>>,
    actual: Seq<Option<Seq<u8>>>,
    i: int,
) -> Option<u32>
    decreases slots - i,
{
    if i >= slots {
        None
    } else if fits(want, stored, actual, i) {
        Some(i as u32)
    } else {
        first_fit(want, slots, stored, actual, i + 1)
    }
}

proof fn found_stays(
    want: Seq<u8>,
    slots: u32,
    r: Option<u32>,
    stored: Seq<Option<Seq<u8>>>,
    actual: Seq<Option<Seq<u8>>>,
    fuel: nat,
)
    ensures
        search(want, slots, ScanAsk::Found(r), stored, actual, fuel) == ScanAsk::Found(r),
    decreases fuel,
{
    if fuel > 0 {
        found_stays(want, slots, r, stored, actual, (fuel - 1) as nat);
    }
}

/// The search finds the first slot that claims the wanted checksum and has
/// it, after at most two questions for each slot.
pub proof fn search_finds_the_first(
    want: Seq<u8>,
    slots: u32,
    stored: Seq<Option<Seq<u8>>>,
    actual: Seq<Option<Seq<u8>>>,
)
    requires
        stored.len() == slots,
        actual.len() == slots,
    ensures
        search(want, slots, after(-1, slots), stored, actual, 2 * slots as nat) == ScanAsk::Found(
            first_fit(want, slots, stored, actual, 0),
        ),
{
    search_from(want, slots, stored, actual, 0, 2 * slots as nat);
}

proof fn search_from(
    want: Seq<u8>,
    slots: u32,
    stored: Seq<Option<Seq<u8>>>,
    actual: Seq<Option<Seq<u8>>>,
    i: int,
    fuel: nat,
)
    requires
        0 <= i <= slots,
        stored.len() == slots,
        actual.len() == slots,
        fuel >= 2 * (slots - i),
    ensures
        search(want, slots, after(i - 1, slots), stored, actual, fuel) == ScanAsk::Found(
            first_fit(want, slots, stored, actual, i),
        ),
    decreases slots - i,
{
    if i == slots {
        found_stays(want, slots, None, stored, actual, fuel);
    } else if stored[i] == Some(want) {
        let f1 = (fuel - 1) as nat;
        let f2 = (fuel - 2) as nat;
        assert(search(want, slots, ScanAsk::Stored(i as u32), stored, actual, fuel) == search(
            want,
            slots,
            ScanAsk::Actual(i as u32),
            stored,
            actual,
            f1,
        ));
        if actual[i] == Some(want) {
            assert(search(want, slots, ScanAsk::Actual(i as u32), stored, actual, f1) == search(
                want,
                slots,
                ScanAsk::Found(Some(i as u32)),
                stored,
                actual,
                f2,
            ));
            found_stays(want, slots, Some(i as u32), stored, actual, f2);
        } else {
            search_from(want, slots, stored, actual, i + 1, f2);
        }
    } else {
        search_from(want, slots, stored, actual, i + 1, (fuel - 1) as nat);
    }
}

/// The slot that is found is the first that fits, and none is found only where none
/// fits.
pub proof fn first_fits_come_first(
    want: Seq<u8>,
    slots: u32,
    stored: Seq<Option<Seq<u8>>>,
    actual: Seq<Option<Seq<u8>>>,
    i: int,
)
    requires
        0 <= i <= slots,
        stored.len() == slots,
        actual.len() == slots,
    ensures
        match first_fit(want, slots, stored, actual, i) {
            Some(k) => {
                &&& i <= k < slots
                &&& stored[k as int] == Some(want)
                &&& actual[k as int] == Some(want)
                &&& forall|j: int|
                    i <= j < k ==> (#[trigger] stored[j]) != Some(want) || actual[j] != Some(want)
            },
            None => forall|j: int|
                i <= j < slots ==> (#[trigger] stored[j]) != Some(want) || actual[j] != Some(want),
        },
    decreases slots - i,
{
    if i < slots && !fits(want, stored, actual, i) {
        first_fits_come_first(want, slots, stored, actual, i + 1);
    }
}

} // verus!
