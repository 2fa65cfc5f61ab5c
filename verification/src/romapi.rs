//! The table by which the boot ROM names its functions and its data.

use vstd::prelude::*;

verus! {

/// The size of the ROM, which starts at address zero.
pub const ROM_END: usize = 0x8000;

/// Where the ROM holds the address of its table.
pub const ROM_TABLE_PTR: usize = 0x7df6;

/// A function that secure code can call.
pub const RT_FLAG_FUNC_ARM_SEC: u32 = 0x0004;

/// A data entry.
pub const RT_FLAG_DATA: u32 = 0x0040;

/// The two bytes at `p` as a number, the least significant first.
pub open spec fn half(rom: Seq<u8>, p: int) -> u16 {
    (rom[p] + 256 * rom[p + 1]) as u16
}

fn half_at(rom: &[u8], p: usize) -> (r: u16)
    requires
        p + 2 <= rom@.len(),
    ensures
        r == half(rom@, p as int),
{
    rom[p] as u16 + 256 * (rom[p + 1] as u16)
}

/// How many bits of a number are set.
pub open spec fn ones(f: nat) -> nat
    decreases f,
{
    if f == 0 {
        0
    } else {
        f % 2 + ones(f / 2)
    }
}

/// The place, among the set bits of `f`, of the lowest that is set in `m`
/// too; `below` set bits were passed before.
pub open spec fn place(f: nat, m: nat, below: nat) -> Option<nat>
    decreases f,
{
    if f == 0 {
        None
    } else if f % 2 == 1 && m % 2 == 1 {
        Some(below)
    } else {
        place(f / 2, m / 2, below + f % 2)
    }
}

/// What the table from `p` on says of an entry: each entry is its name, a
/// half word of flags, and a half word of data for each flag that is set. A
/// zero name ends the table, and so does the end of the ROM.
pub open spec fn found(rom: Seq<u8>, p: int, tag: u16, mask: u32) -> u16
    decreases
            if p + 4 > ROM_END {
                0
            } else {
                ROM_END - p
            },
{
    if p + 4 > ROM_END || half(rom, p) == 0 {
        0
    } else {
        let flags = half(rom, p + 2) as nat;
        let pl = place(flags, mask as nat, 0);
        if half(rom, p) == tag && pl is Some {
            let at = p + 4 + 2 * pl->Some_0;
            if at + 2 > ROM_END {
                0
            } else {
                half(rom, at)
            }
        } else {
            found(rom, p + 4 + 2 * ones(flags), tag, mask)
        }
    }
}

/// What the ROM says of an entry: nothing where the address of its table is
/// no address of a table.
pub open spec fn looked_up(rom: Seq<u8>, tag: u16, mask: u32) -> u16 {
    let p = half(rom, ROM_TABLE_PTR as int);
    if !(0x20 <= p < ROM_END) || p % 2 != 0 {
        0
    } else {
        found(rom, p as int, tag, mask)
    }
}

proof fn ones_fit(f: nat, b: nat, n: nat)
    requires
        f < b,
        b == vstd::arithmetic::power2::pow2(n),
    ensures
        ones(f) <= n,
    decreases n,
{
    if f > 0 {
        if n == 0 {
            vstd::arithmetic::power2::lemma2_to64();
        } else {
            let h = vstd::arithmetic::power2::pow2((n - 1) as nat);
            vstd::arithmetic::power2::lemma_pow2_unfold(n);
            ones_fit(f / 2, h, (n - 1) as nat);
        }
    }
}

proof fn place_is_below_the_ones(f: nat, m: nat, below: nat)
    ensures
        place(f, m, below) matches Some(k) ==> below <= k < below + ones(f),
    decreases f,
{
    if f > 0 && !(f % 2 == 1 && m % 2 == 1) {
        place_is_below_the_ones(f / 2, m / 2, below + f % 2);
    }
}

fn count_ones(flags: u16) -> (r: usize)
    ensures
        r == ones(flags as nat),
        r <= 16,
{
    let mut f: u16 = flags;
    let mut r: usize = 0;
    proof {
        vstd::arithmetic::power2::lemma2_to64();
        ones_fit(flags as nat, 0x1_0000, 16);
    }
    while f > 0
        invariant
            r + ones(f as nat) == ones(flags as nat),
            ones(flags as nat) <= 16,
        decreases f,
    {
        r = r + (f % 2) as usize;
        f = f / 2;
    }
    r
}

fn find_place(flags: u16, mask: u32) -> (r: Option<usize>)
    ensures
        r is Some <==> place(flags as nat, mask as nat, 0) is Some,
        r matches Some(k) ==> place(flags as nat, mask as nat, 0) == Some(k as nat) && k < 16,
{
    let mut f: u16 = flags;
    let mut m: u32 = mask;
    let mut below: usize = 0;
    proof {
        vstd::arithmetic::power2::lemma2_to64();
        ones_fit(flags as nat, 0x1_0000, 16);
    }
    while f > 0
        invariant
            place(f as nat, m as nat, below as nat) == place(flags as nat, mask as nat, 0),
            below + ones(f as nat) <= 16,
        decreases f,
    {
        if f % 2 == 1 && m % 2 == 1 {
            return Some(below);
        }
        below = below + (f % 2) as usize;
        f = f / 2;
        m = m / 2;
    }
    None
}

/// Look an entry of the ROM up by its two-character name: the address of the
/// first entry of that name with a flag of the mask, or zero.
pub fn rom_table_lookup(rom: &[u8], code: [u8; 2], mask: u32) -> (r: usize)
    requires
        rom@.len() == ROM_END,
    ensures
        r == looked_up(rom@, half(code@, 0), mask),
{
    let tag: u16 = half_at(&code, 0);
    let start: u16 = half_at(rom, ROM_TABLE_PTR);
    if start < 0x20 || start >= 0x8000 || start % 2 != 0 {
        return 0;
    }
    let mut p: usize = start as usize;
    while p + 4 <= ROM_END
        invariant
            rom@.len() == ROM_END,
            p <= ROM_END + 32,
            0x20 <= start < ROM_END,
            start % 2 == 0,
            start == half(rom@, ROM_TABLE_PTR as int),
            tag == half(code@, 0),
            found(rom@, p as int, tag, mask) == found(rom@, start as int, tag, mask),
        decreases ROM_END + 40 - p,
    {
        let sym: u16 = half_at(rom, p);
        if sym == 0 {
            return 0;
        }
        let flags: u16 = half_at(rom, p + 2);
        if sym == tag {
            if let Some(k) = find_place(flags, mask) {
                let at: usize = p + 4 + 2 * k;
                if at + 2 > ROM_END {
                    return 0;
                }
                return half_at(rom, at) as usize;
            }
        }
        p = p + 4 + 2 * count_ones(flags);
    }
    0
}

/// What a table names.
#[verifier::ext_equal]
pub struct Entry {
    /// Its name.
    pub tag: u16,
    /// Its flags.
    pub flags: u16,
    /// A half word for each flag that is set, the lowest first.
    pub data: Seq<u16>,
}

/// Whether the ROM holds a table of some entries from `p` on.
pub open spec fn holds(rom: Seq<u8>, p: int, entries: Seq<Entry>) -> bool
    decreases entries.len(),
{
    if entries.len() == 0 {
        p + 4 <= ROM_END && half(rom, p) == 0
    } else {
        let e = entries[0];
        &&& e.tag != 0
        &&& e.data.len() == ones(e.flags as nat)
        &&& p + 4 + 2 * e.data.len() <= ROM_END
        &&& half(rom, p) == e.tag
        &&& half(rom, p + 2) == e.flags
        &&& forall|j: int| 0 <= j < e.data.len() ==> half(rom, p + 4 + 2 * j) == #[trigger] e.data[j]
        &&& holds(rom, p + 4 + 2 * e.data.len(), entries.skip(1))
    }
}

/// The data of the first entry of a name that has a flag of the mask.
pub open spec fn wanted(entries: Seq<Entry>, tag: u16, mask: u32) -> u16
    decreases entries.len(),
{
    if entries.len() == 0 {
        0
    } else {
        let e = entries[0];
        let pl = place(e.flags as nat, mask as nat, 0);
        if e.tag == tag && pl is Some {
            e.data[pl->Some_0 as int]
        } else {
            wanted(entries.skip(1), tag, mask)
        }
    }
}

/// A lookup finds what the table names.
pub proof fn lookup_finds_the_entry(
    rom: Seq<u8>,
    p: int,
    entries: Seq<Entry>,
    tag: u16,
    mask: u32,
)
    requires
        holds(rom, p, entries),
    ensures
        found(rom, p, tag, mask) == wanted(entries, tag, mask),
    decreases entries.len(),
{
    if entries.len() > 0 {
        let e = entries[0];
        place_is_below_the_ones(e.flags as nat, mask as nat, 0);
        let pl = place(e.flags as nat, mask as nat, 0);
        if e.tag == tag && pl is Some {
            assert(half(rom, p + 4 + 2 * pl->Some_0) == e.data[pl->Some_0 as int]);
        } else {
            lookup_finds_the_entry(
                rom,
                p + 4 + 2 * e.data.len(),
                entries.skip(1),
                tag,
                mask,
            );
        }
    }
}

} // verus!
