//! Internet header arithmetic: the one's-complement checksum and EtherTypes.

use vstd::prelude::*;

verus! {

/// Sum of the big-endian 16-bit words of `s` from byte `i` on; a trailing odd
/// byte is left out.
pub open spec fn words_sum(s: Seq<u8>, i: int) -> nat
    decreases s.len() - i,
{
    if i < 0 || i + 1 >= s.len() {
        0
    } else {
        (0x100 * s[i] + s[i + 1]) as nat + words_sum(s, i + 2)
    }
}

/// Fold the carries of a 16-bit one's-complement sum back in.
pub open spec fn fold(sum: nat) -> nat
    decreases sum,
{
    if sum < 0x1_0000 {
        sum
    } else {
        fold(sum % 0x1_0000 + sum / 0x1_0000)
    }
}

/// The one's-complement checksum of a header.
pub open spec fn checksum(hdr: Seq<u8>) -> nat {
    (0xffff - fold(words_sum(hdr, 0))) as nat
}

proof fn fold_bounds(sum: nat)
    ensures
        fold(sum) < 0x1_0000,
        fold(sum) % 0xffff == sum % 0xffff,
        sum > 0 ==> fold(sum) > 0,
    decreases sum,
{
    if sum >= 0x1_0000 {
        let next = sum % 0x1_0000 + sum / 0x1_0000;
        fold_bounds(next);
        assert(sum == 0xffff * (sum / 0x1_0000) + next);
        assert(sum % 0xffff == next % 0xffff) by (nonlinear_arith)
            requires
                sum == 0xffff * (sum / 0x1_0000) + next,
        ;
    }
}

proof fn words_sum_update(s: Seq<u8>, at: int, hi: u8, lo: u8, i: int)
    requires
        0 <= i <= at,
        at + 1 < s.len(),
        (at - i) % 2 == 0,
        s[at] == 0,
        s[at + 1] == 0,
    ensures
        words_sum(s.update(at, hi).update(at + 1, lo), i) == words_sum(s, i) + 0x100 * hi + lo,
    decreases at - i,
{
    let t = s.update(at, hi).update(at + 1, lo);
    if i < at {
        words_sum_update(s, at, hi, lo, i + 2);
    } else {
        words_sum_same(s, t, at + 2);
    }
}

proof fn words_sum_same(s: Seq<u8>, t: Seq<u8>, i: int)
    requires
        s.len() == t.len(),
        0 <= i,
        forall|k: int| i <= k < s.len() ==> s[k] == t[k],
    ensures
        words_sum(s, i) == words_sum(t, i),
    decreases s.len() - i,
{
    if i + 1 < s.len() {
        words_sum_same(s, t, i + 2);
    }
}

/// A header whose checksum field (at the even offset `at`, zero so far) is
/// filled with its checksum checks to zero.
pub proof fn checksum_verifies(hdr: Seq<u8>, at: int)
    requires
        0 <= at,
        at + 1 < hdr.len(),
        at % 2 == 0,
        hdr[at] == 0,
        hdr[at + 1] == 0,
    ensures
        checksum(
            hdr.update(at, (checksum(hdr) / 0x100) as u8).update(
                at + 1,
                (checksum(hdr) % 0x100) as u8,
            ),
        ) == 0,
{
    let sum = words_sum(hdr, 0);
    fold_bounds(sum);
    let ck = checksum(hdr);
    let hi = (ck / 0x100) as u8;
    let lo = (ck % 0x100) as u8;
    words_sum_update(hdr, at, hi, lo, 0);
    let total = (sum + ck) as nat;
    fold_bounds(total);
    assert(total % 0xffff == 0) by (nonlinear_arith)
        requires
            total == sum + 0xffff - fold(sum),
            fold(sum) % 0xffff == sum % 0xffff,
    ;
    assert(total > 0) by {
        if sum == 0 {
            assert(fold(sum) == 0);
        }
    }
}

/// 1's-complement IP header checksum.
pub fn ip_checksum(hdr: &[u8]) -> (r: u16)
    requires
        words_sum(hdr@, 0) <= u32::MAX,
    ensures
        r == checksum(hdr@),
{
    let mut sum: u32 = 0;
    let mut i: usize = 0;
    while hdr.len() >= 2 && i < hdr.len() - 1
        invariant
            i <= hdr@.len(),
            words_sum(hdr@, 0) <= u32::MAX,
            words_sum(hdr@, 0) == sum + words_sum(hdr@, i as int),
        decreases hdr@.len() - i,
    {
        sum = sum + 0x100 * (hdr[i] as u32) + hdr[i + 1] as u32;
        i = i + 2;
    }
    assert(words_sum(hdr@, i as int) == 0);
    while sum >= 0x1_0000
        invariant
            fold(words_sum(hdr@, 0)) == fold(sum as nat),
        decreases sum,
    {
        sum = sum % 0x1_0000 + sum / 0x1_0000;
    }
    0xffff - sum as u16
}

proof fn words_sum_bound(s: Seq<u8>, i: int)
    requires
        0 <= i,
    ensures
        words_sum(s, i) <= 0x1_0000 * s.len(),
        i >= s.len() ==> words_sum(s, i) == 0,
        i < s.len() ==> words_sum(s, i) <= 0x1_0000 * (s.len() - i),
    decreases s.len() - i,
{
    if i + 1 < s.len() {
        words_sum_bound(s, i + 2);
    }
}

/// Headers of up to 64 KiB never overflow the running sum.
pub proof fn short_header_fits(hdr: Seq<u8>)
    requires
        hdr.len() <= 0xffff,
    ensures
        words_sum(hdr, 0) <= u32::MAX,
{
    words_sum_bound(hdr, 0);
}

/// EtherType field (bytes 12 and 13) of an Ethernet frame, or 0 if too short.
pub open spec fn ethertype_of(frame: Seq<u8>) -> u16 {
    if frame.len() >= 14 {
        (0x100 * frame[12] + frame[13]) as u16
    } else {
        0
    }
}

/// EtherType field (bytes 12 and 13) of an Ethernet frame, or 0 if too short.
pub fn ethertype(frame: &[u8]) -> (r: u16)
    ensures
        r == ethertype_of(frame@),
{
    if frame.len() >= 14 {
        0x100 * (frame[12] as u16) + frame[13] as u16
    } else {
        0
    }
}

proof fn sums_start_anywhere(a: u8, b: u8, s: Seq<u8>, i: int)
    requires
        0 <= i,
    ensures
        words_sum(seq![a, b] + s, i + 2) == words_sum(s, i),
    decreases s.len() - i,
{
    let t = seq![a, b] + s;
    if i + 1 < s.len() {
        assert(t[i + 2] == s[i] && t[i + 3] == s[i + 1]);
        sums_start_anywhere(a, b, s, i + 2);
    }
}

/// A header is summed word by word, the high byte of each first.
pub proof fn words_are_summed_high_byte_first(a: u8, b: u8, s: Seq<u8>)
    ensures
        words_sum(seq![a, b] + s, 0) == 0x100 * a + b + words_sum(s, 0),
        checksum(seq![a, b]) == 0xffff - (0x100 * a + b),
{
    sums_start_anywhere(a, b, s, 0);
    let t = seq![a, b] + s;
    assert(t[0] == a && t[1] == b);
    let u = seq![a, b];
    assert(words_sum(u, 2) == 0);
    assert(u[0] == a && u[1] == b);
}

/// The type of a frame stands behind the two addresses, high byte first.
pub proof fn types_stand_behind_the_addresses(dst: Seq<u8>, src: Seq<u8>, t: u16, rest: Seq<u8>)
    requires
        dst.len() == 6,
        src.len() == 6,
    ensures
        ethertype_of(dst + src + seq![(t / 0x100) as u8, (t % 0x100) as u8] + rest) == t,
{
}

} // verus!
