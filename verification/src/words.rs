//! Little-endian packing of bytes into 32-bit words, as the radio's registers
//! and the boot ROM's tables hold them.

use vstd::prelude::*;

verus! {

/// Byte `k` of `s`, or zero past its end.
pub open spec fn at(s: Seq<u8>, k: int) -> int {
    if 0 <= k < s.len() {
        s[k] as int
    } else {
        0
    }
}

/// Word `i` of `s`: bytes `4 * i` to `4 * i + 3`, least significant first,
/// missing bytes read as zero.
pub open spec fn word(s: Seq<u8>, i: int) -> u32 {
    (at(s, 4 * i) + 0x100 * at(s, 4 * i + 1) + 0x1_0000 * at(s, 4 * i + 2) + 0x100_0000 * at(
        s,
        4 * i + 3,
    )) as u32
}

/// The first `n` words of `s`.
pub open spec fn packed(s: Seq<u8>, n: nat) -> Seq<u32> {
    Seq::new(n, |i: int| word(s, i))
}

/// Byte `j` (0 to 3) of a word, counted from the least significant.
pub open spec fn word_byte(w: u32, j: int) -> u8 {
    if j == 0 {
        (w % 0x100) as u8
    } else if j == 1 {
        (w / 0x100 % 0x100) as u8
    } else if j == 2 {
        (w / 0x1_0000 % 0x100) as u8
    } else {
        (w / 0x100_0000) as u8
    }
}

/// The bytes of a sequence of words.
pub open spec fn unpacked(ws: Seq<u32>) -> Seq<u8> {
    Seq::new(4 * ws.len(), |k: int| word_byte(ws[k / 4], k % 4))
}

/// Byte `k` of `s`, or zero past its end.
pub fn byte_at(s: &[u8], k: usize) -> (r: u8)
    ensures
        r == at(s@, k as int),
{
    if k < s.len() {
        s[k]
    } else {
        0
    }
}

/// Word `i` of `s`, missing bytes read as zero.
pub fn word_at(s: &[u8], i: usize) -> (r: u32)
    requires
        4 * i + 3 <= usize::MAX,
    ensures
        r == word(s@, i as int),
{
    let a: u32 = byte_at(s, 4 * i) as u32;
    let b: u32 = byte_at(s, 4 * i + 1) as u32;
    let c: u32 = byte_at(s, 4 * i + 2) as u32;
    let d: u32 = byte_at(s, 4 * i + 3) as u32;
    a + 0x100 * b + 0x1_0000 * c + 0x100_0000 * d
}

/// The first `n` words of `s`.
pub fn pack(s: &[u8], n: usize) -> (r: Vec<u32>)
    requires
        4 * n <= usize::MAX,
    ensures
        r@ == packed(s@, n as nat),
{
    let mut r: Vec<u32> = Vec::new();
    let mut i: usize = 0;
    while i < n
        invariant
            i <= n,
            4 * n <= usize::MAX,
            r@ == packed(s@, i as nat),
        decreases n - i,
    {
        r.push(word_at(s, i));
        i = i + 1;
        assert(r@ =~= packed(s@, i as nat));
    }
    r
}

/// Byte `j` of a word.
pub fn get_byte(w: u32, j: usize) -> (r: u8)
    requires
        j < 4,
    ensures
        r == word_byte(w, j as int),
{
    if j == 0 {
        (w % 0x100) as u8
    } else if j == 1 {
        (w / 0x100 % 0x100) as u8
    } else if j == 2 {
        (w / 0x1_0000 % 0x100) as u8
    } else {
        (w / 0x100_0000) as u8
    }
}

/// The bytes of `ws`.
pub fn unpack(ws: &[u32]) -> (r: Vec<u8>)
    ensures
        r@ == unpacked(ws@),
{
    let mut r: Vec<u8> = Vec::new();
    let mut i: usize = 0;
    while i < ws.len()
        invariant
            i <= ws@.len(),
            r@ == unpacked(ws@.take(i as int)),
        decreases ws@.len() - i,
    {
        let ghost before = r@;
        r.push(get_byte(ws[i], 0));
        r.push(get_byte(ws[i], 1));
        r.push(get_byte(ws[i], 2));
        r.push(get_byte(ws[i], 3));
        i = i + 1;
        proof {
            let t = ws@.take(i as int);
            assert(r@ =~= unpacked(t)) by {
                assert forall|k: int| 0 <= k < r@.len() implies r@[k] == unpacked(t)[k] by {
                    if k < before.len() {
                        assert(before[k] == unpacked(ws@.take(i - 1))[k]);
                        assert(t[k / 4] == ws@.take(i - 1)[k / 4]);
                    }
                }
            }
        }
    }
    assert(ws@.take(i as int) =~= ws@);
    r
}

/// Bit `i` of a byte, the least significant first.
pub open spec fn bit(b: u8, i: int) -> bool {
    if i == 0 {
        b % 2 == 1
    } else if i == 1 {
        b / 2 % 2 == 1
    } else if i == 2 {
        b / 4 % 2 == 1
    } else if i == 3 {
        b / 8 % 2 == 1
    } else if i == 4 {
        b / 16 % 2 == 1
    } else if i == 5 {
        b / 32 % 2 == 1
    } else if i == 6 {
        b / 64 % 2 == 1
    } else {
        b / 128 == 1
    }
}

/// Bit `i` of a byte, the least significant first.
pub fn bit_of(b: u8, i: usize) -> (r: bool)
    requires
        i < 8,
    ensures
        r == bit(b, i as int),
{
    if i == 0 {
        b % 2 == 1
    } else if i == 1 {
        b / 2 % 2 == 1
    } else if i == 2 {
        b / 4 % 2 == 1
    } else if i == 3 {
        b / 8 % 2 == 1
    } else if i == 4 {
        b / 16 % 2 == 1
    } else if i == 5 {
        b / 32 % 2 == 1
    } else if i == 6 {
        b / 64 % 2 == 1
    } else {
        b / 128 == 1
    }
}

proof fn word_keeps_its_bytes(s: Seq<u8>, i: int, j: int)
    requires
        0 <= i,
        0 <= j < 4,
    ensures
        word_byte(word(s, i), j) == at(s, 4 * i + j),
{
    let a = at(s, 4 * i);
    let b = at(s, 4 * i + 1);
    let c = at(s, 4 * i + 2);
    let d = at(s, 4 * i + 3);
    let w = word(s, i);
    assert(w == a + 0x100 * (b + 0x100 * (c + 0x100 * d)));
    assert(w / 0x100 == b + 0x100 * (c + 0x100 * d));
    assert(w / 0x1_0000 == c + 0x100 * d);
    assert(w / 0x100_0000 == d);
}

/// Packing keeps every byte: reading `n` packed words back gives the bytes of
/// `s` again, followed by zeros up to the end of the last word.
pub proof fn pack_then_unpack(s: Seq<u8>, n: nat)
    requires
        s.len() <= 4 * n,
    ensures
        unpacked(packed(s, n)).take(s.len() as int) == s,
        forall|k: int| s.len() <= k < 4 * n ==> unpacked(packed(s, n))[k] == 0,
{
    let u = unpacked(packed(s, n));
    assert forall|k: int| 0 <= k < 4 * n implies u[k] == at(s, k) by {
        word_keeps_its_bytes(s, k / 4, k % 4);
    }
    assert(u.take(s.len() as int) =~= s);
}

/// Unpacking keeps every word.
pub proof fn unpack_then_pack(ws: Seq<u32>)
    ensures
        packed(unpacked(ws), ws.len()) == ws,
{
    let u = unpacked(ws);
    assert forall|i: int| 0 <= i < ws.len() implies word(u, i) == ws[i] by {
        assert(u[4 * i] == word_byte(ws[i], 0));
        assert(u[4 * i + 1] == word_byte(ws[i], 1));
        assert(u[4 * i + 2] == word_byte(ws[i], 2));
        assert(u[4 * i + 3] == word_byte(ws[i], 3));
    }
    assert(packed(u, ws.len()) =~= ws);
}

/// Words are little-endian: the first byte is the least significant, and
/// dropping it from the bytes divides the word by 256 and brings the next byte in
/// at the top.
pub proof fn words_are_little_endian(s: Seq<u8>, i: int)
    requires
        0 <= i,
    ensures
        word(s, i) % 256 == at(s, 4 * i),
        s.len() > 0 ==> word(s.skip(1), i) == word(s, i) as int / 256 + 0x100_0000 * at(
            s,
            4 * i + 4,
        ),
        4 * i >= s.len() ==> word(s, i) == 0,
{
    let (a, b, c, d) = (at(s, 4 * i), at(s, 4 * i + 1), at(s, 4 * i + 2), at(s, 4 * i + 3));
    assert(word(s, i) == a + 0x100 * (b + 0x100 * (c + 0x100 * d)));
    if s.len() > 0 {
        let t = s.skip(1);
        assert(at(t, 4 * i) == b && at(t, 4 * i + 1) == c && at(t, 4 * i + 2) == d);
        assert(at(t, 4 * i + 3) == at(s, 4 * i + 4));
        assert(word(s, i) as int / 256 == b + 0x100 * (c + 0x100 * d));
    }
}

/// The bits of a byte are its binary digits: the first tells whether it is odd,
/// the last whether it is 128 or more, and halving the byte moves each one down.
pub proof fn bits_are_binary_digits(b: u8, i: int)
    requires
        0 <= i < 7,
    ensures
        bit(b, 0) == (b % 2 == 1),
        bit(b, 7) == (b >= 128),
        bit((b / 2) as u8, i) == bit(b, i + 1),
        !bit((b / 2) as u8, 7),
{
}

} // verus!
