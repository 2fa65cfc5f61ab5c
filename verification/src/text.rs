//! Building byte strings: literal text, decimal and hexadecimal numbers.

use vstd::prelude::*;
use vstd::string::*;

verus! {

/// The bytes of a string literal.
pub open spec fn lit(s: &str) -> Seq<u8> {
    s.spec_bytes()
}

/// `n` zero bytes.
pub open spec fn zeros(n: nat) -> Seq<u8> {
    Seq::new(n, |i: int| 0u8)
}

/// Append `s` to `v`.
pub fn append(v: &mut Vec<u8>, s: &[u8])
    ensures
        final(v)@ == old(v)@ + s@,
{
    v.extend_from_slice(s);
}

/// Append the bytes of `s` to `v`.
pub fn append_str(v: &mut Vec<u8>, s: &str)
    ensures
        final(v)@ == old(v)@ + lit(s),
{
    append(v, s.as_bytes());
}

/// Append `n` zero bytes to `v`.
pub fn append_zeros(v: &mut Vec<u8>, n: usize)
    ensures
        final(v)@ == old(v)@ + zeros(n as nat),
{
    let ghost start = v@;
    let mut i: usize = 0;
    while i < n
        invariant
            i <= n,
            v@ == start + zeros(i as nat),
        decreases n - i,
    {
        v.push(0);
        i = i + 1;
        assert(v@ =~= start + zeros(i as nat));
    }
}

/// Overwrite the first `src.len()` bytes of `out`.
pub fn copy_into(out: &mut [u8], src: &[u8])
    requires
        src@.len() <= old(out)@.len(),
    ensures
        final(out)@ == src@ + old(out)@.skip(src@.len() as int),
{
    let ghost before = out@;
    let mut i: usize = 0;
    while i < src.len()
        invariant
            i <= src@.len() <= before.len(),
            out@ == src@.take(i as int) + before.skip(i as int),
        decreases src@.len() - i,
    {
        out[i] = src[i];
        i = i + 1;
        assert(out@ =~= src@.take(i as int) + before.skip(i as int));
    }
    assert(src@.take(i as int) =~= src@);
}

/// Compare two byte strings.
pub fn same(a: &[u8], b: &[u8]) -> (r: bool)
    ensures
        r == (a@ == b@),
{
    if a.len() != b.len() {
        return false;
    }
    let mut i: usize = 0;
    while i < a.len()
        invariant
            i <= a@.len(),
            a@.len() == b@.len(),
            forall|j: int| 0 <= j < i ==> a@[j] == b@[j],
        decreases a@.len() - i,
    {
        if a[i] != b[i] {
            return false;
        }
        i = i + 1;
    }
    assert(a@ =~= b@);
    true
}

/// Whether `a` begins with `p`.
pub open spec fn begins(a: Seq<u8>, p: Seq<u8>) -> bool {
    p.len() <= a.len() && a.take(p.len() as int) == p
}

/// Whether `a` begins with `p`.
pub fn starts_with(a: &[u8], p: &[u8]) -> (r: bool)
    ensures
        r == begins(a@, p@),
{
    if a.len() < p.len() {
        return false;
    }
    let head = vstd::slice::slice_subrange(a, 0, p.len());
    assert(head@ == a@.take(p@.len() as int));
    same(head, p)
}

/// The decimal digits of `n`, most significant first, without leading zeros.
pub open spec fn decimal(n: nat) -> Seq<u8>
    decreases n,
{
    if n < 10 {
        seq![(48 + n) as u8]
    } else {
        decimal(n / 10).push((48 + n % 10) as u8)
    }
}

/// Append `n` in decimal.
pub fn append_u64(v: &mut Vec<u8>, n: u64)
    ensures
        final(v)@ == old(v)@ + decimal(n as nat),
    decreases n,
{
    if n < 10 {
        v.push(48 + n as u8);
        assert(v@ =~= old(v)@ + decimal(n as nat));
    } else {
        append_u64(v, n / 10);
        v.push(48 + (n % 10) as u8);
        assert(v@ =~= old(v)@ + decimal(n as nat));
    }
}

/// Append `n` in decimal.
pub fn append_u32(v: &mut Vec<u8>, n: u32)
    ensures
        final(v)@ == old(v)@ + decimal(n as nat),
{
    append_u64(v, n as u64);
}

/// The lower-case hexadecimal digit of `d`.
pub open spec fn hex_digit(d: int) -> u8 {
    if d < 10 {
        (48 + d) as u8
    } else {
        (87 + d) as u8
    }
}

/// The lower-case hexadecimal digit of `d`.
pub fn hex_char(d: u8) -> (r: u8)
    requires
        d < 16,
    ensures
        r == hex_digit(d as int),
{
    if d < 10 {
        48 + d
    } else {
        87 + d
    }
}

/// `b` as two lower-case hexadecimal digits.
pub open spec fn hex2(b: u8) -> Seq<u8> {
    seq![hex_digit(b as int / 16), hex_digit(b as int % 16)]
}

/// Append `b` as two hexadecimal digits.
pub fn append_hex_byte(v: &mut Vec<u8>, b: u8)
    ensures
        final(v)@ == old(v)@ + hex2(b),
{
    v.push(hex_char(b / 16));
    v.push(hex_char(b % 16));
    assert(v@ =~= old(v)@ + hex2(b));
}

/// `n` as eight lower-case hexadecimal digits.
pub open spec fn hex8(n: u32) -> Seq<u8> {
    hex2((n / 0x100_0000) as u8) + hex2((n / 0x1_0000 % 256) as u8) + hex2((n / 256 % 256) as u8)
        + hex2((n % 256) as u8)
}

/// Append `n` as eight hexadecimal digits.
pub fn append_hex32(v: &mut Vec<u8>, n: u32)
    ensures
        final(v)@ == old(v)@ + hex8(n),
{
    let ghost start = v@;
    append_hex_byte(v, (n / 0x100_0000) as u8);
    append_hex_byte(v, (n / 0x1_0000 % 256) as u8);
    append_hex_byte(v, (n / 256 % 256) as u8);
    append_hex_byte(v, (n % 256) as u8);
    assert(v@ =~= start + hex8(n));
}

/// The upper-case hexadecimal digit of `d`.
pub open spec fn upper_digit(d: int) -> u8 {
    if d < 10 {
        (48 + d) as u8
    } else {
        (55 + d) as u8
    }
}

/// The last `n` hexadecimal digits of a number, in upper case.
pub open spec fn upper_hex(id: nat, n: nat) -> Seq<u8>
    decreases n,
{
    if n == 0 {
        Seq::empty()
    } else {
        upper_hex(id / 16, (n - 1) as nat).push(upper_digit(id as int % 16))
    }
}

/// Append the last `n` hexadecimal digits of a number, in upper case.
pub fn append_upper_hex(v: &mut Vec<u8>, id: u64, n: u32)
    ensures
        final(v)@ == old(v)@ + upper_hex(id as nat, n as nat),
    decreases n,
{
    if n == 0 {
        assert(v@ =~= old(v)@ + upper_hex(id as nat, 0));
    } else {
        append_upper_hex(v, id / 16, n - 1);
        let d: u8 = (id % 16) as u8;
        if d < 10 {
            v.push(48 + d);
        } else {
            v.push(55 + d);
        }
        assert(v@ =~= old(v)@ + upper_hex(id as nat, n as nat));
    }
}

/// `n` modulo one hundred as two decimal digits.
pub open spec fn pad2(n: u8) -> Seq<u8> {
    seq![(48 + (n / 10) % 10) as u8, (48 + n % 10) as u8]
}

/// Append two zero-padded decimal digits.
pub fn append_pad2(v: &mut Vec<u8>, n: u8)
    ensures
        final(v)@ == old(v)@ + pad2(n),
{
    v.push(48 + (n / 10) % 10);
    v.push(48 + n % 10);
    assert(v@ =~= old(v)@ + pad2(n));
}

/// A byte that prints as itself on a terminal.
pub open spec fn printable(b: u8) -> bool {
    0x20 <= b < 0x7f
}

/// Whether `b` prints as itself on a terminal.
pub fn is_printable(b: u8) -> (r: bool)
    ensures
        r == printable(b),
{
    0x20 <= b && b < 0x7f
}

/// Lower-case form of an ASCII letter; any other byte unchanged.
pub open spec fn lower(b: u8) -> u8 {
    if 65 <= b <= 90 {
        (b + 32) as u8
    } else {
        b
    }
}

/// Lower-case form of an ASCII letter; any other byte unchanged.
pub fn to_lower(b: u8) -> (r: u8)
    ensures
        r == lower(b),
{
    if 65 <= b && b <= 90 {
        b + 32
    } else {
        b
    }
}

/// The number that hexadecimal digits of either case spell.
pub open spec fn hex_value(s: Seq<u8>) -> int
    decreases s.len(),
{
    if s.len() == 0 {
        0
    } else {
        let c = s.last();
        16 * hex_value(s.drop_last()) + if 48 <= c <= 57 {
            c - 48
        } else if 97 <= c <= 102 {
            c - 87
        } else {
            c - 55
        }
    }
}

/// The number that decimal digits spell.
pub open spec fn decimal_value(s: Seq<u8>) -> int
    decreases s.len(),
{
    if s.len() == 0 {
        0
    } else {
        10 * decimal_value(s.drop_last()) + (s.last() - 48)
    }
}

/// A number in decimal spells that number, in digits alone and with no zero in
/// front.
pub proof fn decimals_spell_their_number(n: nat)
    ensures
        decimal_value(decimal(n)) == n,
        decimal(n).len() > 0,
        forall|i: int| 0 <= i < decimal(n).len() ==> 48 <= #[trigger] decimal(n)[i] <= 57,
        n > 0 ==> decimal(n)[0] != 48,
    decreases n,
{
    let s = decimal(n);
    reveal_with_fuel(decimal_value, 2);
    if n < 10 {
        assert(s.drop_last() =~= Seq::empty());
    } else {
        decimals_spell_their_number(n / 10);
        assert(s.drop_last() =~= decimal(n / 10));
        assert(s.last() == 48 + n % 10);
        assert forall|i: int| 0 <= i < s.len() implies 48 <= #[trigger] s[i] <= 57 by {
            if i < s.len() - 1 {
                assert(s[i] == decimal(n / 10)[i]);
            }
        }
        assert(s[0] == decimal(n / 10)[0]);
    }
}

proof fn two_digits(s: Seq<u8>, t: Seq<u8>, b: u8)
    requires
        t == s + hex2(b),
    ensures
        hex_value(t) == 256 * hex_value(s) + b,
{
    reveal_with_fuel(hex_value, 3);
    assert(t.drop_last() =~= s + seq![hex_digit(b as int / 16)]);
    assert(t.drop_last().drop_last() =~= s);
    assert(t.last() == hex_digit(b as int % 16));
    assert(t.drop_last().last() == hex_digit(b as int / 16));
}

/// A byte and a word in hexadecimal spell their numbers, in two and in eight
/// digits.
pub proof fn hexadecimals_spell_their_number(b: u8, n: u32)
    ensures
        hex2(b).len() == 2,
        hex_value(hex2(b)) == b,
        hex8(n).len() == 8,
        hex_value(hex8(n)) == n,
{
    let e = Seq::<u8>::empty();
    assert(hex2(b) =~= e + hex2(b));
    two_digits(e, hex2(b), b);
    let b3 = (n / 0x100_0000) as u8;
    let b2 = (n / 0x1_0000 % 256) as u8;
    let b1 = (n / 256 % 256) as u8;
    let b0 = (n % 256) as u8;
    assert(hex2(b3) =~= e + hex2(b3));
    two_digits(e, hex2(b3), b3);
    two_digits(hex2(b3), hex2(b3) + hex2(b2), b2);
    two_digits(hex2(b3) + hex2(b2), hex2(b3) + hex2(b2) + hex2(b1), b1);
    two_digits(hex2(b3) + hex2(b2) + hex2(b1), hex8(n), b0);
    assert(n == n / 256 * 256 + n % 256);
    assert(n / 256 == n / 0x1_0000 * 256 + n / 256 % 256);
    assert(n / 0x1_0000 == n / 0x100_0000 * 256 + n / 0x1_0000 % 256);
}

/// The last digits of a number in upper case spell what they stand for.
pub proof fn upper_case_spells_its_number(id: nat, n: nat)
    ensures
        upper_hex(id, n).len() == n,
        n == 0 ==> hex_value(upper_hex(id, n)) == 0,
        n > 0 ==> hex_value(upper_hex(id, n)) == 16 * hex_value(
            upper_hex(id / 16, (n - 1) as nat),
        ) + id % 16,
        forall|i: int|
            0 <= i < n ==> {
                ||| 48 <= #[trigger] upper_hex(id, n)[i] <= 57
                ||| 65 <= upper_hex(id, n)[i] <= 70
            },
    decreases n,
{
    let s = upper_hex(id, n);
    if n > 0 {
        upper_case_spells_its_number(id / 16, (n - 1) as nat);
        let t = upper_hex(id / 16, (n - 1) as nat);
        assert(s.drop_last() =~= t);
        assert forall|i: int| 0 <= i < n implies 48 <= #[trigger] s[i] <= 57 || 65 <= s[i]
            <= 70 by {
            if i < n - 1 {
                assert(s[i] == t[i]);
            }
        }
    }
}

/// Two padded digits spell a number below one hundred.
pub proof fn padded_digits_spell_their_number(n: u8)
    requires
        n < 100,
    ensures
        pad2(n).len() == 2,
        decimal_value(pad2(n)) == n,
{
    let s = pad2(n);
    reveal_with_fuel(decimal_value, 3);
    assert(s.drop_last() =~= seq![s[0]]);
    assert(s.drop_last().drop_last() =~= Seq::empty());
}

/// Letters in lower case are those of the alphabet, in their order, and no other
/// byte changes.
pub proof fn lower_case_keeps_the_letter(b: u8)
    ensures
        lower(lower(b)) == lower(b),
        'A' as u8 <= b <= 'Z' as u8 ==> lower(b) - 'a' as u8 == b - 'A' as u8,
        !('A' as u8 <= b <= 'Z' as u8) ==> lower(b) == b,
{
}

/// Whether a byte is a decimal digit.
pub open spec fn digit(b: u8) -> bool {
    48 <= b <= 57
}

/// Whether a byte is a letter.
pub open spec fn letter(b: u8) -> bool {
    65 <= b <= 90 || 97 <= b <= 122
}

/// The numbers that a text has said, and the one that it is saying. Digits behind
/// a letter belong to a word and say nothing.
pub open spec fn said(s: Seq<u8>) -> (Seq<int>, Option<int>, bool)
    decreases s.len(),
{
    if s.len() == 0 {
        (Seq::empty(), None, false)
    } else {
        let (done, open, word) = said(s.drop_last());
        let c = s.last();
        if digit(c) && word {
            (done, None, true)
        } else if digit(c) {
            (
                done,
                Some(
                    c - 48 + match open {
                        Some(n) => 10 * n,
                        None => 0,
                    },
                ),
                false,
            )
        } else {
            (numbers_of(done, open), None, letter(c))
        }
    }
}

/// The numbers once the one that is being said has ended.
pub open spec fn numbers_of(done: Seq<int>, open: Option<int>) -> Seq<int> {
    match open {
        Some(n) => done.push(n),
        None => done,
    }
}

/// The decimal numbers in a text, in their order.
pub open spec fn numbers_in(s: Seq<u8>) -> Seq<int> {
    numbers_of(said(s).0, said(s).1)
}

/// Words that hold no number, and behind which a number can stand.
pub open spec fn words_only(t: Seq<u8>) -> bool {
    &&& t.len() > 0
    &&& !digit(t[0])
    &&& !digit(t.last())
    &&& !letter(t.last())
    &&& forall|i: int|
        0 < i < t.len() && digit(#[trigger] t[i]) ==> letter(t[i - 1]) || digit(t[i - 1])
}

proof fn said_after(s: Seq<u8>, t: Seq<u8>)
    requires
        t.len() > 0,
        !digit(t[0]),
    ensures
        said(s + t) == (numbers_in(s) + said(t).0, said(t).1, said(t).2),
    decreases t.len(),
{
    let st = s + t;
    assert(st.drop_last() =~= s + t.drop_last());
    assert(st.last() == t.last());
    if t.len() == 1 {
        reveal_with_fuel(said, 2);
        assert(t.drop_last() =~= Seq::empty());
        assert(st.drop_last() =~= s);
        assert(said(t).0 =~= Seq::empty());
        assert(numbers_in(s) + said(t).0 =~= numbers_in(s));
    } else {
        said_after(s, t.drop_last());
        let (done, open, word) = said(t.drop_last());
        assert(numbers_in(s) + numbers_of(done, open) =~= numbers_of(numbers_in(s) + done, open));
    }
}

proof fn words_say_nothing(t: Seq<u8>)
    requires
        t.len() > 0,
        !digit(t[0]),
        forall|i: int|
            0 < i < t.len() && digit(#[trigger] t[i]) ==> letter(t[i - 1]) || digit(t[i - 1]),
    ensures
        said(t) == (Seq::<int>::empty(), None::<int>, letter(t.last()) || digit(t.last())),
    decreases t.len(),
{
    let u = t.drop_last();
    if t.len() == 1 {
        reveal_with_fuel(said, 2);
        assert(u =~= Seq::empty());
    } else {
        assert(u.last() == t[t.len() - 2]);
        assert forall|i: int| 0 < i < u.len() && digit(#[trigger] u[i]) implies letter(u[i - 1])
            || digit(u[i - 1]) by {
            assert(u[i] == t[i]);
            assert(u[i - 1] == t[i - 1]);
        }
        words_say_nothing(u);
        if digit(t.last()) {
            assert(digit(t[t.len() - 1]));
        }
    }
}

proof fn digits_say_their_number(s: Seq<u8>, n: nat)
    requires
        said(s).1 is None,
        !said(s).2,
    ensures
        said(s + decimal(n)) == (said(s).0, Some(n as int), false),
    decreases n,
{
    let d = decimal(n);
    let sd = s + d;
    if n < 10 {
        assert(sd.drop_last() =~= s);
    } else {
        digits_say_their_number(s, n / 10);
        assert(sd.drop_last() =~= s + decimal(n / 10));
    }
}

/// Words and a number say that number.
pub proof fn words_then_a_number(s: Seq<u8>, t: Seq<u8>, n: nat)
    requires
        words_only(t),
    ensures
        numbers_in(s + t + decimal(n)) == numbers_in(s).push(n as int),
{
    said_after(s, t);
    words_say_nothing(t);
    assert(numbers_in(s) + Seq::<int>::empty() =~= numbers_in(s));
    digits_say_their_number(s + t, n);
}

/// What ends a text takes nothing back.
pub proof fn the_end_keeps_the_numbers(s: Seq<u8>, t: Seq<u8>)
    requires
        t.len() > 0,
        !digit(t[0]),
    ensures
        numbers_in(s + t).len() >= numbers_in(s).len(),
        numbers_in(s + t).take(numbers_in(s).len() as int) == numbers_in(s),
{
    said_after(s, t);
    let a = numbers_in(s);
    let b = numbers_of(said(t).0, said(t).1);
    assert(numbers_in(s + t) =~= a + b);
    assert((a + b).take(a.len() as int) =~= a);
}

/// Nothing says no number.
pub proof fn nothing_is_said()
    ensures
        numbers_in(Seq::<u8>::empty()) == Seq::<int>::empty(),
{
}

/// A number alone says itself.
pub proof fn a_number_alone(n: nat)
    ensures
        numbers_in(decimal(n)) == seq![n as int],
{
    let e = Seq::<u8>::empty();
    digits_say_their_number(e, n);
    assert(e + decimal(n) =~= decimal(n));
    assert(numbers_in(decimal(n)) =~= seq![n as int]);
}

/// Words and two padded digits say their number.
pub proof fn words_then_two_digits(s: Seq<u8>, t: Seq<u8>, n: u8)
    requires
        words_only(t),
        n < 100,
    ensures
        numbers_in(s + t + pad2(n)) == numbers_in(s).push(n as int),
{
    said_after(s, t);
    words_say_nothing(t);
    assert(numbers_in(s) + Seq::<int>::empty() =~= numbers_in(s));
    let st = s + t;
    let x = st + pad2(n);
    reveal_with_fuel(said, 3);
    assert(x.drop_last() =~= st.push(pad2(n)[0]));
    assert(x.drop_last().drop_last() =~= st);
    assert(x.last() == pad2(n)[1]);
    assert(x.drop_last().last() == pad2(n)[0]);
}

/// Enough digits in upper case spell the whole number.
pub proof fn upper_case_spells_the_whole(id: nat, n: nat)
    requires
        id < vstd::arithmetic::power::pow(16, n),
    ensures
        hex_value(upper_hex(id, n)) == id,
    decreases n,
{
    reveal(vstd::arithmetic::power::pow);
    upper_case_spells_its_number(id, n);
    if n > 0 {
        let m = (n - 1) as nat;
        assert(id / 16 < vstd::arithmetic::power::pow(16, m)) by {
            assert(vstd::arithmetic::power::pow(16, n) == 16 * vstd::arithmetic::power::pow(16, m));
        }
        upper_case_spells_the_whole(id / 16, m);
        assert(id == 16 * (id / 16) + id % 16);
    }
}

} // verus!
