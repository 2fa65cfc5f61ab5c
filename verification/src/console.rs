//! The console's plumbing: write-combining output, line editing, and taking a
//! command line apart into words, numbers and byte strings.

use crate::text::{self, append};
use vstd::prelude::*;
use vstd::slice::slice_subrange;

verus! {

/// Capacity of the output buffer.
pub const OUT_LEN: usize = 256;

/// Small write-combining buffer, so that a reply goes out in a few pieces
/// instead of one per fragment.
pub struct Out {
    pub buf: Vec<u8>,
}

/// The byte strings of a list.
pub open spec fn texts(v: Seq<Vec<u8>>) -> Seq<Seq<u8>> {
    Seq::new(v.len(), |i: int| v[i]@)
}

/// The pieces one after the other.
pub open spec fn joined(pieces: Seq<Seq<u8>>) -> Seq<u8>
    decreases pieces.len(),
{
    if pieces.len() == 0 {
        Seq::empty()
    } else {
        joined(pieces.drop_last()) + pieces.last()
    }
}

/// Full buffers that leave once `n` bytes were put: a full buffer leaves when
/// the next byte comes.
pub open spec fn full_buffers(n: nat) -> nat {
    if n == 0 {
        0
    } else {
        ((n - 1) / 256) as nat
    }
}

/// The first `k` full buffers of `s`.
pub open spec fn cut_buffers(s: Seq<u8>, k: nat) -> Seq<Seq<u8>> {
    Seq::new(k, |i: int| s.subrange(256 * i, 256 * i + 256))
}

fn push_piece(pieces: &mut Vec<Vec<u8>>, p: Vec<u8>)
    ensures
        texts(final(pieces)@) == texts(old(pieces)@).push(p@),
{
    pieces.push(p);
    assert(texts(pieces@) =~= texts(old(pieces)@).push(p@));
}

impl Out {
    /// The buffer never holds more than its capacity.
    pub open spec fn wf(&self) -> bool {
        self.buf@.len() <= OUT_LEN
    }

    /// An empty buffer.
    pub fn new() -> (o: Out)
        ensures
            o.wf(),
            o.buf@ == Seq::<u8>::empty(),
    {
        Out { buf: Vec::new() }
    }

    /// Put bytes into the buffer; returns the full buffers to write.
    pub fn put(&mut self, s: &[u8]) -> (pieces: Vec<Vec<u8>>)
        requires
            old(self).wf(),
        ensures
            final(self).wf(),
            ({
                let all = old(self).buf@ + s@;
                let k = full_buffers(all.len());
                &&& texts(pieces@) == cut_buffers(all, k)
                &&& final(self).buf@ == all.skip(256 * k as int)
            }),
    {
        let ghost before = self.buf@;
        let ghost all = before + s@;
        let mut pieces: Vec<Vec<u8>> = Vec::new();
        let mut i: usize = 0;
        assert(texts(pieces@) =~= cut_buffers(all, 0));
        assert(before =~= (before + s@.take(0)).skip(0));
        while i < s.len()
            invariant
                i <= s@.len(),
                self.wf(),
                all == before + s@,
                before.len() <= 256,
                texts(pieces@) == cut_buffers(all, full_buffers(before.len() + i as nat)),
                self.buf@ == (before + s@.take(i as int)).skip(
                    256 * full_buffers(before.len() + i as nat) as int,
                ),
                self.buf@.len() == before.len() + i - 256 * full_buffers(before.len() + i as nat),
            decreases s@.len() - i,
        {
            let ghost n = (before.len() + i) as nat;
            let ghost k = full_buffers(n);
            if self.buf.len() == OUT_LEN {
                let mut p: Vec<u8> = Vec::new();
                append(&mut p, self.buf.as_slice());
                assert(n == 256 * k + 256);
                assert(full_buffers(n + 1) == k + 1);
                assert(p@ =~= all.subrange(256 * k as int, 256 * k as int + 256));
                push_piece(&mut pieces, p);
                assert(texts(pieces@) =~= cut_buffers(all, k + 1));
                self.buf.clear();
                assert((before + s@.take(i as int)).skip(256 * (k + 1) as int) =~= Seq::<
                    u8,
                >::empty());
            } else {
                assert(n < 256 * k + 256);
                assert(full_buffers(n + 1) == k);
            }
            self.buf.push(s[i]);
            i = i + 1;
            assert(self.buf@ =~= (before + s@.take(i as int)).skip(
                256 * full_buffers(n + 1) as int,
            ));
        }
        assert(s@.take(i as int) =~= s@);
        pieces
    }

    /// Take what the buffer holds, to be written at once; nothing is written
    /// when it is empty.
    pub fn flush(&mut self) -> (p: Option<Vec<u8>>)
        requires
            old(self).wf(),
        ensures
            final(self).wf(),
            final(self).buf@ == Seq::<u8>::empty(),
            old(self).buf@.len() == 0 ==> p is None,
            old(self).buf@.len() > 0 ==> (p matches Some(v) && v@ == old(self).buf@),
    {
        if self.buf.len() > 0 {
            let mut p: Vec<u8> = Vec::new();
            append(&mut p, self.buf.as_slice());
            self.buf.clear();
            Some(p)
        } else {
            None
        }
    }
}

proof fn cut_buffers_join(s: Seq<u8>, k: nat)
    requires
        256 * k <= s.len(),
    ensures
        joined(cut_buffers(s, k)) == s.take(256 * k as int),
    decreases k,
{
    if k == 0 {
        assert(s.take(0) =~= Seq::<u8>::empty());
    } else {
        let j = (k - 1) as nat;
        cut_buffers_join(s, j);
        assert(cut_buffers(s, k).drop_last() =~= cut_buffers(s, j));
        assert(s.take(256 * k as int) =~= s.take(256 * j as int) + s.subrange(
            256 * j as int,
            256 * j as int + 256,
        ));
    }
}

/// Nothing is lost, doubled or reordered on the way out: what leaves while
/// bytes are put, followed by what stays in the buffer, is what the buffer held
/// followed by those bytes.
pub proof fn output_keeps_its_order(buf: Seq<u8>, s: Seq<u8>)
    requires
        buf.len() <= OUT_LEN,
    ensures
        ({
            let all = buf + s;
            let k = full_buffers(all.len());
            joined(cut_buffers(all, k)) + all.skip(256 * k as int) == buf + s
        }),
{
    let all = buf + s;
    let k = full_buffers(all.len());
    cut_buffers_join(all, k);
    assert(all.take(256 * k as int) + all.skip(256 * k as int) =~= all);
}

/// Longest line that can be typed.
pub const LINE_LEN: usize = 128;

/// A line being typed.
pub struct LineEditor {
    pub line: Vec<u8>,
}

/// What a key does.
pub enum Key {
    /// Nothing.
    Ignored,
    /// Echo these bytes.
    Echo(Vec<u8>),
    /// The line is complete.
    Submit(Vec<u8>),
}

/// Everything typed is printable ASCII and fits the line.
pub open spec fn sound_line(s: Seq<u8>) -> bool {
    &&& s.len() <= LINE_LEN
    &&& forall|i: int| 0 <= i < s.len() ==> text::printable(#[trigger] s[i])
}

/// The line after a key.
pub open spec fn after_key(line: Seq<u8>, b: u8) -> Seq<u8> {
    if b == 13 || b == 10 {
        Seq::empty()
    } else if (b == 8 || b == 0x7f) && line.len() > 0 {
        line.drop_last()
    } else if text::printable(b) && line.len() < LINE_LEN {
        line.push(b)
    } else {
        line
    }
}

/// The line after some keys.
pub open spec fn after_keys(line: Seq<u8>, keys: Seq<u8>) -> Seq<u8>
    decreases keys.len(),
{
    if keys.len() == 0 {
        line
    } else {
        after_key(after_keys(line, keys.drop_last()), keys.last())
    }
}

/// What is typed stands in the line as it was typed, as long as there is room; a key
/// that is deleted, with either of the two keys for that, was never typed; and a
/// line end leaves an empty line.
pub proof fn lines_hold_what_is_typed(line: Seq<u8>, keys: Seq<u8>, b: u8)
    requires
        line.len() + keys.len() < 128,
        forall|i: int| 0 <= i < keys.len() ==> 32 <= #[trigger] keys[i] <= 126,
        32 <= b <= 126,
    ensures
        after_keys(line, keys) == line + keys,
        after_key(after_key(line, b), 8) == line,
        after_key(after_key(line, b), 127) == line,
        after_key(line, 13) == Seq::<u8>::empty(),
        after_key(line, 10) == Seq::<u8>::empty(),
    decreases keys.len(),
{
    assert(line.push(b).drop_last() =~= line);
    if keys.len() == 0 {
        assert(line + keys =~= line);
    } else {
        let t = keys.drop_last();
        assert forall|i: int| 0 <= i < t.len() implies 32 <= #[trigger] t[i] <= 126 by {
            assert(t[i] == keys[i]);
        }
        lines_hold_what_is_typed(line, t, b);
        assert(keys[keys.len() - 1] == keys.last());
        assert((line + t).push(keys.last()) =~= line + keys);
    }
}

impl LineEditor {
    /// An empty line.
    pub fn new() -> (e: LineEditor)
        ensures
            e.line@ == Seq::<u8>::empty(),
            sound_line(e.line@),
    {
        LineEditor { line: Vec::new() }
    }

    /// Take one key: CR or LF submits the line, backspace or delete removes the
    /// last byte, a printable byte is added while there is room, and anything
    /// else is ignored.
    pub fn key(&mut self, b: u8) -> (k: Key)
        requires
            sound_line(old(self).line@),
        ensures
            sound_line(final(self).line@),
            final(self).line@ == after_key(old(self).line@, b),
            ({
                let line = old(self).line@;
                if b == 13 || b == 10 {
                    &&& k matches Key::Submit(v) && v@ == line
                    &&& final(self).line@ == Seq::<u8>::empty()
                } else if (b == 8 || b == 0x7f) && line.len() > 0 {
                    &&& k matches Key::Echo(v) && v@ == [8u8, 32, 8]@
                    &&& final(self).line@ == line.drop_last()
                } else if text::printable(b) && line.len() < LINE_LEN {
                    &&& k matches Key::Echo(v) && v@ == seq![b]
                    &&& final(self).line@ == line.push(b)
                } else {
                    &&& k is Ignored
                    &&& final(self).line@ == line
                }
            }),
    {
        if b == 13 || b == 10 {
            let mut v: Vec<u8> = Vec::new();
            append(&mut v, self.line.as_slice());
            self.line.clear();
            Key::Submit(v)
        } else if (b == 8 || b == 0x7f) && self.line.len() > 0 {
            self.line.pop();
            let mut v: Vec<u8> = Vec::new();
            append(&mut v, [8u8, 32, 8].as_slice());
            assert(v@ =~= [8u8, 32, 8]@);
            Key::Echo(v)
        } else if text::is_printable(b) && self.line.len() < LINE_LEN {
            self.line.push(b);
            let mut v: Vec<u8> = Vec::new();
            v.push(b);
            assert(v@ =~= seq![b]);
            Key::Echo(v)
        } else {
            Key::Ignored
        }
    }
}

/// A white-space character that takes three bytes in UTF-8: U+1680, U+2000 to
/// U+200A, U+2028, U+2029, U+202F, U+205F and U+3000.
pub open spec fn wide_space(a: u8, b: u8, c: u8) -> bool {
    ||| a == 0xE1 && b == 0x9A && c == 0x80
    ||| a == 0xE2 && b == 0x80 && (0x80 <= c <= 0x8A || c == 0xA8 || c == 0xA9 || c == 0xAF)
    ||| a == 0xE2 && b == 0x81 && c == 0x9F
    ||| a == 0xE3 && b == 0x80 && c == 0x80
}

/// The number of bytes of the white-space character at offset `i` of a UTF-8
/// text, or 0 when none stands there. One byte: tab to carriage return, and the
/// space; two: U+0085 and U+00A0.
pub open spec fn space_at(s: Seq<u8>, i: int) -> int {
    if i < 0 || i >= s.len() {
        0
    } else if 9 <= s[i] <= 13 || s[i] == 32 {
        1
    } else if i + 1 < s.len() && s[i] == 0xC2 && (s[i + 1] == 0x85 || s[i + 1] == 0xA0) {
        2
    } else if i + 2 < s.len() && wide_space(s[i], s[i + 1], s[i + 2]) {
        3
    } else {
        0
    }
}

/// The length of the white-space character at `i`, in bytes; 0 when there is
/// none.
pub fn space_len(s: &[u8], i: usize) -> (r: usize)
    ensures
        r == space_at(s@, i as int),
        i <= s@.len() ==> i + r <= s@.len(),
{
    if i >= s.len() {
        return 0;
    }
    let a: u8 = s[i];
    let left: usize = s.len() - i;
    if (9 <= a && a <= 13) || a == 32 {
        return 1;
    }
    if left < 2 {
        return 0;
    }
    let b: u8 = s[i + 1];
    if a == 0xC2 && (b == 0x85 || b == 0xA0) {
        return 2;
    }
    if left < 3 {
        return 0;
    }
    let c: u8 = s[i + 2];
    if (a == 0xE1 && b == 0x9A && c == 0x80) || (a == 0xE2 && b == 0x80 && ((0x80 <= c && c
        <= 0x8A) || c == 0xA8 || c == 0xA9 || c == 0xAF)) || (a == 0xE2 && b == 0x81 && c == 0x9F)
        || (a == 0xE3 && b == 0x80 && c == 0x80) {
        3
    } else {
        0
    }
}

/// The first offset at or after `i` that holds no white space.
pub open spec fn past_spaces(s: Seq<u8>, i: int) -> int
    decreases s.len() - i,
{
    if space_at(s, i) > 0 {
        past_spaces(s, i + space_at(s, i))
    } else {
        i
    }
}

/// The first offset at or after `i` that holds white space, or the end.
pub open spec fn past_word(s: Seq<u8>, i: int) -> int
    decreases s.len() - i,
{
    if 0 <= i < s.len() && space_at(s, i) == 0 {
        past_word(s, i + 1)
    } else {
        i
    }
}

proof fn past_spaces_bounds(s: Seq<u8>, i: int)
    requires
        0 <= i <= s.len(),
    ensures
        i <= past_spaces(s, i) <= s.len(),
        space_at(s, past_spaces(s, i)) == 0,
    decreases s.len() - i,
{
    if space_at(s, i) > 0 {
        past_spaces_bounds(s, i + space_at(s, i));
    }
}

proof fn past_word_bounds(s: Seq<u8>, i: int)
    requires
        0 <= i <= s.len(),
    ensures
        i <= past_word(s, i) <= s.len(),
        i < s.len() && space_at(s, i) == 0 ==> i < past_word(s, i),
    decreases s.len() - i,
{
    if i < s.len() && space_at(s, i) == 0 {
        past_word_bounds(s, i + 1);
    }
}

/// The words of `s` from `i` on, separated by white space.
pub open spec fn words_from(s: Seq<u8>, i: int) -> Seq<Seq<u8>>
    decreases s.len() - i,
{
    let a = past_spaces(s, i);
    let b = past_word(s, a);
    if i < 0 || a < i || a >= s.len() || b <= a || b > s.len() {
        Seq::empty()
    } else {
        seq![s.subrange(a, b)] + words_from(s, b)
    }
}

/// The words of a line.
pub open spec fn words_of(s: Seq<u8>) -> Seq<Seq<u8>> {
    words_from(s, 0)
}

fn skip_blanks(s: &[u8], start: usize) -> (r: usize)
    requires
        start <= s@.len(),
    ensures
        r == past_spaces(s@, start as int),
        start <= r <= s@.len(),
{
    let mut i: usize = start;
    proof {
        past_spaces_bounds(s@, start as int);
    }
    let n: usize = s.len();
    loop
        invariant
            start <= i <= n,
            n == s@.len(),
            past_spaces(s@, start as int) == past_spaces(s@, i as int),
        decreases s@.len() - i,
    {
        let k: usize = space_len(s, i);
        if k == 0 {
            return i;
        }
        i = i + k;
    }
}

/// The end of the word that begins at `start`.
pub fn word_end(s: &[u8], start: usize) -> (r: usize)
    requires
        start <= s@.len(),
    ensures
        r == past_word(s@, start as int),
        start <= r <= s@.len(),
{
    let mut i: usize = start;
    while i < s.len() && space_len(s, i) == 0
        invariant
            start <= i <= s@.len(),
            past_word(s@, start as int) == past_word(s@, i as int),
        decreases s@.len() - i,
    {
        i = i + 1;
    }
    i
}

fn owned(s: &[u8]) -> (v: Vec<u8>)
    ensures
        v@ == s@,
{
    let mut v: Vec<u8> = Vec::new();
    append(&mut v, s);
    assert(v@ =~= s@);
    v
}

/// Split a line into its words.
pub fn split_words(s: &[u8]) -> (v: Vec<Vec<u8>>)
    ensures
        texts(v@) == words_of(s@),
{
    let mut v: Vec<Vec<u8>> = Vec::new();
    let mut i: usize = 0;
    assert(texts(v@) + words_from(s@, 0) =~= words_from(s@, 0));
    loop
        invariant
            i <= s@.len(),
            texts(v@) + words_from(s@, i as int) == words_of(s@),
        decreases s@.len() - i,
    {
        proof {
            past_spaces_bounds(s@, i as int);
        }
        let a: usize = skip_blanks(s, i);
        if a >= s.len() {
            assert(texts(v@) + Seq::<Seq<u8>>::empty() =~= texts(v@));
            return v;
        }
        proof {
            past_word_bounds(s@, a as int);
        }
        let b: usize = word_end(s, a);
        let ghost had = texts(v@);
        let w = owned(slice_subrange(s, a, b));
        push_piece(&mut v, w);
        assert(had + (seq![s@.subrange(a as int, b as int)] + words_from(s@, b as int))
            =~= texts(v@) + words_from(s@, b as int));
        i = b;
    }
}

/// The number of bytes of the white-space character that ends at offset `n`, or
/// 0 when none does.
pub open spec fn space_before(s: Seq<u8>, n: int) -> int {
    if space_at(s, n - 1) == 1 {
        1
    } else if space_at(s, n - 2) == 2 {
        2
    } else if space_at(s, n - 3) == 3 {
        3
    } else {
        0
    }
}

/// Drop white space at the end of the first `n` bytes.
pub open spec fn trimmed_end(s: Seq<u8>, n: int) -> int
    decreases n,
{
    if space_before(s, n) > 0 {
        trimmed_end(s, n - space_before(s, n))
    } else {
        n
    }
}

/// `s` without white space at either end.
pub open spec fn trimmed(s: Seq<u8>) -> Seq<u8> {
    let t = s.skip(past_spaces(s, 0));
    t.take(trimmed_end(t, t.len() as int))
}

/// `s` without white space at its start.
pub fn trim_start(s: &[u8]) -> (r: &[u8])
    ensures
        r@ == s@.skip(past_spaces(s@, 0)),
        0 <= past_spaces(s@, 0) <= s@.len(),
{
    proof {
        past_spaces_bounds(s@, 0);
    }
    let a: usize = skip_blanks(s, 0);
    slice_subrange(s, a, s.len())
}

/// `s` without white space at either end.
pub fn trim(s: &[u8]) -> (r: &[u8])
    ensures
        r@ == trimmed(s@),
{
    let t = trim_start(s);
    let mut n: usize = t.len();
    loop
        invariant
            n <= t@.len(),
            t@ == s@.skip(past_spaces(s@, 0)),
            trimmed_end(t@, t@.len() as int) == trimmed_end(t@, n as int),
        decreases n,
    {
        let k: usize = if n >= 1 && space_len(t, n - 1) == 1 {
            1
        } else if n >= 2 && space_len(t, n - 2) == 2 {
            2
        } else if n >= 3 && space_len(t, n - 3) == 3 {
            3
        } else {
            0
        };
        if k == 0 {
            return slice_subrange(t, 0, n);
        }
        n = n - k;
    }
}

/// The first place at or after `i` where `p` stands in `s`.
pub open spec fn find_text(s: Seq<u8>, p: Seq<u8>, i: int) -> Option<int>
    decreases s.len() + 1 - i,
{
    if i < 0 || i + p.len() > s.len() {
        None
    } else if s.subrange(i, i + p.len()) == p {
        Some(i)
    } else {
        find_text(s, p, i + 1)
    }
}

/// What follows the first `verb` in `line`, trimmed; nothing when it does not
/// occur.
pub open spec fn rest_after(line: Seq<u8>, verb: Seq<u8>) -> Seq<u8> {
    match find_text(line, verb, 0) {
        Some(i) => trimmed(line.skip(i + verb.len())),
        None => Seq::empty(),
    }
}

/// The text after `verb` in `line` (for commands whose final argument is free
/// text), trimmed.
pub fn subcommand_rest<'a>(line: &'a [u8], verb: &[u8]) -> (r: &'a [u8])
    ensures
        r@ == rest_after(line@, verb@),
{
    let mut i: usize = 0;
    while line.len() >= verb.len() && i <= line.len() - verb.len()
        invariant
            i <= line.len(),
            find_text(line@, verb@, 0) == find_text(line@, verb@, i as int),
        decreases line.len() + 1 - i,
    {
        let here = slice_subrange(line, i, i + verb.len());
        if text::same(here, verb) {
            return trim(slice_subrange(line, i + verb.len(), line.len()));
        }
        assert(i < line.len()) by {
            if i == line.len() {
                assert(here@ =~= verb@);
            }
        }
        i = i + 1;
    }
    slice_subrange(line, 0, 0)
}

/// The value of a digit, if it is one in that radix.
pub open spec fn digit_value(b: u8, radix: nat) -> Option<nat> {
    let v: int = if 48 <= b <= 57 {
        b - 48
    } else if 97 <= b <= 122 {
        b - 87
    } else if 65 <= b <= 90 {
        b - 55
    } else {
        99
    };
    if v < radix {
        Some(v as nat)
    } else {
        None
    }
}

fn digit(b: u8, radix: u32) -> (r: Option<u32>)
    requires
        radix <= 36,
    ensures
        match digit_value(b, radix as nat) {
            Some(v) => r == Some(v as u32) && v < radix,
            None => r is None,
        },
{
    let v: u32 = if 48 <= b && b <= 57 {
        (b - 48) as u32
    } else if 97 <= b && b <= 122 {
        (b - 87) as u32
    } else if 65 <= b && b <= 90 {
        (b - 55) as u32
    } else {
        99
    };
    if v < radix {
        Some(v)
    } else {
        None
    }
}

/// The number that the digits of `s` spell, or `None` if one is no digit.
pub open spec fn digits_number(s: Seq<u8>, radix: nat) -> Option<nat>
    decreases s.len(),
{
    if s.len() == 0 {
        Some(0)
    } else {
        match (digits_number(s.drop_last(), radix), digit_value(s.last(), radix)) {
            (Some(n), Some(d)) => Some(n * radix + d),
            _ => None,
        }
    }
}

/// The number that `s` spells: digits, with at most one plus sign before them,
/// and at most `max`.
pub open spec fn number(s: Seq<u8>, radix: nat, max: nat) -> Option<nat> {
    let digits = if s.len() > 0 && s[0] == 43 {
        s.skip(1)
    } else {
        s
    };
    if digits.len() == 0 {
        None
    } else {
        match digits_number(digits, radix) {
            Some(n) if n <= max => Some(n),
            _ => None,
        }
    }
}

proof fn digits_only_grow(s: Seq<u8>, k: int, radix: nat)
    requires
        0 <= k <= s.len(),
        radix >= 1,
        digits_number(s, radix) is Some,
    ensures
        digits_number(s.take(k), radix) is Some,
        digits_number(s.take(k), radix)->0 <= digits_number(s, radix)->0,
    decreases s.len(),
{
    if k == s.len() {
        assert(s.take(k) =~= s);
    } else {
        digits_only_grow(s.drop_last(), k, radix);
        assert(s.drop_last().take(k) =~= s.take(k));
        let n = digits_number(s.drop_last(), radix)->0;
        assert(n <= n * radix) by (nonlinear_arith)
            requires
                radix >= 1,
        ;
    }
}

/// Parse a number of that radix, at most `max`.
pub fn parse_number(s: &[u8], radix: u32, max: u64) -> (r: Option<u64>)
    requires
        2 <= radix <= 36,
    ensures
        match number(s@, radix as nat, max as nat) {
            Some(n) => r == Some(n as u64) && n <= max,
            None => r is None,
        },
{
    let start: usize = if s.len() > 0 && s[0] == 43 {
        1
    } else {
        0
    };
    let digits = slice_subrange(s, start, s.len());
    assert(start == 1 ==> digits@ == s@.skip(1));
    assert(start == 0 ==> digits@ =~= s@);
    if digits.len() == 0 {
        return None;
    }
    let mut n: u64 = 0;
    let mut i: usize = 0;
    assert(digits@.take(0) =~= Seq::<u8>::empty());
    while i < digits.len()
        invariant
            i <= digits@.len(),
            2 <= radix <= 36,
            digits@.len() > 0,
            digits@ == if s@.len() > 0 && s@[0] == 43 {
                s@.skip(1)
            } else {
                s@
            },
            n <= max,
            digits_number(digits@.take(i as int), radix as nat) == Some(n as nat),
        decreases digits@.len() - i,
    {
        assert(digits@.take(i + 1).drop_last() =~= digits@.take(i as int));
        assert(digits@.take(i + 1).last() == digits@[i as int]);
        match digit(digits[i], radix) {
            Some(d) => {
                assert(n * radix <= u64::MAX * 36) by (nonlinear_arith)
                    requires
                        n <= u64::MAX,
                        radix <= 36,
                ;
                let wide: u128 = (n as u128) * (radix as u128) + d as u128;
                assert(digits_number(digits@.take(i + 1), radix as nat) == Some(wide as nat));
                if wide > max as u128 {
                    proof {
                        if digits_number(digits@, radix as nat) is Some {
                            digits_only_grow(digits@, i + 1, radix as nat);
                        }
                    }
                    return None;
                }
                n = wide as u64;
            },
            None => {
                proof {
                    if digits_number(digits@, radix as nat) is Some {
                        digits_only_grow(digits@, i + 1, radix as nat);
                    }
                }
                return None;
            },
        }
        i = i + 1;
    }
    assert(digits@.take(i as int) =~= digits@);
    Some(n)
}

/// Parse a decimal `u32`.
pub fn parse_u32(s: &[u8]) -> (r: Option<u32>)
    ensures
        r == match number(s@, 10, 0xFFFF_FFFF) {
            Some(n) => Some(n as u32),
            None => None,
        },
{
    match parse_number(s, 10, 0xFFFF_FFFF) {
        Some(n) => Some(n as u32),
        None => None,
    }
}

/// Parse a decimal `u8`.
pub fn parse_u8(s: &[u8]) -> (r: Option<u8>)
    ensures
        r == match number(s@, 10, 255) {
            Some(n) => Some(n as u8),
            None => None,
        },
{
    match parse_number(s, 10, 255) {
        Some(n) => Some(n as u8),
        None => None,
    }
}

/// Parse a hexadecimal `u32`.
pub fn parse_hex_u32(s: &[u8]) -> (r: Option<u32>)
    ensures
        r == match number(s@, 16, 0xFFFF_FFFF) {
            Some(n) => Some(n as u32),
            None => None,
        },
{
    match parse_number(s, 16, 0xFFFF_FFFF) {
        Some(n) => Some(n as u32),
        None => None,
    }
}

/// Parse a hexadecimal `u8`.
pub fn parse_hex_u8(s: &[u8]) -> (r: Option<u8>)
    ensures
        r == match number(s@, 16, 255) {
            Some(n) => Some(n as u8),
            None => None,
        },
{
    match parse_number(s, 16, 255) {
        Some(n) => Some(n as u8),
        None => None,
    }
}

/// The bytes that a word of hexadecimal pairs spells: both characters of a pair
/// are digits.
pub open spec fn pairs_bytes(w: Seq<u8>) -> Option<Seq<u8>>
    decreases w.len(),
{
    if w.len() == 0 {
        Some(Seq::empty())
    } else if w.len() == 1 {
        None
    } else {
        let hi = digit_value(w[w.len() - 2], 16);
        let lo = digit_value(w[w.len() - 1], 16);
        match (pairs_bytes(w.take(w.len() - 2)), hi, lo) {
            (Some(s), Some(h), Some(l)) => Some(s.push((16 * h + l) as u8)),
            _ => None,
        }
    }
}

/// The bytes that words of hexadecimal pairs spell.
pub open spec fn words_bytes(ws: Seq<Seq<u8>>) -> Option<Seq<u8>>
    decreases ws.len(),
{
    if ws.len() == 0 {
        Some(Seq::empty())
    } else {
        match (words_bytes(ws.drop_last()), pairs_bytes(ws.last())) {
            (Some(a), Some(b)) => Some(a + b),
            _ => None,
        }
    }
}

/// The bytes that `s` spells, at most `cap` of them.
pub open spec fn hex_bytes(s: Seq<u8>, cap: nat) -> Option<Seq<u8>> {
    match words_bytes(words_of(s)) {
        Some(b) if b.len() <= cap => Some(b),
        _ => None,
    }
}

proof fn pairs_prefix(w: Seq<u8>, k: int)
    requires
        0 <= k <= w.len(),
        k % 2 == w.len() % 2,
        pairs_bytes(w) is Some,
    ensures
        pairs_bytes(w.take(k)) is Some,
        pairs_bytes(w.take(k))->0.len() <= pairs_bytes(w)->0.len(),
    decreases w.len(),
{
    if k == w.len() {
        assert(w.take(k) =~= w);
    } else {
        let t = w.take(w.len() - 2);
        pairs_prefix(t, k);
        assert(t.take(k) =~= w.take(k));
    }
}

fn append_pairs(out: &mut Vec<u8>, w: &[u8]) -> (r: bool)
    ensures
        r == (pairs_bytes(w@) is Some),
        r ==> final(out)@ == old(out)@ + pairs_bytes(w@)->0,
{
    let ghost start = out@;
    if w.len() % 2 != 0 {
        proof {
            odd_is_no_pairs(w@);
        }
        return false;
    }
    let mut i: usize = 0;
    assert(w@.take(0) =~= Seq::<u8>::empty());
    assert(start =~= start + Seq::<u8>::empty());
    while i < w.len()
        invariant
            i <= w.len(),
            i % 2 == 0,
            w.len() % 2 == 0,
            pairs_bytes(w@.take(i as int)) is Some,
            out@ == start + pairs_bytes(w@.take(i as int))->0,
        decreases w.len() - i,
    {
        let ghost next = w@.take(i + 2);
        assert(next.take(next.len() - 2) =~= w@.take(i as int));
        assert(next[next.len() - 2] == w@[i as int] && next[next.len() - 1] == w@[i + 1]);
        match (digit(w[i], 16), digit(w[i + 1], 16)) {
            (Some(h), Some(l)) => {
                out.push((16 * h + l) as u8);
                assert(out@ =~= start + pairs_bytes(next)->0);
            },
            _ => {
                proof {
                    if pairs_bytes(w@) is Some {
                        pairs_prefix(w@, i + 2);
                    }
                }
                return false;
            },
        }
        i = i + 2;
    }
    assert(w@.take(i as int) =~= w@);
    true
}

proof fn odd_is_no_pairs(w: Seq<u8>)
    requires
        w.len() % 2 == 1,
    ensures
        pairs_bytes(w) is None,
    decreases w.len(),
{
    if w.len() > 1 {
        odd_is_no_pairs(w.take(w.len() - 2));
    }
}

proof fn words_prefix(ws: Seq<Seq<u8>>, k: int)
    requires
        0 <= k <= ws.len(),
        words_bytes(ws) is Some,
    ensures
        words_bytes(ws.take(k)) is Some,
    decreases ws.len(),
{
    if k == ws.len() {
        assert(ws.take(k) =~= ws);
    } else {
        words_prefix(ws.drop_last(), k);
        assert(ws.drop_last().take(k) =~= ws.take(k));
    }
}

/// Parse hexadecimal byte pairs, in words or as one run; `None` on bad input or
/// when there are more than `cap` bytes.
pub fn parse_hex_bytes(s: &[u8], cap: usize) -> (r: Option<Vec<u8>>)
    ensures
        match hex_bytes(s@, cap as nat) {
            Some(b) => r matches Some(v) && v@ == b,
            None => r is None,
        },
{
    let ws = split_words(s);
    let ghost t = texts(ws@);
    let mut out: Vec<u8> = Vec::new();
    let mut i: usize = 0;
    assert(t.take(0) =~= Seq::<Seq<u8>>::empty());
    while i < ws.len()
        invariant
            i <= ws@.len(),
            t == texts(ws@),
            t == words_of(s@),
            words_bytes(t.take(i as int)) is Some,
            out@ == words_bytes(t.take(i as int))->0,
        decreases ws@.len() - i,
    {
        let ghost next = t.take(i + 1);
        assert(next.drop_last() =~= t.take(i as int));
        assert(next.last() == ws@[i as int]@);
        if !append_pairs(&mut out, ws[i].as_slice()) {
            proof {
                if words_bytes(t) is Some {
                    words_prefix(t, i + 1);
                }
            }
            return None;
        }
        i = i + 1;
    }
    assert(t.take(i as int) =~= t);
    if out.len() <= cap {
        Some(out)
    } else {
        None
    }
}

/// A word as it is typed: visible characters, at least one.
pub open spec fn good_word(w: Seq<u8>) -> bool {
    &&& w.len() > 0
    &&& forall|i: int| 0 <= i < w.len() ==> 33 <= #[trigger] w[i] <= 126
}

/// Words with a space between them.
pub open spec fn line_of(ws: Seq<Seq<u8>>) -> Seq<u8>
    decreases ws.len(),
{
    if ws.len() == 0 {
        Seq::empty()
    } else if ws.len() == 1 {
        ws[0]
    } else {
        ws[0] + seq![32u8] + line_of(ws.skip(1))
    }
}

proof fn space_at_behind(a: Seq<u8>, b: Seq<u8>, i: int)
    requires
        0 <= i,
    ensures
        space_at(a + b, a.len() + i) == space_at(b, i),
{
    let s = a + b;
    let k = a.len() as int;
    if i < b.len() {
        assert(s[k + i] == b[i]);
    }
    if i + 1 < b.len() {
        assert(s[k + i + 1] == b[i + 1]);
    }
    if i + 2 < b.len() {
        assert(s[k + i + 2] == b[i + 2]);
    }
}

proof fn past_spaces_behind(a: Seq<u8>, b: Seq<u8>, i: int)
    requires
        0 <= i <= b.len(),
    ensures
        past_spaces(a + b, a.len() + i) == a.len() + past_spaces(b, i),
    decreases b.len() - i,
{
    space_at_behind(a, b, i);
    if space_at(b, i) > 0 {
        past_spaces_behind(a, b, i + space_at(b, i));
    }
}

proof fn past_word_behind(a: Seq<u8>, b: Seq<u8>, i: int)
    requires
        0 <= i <= b.len(),
    ensures
        past_word(a + b, a.len() + i) == a.len() + past_word(b, i),
    decreases b.len() - i,
{
    space_at_behind(a, b, i);
    if i < b.len() && space_at(b, i) == 0 {
        past_word_behind(a, b, i + 1);
    }
}

proof fn words_behind(a: Seq<u8>, b: Seq<u8>, i: int)
    requires
        0 <= i <= b.len(),
    ensures
        words_from(a + b, a.len() + i) == words_from(b, i),
    decreases b.len() - i,
{
    past_spaces_behind(a, b, i);
    past_spaces_bounds(b, i);
    let x = past_spaces(b, i);
    past_word_behind(a, b, x);
    past_word_bounds(b, x);
    let y = past_word(b, x);
    if x < b.len() && y > x {
        assert((a + b).subrange(a.len() + x, a.len() + y) =~= b.subrange(x, y));
        words_behind(a, b, y);
    }
}

proof fn visible_is_no_space(s: Seq<u8>, i: int)
    requires
        0 <= i < s.len(),
        33 <= s[i] <= 126,
    ensures
        space_at(s, i) == 0,
{
}

proof fn past_visible(s: Seq<u8>, i: int, j: int)
    requires
        0 <= i <= j <= s.len(),
        forall|k: int| i <= k < j ==> 33 <= #[trigger] s[k] <= 126,
        j < s.len() ==> s[j] == 32,
    ensures
        past_word(s, i) == j,
    decreases j - i,
{
    if i < j {
        visible_is_no_space(s, i);
        past_visible(s, i + 1, j);
    }
}

/// A line comes apart into the words that it was made of: one word alone is that
/// word, and a word and a space before a line add that word in front.
pub proof fn lines_come_apart(w: Seq<u8>, rest: Seq<u8>)
    requires
        good_word(w),
    ensures
        words_of(w) == seq![w],
        words_of(w + seq![32u8] + rest) == seq![w] + words_of(rest),
        words_of(seq![32u8] + rest) == words_of(rest),
        words_of(Seq::empty()).len() == 0,
{
    let n = w.len() as int;
    visible_is_no_space(w, 0);
    past_visible(w, 0, n);
    assert(w.subrange(0, n) =~= w);
    assert(words_from(w, n).len() == 0);
    assert(words_of(w) =~= seq![w]);
    let a = w + seq![32u8];
    let s = a + rest;
    assert(s[0] == w[0]);
    visible_is_no_space(s, 0);
    assert forall|k: int| 0 <= k < n implies 33 <= #[trigger] s[k] <= 126 by {
        assert(s[k] == w[k]);
    }
    past_visible(s, 0, n);
    assert(s.subrange(0, n) =~= w);
    assert(s[n] == 32);
    assert(past_spaces(s, n) == past_spaces(s, n + 1));
    words_behind(a, rest, 0);
    past_spaces_behind(a, rest, 0);
    past_spaces_bounds(rest, 0);
    assert(words_from(s, n) =~= words_from(s, n + 1));
    let t = seq![32u8] + rest;
    assert(t[0] == 32);
    assert(past_spaces(t, 0) == past_spaces(t, 1));
    words_behind(seq![32u8], rest, 0);
    past_spaces_behind(seq![32u8], rest, 0);
    assert(words_from(t, 0) =~= words_from(t, 1));
}

/// A line of words comes apart into those words again.
pub proof fn words_survive_the_line(ws: Seq<Seq<u8>>)
    requires
        forall|i: int| 0 <= i < ws.len() ==> good_word(#[trigger] ws[i]),
    ensures
        words_of(line_of(ws)) == ws,
    decreases ws.len(),
{
    if ws.len() == 0 {
        assert(words_of(line_of(ws)) =~= ws);
    } else {
        let tail = ws.skip(1);
        lines_come_apart(ws[0], line_of(tail));
        if ws.len() == 1 {
            assert(words_of(line_of(ws)) =~= ws);
        } else {
            assert forall|i: int| 0 <= i < tail.len() implies good_word(#[trigger] tail[i]) by {
                assert(tail[i] == ws[i + 1]);
            }
            words_survive_the_line(tail);
            assert(words_of(line_of(ws)) =~= ws);
        }
    }
}

proof fn decimal_digits(n: nat)
    ensures
        digits_number(text::decimal(n), 10) == Some(n),
        text::decimal(n).len() > 0,
        good_word(text::decimal(n)),
        48 <= text::decimal(n)[0] <= 57,
    decreases n,
{
    let d = text::decimal(n);
    if n < 10 {
        assert(d.drop_last() =~= Seq::<u8>::empty());
        assert(digits_number(d.drop_last(), 10) == Some(0nat));
        assert(digit_value(d.last(), 10) == Some(n));
    } else {
        decimal_digits(n / 10);
        assert(d.drop_last() =~= text::decimal(n / 10));
        assert(digit_value(d.last(), 10) == Some(n % 10));
        assert forall|i: int| 0 <= i < d.len() implies 33 <= #[trigger] d[i] <= 126 by {
            if i < d.len() - 1 {
                assert(d[i] == text::decimal(n / 10)[i]);
            }
        }
    }
}

/// A number is read back as it was written in decimal, if it is in range; one
/// that is too large is refused.
pub proof fn decimals_are_read_back(n: nat, max: nat)
    ensures
        n <= max ==> number(text::decimal(n), 10, max) == Some(n),
        n > max ==> number(text::decimal(n), 10, max) is None,
        good_word(text::decimal(n)),
{
    decimal_digits(n);
}

proof fn hex_digits_add(s: Seq<u8>, n: nat, d: int)
    requires
        digits_number(s, 16) == Some(n),
        0 <= d < 16,
    ensures
        digits_number(s.push(text::hex_digit(d)), 16) == Some((16 * n + d) as nat),
        33 <= text::hex_digit(d) <= 126,
        text::hex_digit(d) != 43,
        digit_value(text::hex_digit(d), 16) == Some(d as nat),
{
    let t = s.push(text::hex_digit(d));
    assert(t.drop_last() =~= s);
    assert(n * 16 == 16 * n);
}

proof fn hex_pair_adds(s: Seq<u8>, n: nat, b: u8)
    requires
        digits_number(s, 16) == Some(n),
    ensures
        digits_number(s + text::hex2(b), 16) == Some((256 * n + b) as nat),
        good_word(text::hex2(b)),
        text::hex2(b)[0] != 43,
{
    let (h, l) = (b as int / 16, b as int % 16);
    hex_digits_add(s, n, h);
    hex_digits_add(s.push(text::hex_digit(h)), (16 * n + h) as nat, l);
    assert(s + text::hex2(b) =~= s.push(text::hex_digit(h)).push(text::hex_digit(l)));
}

/// A number is read back as it was written in two or eight hexadecimal digits.
pub proof fn hexadecimals_are_read_back(b: u8, n: u32)
    ensures
        number(text::hex2(b), 16, 255) == Some(b as nat),
        number(text::hex8(n), 16, 0xFFFF_FFFF) == Some(n as nat),
        good_word(text::hex2(b)),
        good_word(text::hex8(n)),
{
    let e = Seq::<u8>::empty();
    assert(digits_number(e, 16) == Some(0nat));
    hex_pair_adds(e, 0, b);
    assert(e + text::hex2(b) =~= text::hex2(b));
    let x = n as int;
    let (b0, b1) = ((n / 0x100_0000) as u8, (n / 0x1_0000 % 256) as u8);
    let (b2, b3) = ((n / 256 % 256) as u8, (n % 256) as u8);
    let s0 = e + text::hex2(b0);
    let s1 = s0 + text::hex2(b1);
    let s2 = s1 + text::hex2(b2);
    let s3 = s2 + text::hex2(b3);
    hex_pair_adds(e, 0, b0);
    hex_pair_adds(s0, b0 as nat, b1);
    hex_pair_adds(s1, (256 * b0 + b1) as nat, b2);
    hex_pair_adds(s2, (256 * (256 * b0 + b1) + b2) as nat, b3);
    assert(text::hex8(n) =~= s3);
    assert(256 * (256 * (256 * b0 + b1) + b2) + b3 == x);
    assert(s3[0] == text::hex2(b0)[0]);
    assert forall|i: int| 0 <= i < 8 implies 33 <= #[trigger] s3[i] <= 126 by {
        if i < 2 {
            assert(s3[i] == text::hex2(b0)[i]);
        } else if i < 4 {
            assert(s3[i] == text::hex2(b1)[i - 2]);
        } else if i < 6 {
            assert(s3[i] == text::hex2(b2)[i - 4]);
        } else {
            assert(s3[i] == text::hex2(b3)[i - 6]);
        }
    }
}

/// Bytes as a run of hexadecimal pairs.
pub open spec fn hexed(s: Seq<u8>) -> Seq<u8>
    decreases s.len(),
{
    if s.len() == 0 {
        Seq::empty()
    } else {
        hexed(s.drop_last()) + text::hex2(s.last())
    }
}

proof fn pairs_are_read_back(s: Seq<u8>)
    ensures
        pairs_bytes(hexed(s)) == Some(s),
        hexed(s).len() == 2 * s.len(),
        forall|i: int| 0 <= i < hexed(s).len() ==> 33 <= #[trigger] hexed(s)[i] <= 126,
    decreases s.len(),
{
    let w = hexed(s);
    if s.len() > 0 {
        let t = s.drop_last();
        let b = s.last();
        pairs_are_read_back(t);
        hex_digits_add(Seq::empty(), 0, b as int / 16);
        hex_digits_add(Seq::empty(), 0, b as int % 16);
        assert(w.take(w.len() - 2) =~= hexed(t));
        assert(w[w.len() - 2] == text::hex_digit(b as int / 16));
        assert(w[w.len() - 1] == text::hex_digit(b as int % 16));
        assert(t.push(b) =~= s);
        assert forall|i: int| 0 <= i < w.len() implies 33 <= #[trigger] w[i] <= 126 by {
            if i < w.len() - 2 {
                assert(w[i] == hexed(t)[i]);
            }
        }
    }
}

/// Bytes are read back as they were written in hexadecimal pairs, in one run or
/// in several with spaces between, as far as there is room for them.
pub proof fn hex_bytes_are_read_back(a: Seq<u8>, b: Seq<u8>, cap: nat)
    requires
        a.len() > 0,
    ensures
        hex_bytes(hexed(a), cap) == if a.len() <= cap {
            Some(a)
        } else {
            None
        },
        hex_bytes(hexed(a) + seq![32u8] + hexed(b), cap) == if a.len() + b.len() <= cap {
            Some(a + b)
        } else {
            None
        },
        good_word(hexed(a)),
{
    pairs_are_read_back(a);
    pairs_are_read_back(b);
    lines_come_apart(hexed(a), hexed(b));
    let one = seq![hexed(a)];
    assert(one.drop_last() =~= Seq::<Seq<u8>>::empty());
    assert(words_bytes(one.drop_last()) == Some(Seq::<u8>::empty()));
    assert(words_bytes(one) == Some(Seq::<u8>::empty() + a));
    assert(Seq::<u8>::empty() + a =~= a);
    if b.len() > 0 {
        lines_come_apart(hexed(b), Seq::empty());
        let two = one + seq![hexed(b)];
        assert(two.drop_last() =~= one);
        assert(words_bytes(two) == Some(a + b));
        assert(words_of(hexed(a) + seq![32u8] + hexed(b)) =~= two);
    } else {
        assert(hexed(b) =~= Seq::<u8>::empty());
        assert(words_of(hexed(a) + seq![32u8] + hexed(b)) =~= one);
        assert(a + b =~= a);
    }
}

/// A text without blanks around it: printable characters, the first and the last
/// of them visible.
pub open spec fn tidy(t: Seq<u8>) -> bool {
    &&& t.len() > 0
    &&& forall|i: int| 0 <= i < t.len() ==> 32 <= #[trigger] t[i] <= 126
    &&& t[0] != 32
    &&& t.last() != 32
}

proof fn text_is_found(s: Seq<u8>, p: Seq<u8>, i: int, at: int)
    requires
        0 <= i <= at,
        at + p.len() <= s.len(),
        s.subrange(at, at + p.len() as int) == p,
        p.len() > 0,
        forall|k: int| i <= k < at ==> s[k] != p[0],
    ensures
        find_text(s, p, i) == Some(at),
    decreases at - i,
{
    if i < at {
        assert(s.subrange(i, i + p.len() as int)[0] == s[i]);
        text_is_found(s, p, i + 1, at);
    }
}

/// The text behind a verb is handed on as it was typed, without the blank that
/// parts it from the verb.
pub proof fn free_text_is_kept(pre: Seq<u8>, verb: Seq<u8>, t: Seq<u8>)
    requires
        verb.len() > 0,
        forall|k: int| 0 <= k < pre.len() ==> pre[k] != verb[0],
        tidy(t),
    ensures
        rest_after(pre + verb + seq![32u8] + t, verb) == t,
        rest_after(pre + verb, verb).len() == 0,
{
    let gap = seq![32u8];
    let s = pre + verb + gap + t;
    let at = pre.len() as int;
    assert(s.subrange(at, at + verb.len() as int) =~= verb);
    assert forall|k: int| 0 <= k < at implies s[k] != verb[0] by {
        assert(s[k] == pre[k]);
    }
    text_is_found(s, verb, 0, at);
    let tail = s.skip(at + verb.len());
    assert(tail =~= gap + t);
    assert(tail[0] == 32 && tail[1] == t[0]);
    assert(space_at(tail, 0) == 1 && space_at(tail, 1) == 0);
    assert(past_spaces(tail, 1) == 1);
    assert(past_spaces(tail, 0) == 1);
    let u = tail.skip(1);
    assert(u =~= t);
    let n = t.len() as int;
    assert(space_at(t, n - 1) == 0 && space_at(t, n - 2) != 2 && space_at(t, n - 3) != 3);
    assert(trimmed_end(t, n) == n);
    assert(t.take(n) =~= t);
    let bare = pre + verb;
    assert(bare.subrange(at, at + verb.len() as int) =~= verb);
    assert forall|k: int| 0 <= k < at implies bare[k] != verb[0] by {
        assert(bare[k] == pre[k]);
    }
    text_is_found(bare, verb, 0, at);
    assert(bare.skip(at + verb.len()) =~= Seq::<u8>::empty());
}

/// A word ends at the blank behind it, and the text behind that begins at once.
pub proof fn names_end_at_the_blank(w: Seq<u8>, t: Seq<u8>)
    requires
        good_word(w),
        tidy(t),
    ensures
        ({
            let s = w + seq![32u8] + t;
            &&& past_word(s, 0) == w.len()
            &&& space_at(s, w.len() as int) == 1
            &&& past_spaces(t, 0) == 0
        }),
{
    let s = w + seq![32u8] + t;
    assert forall|k: int| 0 <= k < w.len() implies 33 <= #[trigger] s[k] <= 126 by {
        assert(s[k] == w[k]);
    }
    assert(s[w.len() as int] == 32);
    past_visible(s, 0, w.len() as int);
    assert(space_at(t, 0) == 0);
}

} // verus!
