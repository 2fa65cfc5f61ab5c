//! Framing of HTTP requests that arrive in pieces.

use crate::text::{self, starts_with, to_lower};
use vstd::prelude::*;
use vstd::slice::slice_subrange;

verus! {

/// Whether the four bytes at `i` are CR LF CR LF.
pub open spec fn blank_line(s: Seq<u8>, i: int) -> bool {
    &&& 0 <= i
    &&& i + 4 <= s.len()
    &&& s[i] == 13
    &&& s[i + 1] == 10
    &&& s[i + 2] == 13
    &&& s[i + 3] == 10
}

/// The offset just past the first blank line at or after `i`.
pub open spec fn end_of_headers(s: Seq<u8>, i: int) -> Option<int>
    decreases s.len() - i,
{
    if i + 4 > s.len() {
        None
    } else if blank_line(s, i) {
        Some(i + 4)
    } else {
        end_of_headers(s, i + 1)
    }
}

/// Index just past the blank line that ends the request headers, or `None`.
pub fn headers_end(buf: &[u8]) -> (r: Option<usize>)
    ensures
        match end_of_headers(buf@, 0) {
            Some(h) => 4 <= h <= buf.len() && r == Some(h as usize),
            None => r is None,
        },
{
    let mut i: usize = 0;
    while buf.len() >= 4 && i <= buf.len() - 4
        invariant
            i <= buf@.len(),
            end_of_headers(buf@, 0) == end_of_headers(buf@, i as int),
        decreases buf@.len() - i,
    {
        if buf[i] == 13 && buf[i + 1] == 10 && buf[i + 2] == 13 && buf[i + 3] == 10 {
            return Some(i + 4);
        }
        i = i + 1;
    }
    None
}

/// Whether `name` stands at `i` in `h`, letters compared without case.
pub open spec fn header_at(h: Seq<u8>, i: int, name: Seq<u8>) -> bool {
    &&& 0 <= i
    &&& i + name.len() <= h.len()
    &&& forall|j: int| 0 <= j < name.len() ==> text::lower(#[trigger] h[i + j]) == name[j]
}

/// The first place at or after `i` where `name` stands in `h`.
pub open spec fn find_header(h: Seq<u8>, i: int, name: Seq<u8>) -> Option<int>
    decreases h.len() - i,
{
    if i + name.len() > h.len() || i > h.len() {
        None
    } else if header_at(h, i, name) {
        Some(i)
    } else {
        find_header(h, i + 1, name)
    }
}

/// The first offset at or after `k` that holds no space.
pub open spec fn skip_spaces(h: Seq<u8>, k: int) -> int
    decreases h.len() - k,
{
    if 0 <= k < h.len() && h[k] == 32 {
        skip_spaces(h, k + 1)
    } else {
        k
    }
}

/// The value of the decimal digits at `k`, continuing a number that is `acc` so
/// far.
pub open spec fn digits_value(h: Seq<u8>, k: int, acc: nat) -> nat
    decreases h.len() - k,
{
    if 0 <= k < h.len() && 48 <= h[k] <= 57 {
        digits_value(h, k + 1, (10 * acc + (h[k] - 48)) as nat)
    } else {
        acc
    }
}

/// The value of the first `Content-Length:` in a header block, or 0.
pub open spec fn content_value(h: Seq<u8>) -> nat {
    let name = text::lit("content-length:");
    match find_header(h, 0, name) {
        Some(i) => digits_value(h, skip_spaces(h, i + name.len()), 0),
        None => 0,
    }
}

/// Whether all of `h` is the beginning of `name`.
pub open spec fn cut_short(h: Seq<u8>, name: Seq<u8>) -> bool {
    &&& h.len() < name.len()
    &&& forall|j: int| 0 <= j < h.len() ==> text::lower(#[trigger] h[j]) == name[j]
}

fn is_header_at(h: &[u8], i: usize, name: &[u8]) -> (r: bool)
    requires
        i + name.len() <= h.len(),
    ensures
        r == header_at(h@, i as int, name@),
{
    let mut j: usize = 0;
    while j < name.len()
        invariant
            j <= name.len(),
            i + name.len() <= h.len(),
            forall|k: int| 0 <= k < j ==> text::lower(#[trigger] h@[i + k]) == name@[k],
        decreases name@.len() - j,
    {
        if to_lower(h[i + j]) != name[j] {
            assert(text::lower(h@[i + j as int]) != name@[j as int]);
            return false;
        }
        j = j + 1;
    }
    true
}

proof fn digits_only_grow(h: Seq<u8>, k: int, acc: nat)
    ensures
        acc <= digits_value(h, k, acc),
    decreases h.len() - k,
{
    if 0 <= k < h.len() && 48 <= h[k] <= 57 {
        digits_only_grow(h, k + 1, (10 * acc + (h[k] - 48)) as nat);
    }
}

fn read_number(h: &[u8], start: usize) -> (r: Option<usize>)
    requires
        start <= h@.len(),
    ensures
        r is Some <==> digits_value(h@, skip_spaces(h@, start as int), 0) <= usize::MAX,
        r matches Some(n) ==> n == digits_value(h@, skip_spaces(h@, start as int), 0),
{
    let mut k: usize = start;
    while k < h.len() && h[k] == 32
        invariant
            k <= h@.len(),
            skip_spaces(h@, start as int) == skip_spaces(h@, k as int),
        decreases h@.len() - k,
    {
        k = k + 1;
    }
    let ghost all = digits_value(h@, k as int, 0);
    let mut n: usize = 0;
    while k < h.len() && 48 <= h[k] && h[k] <= 57
        invariant
            k <= h@.len(),
            all == digits_value(h@, skip_spaces(h@, start as int), 0),
            all == digits_value(h@, k as int, n as nat),
        decreases h@.len() - k,
    {
        let d: usize = (h[k] - 48) as usize;
        proof {
            digits_only_grow(h@, k + 1, (10 * n + d) as nat);
        }
        if n > (usize::MAX - d) / 10 {
            return None;
        }
        n = n * 10 + d;
        k = k + 1;
    }
    Some(n)
}

/// Find `Content-Length:` in the header block and read its value; `None` for
/// one that a length cannot hold.
fn announced(hdrs: &[u8]) -> (r: Option<usize>)
    ensures
        r is Some <==> content_value(hdrs@) <= usize::MAX,
        r matches Some(n) ==> n == content_value(hdrs@),
{
    let needle = "content-length:".as_bytes();
    if hdrs.len() < needle.len() {
        return Some(0);
    }
    let last: usize = hdrs.len() - needle.len();
    let mut i: usize = 0;
    while i <= last
        invariant
            needle@ == text::lit("content-length:"),
            last + needle.len() == hdrs.len(),
            i <= last + 1,
            find_header(hdrs@, 0, needle@) == find_header(hdrs@, i as int, needle@),
        decreases last + 1 - i,
    {
        if is_header_at(hdrs, i, needle) {
            return read_number(hdrs, i + needle.len());
        }
        if i == last {
            assert(find_header(hdrs@, i + 1, needle@) is None);
            return Some(0);
        }
        i = i + 1;
    }
    Some(0)
}

/// Find `Content-Length:` in the header block, letters compared without case,
/// and read its value; 0 when there is none.
pub fn content_length(hdrs: &[u8]) -> (r: usize)
    requires
        !cut_short(hdrs@, text::lit("content-length:")),
        content_value(hdrs@) <= usize::MAX,
    ensures
        r == content_value(hdrs@),
{
    match announced(hdrs) {
        Some(n) => n,
        None => {
            assert(false);
            0
        },
    }
}

/// The length of the request at the front of `data`, once all of it is there.
pub open spec fn request_len(data: Seq<u8>) -> Option<int> {
    match end_of_headers(data, 0) {
        None => None,
        Some(h) => if text::begins(data, text::lit("POST ")) {
            let total = h + content_value(data.take(h));
            if total <= data.len() {
                Some(total)
            } else {
                None
            }
        } else {
            Some(h)
        },
    }
}

proof fn end_of_headers_found(s: Seq<u8>, i: int)
    requires
        0 <= i,
    ensures
        match end_of_headers(s, i) {
            Some(h) => i + 4 <= h <= s.len() && blank_line(s, h - 4) && forall|j: int|
                i <= j < h - 4 ==> !blank_line(s, j),
            None => forall|j: int| i <= j ==> !blank_line(s, j),
        },
    decreases s.len() - i,
{
    if i + 4 <= s.len() && !blank_line(s, i) {
        end_of_headers_found(s, i + 1);
    }
}

/// If `data` holds a complete HTTP request, its total length; otherwise `None`,
/// so that the caller waits for more.
pub fn http_request_len(data: &[u8]) -> (r: Option<usize>)
    ensures
        match request_len(data@) {
            Some(n) => n <= data.len() && r == Some(n as usize),
            None => r is None,
        },
{
    let hdr_end: usize = match headers_end(data) {
        None => return None,
        Some(h) => h,
    };
    if starts_with(data, "POST ".as_bytes()) {
        let head = slice_subrange(data, 0, hdr_end);
        assert(head@ == data@.take(hdr_end as int));
        match announced(head) {
            Some(n) => if n <= data.len() - hdr_end {
                Some(hdr_end + n)
            } else {
                None
            },
            None => None,
        }
    } else {
        Some(hdr_end)
    }
}

/// A request is never longer than the data that it was found in, and its
/// headers are complete.
pub proof fn request_is_within_data(data: Seq<u8>)
    requires
        request_len(data) is Some,
    ensures
        4 <= request_len(data)->0 <= data.len(),
        end_of_headers(data, 0) is Some,
{
    end_of_headers_found(data, 0);
}

proof fn end_of_headers_stable(s: Seq<u8>, more: Seq<u8>, i: int)
    requires
        0 <= i,
        end_of_headers(s, i) is Some,
    ensures
        end_of_headers(s + more, i) == end_of_headers(s, i),
    decreases s.len() - i,
{
    if blank_line(s, i) {
        assert(blank_line(s + more, i));
    } else {
        assert(!blank_line(s + more, i));
        end_of_headers_stable(s, more, i + 1);
    }
}

/// Where the headers end does not depend on what follows them.
pub proof fn headers_end_once(head: Seq<u8>, body: Seq<u8>)
    requires
        end_of_headers(head, 0) is Some,
    ensures
        end_of_headers(head + body, 0) == end_of_headers(head, 0),
{
    end_of_headers_stable(head, body, 0);
}

/// The headers end just past their first blank line: nothing before it is one.
pub proof fn headers_end_at_the_first_blank_line(s: Seq<u8>)
    ensures
        match end_of_headers(s, 0) {
            Some(h) => 4 <= h <= s.len() && s.subrange(h - 4, h) == [13u8, 10, 13, 10]@
                && forall|j: int| 0 <= j < h - 4 ==> #[trigger] s.subrange(j, j + 4) != [
                13u8,
                10,
                13,
                10,
            ]@,
            None => forall|j: int|
                0 <= j <= s.len() - 4 ==> #[trigger] s.subrange(j, j + 4) != [13u8, 10, 13, 10]@,
        },
{
    end_of_headers_found(s, 0);
    assert forall|j: int| 0 <= j <= s.len() - 4 implies (#[trigger] s.subrange(j, j + 4) == [
        13u8,
        10,
        13,
        10,
    ]@) == blank_line(s, j) by {
        let t = s.subrange(j, j + 4);
        assert(t[0] == s[j] && t[1] == s[j + 1] && t[2] == s[j + 2] && t[3] == s[j + 3]);
        if blank_line(s, j) {
            assert(t =~= [13u8, 10, 13, 10]@);
        }
    }
    if let Some(h) = end_of_headers(s, 0) {
        assert(blank_line(s, h - 4));
        assert(s.subrange(h - 4, h - 4 + 4) == [13u8, 10, 13, 10]@);
        assert forall|j: int| 0 <= j < h - 4 implies #[trigger] s.subrange(j, j + 4) != [
            13u8,
            10,
            13,
            10,
        ]@ by {
            assert(!blank_line(s, j));
        }
    }
}

proof fn number_from(pre: Seq<u8>, n: nat, rest: Seq<u8>)
    ensures
        digits_value(pre + text::decimal(n) + rest, pre.len() as int, 0) == digits_value(
            pre + text::decimal(n) + rest,
            (pre.len() + text::decimal(n).len()) as int,
            n,
        ),
    decreases n,
{
    let d = text::decimal(n);
    let h = pre + d + rest;
    if n < 10 {
        assert(h[pre.len() as int] == 48 + n);
    } else {
        let last = seq![(48 + n % 10) as u8];
        assert(d =~= text::decimal(n / 10) + last);
        assert(h =~= pre + text::decimal(n / 10) + (last + rest));
        number_from(pre, n / 10, last + rest);
        let at = (pre.len() + text::decimal(n / 10).len()) as int;
        assert(h[at] == 48 + n % 10);
    }
}

/// A length is read as it was written: behind any spaces, in decimal, up to the
/// first byte that is no digit.
pub proof fn lengths_are_read_as_written(pre: Seq<u8>, k: nat, n: nat, rest: Seq<u8>)
    requires
        rest.len() == 0 || !(48 <= rest[0] <= 57),
    ensures
        ({
            let h = pre + Seq::new(k, |i: int| 32u8) + text::decimal(n) + rest;
            digits_value(h, skip_spaces(h, pre.len() as int), 0) == n
        }),
{
    let gap = Seq::new(k, |i: int| 32u8);
    let h = pre + gap + text::decimal(n) + rest;
    decimal_begins(n);
    assert(h[(pre.len() + k) as int] == text::decimal(n)[0]);
    spaces_are_skipped(h, pre.len() as int, (pre.len() + k) as int);
    number_from(pre + gap, n, rest);
}

proof fn decimal_begins(n: nat)
    ensures
        text::decimal(n).len() > 0,
        48 <= text::decimal(n)[0] <= 57,
    decreases n,
{
    if n >= 10 {
        decimal_begins(n / 10);
    }
}

proof fn spaces_are_skipped(h: Seq<u8>, i: int, j: int)
    requires
        0 <= i <= j < h.len(),
        forall|k: int| i <= k < j ==> h[k] == 32,
        h[j] != 32,
    ensures
        skip_spaces(h, i) == j,
    decreases j - i,
{
    if i < j {
        spaces_are_skipped(h, i + 1, j);
    }
}

/// Once a request is complete, bytes that arrive behind it do not change where
/// it ends.
pub proof fn request_framing_is_stable(data: Seq<u8>, more: Seq<u8>)
    requires
        request_len(data) is Some,
    ensures
        request_len(data + more) == request_len(data),
{
    end_of_headers_found(data, 0);
    end_of_headers_stable(data, more, 0);
    let h = end_of_headers(data, 0)->0;
    assert((data + more).take(h) =~= data.take(h));
    let post = text::lit("POST ");
    reveal_strlit("POST ");
    vstd::utf8::is_ascii_chars_encode_utf8("POST "@);
    if text::begins(data, post) {
        assert((data + more).take(post.len() as int) =~= data.take(post.len() as int));
    } else if post.len() <= data.len() {
        assert((data + more).take(post.len() as int) =~= data.take(post.len() as int));
    } else {
        assert(data.len() == 4 && h == 4);
        assert(data[0] == 13);
        if text::begins(data + more, post) {
            assert((data + more).take(post.len() as int)[0] == post[0]);
            assert(post[0] == 'P' as u8);
        }
    }
}

proof fn header_is_found(h: Seq<u8>, i: int, at: int, name: Seq<u8>)
    requires
        0 <= i <= at,
        header_at(h, at, name),
        forall|j: int| i <= j < at ==> !header_at(h, j, name),
    ensures
        find_header(h, i, name) == Some(at),
    decreases at - i,
{
    if i < at {
        header_is_found(h, i + 1, at, name);
    }
}

/// The announced length is the number behind the first `Content-Length:`, in
/// whatever case that is written and wherever it stands among the headers.
pub proof fn the_announced_length_is_found(
    pre: Seq<u8>,
    name: Seq<u8>,
    k: nat,
    n: nat,
    rest: Seq<u8>,
)
    requires
        header_at(name, 0, text::lit("content-length:")),
        name.len() == text::lit("content-length:").len(),
        rest.len() == 0 || !(48 <= rest[0] <= 57),
        ({
            let h = pre + name + Seq::new(k, |i: int| 32u8) + text::decimal(n) + rest;
            forall|j: int| 0 <= j < pre.len() ==> !header_at(h, j, text::lit("content-length:"))
        }),
    ensures
        content_value(pre + name + Seq::new(k, |i: int| 32u8) + text::decimal(n) + rest) == n,
{
    let want = text::lit("content-length:");
    let gap = Seq::new(k, |i: int| 32u8);
    let h = pre + name + gap + text::decimal(n) + rest;
    let at = pre.len() as int;
    assert(header_at(h, at, want)) by {
        assert forall|j: int| 0 <= j < want.len() implies text::lower(#[trigger] h[at + j])
            == want[j] by {
            assert(h[at + j] == name[0 + j]);
        }
    }
    header_is_found(h, 0, at, want);
    lengths_are_read_as_written(pre + name, k, n, rest);
}

/// A request that submits is complete once as many bytes have come behind its
/// headers as they announce, and ends there; any other request ends with its
/// headers.
pub proof fn requests_end_where_they_say(head: Seq<u8>, body: Seq<u8>)
    requires
        end_of_headers(head, 0) == Some(head.len() as int),
        head.len() >= 5,
    ensures
        text::begins(head, text::lit("POST ")) ==> request_len(head + body) == if content_value(
            head,
        ) <= body.len() {
            Some((head.len() + content_value(head)) as int)
        } else {
            None
        },
        !text::begins(head, text::lit("POST ")) ==> request_len(head + body) == Some(
            head.len() as int,
        ),
{
    headers_end_once(head, body);
    let all = head + body;
    assert(all.take(head.len() as int) =~= head);
    reveal_strlit("POST ");
    vstd::utf8::is_ascii_chars_encode_utf8("POST "@);
    assert(all.take(5) =~= head.take(5));
}

} // verus!
