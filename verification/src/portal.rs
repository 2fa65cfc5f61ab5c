//! The captive portal: URL-encoded forms, the credentials that they carry, the
//! pages served, and the sorting of received frames.

use crate::dhcp::{self, is_dhcp_request};
use crate::http::{self, headers_end};
use crate::text::{self, append, append_str, copy_into, same, starts_with};
use crate::words::{self, pack, unpack};
use vstd::prelude::*;
use vstd::slice::slice_subrange;

verus! {

/// The value of a hexadecimal digit; 0 for any other byte.
pub open spec fn hex_value(c: u8) -> int {
    if 48 <= c <= 57 {
        c - 48
    } else if 97 <= c <= 102 {
        c - 87
    } else if 65 <= c <= 70 {
        c - 55
    } else {
        0
    }
}

/// The value of a hexadecimal digit; 0 for any other byte.
pub fn hexval(c: u8) -> (r: u8)
    ensures
        r == hex_value(c),
        r < 16,
{
    if 48 <= c && c <= 57 {
        c - 48
    } else if 97 <= c && c <= 102 {
        c - 87
    } else if 65 <= c && c <= 70 {
        c - 55
    } else {
        0
    }
}

/// Number of bytes of `src` that the decoded byte at `i` stands for: three for
/// an escape that is complete, else one.
pub open spec fn escape_len(src: Seq<u8>, i: int) -> int {
    if src[i] == 37 && i + 2 < src.len() {
        3
    } else {
        1
    }
}

/// The decoded byte at `i`: a space for `+`, the escaped byte for `%XX`, any
/// other byte as it is.
pub open spec fn decoded_byte(src: Seq<u8>, i: int) -> u8 {
    if src[i] == 43 {
        32
    } else if src[i] == 37 && i + 2 < src.len() {
        (16 * hex_value(src[i + 1]) + hex_value(src[i + 2])) as u8
    } else {
        src[i]
    }
}

/// `src` from byte `i` on, URL-decoded, cut to `room` bytes.
pub open spec fn decoded(src: Seq<u8>, i: int, room: nat) -> Seq<u8>
    decreases room,
{
    if room == 0 || i < 0 || i >= src.len() {
        Seq::empty()
    } else {
        seq![decoded_byte(src, i)] + decoded(src, i + escape_len(src, i), (room - 1) as nat)
    }
}

/// URL-decode `src` into `dst` (`+` to a space, `%XX` to a byte) until either
/// runs out; returns the number of bytes written.
pub fn urldecode(src: &[u8], dst: &mut [u8]) -> (n: usize)
    ensures
        n == decoded(src@, 0, old(dst)@.len()).len(),
        final(dst)@ == decoded(src@, 0, old(dst)@.len()) + old(dst)@.skip(n as int),
{
    let ghost before = dst@;
    let ghost whole = decoded(src@, 0, before.len());
    let mut n: usize = 0;
    let mut i: usize = 0;
    while i < src.len() && n < dst.len()
        invariant
            i <= src@.len(),
            n <= before.len(),
            dst@.len() == before.len(),
            whole == dst@.take(n as int) + decoded(src@, i as int, (before.len() - n) as nat),
            forall|k: int| n <= k < before.len() ==> dst@[k] == before[k],
        decreases src@.len() - i,
    {
        let ghost done = dst@.take(n as int);
        let ghost here = i as int;
        let c: u8 = src[i];
        if c == 43 {
            dst[n] = 32;
            i = i + 1;
        } else if c == 37 && src.len() - i > 2 {
            dst[n] = 16 * hexval(src[i + 1]) + hexval(src[i + 2]);
            i = i + 3;
        } else {
            dst[n] = c;
            i = i + 1;
        }
        n = n + 1;
        assert(dst@.take(n as int) =~= done + seq![decoded_byte(src@, here)]);
        assert(whole =~= dst@.take(n as int) + decoded(
            src@,
            i as int,
            (before.len() - n) as nat,
        ));
    }
    assert(decoded(src@, i as int, (before.len() - n) as nat) =~= Seq::empty());
    assert(whole =~= dst@.take(n as int));
    assert(dst@ =~= whole + before.skip(n as int));
    n
}

/// Decoding yields no more than `room` bytes and no more than were given.
pub proof fn decoded_is_no_longer(src: Seq<u8>, i: int, room: nat)
    requires
        0 <= i,
    ensures
        decoded(src, i, room).len() <= room,
        i <= src.len() ==> decoded(src, i, room).len() <= src.len() - i,
    decreases room,
{
    if room > 0 && i < src.len() {
        decoded_is_no_longer(src, i + escape_len(src, i), (room - 1) as nat);
    }
}

/// Text without `+` and `%` decodes to itself, cut to `room` bytes.
pub proof fn plain_text_decodes_to_itself(src: Seq<u8>, i: int, room: nat)
    requires
        0 <= i <= src.len(),
        forall|k: int| i <= k < src.len() ==> src[k] != 43 && src[k] != 37,
    ensures
        decoded(src, i, room) == src.skip(i).take(
            if room <= src.len() - i {
                room as int
            } else {
                src.len() - i
            },
        ),
    decreases room,
{
    if room > 0 && i < src.len() {
        plain_text_decodes_to_itself(src, i + 1, (room - 1) as nat);
        let cut = if room <= src.len() - i {
            room as int
        } else {
            src.len() - i
        };
        assert(decoded(src, i, room) =~= src.skip(i).take(cut));
    } else {
        assert(decoded(src, i, room) =~= src.skip(i).take(0));
    }
}

/// Every byte written as an escape with two lower-case digits.
pub open spec fn escaped(s: Seq<u8>) -> Seq<u8>
    decreases s.len(),
{
    if s.len() == 0 {
        Seq::empty()
    } else {
        escaped(s.drop_last()) + [37u8]@ + text::hex2(s.last())
    }
}

proof fn escaped_len(s: Seq<u8>)
    ensures
        escaped(s).len() == 3 * s.len(),
    decreases s.len(),
{
    if s.len() > 0 {
        escaped_len(s.drop_last());
    }
}

proof fn escaped_at(s: Seq<u8>, k: int)
    requires
        0 <= k < s.len(),
    ensures
        escaped(s).len() == 3 * s.len(),
        escaped(s)[3 * k] == 37,
        escaped(s)[3 * k + 1] == text::hex_digit(s[k] as int / 16),
        escaped(s)[3 * k + 2] == text::hex_digit(s[k] as int % 16),
    decreases s.len(),
{
    escaped_len(s);
    escaped_len(s.drop_last());
    if k < s.len() - 1 {
        escaped_at(s.drop_last(), k);
    }
}

proof fn escaped_decodes_from(s: Seq<u8>, k: int, room: nat)
    requires
        0 <= k <= s.len(),
        room >= s.len() - k,
    ensures
        decoded(escaped(s), 3 * k, room) == s.skip(k),
    decreases s.len() - k,
{
    escaped_len(s);
    if k < s.len() {
        escaped_at(s, k);
        escaped_decodes_from(s, k + 1, (room - 1) as nat);
        let e = escaped(s);
        assert(hex_value(text::hex_digit(s[k] as int / 16)) == s[k] as int / 16);
        assert(hex_value(text::hex_digit(s[k] as int % 16)) == s[k] as int % 16);
        assert(decoded_byte(e, 3 * k) == s[k]);
        assert(decoded(e, 3 * k, room) =~= s.skip(k));
    } else {
        assert(decoded(escaped(s), 3 * k, room) =~= s.skip(k));
    }
}

/// Decoding undoes escaping, for any bytes that fit.
pub proof fn escape_then_decode(s: Seq<u8>, room: nat)
    requires
        s.len() <= room,
    ensures
        decoded(escaped(s), 0, room) == s,
{
    escaped_decodes_from(s, 0, room);
    assert(s.skip(0) =~= s);
}

/// Credentials parsed out of a URL-encoded POST body.
pub struct ParsedCreds {
    pub ssid: [u8; 32],
    pub ssid_len: usize,
    pub pass: [u8; 64],
    pub pass_len: usize,
}

/// The state of the credential parser between two fields: both buffers, the
/// length of the value in each, and whether an `ssid` field was seen.
pub struct Fields {
    pub ssid: Seq<u8>,
    pub ssid_len: nat,
    pub pass: Seq<u8>,
    pub pass_len: nat,
    pub got: bool,
}

/// The first offset at or after `i` that holds `b`, or the length of `s`.
pub open spec fn find_byte(s: Seq<u8>, b: u8, i: int) -> int
    decreases s.len() - i,
{
    if i < 0 || i >= s.len() {
        s.len() as int
    } else if s[i] == b {
        i
    } else {
        find_byte(s, b, i + 1)
    }
}

/// The parser's state after the field `f`.
pub open spec fn with_field(st: Fields, f: Seq<u8>) -> Fields {
    let eq = find_byte(f, 61, 0);
    if eq >= f.len() {
        st
    } else if f.take(eq) == text::lit("ssid") {
        let v = decoded(f.skip(eq + 1), 0, 32);
        Fields { ssid: v + st.ssid.skip(v.len() as int), ssid_len: v.len(), got: true, ..st }
    } else if f.take(eq) == text::lit("password") {
        let v = decoded(f.skip(eq + 1), 0, 64);
        Fields { pass: v + st.pass.skip(v.len() as int), pass_len: v.len(), ..st }
    } else {
        st
    }
}

/// The parser's state after every `&`-separated field of `body` from `i` on.
pub open spec fn fields_from(body: Seq<u8>, i: int, st: Fields) -> Fields
    decreases body.len() - i,
{
    let end = find_byte(body, 38, i);
    if i < 0 || i > body.len() || end < i {
        st
    } else {
        let next = with_field(st, body.subrange(i, end));
        if end < body.len() {
            fields_from(body, end + 1, next)
        } else {
            next
        }
    }
}

/// The parser's state after a whole body.
pub open spec fn fields_of(body: Seq<u8>) -> Fields {
    fields_from(
        body,
        0,
        Fields {
            ssid: text::zeros(32),
            ssid_len: 0,
            pass: text::zeros(64),
            pass_len: 0,
            got: false,
        },
    )
}

impl ParsedCreds {
    /// The parser state that these credentials show.
    pub open spec fn fields(&self, got: bool) -> Fields {
        Fields {
            ssid: self.ssid@,
            ssid_len: self.ssid_len as nat,
            pass: self.pass@,
            pass_len: self.pass_len as nat,
            got,
        }
    }
}

proof fn find_byte_bounds(s: Seq<u8>, b: u8, i: int)
    requires
        0 <= i <= s.len(),
    ensures
        i <= find_byte(s, b, i) <= s.len(),
        find_byte(s, b, i) < s.len() ==> s[find_byte(s, b, i)] == b,
    decreases s.len() - i,
{
    if i < s.len() && s[i] != b {
        find_byte_bounds(s, b, i + 1);
    }
}

/// The first offset at or after `start` that holds `b`, or the length of `s`.
pub fn position_from(s: &[u8], b: u8, start: usize) -> (r: usize)
    requires
        start <= s@.len(),
    ensures
        r == find_byte(s@, b, start as int),
        start <= r <= s.len(),
{
    let mut i: usize = start;
    while i < s.len()
        invariant
            start <= i <= s.len(),
            find_byte(s@, b, start as int) == find_byte(s@, b, i as int),
        decreases s@.len() - i,
    {
        if s[i] == b {
            return i;
        }
        i = i + 1;
    }
    i
}

fn take_field(c: &mut ParsedCreds, got: bool, f: &[u8]) -> (r: bool)
    ensures
        final(c).fields(r) == with_field(old(c).fields(got), f@),
        old(c).ssid_len <= 32 && old(c).pass_len <= 64 ==> final(c).ssid_len <= 32
            && final(c).pass_len <= 64,
{
    let eq: usize = position_from(f, 61, 0);
    if eq >= f.len() {
        return got;
    }
    let name = slice_subrange(f, 0, eq);
    assert(name@ == f@.take(eq as int));
    let value = slice_subrange(f, eq + 1, f.len());
    assert(value@ == f@.skip(eq + 1));
    if same(name, "ssid".as_bytes()) {
        c.ssid_len = urldecode(value, &mut c.ssid);
        proof {
            decoded_is_no_longer(value@, 0, 32);
        }
        true
    } else if same(name, "password".as_bytes()) {
        c.pass_len = urldecode(value, &mut c.pass);
        proof {
            decoded_is_no_longer(value@, 0, 64);
        }
        got
    } else {
        got
    }
}

/// Parse a URL-encoded POST body for `ssid` and `password`, decoding each
/// value. Returns `None` when the body carries no `ssid` field.
pub fn parse_creds(body: &[u8]) -> (r: Option<ParsedCreds>)
    ensures
        match r {
            Some(c) => {
                &&& fields_of(body@).got
                &&& c.fields(true) == fields_of(body@)
                &&& c.ssid_len <= 32
                &&& c.pass_len <= 64
            },
            None => !fields_of(body@).got,
        },
{
    let mut c = ParsedCreds { ssid: [0;32], ssid_len: 0, pass: [0;64], pass_len: 0 };
    let mut got: bool = false;
    assert(c.ssid@ =~= text::zeros(32));
    assert(c.pass@ =~= text::zeros(64));
    let mut i: usize = 0;
    let mut more: bool = true;
    while more
        invariant
            i <= body@.len(),
            c.ssid_len <= 32,
            c.pass_len <= 64,
            more ==> fields_of(body@) == fields_from(body@, i as int, c.fields(got)),
            !more ==> fields_of(body@) == c.fields(got),
        decreases body@.len() - i + (if more { 1int } else { 0int }),
    {
        let end: usize = position_from(body, 38, i);
        let f = slice_subrange(body, i, end);
        got = take_field(&mut c, got, f);
        if end < body.len() {
            i = end + 1;
        } else {
            more = false;
        }
    }
    if got {
        Some(c)
    } else {
        None
    }
}

/// The value of the last field called `name`, if any.
pub open spec fn last_value(body: Seq<u8>, i: int, name: Seq<u8>, acc: Option<Seq<u8>>) -> Option<
    Seq<u8>,
>
    decreases body.len() - i,
{
    let end = find_byte(body, 38, i);
    if i < 0 || i > body.len() || end < i {
        acc
    } else {
        let f = body.subrange(i, end);
        let eq = find_byte(f, 61, 0);
        let next = if eq < f.len() && f.take(eq) == name {
            Some(f.skip(eq + 1))
        } else {
            acc
        };
        if end < body.len() {
            last_value(body, end + 1, name, next)
        } else {
            next
        }
    }
}

/// What a buffer shows when `v` is the value of the last field.
pub open spec fn shows(buf: Seq<u8>, len: nat, v: Option<Seq<u8>>, size: nat) -> bool {
    &&& buf.len() == size
    &&& match v {
        Some(v) => len == decoded(v, 0, size).len() && buf.take(len as int) == decoded(v, 0, size),
        None => len == 0,
    }
}

proof fn last_fields_show(body: Seq<u8>, i: int, st: Fields, s: Option<Seq<u8>>, p: Option<Seq<u8>>)
    requires
        0 <= i <= body.len(),
        shows(st.ssid, st.ssid_len, s, 32),
        shows(st.pass, st.pass_len, p, 64),
        st.got == s is Some,
    ensures
        ({
            let end = fields_from(body, i, st);
            let ls = last_value(body, i, text::lit("ssid"), s);
            let lp = last_value(body, i, text::lit("password"), p);
            &&& shows(end.ssid, end.ssid_len, ls, 32)
            &&& shows(end.pass, end.pass_len, lp, 64)
            &&& end.got == ls is Some
        }),
    decreases body.len() - i,
{
    find_byte_bounds(body, 38, i);
    let end = find_byte(body, 38, i);
    let f = body.subrange(i, end);
    let eq = find_byte(f, 61, 0);
    find_byte_bounds(f, 61, 0);
    let next = with_field(st, f);
    reveal_strlit("ssid");
    reveal_strlit("password");
    vstd::utf8::is_ascii_chars_encode_utf8("ssid"@);
    vstd::utf8::is_ascii_chars_encode_utf8("password"@);
    assert(text::lit("ssid").len() != text::lit("password").len());
    let ns = if eq < f.len() && f.take(eq) == text::lit("ssid") {
        Some(f.skip(eq + 1))
    } else {
        s
    };
    let np = if eq < f.len() && f.take(eq) == text::lit("password") {
        Some(f.skip(eq + 1))
    } else {
        p
    };
    if eq < f.len() {
        let v = decoded(f.skip(eq + 1), 0, 32);
        let w = decoded(f.skip(eq + 1), 0, 64);
        decoded_is_no_longer(f.skip(eq + 1), 0, 32);
        decoded_is_no_longer(f.skip(eq + 1), 0, 64);
        assert((v + st.ssid.skip(v.len() as int)).take(v.len() as int) =~= v);
        assert((w + st.pass.skip(w.len() as int)).take(w.len() as int) =~= w);
    }
    assert(shows(next.ssid, next.ssid_len, ns, 32));
    assert(shows(next.pass, next.pass_len, np, 64));
    if end < body.len() {
        last_fields_show(body, end + 1, next, ns, np);
    }
}

/// A parsed network name is the decoded value of the body's last `ssid` field,
/// and a parsed password that of its last `password` field (empty without one);
/// a body without an `ssid` field gives no credentials.
pub proof fn creds_are_the_last_fields(body: Seq<u8>)
    ensures
        ({
            let end = fields_of(body);
            let ls = last_value(body, 0, text::lit("ssid"), None);
            let lp = last_value(body, 0, text::lit("password"), None);
            &&& shows(end.ssid, end.ssid_len, ls, 32)
            &&& shows(end.pass, end.pass_len, lp, 64)
            &&& end.got == ls is Some
        }),
{
    last_fields_show(
        body,
        0,
        Fields {
            ssid: text::zeros(32),
            ssid_len: 0,
            pass: text::zeros(64),
            pass_len: 0,
            got: false,
        },
        None,
        None,
    );
}

/// The radio task's credential words: a ready flag, both lengths, the network
/// name in eight words and the password in sixteen.
pub open spec fn creds_words(ssid: Seq<u8>, pass: Seq<u8>) -> Seq<u32> {
    let s = if ssid.len() <= 32 {
        ssid
    } else {
        ssid.take(32)
    };
    let p = if pass.len() <= 64 {
        pass
    } else {
        pass.take(64)
    };
    [1u32, s.len() as u32, p.len() as u32]@ + words::packed(s, 8) + words::packed(p, 16)
}

fn append_words(v: &mut Vec<u32>, w: &[u32])
    ensures
        final(v)@ == old(v)@ + w@,
{
    v.extend_from_slice(w);
}

fn at_most(s: &[u8], n: usize) -> (r: &[u8])
    ensures
        r@ == if s@.len() <= n {
            s@
        } else {
            s@.take(n as int)
        },
{
    if s.len() <= n {
        s
    } else {
        slice_subrange(s, 0, n)
    }
}

/// Lay out a network name and a password as credential words, cutting them to
/// 32 and 64 bytes.
pub fn store_creds(ssid: &[u8], pass: &[u8]) -> (r: Vec<u32>)
    ensures
        r@ == creds_words(ssid@, pass@),
        r@.len() == 27,
{
    let s = at_most(ssid, 32);
    let p = at_most(pass, 64);
    let mut r: Vec<u32> = Vec::new();
    append_words(&mut r, &[1u32, s.len() as u32, p.len() as u32]);
    let sw = pack(s, 8);
    append_words(&mut r, sw.as_slice());
    let pw = pack(p, 16);
    append_words(&mut r, pw.as_slice());
    r
}

/// The body of a request: what follows its first blank line.
pub open spec fn body_of(req: Seq<u8>) -> Seq<u8> {
    match http::end_of_headers(req, 0) {
        Some(h) => req.skip(h),
        None => Seq::empty(),
    }
}

/// The credential words that a POST request submits, if it names a network.
pub open spec fn posted_words(req: Seq<u8>) -> Option<Seq<u32>> {
    let f = fields_of(body_of(req));
    if f.got {
        Some(creds_words(f.ssid.take(f.ssid_len as int), f.pass.take(f.pass_len as int)))
    } else {
        None
    }
}

/// Parse a POST request and lay out the credentials that it submits; `None`
/// when it names no network.
pub fn handle_post(req: &[u8]) -> (r: Option<Vec<u32>>)
    ensures
        match r {
            Some(w) => posted_words(req@) == Some(w@),
            None => posted_words(req@) is None,
        },
{
    let start: usize = match headers_end(req) {
        Some(h) => h,
        None => req.len(),
    };
    let body = slice_subrange(req, start, req.len());
    assert(body@ =~= body_of(req@));
    match parse_creds(body) {
        None => None,
        Some(c) => {
            let s = slice_subrange(&c.ssid, 0, c.ssid_len);
            let p = slice_subrange(&c.pass, 0, c.pass_len);
            Some(store_creds(s, p))
        },
    }
}

/// A network name and a password as the join reads them back.
pub struct JoinCreds {
    pub ssid: Vec<u8>,
    pub ssid_len: u32,
    pub pass: Vec<u8>,
    pub pass_len: u32,
}

/// Read credential words back: both lengths and the unpacked bytes.
pub fn load_creds(words: &[u32]) -> (r: JoinCreds)
    requires
        words@.len() == 27,
    ensures
        r.ssid@ == words::unpacked(words@.subrange(3, 11)),
        r.pass@ == words::unpacked(words@.subrange(11, 27)),
        r.ssid_len == words@[1],
        r.pass_len == words@[2],
        // Credentials that were stored come back, each as what it was.
        forall|s: Seq<u8>, p: Seq<u8>|
            s.len() <= 32 && p.len() <= 64 && words@ == #[trigger] creds_words(s, p) ==> {
                &&& r.ssid_len == s.len()
                &&& r.ssid@.take(s.len() as int) == s
                &&& r.pass_len == p.len()
                &&& r.pass@.take(p.len() as int) == p
            },
{
    proof {
        assert forall|s: Seq<u8>, p: Seq<u8>|
            s.len() <= 32 && p.len() <= 64 && words@ == #[trigger] creds_words(s, p) implies {
            &&& words@[1] == s.len()
            &&& words@[2] == p.len()
            &&& words::unpacked(words@.subrange(3, 11)).take(s.len() as int) == s
            &&& words::unpacked(words@.subrange(11, 27)).take(p.len() as int) == p
        } by {
            creds_survive_storage(s, p);
        }
    }
    JoinCreds {
        ssid: unpack(slice_subrange(words, 3, 11)),
        ssid_len: words[1],
        pass: unpack(slice_subrange(words, 11, 27)),
        pass_len: words[2],
    }
}

/// Stored credentials read back as they were, up to 32 and 64 bytes.
pub proof fn creds_survive_storage(ssid: Seq<u8>, pass: Seq<u8>)
    requires
        ssid.len() <= 32,
        pass.len() <= 64,
    ensures
        ({
            let w = creds_words(ssid, pass);
            &&& w[1] == ssid.len()
            &&& w[2] == pass.len()
            &&& words::unpacked(w.subrange(3, 11)).take(ssid.len() as int) == ssid
            &&& words::unpacked(w.subrange(11, 27)).take(pass.len() as int) == pass
        }),
{
    let w = creds_words(ssid, pass);
    assert(w.subrange(3, 11) =~= words::packed(ssid, 8));
    assert(w.subrange(11, 27) =~= words::packed(pass, 16));
    words::pack_then_unpack(ssid, 8);
    words::pack_then_unpack(pass, 16);
}

proof fn hex_is_no_separator(b: u8)
    ensures
        forall|i: int|
            0 <= i < 2 ==> (#[trigger] text::hex2(b)[i]) != 38 && text::hex2(b)[i] != 61,
{
}

proof fn escapes_hold_no_separator(s: Seq<u8>)
    ensures
        forall|k: int|
            0 <= k < escaped(s).len() ==> (#[trigger] escaped(s)[k]) != 38 && escaped(s)[k] != 61,
    decreases s.len(),
{
    if s.len() > 0 {
        escapes_hold_no_separator(s.drop_last());
        hex_is_no_separator(s.last());
        let front = escaped(s.drop_last());
        let back = text::hex2(s.last());
        assert forall|k: int| 0 <= k < escaped(s).len() implies (#[trigger] escaped(s)[k]) != 38
            && escaped(s)[k] != 61 by {
            if k < front.len() {
                assert(escaped(s)[k] == front[k]);
            } else if k > front.len() {
                assert(escaped(s)[k] == back[k - front.len() - 1]);
            }
        }
    }
}

proof fn finding_skips(s: Seq<u8>, b: u8, i: int, j: int)
    requires
        0 <= i <= j <= s.len(),
        forall|k: int| i <= k < j ==> s[k] != b,
    ensures
        find_byte(s, b, i) == find_byte(s, b, j),
    decreases j - i,
{
    if i < j {
        finding_skips(s, b, i + 1, j);
    }
}

/// What a browser submits for a form with a network name and a password, both
/// written as escapes.
pub open spec fn submission(ssid: Seq<u8>, pass: Seq<u8>) -> Seq<u8> {
    text::lit("ssid=") + escaped(ssid) + text::lit("&password=") + escaped(pass)
}

proof fn field_names()
    ensures
        text::lit("ssid=") == [115u8, 115, 105, 100, 61]@,
        text::lit("ssid") == [115u8, 115, 105, 100]@,
        text::lit("&password=") == [38u8, 112, 97, 115, 115, 119, 111, 114, 100, 61]@,
        text::lit("password") == [112u8, 97, 115, 115, 119, 111, 114, 100]@,
{
    reveal_strlit("ssid=");
    reveal_strlit("ssid");
    reveal_strlit("&password=");
    reveal_strlit("password");
    vstd::utf8::is_ascii_chars_encode_utf8("ssid="@);
    vstd::utf8::is_ascii_chars_encode_utf8("ssid"@);
    vstd::utf8::is_ascii_chars_encode_utf8("&password="@);
    vstd::utf8::is_ascii_chars_encode_utf8("password"@);
    assert(text::lit("ssid=") =~= [115u8, 115, 105, 100, 61]@);
    assert(text::lit("ssid") =~= [115u8, 115, 105, 100]@);
    assert(text::lit("&password=") =~= [38u8, 112, 97, 115, 115, 119, 111, 114, 100, 61]@);
    assert(text::lit("password") =~= [112u8, 97, 115, 115, 119, 111, 114, 100]@);
}

proof fn submissions_are_parsed(ssid: Seq<u8>, pass: Seq<u8>)
    requires
        ssid.len() <= 32,
        pass.len() <= 64,
    ensures
        ({
            let f = fields_of(submission(ssid, pass));
            &&& f.got
            &&& f.ssid_len == ssid.len()
            &&& f.ssid.take(ssid.len() as int) == ssid
            &&& f.pass_len == pass.len()
            &&& f.pass.take(pass.len() as int) == pass
        }),
{
    field_names();
    escapes_hold_no_separator(ssid);
    escapes_hold_no_separator(pass);
    let body = submission(ssid, pass);
    let es = escaped(ssid);
    let ep = escaped(pass);
    let amp = 5 + es.len() as int;
    assert(body[amp] == 38);
    assert forall|k: int| 0 <= k < amp implies body[k] != 38 by {
        if k >= 5 {
            assert(body[k] == es[k - 5]);
        }
    }
    finding_skips(body, 38, 0, amp);
    let f1 = body.subrange(0, amp);
    assert(f1 =~= text::lit("ssid=") + es);
    assert(f1[4] == 61);
    finding_skips(f1, 61, 0, 4);
    assert(find_byte(f1, 61, 0) == 4);
    assert(f1.take(4) =~= text::lit("ssid"));
    assert(f1.skip(5) =~= es);
    escape_then_decode(ssid, 32);
    let n = body.len() as int;
    assert forall|k: int| amp + 1 <= k < n implies body[k] != 38 by {
        if k >= amp + 10 {
            assert(body[k] == ep[k - amp - 10]);
        }
    }
    finding_skips(body, 38, amp + 1, n);
    assert(find_byte(body, 38, amp + 1) == n);
    let f2 = body.subrange(amp + 1, n);
    assert(f2 =~= text::lit("password") + seq![61u8] + ep);
    assert(f2[8] == 61);
    finding_skips(f2, 61, 0, 8);
    assert(find_byte(f2, 61, 0) == 8);
    assert(f2.take(8) =~= text::lit("password"));
    assert(f2.skip(9) =~= ep);
    escape_then_decode(pass, 64);
    let start = Fields {
        ssid: text::zeros(32),
        ssid_len: 0,
        pass: text::zeros(64),
        pass_len: 0,
        got: false,
    };
    let a = with_field(start, f1);
    let b = with_field(a, f2);
    assert(f2.take(8).len() != text::lit("ssid").len());
    assert(fields_from(body, amp + 1, a) == b);
    assert(fields_of(body) == b);
    assert(b.ssid.take(ssid.len() as int) =~= ssid);
    assert(b.pass.take(pass.len() as int) =~= pass);
}

/// What a user submits is what the radio joins with: a POST request with a name
/// and a password, of any bytes, leaves words from which that name and that
/// password are read back.
pub proof fn submitted_credentials_are_stored(head: Seq<u8>, ssid: Seq<u8>, pass: Seq<u8>)
    requires
        http::end_of_headers(head, 0) == Some(head.len() as int),
        ssid.len() <= 32,
        pass.len() <= 64,
    ensures
        ({
            let r = posted_words(head + submission(ssid, pass));
            &&& r matches Some(w) && {
                &&& w.len() == 27
                &&& w[0] == 1
                &&& w[1] == ssid.len()
                &&& w[2] == pass.len()
                &&& words::unpacked(w.subrange(3, 11)).take(ssid.len() as int) == ssid
                &&& words::unpacked(w.subrange(11, 27)).take(pass.len() as int) == pass
            }
        }),
{
    let body = submission(ssid, pass);
    http::headers_end_once(head, body);
    assert((head + body).skip(head.len() as int) =~= body);
    submissions_are_parsed(ssid, pass);
    creds_survive_storage(ssid, pass);
}

/// Credential words hold what was stored in fixed places: the flag, the two
/// lengths, and each text packed by itself.
pub proof fn stored_credentials_do_not_mix(a: Seq<u8>, b: Seq<u8>, p: Seq<u8>)
    requires
        a.len() <= 32,
        b.len() <= 32,
        p.len() <= 64,
    ensures
        creds_words(a, p).subrange(11, 27) == creds_words(b, p).subrange(11, 27),
        creds_words(a, p)[2] == creds_words(b, p)[2],
        creds_words(p.take(0), a).subrange(3, 11) == creds_words(p.take(0), b).subrange(3, 11),
        creds_words(a, p)[0] == 1,
        creds_words(a, p).len() == 27,
{
    assert(creds_words(a, p).subrange(11, 27) =~= creds_words(b, p).subrange(11, 27));
    assert(creds_words(p.take(0), a).subrange(3, 11) =~= creds_words(p.take(0), b).subrange(3, 11));
}

/// Response head of an HTML page.
pub const HTTP_OK_HTML: &'static str =
    "HTTP/1.0 200 OK\r\nContent-Type: text/html\r\nConnection: close\r\n\r\n";

/// The portal form up to its network list, with the response head.
pub const FORM_PREFIX: &'static str =
    "HTTP/1.0 200 OK\r\nContent-Type: text/html\r\nConnection: close\r\n\r\n<!DOCTYPE html><html><head><meta name=viewport content=\"width=device-width,initial-scale=1\"><title>Pico 2 W Setup</title></head><body style=\"font-family:sans-serif;max-width:420px;margin:2em auto;padding:0 1em\"><h1>Pico 2 W Wi-Fi Setup</h1><form method=POST action=/connect><p>Network<br><select name=ssid style=\"width:100%;font-size:1.2em\">";

/// The portal form after its network list.
pub const FORM_SUFFIX: &'static str =
    "</select></p><p>Password<br><input name=password type=password style=\"width:100%;font-size:1.2em\"></p><p><button style=\"font-size:1.2em;padding:.4em 1em\">Connect</button></p></form></body></html>";

/// Body of the page shown once credentials were submitted.
pub const CONNECTING_BODY: &'static str =
    "<!DOCTYPE html><html><head><meta name=viewport content=\"width=device-width,initial-scale=1\"><title>Connecting</title></head><body style=\"font-family:sans-serif;max-width:420px;margin:2em auto\"><h1>Connecting...</h1><p>The Pico is joining your network. You can close this window.</p></body></html>";

/// Reply to the captive-portal API probe.
pub const API_JSON: &'static str =
    "HTTP/1.0 200 OK\r\nContent-Type: application/captive+json\r\nConnection: close\r\n\r\n{\"captive\":true,\"user-portal-url\":\"http://192.168.4.1/\"}";

/// One list entry per non-empty line of `raw` from byte `i` on.
pub open spec fn options_from(raw: Seq<u8>, i: int) -> Seq<u8>
    decreases raw.len() - i,
{
    let end = find_byte(raw, 10, i);
    if i < 0 || i > raw.len() || end < i {
        Seq::empty()
    } else {
        let name = raw.subrange(i, end);
        let here = if name.len() == 0 {
            Seq::empty()
        } else {
            text::lit("<option>") + name + text::lit("</option>")
        };
        if end < raw.len() {
            here + options_from(raw, end + 1)
        } else {
            here
        }
    }
}

/// The network names in the scan words: the bytes before the first zero.
pub open spec fn scanned_names(scan: Seq<u32>) -> Seq<u8> {
    let raw = words::unpacked(scan);
    raw.take(find_byte(raw, 0, 0))
}

proof fn finding_in_front(a: Seq<u8>, b: Seq<u8>, x: u8, i: int)
    requires
        0 <= i <= a.len(),
    ensures
        find_byte(a, x, i) < a.len() ==> find_byte(a + b, x, i) == find_byte(a, x, i),
        find_byte(a, x, i) >= a.len() ==> find_byte(a + b, x, i) == find_byte(
            a + b,
            x,
            a.len() as int,
        ),
    decreases a.len() - i,
{
    if i < a.len() {
        assert((a + b)[i] == a[i]);
        if a[i] != x {
            finding_in_front(a, b, x, i + 1);
        }
    }
}

proof fn finding_behind(a: Seq<u8>, b: Seq<u8>, x: u8, i: int)
    requires
        0 <= i <= b.len(),
    ensures
        find_byte(a + b, x, a.len() + i) == a.len() + find_byte(b, x, i),
    decreases b.len() - i,
{
    if i < b.len() {
        assert((a + b)[a.len() + i] == b[i]);
        if b[i] != x {
            finding_behind(a, b, x, i + 1);
        }
    }
}

proof fn options_behind(a: Seq<u8>, b: Seq<u8>, i: int)
    requires
        0 <= i <= b.len(),
    ensures
        options_from(a + b, a.len() + i) == options_from(b, i),
    decreases b.len() - i,
{
    finding_behind(a, b, 10, i);
    find_byte_bounds(b, 10, i);
    let end = find_byte(b, 10, i);
    assert((a + b).subrange(a.len() + i, a.len() + end) =~= b.subrange(i, end));
    if end < b.len() {
        options_behind(a, b, end + 1);
    }
}

proof fn options_in_front(a: Seq<u8>, b: Seq<u8>, i: int)
    requires
        0 <= i <= a.len(),
    ensures
        options_from(a + seq![10u8] + b, i) == options_from(a, i) + options_from(b, 0),
    decreases a.len() - i,
{
    let s = a + seq![10u8] + b;
    let t = seq![10u8] + b;
    assert(s =~= a + t);
    finding_in_front(a, t, 10, i);
    find_byte_bounds(a, 10, i);
    let end = find_byte(a, 10, i);
    if end < a.len() {
        assert(s.subrange(i, end) =~= a.subrange(i, end));
        options_in_front(a, b, end + 1);
        let name = a.subrange(i, end);
        let here = if name.len() == 0 {
            Seq::empty()
        } else {
            text::lit("<option>") + name + text::lit("</option>")
        };
        assert(options_from(s, i) =~= options_from(a, i) + options_from(b, 0));
    } else {
        assert(s[a.len() as int] == 10);
        assert(s.subrange(i, a.len() as int) =~= a.subrange(i, end));
        options_behind(a + seq![10u8], b, 0);
        assert(options_from(s, i) =~= options_from(a, i) + options_from(b, 0));
    }
}

/// Every network on a line of its own becomes one entry of the list, in their
/// order: a name alone is one entry that shows it, two texts on lines of their
/// own give the entries of the one and then of the other, and empty lines none.
pub proof fn networks_become_entries(a: Seq<u8>, b: Seq<u8>)
    ensures
        options_from(a + seq![10u8] + b, 0) == options_from(a, 0) + options_from(b, 0),
        options_from(Seq::empty(), 0).len() == 0,
        a.len() > 0 && (forall|i: int| 0 <= i < a.len() ==> a[i] != 10) ==> options_from(a, 0)
            == text::lit("<option>") + a + text::lit("</option>"),
{
    options_in_front(a, b, 0);
    if a.len() > 0 && (forall|i: int| 0 <= i < a.len() ==> a[i] != 10) {
        finding_skips(a, 10, 0, a.len() as int);
        assert(a.subrange(0, a.len() as int) =~= a);
    }
}

/// The names that a scan left are the ones that the form lists, as long as they
/// fit the words and hold no zero byte.
pub proof fn scanned_names_are_listed(names: Seq<u8>, n: nat)
    requires
        names.len() < 4 * n,
        forall|i: int| 0 <= i < names.len() ==> names[i] != 0,
    ensures
        scanned_names(words::packed(names, n)) == names,
        form_page(words::packed(names, n)) == text::lit(FORM_PREFIX) + options_from(names, 0)
            + text::lit(FORM_SUFFIX),
{
    let raw = words::unpacked(words::packed(names, n));
    words::pack_then_unpack(names, n);
    assert forall|i: int| 0 <= i < names.len() implies raw[i] != 0 by {
        assert(raw[i] == raw.take(names.len() as int)[i]);
    }
    finding_skips(raw, 0, 0, names.len() as int);
    assert(find_byte(raw, 0, 0) == names.len());
    assert(scanned_names(words::packed(names, n)) =~= names);
}

/// The portal form for the given scan words.
pub open spec fn form_page(scan: Seq<u32>) -> Seq<u8> {
    text::lit(FORM_PREFIX) + options_from(scanned_names(scan), 0) + text::lit(FORM_SUFFIX)
}

/// Append `src` to `out` at `n`, clamped to the buffer; returns the new end.
pub fn push(out: &mut [u8], n: usize, src: &[u8]) -> (r: usize)
    requires
        n <= old(out)@.len(),
    ensures
        final(out)@.len() == old(out)@.len(),
        r == if n + src@.len() <= old(out)@.len() {
            n + src@.len()
        } else {
            old(out)@.len() as int
        },
        final(out)@.take(r as int) == old(out)@.take(n as int) + src@.take(r - n),
        final(out)@.skip(r as int) == old(out)@.skip(r as int),
{
    let ghost before = out@;
    let room: usize = out.len() - n;
    let e: usize = if src.len() <= room {
        n + src.len()
    } else {
        out.len()
    };
    let mut i: usize = n;
    while i < e
        invariant
            n <= i <= e <= before.len(),
            e - n <= src@.len(),
            out@.len() == before.len(),
            forall|k: int| 0 <= k < n ==> out@[k] == before[k],
            forall|k: int| n <= k < i ==> out@[k] == src@[k - n],
            forall|k: int| i <= k < before.len() ==> out@[k] == before[k],
        decreases e - i,
    {
        out[i] = src[i - n];
        i = i + 1;
    }
    assert(out@.take(e as int) =~= before.take(n as int) + src@.take(e - n));
    assert(out@.skip(e as int) =~= before.skip(e as int));
    e
}

/// The first bytes of `s` that `room` bytes can hold.
pub open spec fn clamp(s: Seq<u8>, room: nat) -> Seq<u8> {
    if s.len() <= room {
        s
    } else {
        s.take(room as int)
    }
}

fn push_clamped(out: &mut [u8], n: usize, src: &[u8], Ghost(all): Ghost<Seq<u8>>) -> (r: usize)
    requires
        n <= old(out)@.len(),
        old(out)@.take(n as int) == clamp(all, old(out)@.len()),
    ensures
        final(out)@.len() == old(out)@.len(),
        n <= r <= final(out)@.len(),
        final(out)@.take(r as int) == clamp(all + src@, old(out)@.len()),
        final(out)@.skip(r as int) == old(out)@.skip(r as int),
{
    let r: usize = push(out, n, src);
    proof {
        let size = old(out)@.len();
        assert(old(out)@.take(n as int).len() == n);
        assert(final_len(all, size) == n);
        assert(out@.take(r as int) =~= clamp(all + src@, size));
    }
    r
}

spec fn final_len(s: Seq<u8>, room: nat) -> int {
    clamp(s, room).len() as int
}

fn push_options(out: &mut [u8], start: usize, raw: &[u8], Ghost(head): Ghost<Seq<u8>>) -> (r: usize)
    requires
        start <= old(out)@.len(),
        old(out)@.take(start as int) == clamp(head, old(out)@.len()),
    ensures
        final(out)@.len() == old(out)@.len(),
        start <= r <= final(out)@.len(),
        final(out)@.take(r as int) == clamp(head + options_from(raw@, 0), old(out)@.len()),
        final(out)@.skip(r as int) == old(out)@.skip(r as int),
{
    let ghost size = out@.len();
    let ghost before = out@;
    let mut n: usize = start;
    let mut i: usize = 0;
    let mut more: bool = true;
    let ghost mut all = head;
    while more
        invariant
            i <= raw@.len(),
            out@.len() == size,
            before.len() == size,
            start <= n <= size,
            out@.take(n as int) == clamp(all, size),
            forall|k: int| n <= k < size ==> out@[k] == before[k],
            more ==> head + options_from(raw@, 0) == all + options_from(raw@, i as int),
            !more ==> head + options_from(raw@, 0) == all,
        decreases raw@.len() - i + (if more {
            1int
        } else {
            0int
        }),
    {
        let end: usize = position_from(raw, 10, i);
        let name = slice_subrange(raw, i, end);
        let ghost was = all;
        let ghost at = i as int;
        if name.len() != 0 {
            let ghost o1 = out@;
            n = push_clamped(out, n, "<option>".as_bytes(), Ghost(all));
            let ghost o2 = out@;
            let ghost n2 = n as int;
            n = push_clamped(out, n, name, Ghost(all + text::lit("<option>")));
            let ghost o3 = out@;
            let ghost n3 = n as int;
            n = push_clamped(
                out,
                n,
                "</option>".as_bytes(),
                Ghost(all + text::lit("<option>") + name@),
            );
            proof {
                all = all + text::lit("<option>") + name@ + text::lit("</option>");
                assert forall|k: int| n <= k < size implies out@[k] == before[k] by {
                    assert(out@.skip(n as int)[k - n] == o3.skip(n as int)[k - n]);
                    assert(o3.skip(n3)[k - n3] == o2.skip(n3)[k - n3]);
                    assert(o2.skip(n2)[k - n2] == o1.skip(n2)[k - n2]);
                }
            }
        }
        if end < raw.len() {
            i = end + 1;
            assert(was + options_from(raw@, at) =~= all + options_from(raw@, i as int));
        } else {
            more = false;
            assert(was + options_from(raw@, at) =~= all);
        }
    }
    assert(out@.skip(n as int) =~= before.skip(n as int));
    n
}

/// Build the portal form, with a list of the networks in the scan words, into
/// `out`; a page that does not fit is cut off. Returns the number of bytes
/// written.
pub fn build_form(scan: &[u32], out: &mut [u8]) -> (n: usize)
    ensures
        n == clamp(form_page(scan@), old(out)@.len()).len(),
        final(out)@ == clamp(form_page(scan@), old(out)@.len()) + old(out)@.skip(n as int),
{
    let ghost before = out@;
    let raw = unpack(scan);
    let end: usize = position_from(raw.as_slice(), 0, 0);
    let names = slice_subrange(raw.as_slice(), 0, end);
    assert(names@ =~= scanned_names(scan@));
    assert(out@.take(0) =~= clamp(Seq::empty(), out@.len()));
    let n1: usize = push_clamped(out, 0, FORM_PREFIX.as_bytes(), Ghost(Seq::empty()));
    let ghost o1 = out@;
    assert(Seq::empty() + text::lit(FORM_PREFIX) =~= text::lit(FORM_PREFIX));
    let n2: usize = push_options(out, n1, names, Ghost(text::lit(FORM_PREFIX)));
    let ghost o2 = out@;
    let n: usize = push_clamped(
        out,
        n2,
        FORM_SUFFIX.as_bytes(),
        Ghost(text::lit(FORM_PREFIX) + options_from(names@, 0)),
    );
    proof {
        assert forall|k: int| n <= k < before.len() implies out@[k] == before[k] by {
            assert(out@.skip(n as int)[k - n] == o2.skip(n as int)[k - n]);
            assert(o2.skip(n2 as int)[k - n2] == o1.skip(n2 as int)[k - n2]);
            assert(o1.skip(n1 as int)[k - n1] == before.skip(n1 as int)[k - n1]);
        }
        assert(out@ =~= out@.take(n as int) + before.skip(n as int));
    }
    n
}

/// What the portal sends back for a request.
#[derive(Clone, Copy, PartialEq, Eq, Structural)]
pub enum PortalReply {
    /// Credentials were submitted: store them, show the connecting page.
    Connecting,
    /// The captive-portal API probe.
    Api,
    /// Anything else: the form.
    Form,
}

/// What the portal sends back for the request `r`.
pub open spec fn portal_route(r: Seq<u8>) -> PortalReply {
    if text::begins(r, text::lit("POST ")) {
        PortalReply::Connecting
    } else if text::begins(r, text::lit("GET /api ")) {
        PortalReply::Api
    } else {
        PortalReply::Form
    }
}

/// The request line decides, whatever follows it: a POST submits, the API's path
/// is the probe, and everything else gets the form.
pub proof fn the_request_line_decides(rest: Seq<u8>)
    ensures
        portal_route(text::lit("POST ") + rest) == PortalReply::Connecting,
        portal_route(text::lit("GET /api ") + rest) == PortalReply::Api,
        portal_route(text::lit("GET / ") + rest) == PortalReply::Form,
        portal_route(text::lit("GET /generate_204 ") + rest) == PortalReply::Form,
        portal_route(text::lit("HEAD ") + rest) == PortalReply::Form,
{
    reveal_strlit("POST ");
    reveal_strlit("GET /api ");
    reveal_strlit("GET / ");
    reveal_strlit("GET /generate_204 ");
    reveal_strlit("HEAD ");
    vstd::utf8::is_ascii_chars_encode_utf8("POST "@);
    vstd::utf8::is_ascii_chars_encode_utf8("GET /api "@);
    vstd::utf8::is_ascii_chars_encode_utf8("GET / "@);
    vstd::utf8::is_ascii_chars_encode_utf8("GET /generate_204 "@);
    vstd::utf8::is_ascii_chars_encode_utf8("HEAD "@);
    let (post, api) = (text::lit("POST "), text::lit("GET /api "));
    let a = text::lit("POST ") + rest;
    assert(a.take(5) =~= post);
    let b = text::lit("GET /api ") + rest;
    assert(b.take(9) =~= api);
    assert(b.take(5)[0] == 71 && post[0] == 80);
    let c = text::lit("GET / ") + rest;
    assert(c.len() >= 5 && c.take(5)[0] == 71);
    if c.len() >= 9 {
        assert(c.take(9)[5] == 32 && api[5] == 97);
    }
    let d = text::lit("GET /generate_204 ") + rest;
    assert(d.take(5)[0] == 71);
    assert(d.take(9)[5] == 103);
    let e = text::lit("HEAD ") + rest;
    assert(e.take(5)[0] == 72);
    if e.len() >= 9 {
        assert(e.take(9)[0] == 72 && api[0] == 71);
    }
}

/// Pick the reply to a request.
pub fn route(r: &[u8]) -> (reply: PortalReply)
    ensures
        reply == portal_route(r@),
{
    if starts_with(r, "POST ".as_bytes()) {
        PortalReply::Connecting
    } else if starts_with(r, "GET /api ".as_bytes()) {
        PortalReply::Api
    } else {
        PortalReply::Form
    }
}

/// The bytes that answer the request `r`, with the form page built before.
pub open spec fn portal_answer(r: Seq<u8>, form: Seq<u8>) -> Seq<u8> {
    match portal_route(r) {
        PortalReply::Connecting => text::lit(HTTP_OK_HTML) + text::lit(CONNECTING_BODY),
        PortalReply::Api => text::lit(API_JSON),
        PortalReply::Form => form,
    }
}

/// Serve one request: the bytes to send back, and the credential words when the
/// request submits a network name.
pub fn serve_request(r: &[u8], form: &[u8]) -> (res: (Vec<u8>, Option<Vec<u32>>))
    ensures
        res.0@ == portal_answer(r@, form@),
        portal_route(r@) == PortalReply::Connecting ==> match res.1 {
            Some(w) => posted_words(r@) == Some(w@),
            None => posted_words(r@) is None,
        },
        portal_route(r@) != PortalReply::Connecting ==> res.1 is None,
{
    let mut v: Vec<u8> = Vec::new();
    match route(r) {
        PortalReply::Connecting => {
            append_str(&mut v, HTTP_OK_HTML);
            append_str(&mut v, CONNECTING_BODY);
            assert(v@ =~= portal_answer(r@, form@));
            (v, handle_post(r))
        },
        PortalReply::Api => {
            append_str(&mut v, API_JSON);
            assert(v@ =~= portal_answer(r@, form@));
            (v, None)
        },
        PortalReply::Form => {
            append(&mut v, form);
            assert(v@ =~= portal_answer(r@, form@));
            (v, None)
        },
    }
}

/// A received Ethernet frame on its way to the network stack: a fixed buffer
/// and the number of bytes in it.
pub struct Cyw43RxToken {
    pub buf: [u8; 1536],
    pub len: usize,
}

/// What the receive path does with a frame, and which counters it moves.
#[derive(Clone, Copy, PartialEq, Eq, Structural)]
pub struct FrameClass {
    /// Answered by the DHCP server, not handed on.
    pub dhcp: bool,
    /// An ARP frame.
    pub arp: bool,
    /// Addressed to our own hardware address.
    pub to_us: bool,
    /// An IPv4 frame addressed to 192.168.4.1.
    pub ip_to_us: bool,
}

/// The class of the frame `buf[..n]`, whose buffer is zero past the frame.
pub open spec fn frame_class(buf: Seq<u8>, n: int, mac: Seq<u8>) -> FrameClass {
    if dhcp::dhcp_request_frame(buf.take(n)) {
        FrameClass { dhcp: true, arp: false, to_us: false, ip_to_us: false }
    } else {
        FrameClass {
            dhcp: false,
            arp: buf[12] == 0x08 && buf[13] == 0x06,
            to_us: buf.take(6) == mac,
            ip_to_us: buf[12] == 0x08 && buf[13] == 0x00 && n >= 34 && buf.subrange(30, 34) == [
                192u8,
                168,
                4,
                1,
            ]@,
        }
    }
}

/// A frame is sorted by what stands in its headers: an ARP frame by its type, one
/// for this board by its first six bytes, one for the portal by the address in
/// its IPv4 header; no frame is both ARP and IPv4, and only DHCP requests are
/// kept back.
pub proof fn frames_are_sorted_by_their_headers(
    to: Seq<u8>,
    from: Seq<u8>,
    kind: u16,
    head: Seq<u8>,
    dst: Seq<u8>,
    rest: Seq<u8>,
    mac: Seq<u8>,
)
    requires
        to.len() == 6,
        from.len() == 6,
        head.len() == 16,
        dst.len() == 4,
    ensures
        ({
            let f = to + from + [(kind / 0x100) as u8, (kind % 0x100) as u8]@ + head + dst + rest;
            let c = frame_class(f, f.len() as int, mac);
            &&& c.dhcp == dhcp::dhcp_request_frame(f)
            &&& !c.dhcp ==> {
                &&& c.arp == (kind == 0x806)
                &&& c.to_us == (to == mac)
                &&& c.ip_to_us == (kind == 0x800 && dst == [192u8, 168, 4, 1]@)
            }
            &&& c.dhcp ==> !c.arp && !c.to_us && !c.ip_to_us
        }),
{
    let f = to + from + [(kind / 0x100) as u8, (kind % 0x100) as u8]@ + head + dst + rest;
    assert(f.take(f.len() as int) =~= f);
    assert(f[12] == kind / 0x100 && f[13] == kind % 0x100);
    assert(f.take(6) =~= to);
    assert(f.subrange(30, 34) =~= dst);
}

impl Cyw43RxToken {
    /// Sort the frame.
    pub fn classify(&self, mac: &[u8; 6]) -> (r: FrameClass)
        requires
            self.len <= 1536,
        ensures
            r == frame_class(self.buf@, self.len as int, mac@),
    {
        let frame = slice_subrange(&self.buf, 0, self.len);
        assert(frame@ == self.buf@.take(self.len as int));
        if is_dhcp_request(frame) {
            return FrameClass { dhcp: true, arp: false, to_us: false, ip_to_us: false };
        }
        let to_us: bool = same(slice_subrange(&self.buf, 0, 6), mac);
        let to_ip: bool = same(slice_subrange(&self.buf, 30, 34), &[192u8, 168, 4, 1]);
        FrameClass {
            dhcp: false,
            arp: self.buf[12] == 0x08 && self.buf[13] == 0x06,
            to_us,
            ip_to_us: self.buf[12] == 0x08 && self.buf[13] == 0x00 && self.len >= 34 && to_ip,
        }
    }
}

} // verus!
