//! The portal's DNS responder: every A query resolves to 192.168.4.1.

use crate::text::{append, copy_into};
use vstd::prelude::*;
use vstd::slice::slice_subrange;

verus! {

/// The offset at which the label walk from `p` stops: the terminating zero
/// byte, or a position past the end of the query.
pub open spec fn name_end(q: Seq<u8>, p: int) -> int
    decreases
            (if p < q.len() {
                q.len() - p
            } else {
                0
            }),
{
    if 0 <= p < q.len() && q[p] != 0 {
        name_end(q, p + 1 + q[p])
    } else {
        p
    }
}

/// Whether the query is whole: a header, then a question that ends inside it.
pub open spec fn whole_query(q: Seq<u8>) -> bool {
    q.len() >= 12 && name_end(q, 12) + 5 <= q.len()
}

/// Whether the question asks for an A record.
pub open spec fn asks_for_a(q: Seq<u8>) -> bool {
    0x100 * q[name_end(q, 12) + 1] + q[name_end(q, 12) + 2] == 1
}

/// The reply: the query's id, a response header, the question echoed, and for
/// an A query one answer that points at the portal.
pub open spec fn dns_reply(q: Seq<u8>) -> Seq<u8> {
    let head = q.take(2) + [0x81u8, 0x80, 0, 1, 0, if asks_for_a(q) {
        1u8
    } else {
        0u8
    }, 0, 0, 0, 0]@ + q.subrange(12, name_end(q, 12) + 5);
    if asks_for_a(q) {
        head + [0xc0u8, 0x0c, 0, 1, 0, 1, 0, 0, 0, 60, 0, 4, 192, 168, 4, 1]@
    } else {
        head
    }
}

proof fn name_end_moves_on(q: Seq<u8>, p: int)
    requires
        0 <= p,
    ensures
        p <= name_end(q, p),
    decreases
            (if p < q.len() {
                q.len() - p
            } else {
                0
            }),
{
    if p < q.len() && q[p] != 0 {
        name_end_moves_on(q, p + 1 + q[p]);
    }
}

fn find_name_end(q: &[u8]) -> (r: Option<usize>)
    requires
        q@.len() >= 12,
    ensures
        whole_query(q@) ==> r == Some(name_end(q@, 12) as usize) && name_end(q@, 12) >= 12,
        !whole_query(q@) ==> r is None,
{
    proof {
        name_end_moves_on(q@, 12);
    }
    let mut p: usize = 12;
    while p < q.len() && q[p] != 0
        invariant
            12 <= p <= q@.len(),
            name_end(q@, 12) == name_end(q@, p as int),
        decreases q@.len() - p,
    {
        let step: usize = 1 + q[p] as usize;
        if step > q.len() - p {
            proof {
                name_end_moves_on(q@, p + step);
            }
            return None;
        }
        p = p + step;
    }
    if q.len() - p < 5 {
        None
    } else {
        Some(p)
    }
}

/// Answer a DNS query: build the reply payload into `out` and return its
/// length. A query that is cut short, or whose reply would not fit, gets
/// `None`.
pub fn build_dns_reply(q: &[u8], out: &mut [u8]) -> (r: Option<usize>)
    ensures
        whole_query(q@) && dns_reply(q@).len() <= old(out)@.len() ==> {
            &&& r == Some(dns_reply(q@).len() as usize)
            &&& final(out)@ == dns_reply(q@) + old(out)@.skip(dns_reply(q@).len() as int)
        },
        !(whole_query(q@) && dns_reply(q@).len() <= old(out)@.len()) ==> {
            &&& r is None
            &&& final(out)@ == old(out)@
        },
{
    if q.len() < 12 {
        return None;
    }
    let p: usize = match find_name_end(q) {
        Some(p) => p,
        None => return None,
    };
    let is_a: bool = q[p + 1] == 0 && q[p + 2] == 1;
    assert(is_a == asks_for_a(q@));
    let base: usize = p + 5;
    if base > out.len() || (is_a && out.len() - base < 16) {
        return None;
    }
    let ancount: u8 = if is_a {
        1
    } else {
        0
    };
    let mut v: Vec<u8> = Vec::new();
    append(&mut v, slice_subrange(q, 0, 2));
    append(&mut v, &[0x81u8, 0x80, 0, 1, 0, ancount, 0, 0, 0, 0]);
    append(&mut v, slice_subrange(q, 12, base));
    if is_a {
        append(&mut v, &[0xc0u8, 0x0c, 0, 1, 0, 1, 0, 0, 0, 60, 0, 4, 192, 168, 4, 1]);
    }
    assert(v@ =~= dns_reply(q@));
    copy_into(out, v.as_slice());
    Some(v.len())
}

/// The reply echoes the query's id and question; an A query is answered with
/// 192.168.4.1 at the very end, any other query with nothing more.
pub proof fn dns_reply_shape(q: Seq<u8>)
    requires
        whole_query(q),
    ensures
        dns_reply(q).take(2) == q.take(2),
        dns_reply(q).subrange(12, name_end(q, 12) + 5) == q.subrange(12, name_end(q, 12) + 5),
        asks_for_a(q) ==> dns_reply(q).len() == name_end(q, 12) + 21 && dns_reply(q).skip(
            dns_reply(q).len() - 4,
        ) == [192u8, 168, 4, 1]@,
        !asks_for_a(q) ==> dns_reply(q).len() == name_end(q, 12) + 5,
{
    name_end_moves_on(q, 12);
    let r = dns_reply(q);
    assert(r.take(2) =~= q.take(2));
    assert(r.subrange(12, name_end(q, 12) + 5) =~= q.subrange(12, name_end(q, 12) + 5));
    if asks_for_a(q) {
        assert(r.skip(r.len() - 4) =~= [192u8, 168, 4, 1]@);
    }
}

/// A name as a query holds it: each label after its length, and a zero byte.
pub open spec fn name_bytes(labels: Seq<Seq<u8>>) -> Seq<u8>
    decreases labels.len(),
{
    if labels.len() == 0 {
        seq![0u8]
    } else {
        seq![labels[0].len() as u8] + labels[0] + name_bytes(labels.skip(1))
    }
}

proof fn names_end_behind_their_labels(pre: Seq<u8>, labels: Seq<Seq<u8>>, rest: Seq<u8>)
    requires
        forall|i: int| 0 <= i < labels.len() ==> 0 < (#[trigger] labels[i]).len() <= 255,
    ensures
        name_end(pre + name_bytes(labels) + rest, pre.len() as int) == pre.len() + name_bytes(
            labels,
        ).len() - 1,
        name_bytes(labels).len() >= 1,
    decreases labels.len(),
{
    let q = pre + name_bytes(labels) + rest;
    let p = pre.len() as int;
    if labels.len() == 0 {
        assert(q[p] == 0);
    } else {
        let one = seq![labels[0].len() as u8] + labels[0];
        let tail = labels.skip(1);
        assert forall|i: int| 0 <= i < tail.len() implies 0 < (#[trigger] tail[i]).len() <= 255 by {
            assert(tail[i] == labels[i + 1]);
        }
        assert(q =~= pre + one + name_bytes(tail) + rest);
        assert(q[p] == labels[0].len());
        names_end_behind_their_labels(pre + one, tail, rest);
    }
}

/// Whatever name is asked for, a query for its address is answered with the
/// portal's: the reply has the query's id, is marked as a response without an
/// error to one question, echoes the question, and has one answer, for the name
/// asked (by a pointer to it), of an address in the Internet class, that is
/// 192.168.4.1. A query for anything else gets no answer, and no error.
pub proof fn every_name_is_the_portal(
    head: Seq<u8>,
    labels: Seq<Seq<u8>>,
    kind: u16,
    class: Seq<u8>,
    more: Seq<u8>,
)
    requires
        head.len() == 12,
        class.len() == 2,
        forall|i: int| 0 <= i < labels.len() ==> 0 < (#[trigger] labels[i]).len() <= 255,
    ensures
        ({
            let question = name_bytes(labels) + [(kind / 0x100) as u8, (kind % 0x100) as u8]@
                + class;
            let q = head + question + more;
            let r = dns_reply(q);
            let end = 12 + question.len() as int;
            &&& whole_query(q)
            &&& r.len() == end + if kind == 1 {
                16int
            } else {
                0int
            }
            &&& r.take(2) == head.take(2)
            &&& r[2] >= 128
            &&& r[3] % 16 == 0
            &&& 0x100 * r[4] + r[5] == 1
            &&& 0x100 * r[6] + r[7] == if kind == 1 {
                1int
            } else {
                0int
            }
            &&& forall|i: int| 8 <= i < 12 ==> #[trigger] r[i] == 0
            &&& r.subrange(12, end) == question
            &&& kind == 1 ==> {
                &&& 0x100 * r[end] + r[end + 1] == 0xC000 + 12
                &&& 0x100 * r[end + 2] + r[end + 3] == 1
                &&& 0x100 * r[end + 4] + r[end + 5] == 1
                &&& 0x100_0000 * r[end + 6] + 0x1_0000 * r[end + 7] + 0x100 * r[end + 8] + r[end
                    + 9] == 60
                &&& 0x100 * r[end + 10] + r[end + 11] == 4
                &&& r.skip(end + 12) == [192u8, 168, 4, 1]@
            }
        }),
{
    let ask = [(kind / 0x100) as u8, (kind % 0x100) as u8]@;
    let question = name_bytes(labels) + ask + class;
    let q = head + question + more;
    names_end_behind_their_labels(head, labels, ask + class + more);
    assert(q =~= head + name_bytes(labels) + (ask + class + more));
    let e = name_end(q, 12);
    assert(e + 5 == 12 + question.len());
    assert(q[e + 1] == ask[0] && q[e + 2] == ask[1]);
    assert(asks_for_a(q) == (kind == 1));
    let r = dns_reply(q);
    assert(q.subrange(12, e + 5) =~= question);
    assert(r.take(2) =~= head.take(2));
    assert(r.subrange(12, e + 5) =~= question);
    if kind == 1 {
        let end = e + 5;
        assert(r.skip(end + 12) =~= [192u8, 168, 4, 1]@);
        assert(r[end] == 0xc0 && r[end + 1] == 0x0c && r[end + 2] == 0 && r[end + 3] == 1);
        assert(r[end + 4] == 0 && r[end + 5] == 1 && r[end + 6] == 0 && r[end + 7] == 0);
        assert(r[end + 8] == 0 && r[end + 9] == 60 && r[end + 10] == 0 && r[end + 11] == 4);
    }
}

} // verus!
