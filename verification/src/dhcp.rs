//! The provisioning network's DHCP server: a lease table of eight addresses,
//! the reply payload, and the Ethernet frame that carries it.

use crate::inet::{self, ip_checksum};
use crate::text::{self, append, append_str, append_zeros, copy_into};
use vstd::prelude::*;
use vstd::slice::slice_subrange;

verus! {

/// DHCP lease table: client MAC per pool slot; IP = 192.168.4.(2 + slot).
///
/// `count` counts the slots handed out, modulo 256. A slot at or past `count`
/// that holds a client tells that the turn has gone round, and then all eight
/// are in use; as long as those slots are all blank, only the ones before them
/// are, so the all-zero MAC is a client like any other.
pub struct Leases {
    pub macs: [[u8; 6]; 8],
    pub count: u8,
}

/// Whether the slots from `k` on are blank.
pub open spec fn blank_from(table: Seq<Seq<u8>>, k: int) -> bool {
    forall|j: int| k <= j < table.len() ==> #[trigger] table[j] == text::zeros(6)
}

/// Number of slots in use: all of them once the turn has gone round.
pub open spec fn in_use(table: Seq<Seq<u8>>, count: u8) -> int {
    if count < table.len() && blank_from(table, count as int) {
        count as int
    } else {
        table.len() as int
    }
}

/// The MACs in the slots in use.
pub open spec fn used(table: Seq<Seq<u8>>, count: u8) -> Seq<Seq<u8>> {
    table.take(in_use(table, count))
}

/// The first place at or after `i` where `mac` stands, or the number of places.
pub open spec fn first_slot(table: Seq<Seq<u8>>, mac: Seq<u8>, i: int) -> int
    decreases table.len() - i,
{
    if i < 0 || i >= table.len() {
        table.len() as int
    } else if table[i] == mac {
        i
    } else {
        first_slot(table, mac, i + 1)
    }
}

/// Whether some slot in use holds `mac`.
pub open spec fn known(table: Seq<Seq<u8>>, count: u8, mac: Seq<u8>) -> bool {
    used(table, count).contains(mac)
}

/// The slot that `mac` is given: its own, or the next in turn.
pub open spec fn slot_for(table: Seq<Seq<u8>>, count: u8, mac: Seq<u8>) -> int {
    if known(table, count, mac) {
        first_slot(used(table, count), mac, 0)
    } else {
        count as int % 8
    }
}

/// The table once `mac` has its slot.
pub open spec fn table_with(table: Seq<Seq<u8>>, count: u8, mac: Seq<u8>) -> Seq<Seq<u8>> {
    if known(table, count, mac) {
        table
    } else {
        table.update(count as int % 8, mac)
    }
}

/// The count of slots handed out once `mac` has its slot.
pub open spec fn count_with(table: Seq<Seq<u8>>, count: u8, mac: Seq<u8>) -> u8 {
    if known(table, count, mac) {
        count
    } else {
        ((count + 1) % 256) as u8
    }
}

fn same_mac(a: &[u8; 6], b: &[u8; 6]) -> (r: bool)
    ensures
        r == (a@ == b@),
{
    let mut i: usize = 0;
    while i < 6
        invariant
            i <= 6,
            forall|j: int| 0 <= j < i ==> a@[j] == b@[j],
        decreases 6 - i,
    {
        if a[i] != b[i] {
            return false;
        }
        i = i + 1;
    }
    assert(a@ =~= b@);
    true
}

impl Leases {
    /// The MAC in each slot.
    pub open spec fn table(&self) -> Seq<Seq<u8>> {
        Seq::new(8, |i: int| self.macs@[i]@)
    }

    /// A fresh, empty lease table.
    pub fn new() -> (r: Leases)
        ensures
            r.table() == fresh_table(),
            r.count == 0,
    {
        let r = Leases { macs: [[0;6];8], count: 0 };
        assert forall|i: int| 0 <= i < 8 implies #[trigger] r.table()[i] == text::zeros(6) by {
            assert(r.macs@[i]@ =~= text::zeros(6));
        }
        assert(r.table() =~= fresh_table());
        r
    }

    fn slots_in_use(&self) -> (n: usize)
        ensures
            n == in_use(self.table(), self.count),
            n <= 8,
    {
        let ghost table = self.table();
        let mut j: usize = self.count as usize;
        while j < 8
            invariant
                self.count <= j,
                table == self.table(),
                forall|k: int| self.count <= k < j && k < 8 ==> #[trigger] table[k] == text::zeros(6),
            decreases 8 - j,
        {
            let blank: [u8; 6] = [0;6];
            assert(blank@ =~= text::zeros(6));
            assert(table[j as int] == self.macs@[j as int]@);
            if !same_mac(&self.macs[j], &blank) {
                return 8;
            }
            j = j + 1;
        }
        if self.count < 8 {
            assert(blank_from(table, self.count as int));
            self.count as usize
        } else {
            8
        }
    }

    /// The last octet of the address leased to `mac`. A known client keeps its
    /// slot; a new one takes the next slot in turn, evicting the oldest lease
    /// when all eight are taken.
    pub fn ip_for(&mut self, mac: &[u8; 6]) -> (ip: u8)
        ensures
            ip == 2 + slot_for(old(self).table(), old(self).count, mac@),
            final(self).table() == table_with(old(self).table(), old(self).count, mac@),
            final(self).count == count_with(old(self).table(), old(self).count, mac@),
            known(old(self).table(), old(self).count, mac@) ==> *final(self) == *old(self),
            !known(old(self).table(), old(self).count, mac@) ==> final(self).macs@
                == old(self).macs@.update(old(self).count as int % 8, *mac),
    {
        let ghost table = self.table();
        let n: usize = self.slots_in_use();
        let ghost held = used(table, self.count);
        let mut i: usize = 0;
        while i < n
            invariant
                i <= n <= 8,
                n == held.len(),
                *self == *old(self),
                table == self.table(),
                held == used(table, self.count),
                first_slot(held, mac@, 0) == first_slot(held, mac@, i as int),
                forall|j: int| 0 <= j < i ==> #[trigger] held[j] != mac@,
            decreases n - i,
        {
            assert(held[i as int] == self.macs@[i as int]@);
            if same_mac(&self.macs[i], mac) {
                assert(held.contains(mac@));
                return 2 + i as u8;
            }
            i = i + 1;
        }
        assert(!known(table, self.count, mac@));
        let slot: usize = (self.count as usize) % 8;
        self.macs[slot] = *mac;
        self.count = self.count.wrapping_add(1);
        assert(self.table() =~= table.update(slot as int, mac@));
        2 + slot as u8
    }
}

/// The table of no clients.
pub open spec fn fresh_table() -> Seq<Seq<u8>> {
    Seq::new(8, |i: int| text::zeros(6))
}

impl Default for Leases {
    fn default() -> (r: Self)
        ensures
            r.table() == fresh_table(),
            r.count == 0,
    {
        Leases::new()
    }
}

proof fn first_slot_holds(table: Seq<Seq<u8>>, mac: Seq<u8>, i: int)
    requires
        0 <= i <= table.len(),
    ensures
        i <= first_slot(table, mac, i) <= table.len(),
        first_slot(table, mac, i) < table.len() ==> table[first_slot(table, mac, i)] == mac,
        forall|j: int| i <= j < first_slot(table, mac, i) ==> table[j] != mac,
    decreases table.len() - i,
{
    if i < table.len() && table[i] != mac {
        first_slot_holds(table, mac, i + 1);
    }
}

/// A MAC other than zero is known exactly when one of the eight slots holds it,
/// whatever the count.
pub proof fn all_slots_are_searched(table: Seq<Seq<u8>>, count: u8, mac: Seq<u8>)
    requires
        mac != text::zeros(6),
    ensures
        known(table, count, mac) == table.contains(mac),
{
    if table.contains(mac) {
        let i = table.index_of(mac);
        assert(table[i] == mac);
        assert(used(table, count)[i] == mac);
    }
    if known(table, count, mac) {
        let i = used(table, count).index_of(mac);
        assert(table[i] == mac);
    }
}

/// Every lease is one of the eight pool addresses, 192.168.4.2 to 192.168.4.9,
/// and the client stands in the slot of its address.
pub proof fn lease_in_pool(table: Seq<Seq<u8>>, count: u8, mac: Seq<u8>)
    requires
        table.len() == 8,
    ensures
        2 <= 2 + slot_for(table, count, mac) <= 9,
        table_with(table, count, mac)[slot_for(table, count, mac)] == mac,
{
    first_slot_holds(used(table, count), mac, 0);
}

/// A client that asks again is given the same address, and asking again changes
/// nothing.
pub proof fn lease_is_stable(table: Seq<Seq<u8>>, count: u8, mac: Seq<u8>)
    requires
        table.len() == 8,
    ensures
        ({
            let t = table_with(table, count, mac);
            let c = count_with(table, count, mac);
            &&& known(t, c, mac)
            &&& slot_for(t, c, mac) == slot_for(table, count, mac)
            &&& table_with(t, c, mac) == t
            &&& count_with(t, c, mac) == c
        }),
{
    let held = used(table, count);
    first_slot_holds(held, mac, 0);
    if !known(table, count, mac) {
        let slot = count as int % 8;
        let t = table_with(table, count, mac);
        let c = count_with(table, count, mac);
        let now = used(t, c);
        assert(t[slot] == mac);
        if count == 255 {
            if mac == text::zeros(6) {
                assert(held[0] == table[0]);
                assert(t[0] != text::zeros(6));
            }
            assert(!blank_from(t, 0));
        }
        assert(slot < now.len() && now[slot] == mac);
        first_slot_holds(now, mac, 0);
        let f = first_slot(now, mac, 0);
        if f < slot {
            assert(table[f] == mac);
            assert(held[f] == mac);
        }
    }
}

/// Two clients that are both in the table have different addresses.
pub proof fn leases_are_distinct(table: Seq<Seq<u8>>, count: u8, a: Seq<u8>, b: Seq<u8>)
    requires
        known(table, count, a),
        known(table, count, b),
        a != b,
    ensures
        slot_for(table, count, a) != slot_for(table, count, b),
{
    let held = used(table, count);
    first_slot_holds(held, a, 0);
    first_slot_holds(held, b, 0);
    assert(held[held.index_of(a)] == a && held[held.index_of(b)] == b);
}

/// Whether no MAC other than zero stands twice.
pub open spec fn no_client_twice(table: Seq<Seq<u8>>) -> bool {
    forall|i: int, j: int|
        0 <= i < j < table.len() && table[i] != text::zeros(6) ==> #[trigger] table[i]
            != #[trigger] table[j]
}

/// Serving a client never puts a MAC into a second slot.
pub proof fn clients_stand_once(table: Seq<Seq<u8>>, count: u8, mac: Seq<u8>)
    requires
        table.len() == 8,
        no_client_twice(table),
    ensures
        no_client_twice(table_with(table, count, mac)),
{
    if mac != text::zeros(6) {
        all_slots_are_searched(table, count, mac);
    }
    let t = table_with(table, count, mac);
    if !known(table, count, mac) {
        let slot = count as int % 8;
        assert forall|i: int, j: int|
            0 <= i < j < t.len() && t[i] != text::zeros(6) implies #[trigger] t[i]
            != #[trigger] t[j] by {
            if i == slot {
                assert(table[j] != mac);
            } else if j == slot {
                assert(table[i] == t[i]);
                if mac != text::zeros(6) {
                    assert(table[i] != mac);
                }
            } else {
                assert(table[i] == t[i] && table[j] == t[j]);
            }
        }
    }
}

/// New clients take the slots in turn: after slot seven comes slot zero again,
/// for any number of clients.
pub proof fn leases_go_round(table: Seq<Seq<u8>>, count: u8, a: Seq<u8>, b: Seq<u8>)
    requires
        table.len() == 8,
        !known(table, count, a),
        !known(table_with(table, count, a), count_with(table, count, a), b),
    ensures
        slot_for(table_with(table, count, a), count_with(table, count, a), b) == (slot_for(
            table,
            count,
            a,
        ) + 1) % 8,
{
}

/// Serving a client changes no slot but its own.
pub proof fn other_leases_stay(table: Seq<Seq<u8>>, count: u8, a: Seq<u8>, i: int)
    requires
        table.len() == 8,
        0 <= i < 8,
        i != slot_for(table, count, a),
    ensures
        table_with(table, count, a)[i] == table[i],
{
}

/// The table and the count after these clients asked a fresh table in turn.
pub open spec fn served(asks: Seq<Seq<u8>>) -> (Seq<Seq<u8>>, u8)
    decreases asks.len(),
{
    if asks.len() == 0 {
        (fresh_table(), 0)
    } else {
        let (table, count) = served(asks.drop_last());
        (table_with(table, count, asks.last()), count_with(table, count, asks.last()))
    }
}

/// The slot that the client who asked at place `i` was given then.
pub open spec fn slot_at(asks: Seq<Seq<u8>>, i: int) -> int {
    let (table, count) = served(asks.take(i));
    slot_for(table, count, asks[i])
}

/// The clients among these, each once, in the order in which they first asked.
pub open spec fn clients(asks: Seq<Seq<u8>>) -> Seq<Seq<u8>>
    decreases asks.len(),
{
    if asks.len() == 0 {
        Seq::empty()
    } else if clients(asks.drop_last()).contains(asks.last()) {
        clients(asks.drop_last())
    } else {
        clients(asks.drop_last()).push(asks.last())
    }
}

proof fn served_clients(asks: Seq<Seq<u8>>)
    requires
        clients(asks).len() <= 8,
    ensures
        served(asks).0.len() == 8,
        served(asks).1 == clients(asks).len(),
        blank_from(served(asks).0, clients(asks).len() as int),
        used(served(asks).0, served(asks).1) == clients(asks),
        clients(asks).no_duplicates(),
    decreases asks.len(),
{
    let (t, c) = served(asks);
    let all = clients(asks);
    if asks.len() == 0 {
        assert(used(t, c) =~= all);
    } else {
        let before = asks.drop_last();
        served_clients(before);
        let (table, count) = served(before);
        let had = clients(before);
        if !had.contains(asks.last()) {
            assert(t =~= table.update(count as int, asks.last()));
            assert forall|i: int| 0 <= i < had.len() implies t[i] == had[i] by {
                assert(used(table, count)[i] == table[i]);
            }
            assert(blank_from(t, c as int));
            assert(in_use(t, c) == c);
            assert(used(t, c) =~= all);
        }
    }
}

proof fn clients_grow(asks: Seq<Seq<u8>>, i: int)
    requires
        0 <= i <= asks.len(),
    ensures
        clients(asks.take(i)).is_prefix_of(clients(asks)),
    decreases asks.len() - i,
{
    if i == asks.len() {
        assert(asks.take(i) =~= asks);
    } else {
        clients_grow(asks, i + 1);
        assert(asks.take(i + 1).drop_last() =~= asks.take(i));
        let a = clients(asks.take(i));
        let b = clients(asks.take(i + 1));
        let c = clients(asks);
        assert(b.len() >= a.len());
        assert forall|k: int| 0 <= k < a.len() implies a[k] == c[k] by {
            assert(a[k] == b[k]);
            assert(b[k] == c.subrange(0, b.len() as int)[k]);
        }
        assert(a =~= c.subrange(0, a.len() as int));
    }
}

/// As long as at most eight clients have asked, each is given the slot of its
/// place among them, every time it asks, whatever its MAC is.
pub proof fn early_clients_keep_their_place(asks: Seq<Seq<u8>>, i: int)
    requires
        clients(asks).len() <= 8,
        0 <= i < asks.len(),
    ensures
        0 <= slot_at(asks, i) < clients(asks).len(),
        clients(asks)[slot_at(asks, i)] == asks[i],
{
    let before = asks.take(i);
    let upto = asks.take(i + 1);
    clients_grow(asks, i);
    clients_grow(asks, i + 1);
    assert(upto.drop_last() =~= before);
    served_clients(before);
    let c = clients(asks);
    let had = clients(before);
    assert(clients(upto).len() <= 8);
    first_slot_holds(had, asks[i], 0);
    let slot = slot_at(asks, i);
    assert(0 <= slot < clients(upto).len() && clients(upto)[slot] == asks[i]) by {
        if had.contains(asks[i]) {
            assert(had[had.index_of(asks[i])] == asks[i]);
        }
    }
    assert(clients(upto)[slot] == c.subrange(0, clients(upto).len() as int)[slot]);
}

/// The first eight clients have eight distinct addresses: as long as at most
/// eight have asked, two requests are given the same address exactly when they
/// come from the same client. The all-zero MAC is a client like any other.
pub proof fn early_leases_are_distinct(asks: Seq<Seq<u8>>, i: int, j: int)
    requires
        clients(asks).len() <= 8,
        0 <= i < asks.len(),
        0 <= j < asks.len(),
    ensures
        2 + slot_at(asks, i) == 2 + slot_at(asks, j) <==> asks[i] == asks[j],
{
    early_clients_keep_their_place(asks, i);
    early_clients_keep_their_place(asks, j);
    served_clients(asks);
}

/// The message type after walking the options from `o`: the value of the last
/// option 53, or `acc` when there is none.
pub open spec fn message_type(req: Seq<u8>, o: int, acc: u8) -> u8
    decreases
            (if o < req.len() {
                req.len() - o
            } else {
                0
            }),
{
    if o < 0 || o + 1 >= req.len() || req[o] == 255 {
        acc
    } else if req[o] == 0 {
        message_type(req, o + 1, acc)
    } else {
        let len = req[o + 1] as int;
        let next = if req[o] == 53 && len >= 1 && o + 2 < req.len() {
            req[o + 2]
        } else {
            acc
        };
        message_type(req, o + 2 + len, next)
    }
}

/// The type of the reply that `req` calls for: OFFER (2) to a DISCOVER (1), ACK
/// (5) to a REQUEST (3), nothing to anything else.
pub open spec fn reply_type(req: Seq<u8>) -> Option<u8> {
    if req.len() < 240 || req[0] != 1 {
        None
    } else if message_type(req, 240, 0) == 1 {
        Some(2)
    } else if message_type(req, 240, 0) == 3 {
        Some(5)
    } else {
        None
    }
}

/// The client's hardware address.
pub open spec fn client_mac(req: Seq<u8>) -> Seq<u8> {
    req.subrange(28, 34)
}

/// The reply payload: the fixed BOOTP section, the magic cookie, the options.
pub open spec fn dhcp_payload(req: Seq<u8>, kind: u8, ip: u8) -> Seq<u8> {
    [2u8, 1, 6, 0]@ + req.subrange(4, 8) + text::zeros(8) + [192u8, 168, 4, ip]@ + [192u8, 168, 4, 1]@
        + text::zeros(4) + client_mac(req) + text::zeros(202) + [99u8, 130, 83, 99]@ + [53u8, 1, kind]@ + [
        54u8,
        4,
        192,
        168,
        4,
        1,
    ]@ + [51u8, 4, 0, 1, 0x51, 0x80]@ + [1u8, 4, 255, 255, 255, 0]@ + [3u8, 4, 192, 168, 4, 1]@ + [
        6u8,
        4,
        192,
        168,
        4,
        1,
    ]@ + [0x72u8, 0x16]@ + text::lit("http://192.168.4.1/api") + [255u8]@
}

/// Length of every reply payload.
pub const REPLY_LEN: usize = 298;

proof fn payload_len(req: Seq<u8>, kind: u8, ip: u8)
    requires
        req.len() >= 240,
    ensures
        dhcp_payload(req, kind, ip).len() == REPLY_LEN,
{
    reveal_strlit("http://192.168.4.1/api");
    vstd::utf8::is_ascii_chars_encode_utf8("http://192.168.4.1/api"@);
}

fn find_message_type(req: &[u8]) -> (r: u8)
    requires
        req@.len() >= 240,
    ensures
        r == message_type(req@, 240, 0),
{
    let mut msgtype: u8 = 0;
    let mut o: usize = 240;
    while req.len() >= 2 && o < req.len() - 1
        invariant
            req@.len() >= 240,
            message_type(req@, 240, 0) == message_type(req@, o as int, msgtype),
        ensures
            message_type(req@, 240, 0) == msgtype,
        decreases req@.len() - o,
    {
        let code: u8 = req[o];
        if code == 255 {
            break;
        }
        if code == 0 {
            o = o + 1;
        } else {
            let len: usize = req[o + 1] as usize;
            if code == 53 && len >= 1 && req.len() - o > 2 {
                msgtype = req[o + 2];
            }
            if req.len() - o <= 2 + len {
                assert(message_type(req@, o + 2 + len, msgtype) == msgtype);
                break;
            }
            o = o + 2 + len;
        }
    }
    msgtype
}

/// Build a DHCP reply payload (BOOTP, magic cookie, options) into `out`.
/// Returns its length, or `None` when the request calls for no reply; the lease
/// table then stays as it was.
pub fn build_dhcp_reply(req: &[u8], out: &mut [u8], leases: &mut Leases) -> (r: Option<usize>)
    requires
        reply_type(req@) is Some ==> old(out)@.len() >= REPLY_LEN,
    ensures
        reply_type(req@) is None ==> r is None && final(out)@ == old(out)@ && *final(leases)
            == *old(leases),
        reply_type(req@) matches Some(kind) ==> {
            let ip = (2 + slot_for(
                old(leases).table(),
                old(leases).count,
                client_mac(req@),
            )) as u8;
            &&& r == Some(REPLY_LEN)
            &&& final(out)@ == dhcp_payload(req@, kind, ip) + old(out)@.skip(REPLY_LEN as int)
            &&& final(leases).table() == table_with(
                old(leases).table(),
                old(leases).count,
                client_mac(req@),
            )
            &&& final(leases).count == count_with(
                old(leases).table(),
                old(leases).count,
                client_mac(req@),
            )
            &&& known(old(leases).table(), old(leases).count, client_mac(req@)) ==> *final(leases)
                == *old(leases)
        },
{
    if req.len() < 240 || req[0] != 1 {
        return None;
    }
    let msgtype: u8 = find_message_type(req);
    let kind: u8 = if msgtype == 1 {
        2
    } else if msgtype == 3 {
        5
    } else {
        return None;
    };
    let mac: [u8; 6] = [req[28], req[29], req[30], req[31], req[32], req[33]];
    assert(mac@ =~= client_mac(req@));
    let ip: u8 = leases.ip_for(&mac);

    let mut p: Vec<u8> = Vec::new();
    append(&mut p, &[2u8, 1, 6, 0]);
    append(&mut p, slice_subrange(req, 4, 8));
    append_zeros(&mut p, 8);
    append(&mut p, &[192u8, 168, 4, ip]);
    append(&mut p, &[192u8, 168, 4, 1]);
    append_zeros(&mut p, 4);
    append(&mut p, slice_subrange(req, 28, 34));
    append_zeros(&mut p, 202);
    append(&mut p, &[99u8, 130, 83, 99]);
    append(&mut p, &[53u8, 1, kind]);
    append(&mut p, &[54u8, 4, 192, 168, 4, 1]);
    append(&mut p, &[51u8, 4, 0, 1, 0x51, 0x80]);
    append(&mut p, &[1u8, 4, 255, 255, 255, 0]);
    append(&mut p, &[3u8, 4, 192, 168, 4, 1]);
    append(&mut p, &[6u8, 4, 192, 168, 4, 1]);
    append(&mut p, &[0x72u8, 0x16]);
    append_str(&mut p, "http://192.168.4.1/api");
    append(&mut p, &[255u8]);
    assert(p@ =~= dhcp_payload(req@, kind, ip));
    proof {
        payload_len(req@, kind, ip);
    }
    copy_into(out, p.as_slice());
    Some(REPLY_LEN)
}

/// Offset of the UDP header in an Ethernet frame with the given IP header.
pub open spec fn udp_offset(f: Seq<u8>) -> int {
    14 + (f[14] as int % 16) * 4
}

/// An IPv4 UDP frame to port 67.
pub open spec fn dhcp_request_frame(f: Seq<u8>) -> bool {
    &&& f.len() >= 42
    &&& f[12] == 0x08
    &&& f[13] == 0x00
    &&& f[23] == 17
    &&& udp_offset(f) + 4 <= f.len()
    &&& 0x100 * f[udp_offset(f) + 2] + f[udp_offset(f) + 3] == 67
}

/// True if the frame is a DHCP BOOTREQUEST (IPv4 / UDP / dst port 67).
pub fn is_dhcp_request(f: &[u8]) -> (r: bool)
    ensures
        r == dhcp_request_frame(f@),
{
    if f.len() < 42 || f[12] != 0x08 || f[13] != 0x00 || f[23] != 17 {
        return false;
    }
    let udp: usize = 14 + (f[14] % 16) as usize * 4;
    if udp + 4 > f.len() {
        return false;
    }
    0x100 * (f[udp + 2] as u16) + f[udp + 3] as u16 == 67
}

/// The IPv4 header of a reply that carries `n` payload bytes, with checksum
/// `ck`.
pub open spec fn reply_ip_header(n: int, ck: int) -> Seq<u8> {
    [0x45u8, 0]@ + [((28 + n) / 0x100) as u8, ((28 + n) % 0x100) as u8]@ + [
        0u8,
        0,
        0,
        0,
        64,
        17,
    ]@ + [(ck / 0x100) as u8, (ck % 0x100) as u8]@ + [192u8, 168, 4, 1]@ + [255u8, 255, 255, 255]@
}

/// The broadcast frame that carries `payload`: Ethernet, IPv4 and UDP headers
/// (source port 67, destination port 68, no UDP checksum), then the payload.
pub open spec fn reply_frame(mac: Seq<u8>, payload: Seq<u8>) -> Seq<u8> {
    let n = payload.len() as int;
    [0xffu8, 0xff, 0xff, 0xff, 0xff, 0xff]@ + mac + [8u8, 0]@ + reply_ip_header(
        n,
        inet::checksum(reply_ip_header(n, 0)) as int,
    ) + [0u8, 67, 0, 68]@ + [((8 + n) / 0x100) as u8, ((8 + n) % 0x100) as u8]@ + [0u8, 0]@
        + payload
}

/// The part of a frame after its UDP header.
pub open spec fn frame_payload(rx: Seq<u8>) -> Seq<u8> {
    if udp_offset(rx) + 8 <= rx.len() {
        rx.skip(udp_offset(rx) + 8)
    } else {
        Seq::empty()
    }
}

fn ip_header(n: usize, ck: u16) -> (h: Vec<u8>)
    requires
        n <= 0xffff - 28,
    ensures
        h@ == reply_ip_header(n as int, ck as int),
        h@.len() == 20,
{
    let mut h: Vec<u8> = Vec::new();
    append(&mut h, &[0x45u8, 0]);
    append(&mut h, &[((28 + n) / 0x100) as u8, ((28 + n) % 0x100) as u8]);
    append(&mut h, &[0u8, 0, 0, 0, 64, 17]);
    append(&mut h, &[(ck / 0x100) as u8, (ck % 0x100) as u8]);
    append(&mut h, &[192u8, 168, 4, 1]);
    append(&mut h, &[255u8, 255, 255, 255]);
    h
}

/// Serve a DHCP request frame: the broadcast frame that answers it, or `None`
/// when it is cut short or calls for no reply.
pub fn dhcp_reply_frame(mac: &[u8; 6], rx: &[u8], leases: &mut Leases) -> (r: Option<Vec<u8>>)
    requires
        dhcp_request_frame(rx@),
    ensures
        reply_type(frame_payload(rx@)) is None ==> r is None && *final(leases) == *old(leases),
        reply_type(frame_payload(rx@)) matches Some(kind) ==> {
            let req = frame_payload(rx@);
            let ip = (2 + slot_for(
                old(leases).table(),
                old(leases).count,
                client_mac(req),
            )) as u8;
            &&& r matches Some(v) && v@ == reply_frame(mac@, dhcp_payload(req, kind, ip))
            &&& final(leases).table() == table_with(
                old(leases).table(),
                old(leases).count,
                client_mac(req),
            )
            &&& final(leases).count == count_with(
                old(leases).table(),
                old(leases).count,
                client_mac(req),
            )
            &&& known(old(leases).table(), old(leases).count, client_mac(req)) ==> *final(leases)
                == *old(leases)
        },
{
    let dh: usize = 14 + (rx[14] % 16) as usize * 4 + 8;
    if rx.len() < dh || rx.len() - dh < 240 {
        return None;
    }
    let req = slice_subrange(rx, dh, rx.len());
    assert(req@ =~= frame_payload(rx@));
    let mut payload: [u8; 320] = [0;320];
    let r = build_dhcp_reply(req, &mut payload, leases);
    match r {
        None => None,
        Some(n) => {
            let body = slice_subrange(&payload, 0, n);
            let ghost kind = reply_type(req@)->0;
            let ghost ip = (2 + slot_for(
                old(leases).table(),
                old(leases).count,
                client_mac(req@),
            )) as u8;
            proof {
                payload_len(req@, kind, ip);
            }
            assert(body@ =~= dhcp_payload(req@, kind, ip));
            let plain = ip_header(n, 0);
            proof {
                inet::short_header_fits(plain@);
            }
            let ck: u16 = ip_checksum(plain.as_slice());
            let mut f: Vec<u8> = Vec::new();
            append(&mut f, &[0xffu8, 0xff, 0xff, 0xff, 0xff, 0xff]);
            append(&mut f, mac);
            append(&mut f, &[8u8, 0]);
            let header = ip_header(n, ck);
            append(&mut f, header.as_slice());
            append(&mut f, &[0u8, 67, 0, 68]);
            append(&mut f, &[((8 + n) / 0x100) as u8, ((8 + n) % 0x100) as u8]);
            append(&mut f, &[0u8, 0]);
            append(&mut f, body);
            assert(f@ =~= reply_frame(mac@, body@));
            Some(f)
        },
    }
}

/// The value of an option, found by walking the options from `o` on by code and
/// length.
pub open spec fn option_of(p: Seq<u8>, o: int, code: u8) -> Option<Seq<u8>>
    decreases
            (if o < p.len() {
                p.len() - o
            } else {
                0
            }),
{
    if o < 0 || o + 1 >= p.len() || p[o] == 255 {
        None
    } else if p[o] == 0 {
        option_of(p, o + 1, code)
    } else {
        let n = p[o + 1] as int;
        if p[o] == code {
            if o + 2 + n <= p.len() {
                Some(p.subrange(o + 2, o + 2 + n))
            } else {
                None
            }
        } else {
            option_of(p, o + 2 + n, code)
        }
    }
}

/// A client that walks the options of a reply finds the reply's type, the portal
/// as server, router and name server, the network's mask, a lease of a day, and
/// the portal's address for captive clients: whatever address is leased, and
/// nothing else.
pub proof fn replies_carry_their_options(req: Seq<u8>, kind: u8, ip: u8)
    requires
        req.len() >= 240,
    ensures
        ({
            let p = dhcp_payload(req, kind, ip);
            &&& option_of(p, 240, 53) == Some(seq![kind])
            &&& option_of(p, 240, 54) == Some([192u8, 168, 4, 1]@)
            &&& option_of(p, 240, 3) == Some([192u8, 168, 4, 1]@)
            &&& option_of(p, 240, 6) == Some([192u8, 168, 4, 1]@)
            &&& option_of(p, 240, 1) == Some([255u8, 255, 255, 0]@)
            &&& option_of(p, 240, 51) matches Some(t) && t.len() == 4 && 0x100_0000 * t[0]
                + 0x1_0000 * t[1] + 0x100 * t[2] + t[3] == 86_400
            &&& option_of(p, 240, 114) == Some(text::lit("http://192.168.4.1/api"))
            &&& forall|c: u8|
                !(c == 53 || c == 54 || c == 3 || c == 6 || c == 1 || c == 51 || c == 114)
                    ==> #[trigger] option_of(p, 240, c) is None
        }),
{
    payload_len(req, kind, ip);
    reveal_strlit("http://192.168.4.1/api");
    vstd::utf8::is_ascii_chars_encode_utf8("http://192.168.4.1/api"@);
    let p = dhcp_payload(req, kind, ip);
    let url = text::lit("http://192.168.4.1/api");
    assert(p.subrange(240, 243) =~= [53u8, 1, kind]@);
    assert(p[240] == 53 && p[241] == 1 && p[242] == kind);
    assert(p[243] == 54 && p[244] == 4);
    assert(p[249] == 51 && p[250] == 4);
    assert(p[255] == 1 && p[256] == 4);
    assert(p[261] == 3 && p[262] == 4);
    assert(p[267] == 6 && p[268] == 4);
    assert(p[273] == 0x72 && p[274] == 0x16);
    assert(p[297] == 255);
    assert(p.subrange(242, 243) =~= seq![kind]);
    assert(p.subrange(245, 249) =~= [192u8, 168, 4, 1]@);
    assert(p.subrange(251, 255) =~= [0u8, 1, 0x51, 0x80]@);
    assert(p.subrange(257, 261) =~= [255u8, 255, 255, 0]@);
    assert(p.subrange(263, 267) =~= [192u8, 168, 4, 1]@);
    assert(p.subrange(269, 273) =~= [192u8, 168, 4, 1]@);
    assert(p.subrange(275, 297) =~= url);
    assert forall|c: u8| true implies {
        &&& (#[trigger] option_of(p, 240, c)) == if c == 53 {
            Some(p.subrange(242, 243))
        } else {
            option_of(p, 243, c)
        }
        &&& option_of(p, 243, c) == if c == 54 {
            Some(p.subrange(245, 249))
        } else {
            option_of(p, 249, c)
        }
        &&& option_of(p, 249, c) == if c == 51 {
            Some(p.subrange(251, 255))
        } else {
            option_of(p, 255, c)
        }
        &&& option_of(p, 255, c) == if c == 1 {
            Some(p.subrange(257, 261))
        } else {
            option_of(p, 261, c)
        }
        &&& option_of(p, 261, c) == if c == 3 {
            Some(p.subrange(263, 267))
        } else {
            option_of(p, 267, c)
        }
        &&& option_of(p, 267, c) == if c == 6 {
            Some(p.subrange(269, 273))
        } else {
            option_of(p, 273, c)
        }
        &&& option_of(p, 273, c) == if c == 114 {
            Some(p.subrange(275, 297))
        } else {
            option_of(p, 297, c)
        }
        &&& option_of(p, 297, c) is None
    } by {
        assert(option_of(p, 297, c) is None);
        assert(option_of(p, 273, c) == if c == 114 {
            Some(p.subrange(275, 297))
        } else {
            option_of(p, 297, c)
        });
        assert(option_of(p, 267, c) == if c == 6 {
            Some(p.subrange(269, 273))
        } else {
            option_of(p, 273, c)
        });
        assert(option_of(p, 261, c) == if c == 3 {
            Some(p.subrange(263, 267))
        } else {
            option_of(p, 267, c)
        });
        assert(option_of(p, 255, c) == if c == 1 {
            Some(p.subrange(257, 261))
        } else {
            option_of(p, 261, c)
        });
        assert(option_of(p, 249, c) == if c == 51 {
            Some(p.subrange(251, 255))
        } else {
            option_of(p, 255, c)
        });
        assert(option_of(p, 243, c) == if c == 54 {
            Some(p.subrange(245, 249))
        } else {
            option_of(p, 249, c)
        });
    }
    let t = p.subrange(251, 255);
    assert(t[0] == 0 && t[1] == 1 && t[2] == 0x51 && t[3] == 0x80);
    assert(option_of(p, 240, 51) == Some(t));
}

/// Options as a client writes them: a code, a length, and as many bytes.
pub open spec fn options(list: Seq<(u8, Seq<u8>)>) -> Seq<u8>
    decreases list.len(),
{
    if list.len() == 0 {
        Seq::empty()
    } else {
        seq![list[0].0, list[0].1.len() as u8] + list[0].1 + options(list.skip(1))
    }
}

/// Options that can be written so.
pub open spec fn good_options(list: Seq<(u8, Seq<u8>)>) -> bool {
    forall|i: int|
        0 <= i < list.len() ==> 0 < (#[trigger] list[i]).0 < 255 && list[i].1.len() <= 255
}

/// The first byte of the last option 53 that has one, or `acc`.
pub open spec fn last_type(list: Seq<(u8, Seq<u8>)>, acc: u8) -> u8
    decreases list.len(),
{
    if list.len() == 0 {
        acc
    } else {
        last_type(
            list.skip(1),
            if list[0].0 == 53 && list[0].1.len() > 0 {
                list[0].1[0]
            } else {
                acc
            },
        )
    }
}

proof fn walking_reads_the_options(
    pre: Seq<u8>,
    list: Seq<(u8, Seq<u8>)>,
    rest: Seq<u8>,
    acc: u8,
)
    requires
        good_options(list),
        rest.len() > 0,
        rest[0] == 255,
    ensures
        message_type(pre + options(list) + rest, pre.len() as int, acc) == last_type(list, acc),
    decreases list.len(),
{
    let q = pre + options(list) + rest;
    let o = pre.len() as int;
    if list.len() == 0 {
        assert(q[o] == 255);
    } else {
        let (code, data) = list[0];
        let one = seq![code, data.len() as u8] + data;
        assert(options(list) =~= one + options(list.skip(1)));
        assert(q =~= pre + one + options(list.skip(1)) + rest);
        assert(q[o] == code && q[o + 1] == data.len());
        assert(data.len() > 0 ==> q[o + 2] == data[0]);
        assert forall|i: int| 0 <= i < list.skip(1).len() implies 0 < (#[trigger] list.skip(1)[i]).0
            < 255 && list.skip(1)[i].1.len() <= 255 by {
            assert(list.skip(1)[i] == list[i + 1]);
        }
        let next = if code == 53 && data.len() > 0 {
            data[0]
        } else {
            acc
        };
        walking_reads_the_options(pre + one, list.skip(1), rest, next);
    }
}

/// What a client is answered follows from the message type among its options,
/// wherever that stands and whatever else is there: a DISCOVER gets an OFFER, a
/// REQUEST an ACK, and nothing else an answer.
pub proof fn requests_get_their_answer(
    head: Seq<u8>,
    list: Seq<(u8, Seq<u8>)>,
    rest: Seq<u8>,
)
    requires
        head.len() == 240,
        head[0] == 1,
        good_options(list),
        rest.len() > 0,
        rest[0] == 255,
    ensures
        last_type(list, 0) == 1 ==> reply_type(head + options(list) + rest) == Some(2u8),
        last_type(list, 0) == 3 ==> reply_type(head + options(list) + rest) == Some(5u8),
        last_type(list, 0) != 1 && last_type(list, 0) != 3 ==> reply_type(
            head + options(list) + rest,
        ) is None,
{
    walking_reads_the_options(head, list, rest, 0);
}

/// A client is known by bytes 28 to 33 of its request, and by nothing else in
/// it: two requests that agree there come from one client.
pub proof fn clients_are_known_by_their_address(a: Seq<u8>, b: Seq<u8>)
    requires
        a.len() >= 240,
        b.len() >= 240,
    ensures
        client_mac(a).len() == 6,
        client_mac(a) == client_mac(b) <==> (forall|i: int|
            28 <= i < 34 ==> #[trigger] a[i] == b[i]),
{
    if forall|i: int| 28 <= i < 34 ==> #[trigger] a[i] == b[i] {
        assert(client_mac(a) =~= client_mac(b));
    }
    if client_mac(a) == client_mac(b) {
        assert forall|i: int| 28 <= i < 34 implies #[trigger] a[i] == b[i] by {
            assert(client_mac(a)[i - 28] == client_mac(b)[i - 28]);
        }
    }
}

/// A frame is a DHCP request exactly when it carries a UDP datagram to port 67
/// in an IPv4 one, however long the IPv4 header is, and what it carries is what
/// follows the UDP header.
pub proof fn request_frames_are_known(
    macs: Seq<u8>,
    kind: u16,
    ip: Seq<u8>,
    from: Seq<u8>,
    to: u16,
    lengths: Seq<u8>,
    payload: Seq<u8>,
)
    requires
        macs.len() == 12,
        20 <= ip.len() <= 60,
        ip.len() % 4 == 0,
        ip[0] == 0x40 + ip.len() / 4,
        from.len() == 2,
        lengths.len() == 4,
    ensures
        ({
            let f = macs + [(kind / 0x100) as u8, (kind % 0x100) as u8]@ + ip + from + [
                (to / 0x100) as u8,
                (to % 0x100) as u8,
            ]@ + lengths + payload;
            &&& dhcp_request_frame(f) <==> kind == 0x800 && ip[9] == 17 && to == 67
            &&& frame_payload(f) == payload
        }),
{
    let f = macs + [(kind / 0x100) as u8, (kind % 0x100) as u8]@ + ip + from + [
        (to / 0x100) as u8,
        (to % 0x100) as u8,
    ]@ + lengths + payload;
    assert(f[12] == kind / 0x100 && f[13] == kind % 0x100);
    assert(f[14] == ip[0]);
    assert(f[23] == ip[9]);
    assert(ip[0] as int % 16 == ip.len() / 4);
    let u = udp_offset(f);
    assert(u == 14 + ip.len());
    assert(f[u + 2] == to / 0x100 && f[u + 3] == to % 0x100);
    assert(f.skip(u + 8) =~= payload);
}

/// The frame of a reply can be taken apart again: broadcast from the portal's
/// hardware address, an IPv4 datagram from 192.168.4.1 to everyone, from the
/// server's port to the client's, with the lengths of what it carries, and the
/// payload unchanged.
pub proof fn reply_frames_carry_the_payload(mac: Seq<u8>, payload: Seq<u8>)
    requires
        mac.len() == 6,
        payload.len() <= 1000,
    ensures
        ({
            let f = reply_frame(mac, payload);
            &&& f.len() == 42 + payload.len()
            &&& forall|i: int| 0 <= i < 6 ==> #[trigger] f[i] == 255
            &&& f.subrange(6, 12) == mac
            &&& inet::ethertype_of(f) == 0x800
            &&& f[23] == 17
            &&& 0x100 * f[16] + f[17] == 28 + payload.len()
            &&& f.subrange(26, 30) == [192u8, 168, 4, 1]@
            &&& forall|i: int| 30 <= i < 34 ==> #[trigger] f[i] == 255
            &&& udp_offset(f) == 34
            &&& 0x100 * f[34] + f[35] == 67
            &&& 0x100 * f[36] + f[37] == 68
            &&& 0x100 * f[38] + f[39] == 8 + payload.len()
            &&& frame_payload(f) == payload
        }),
{
    let f = reply_frame(mac, payload);
    assert(f.subrange(6, 12) =~= mac);
    assert(f.subrange(26, 30) =~= [192u8, 168, 4, 1]@);
    assert(f[14] == 0x45);
    assert(f.skip(42) =~= payload);
}

/// The reply echoes the request's transaction id and hardware address, carries
/// the leased address, and names its type in the first option.
pub proof fn reply_echoes_request(req: Seq<u8>, kind: u8, ip: u8)
    requires
        req.len() >= 240,
    ensures
        dhcp_payload(req, kind, ip).len() == REPLY_LEN,
        dhcp_payload(req, kind, ip).subrange(4, 8) == req.subrange(4, 8),
        client_mac(dhcp_payload(req, kind, ip)) == client_mac(req),
        dhcp_payload(req, kind, ip).subrange(16, 20) == [192u8, 168, 4, ip]@,
        dhcp_payload(req, kind, ip)[242] == kind,
        dhcp_payload(req, kind, ip).take(4) == [2u8, 1, 6, 0]@,
        dhcp_payload(req, kind, ip).subrange(20, 24) == [192u8, 168, 4, 1]@,
        dhcp_payload(req, kind, ip).subrange(28, 34) == req.subrange(28, 34),
        dhcp_payload(req, kind, ip).subrange(236, 240) == [99u8, 130, 83, 99]@,
{
    payload_len(req, kind, ip);
    let p = dhcp_payload(req, kind, ip);
    assert(p.take(4) =~= [2u8, 1, 6, 0]@);
    assert(p.subrange(20, 24) =~= [192u8, 168, 4, 1]@);
    assert(p.subrange(28, 34) =~= req.subrange(28, 34));
    assert(p.subrange(236, 240) =~= [99u8, 130, 83, 99]@);
    assert(p.subrange(4, 8) =~= req.subrange(4, 8));
    assert(client_mac(p) =~= client_mac(req));
    assert(p.subrange(16, 20) =~= [192u8, 168, 4, ip]@);
}

/// A client that takes up an offer is acknowledged the address that it was
/// offered, and the table stays as the offer left it.
pub proof fn the_offer_is_acknowledged(
    table: Seq<Seq<u8>>,
    count: u8,
    discover: Seq<u8>,
    request: Seq<u8>,
)
    requires
        table.len() == 8,
        discover.len() >= 240,
        request.len() >= 240,
        client_mac(discover) == client_mac(request),
    ensures
        ({
            let mac = client_mac(discover);
            let t = table_with(table, count, mac);
            let c = count_with(table, count, mac);
            let offer = dhcp_payload(discover, 2, (2 + slot_for(table, count, mac)) as u8);
            let ack = dhcp_payload(request, 5, (2 + slot_for(t, c, mac)) as u8);
            &&& ack.subrange(16, 20) == offer.subrange(16, 20)
            &&& known(t, c, mac)
            &&& table_with(t, c, mac) == t
            &&& count_with(t, c, mac) == c
        }),
{
    let mac = client_mac(discover);
    lease_is_stable(table, count, mac);
    let ip = (2 + slot_for(table, count, mac)) as u8;
    reply_echoes_request(discover, 2, ip);
    reply_echoes_request(request, 5, ip);
}

/// The IPv4 header of every reply frame checks to zero.
pub proof fn reply_header_verifies(mac: Seq<u8>, payload: Seq<u8>)
    requires
        mac.len() == 6,
        payload.len() <= 0xffff - 28,
    ensures
        inet::checksum(reply_frame(mac, payload).subrange(14, 34)) == 0,
{
    let n = payload.len() as int;
    let plain = reply_ip_header(n, 0);
    let ck = inet::checksum(plain);
    let full = reply_ip_header(n, ck as int);
    assert(full =~= plain.update(10, (ck / 0x100) as u8).update(11, (ck % 0x100) as u8));
    inet::checksum_verifies(plain, 10);
    assert(reply_frame(mac, payload).subrange(14, 34) =~= full);
}

} // verus!
