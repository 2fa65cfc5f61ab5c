//! The captive portal: address leases, name replies, request framing and the
//! form.

use rp235x::dhcp::{build_dhcp_reply, dhcp_reply_frame, is_dhcp_request, Leases};
use rp235x::dns::build_dns_reply;
use rp235x::http::{content_length, headers_end, http_request_len};
use rp235x::inet::{ethertype, ip_checksum};
use rp235x::portal::{
    build_form, handle_post, hexval, load_creds, parse_creds, route, serve_request, store_creds,
    urldecode, Cyw43RxToken, PortalReply,
};

// Build a minimal DNS query: 12-byte header + one label name + qtype/qclass.
fn dns_query(id: [u8; 2], name: &[&[u8]], qtype: u16) -> Vec<u8> {
    let mut q = Vec::new();
    q.extend_from_slice(&id);
    q.extend_from_slice(&[0x01, 0x00]); // flags: standard query
    q.extend_from_slice(&[0, 1]); // qdcount 1
    q.extend_from_slice(&[0, 0, 0, 0, 0, 0]); // an/ns/ar 0
    for label in name {
        q.push(label.len() as u8);
        q.extend_from_slice(label);
    }
    q.push(0); // root
    q.extend_from_slice(&qtype.to_be_bytes()); // qtype
    q.extend_from_slice(&[0, 1]); // qclass IN
    q
}

#[test]
fn dns_reply_a_record() {
    let q = dns_query([0xab, 0xcd], &[b"example", b"com"], 1);
    let mut out = [0u8; 768];
    let len = build_dns_reply(&q, &mut out).expect("A query -> reply");
    // id echoed
    assert_eq!(&out[0..2], &[0xab, 0xcd]);
    // response flag set
    assert_eq!(&out[2..4], &[0x81, 0x80]);
    // qdcount 1, ancount 1
    assert_eq!(&out[4..6], &[0, 1]);
    assert_eq!(&out[6..8], &[0, 1]);
    // A record ends the reply with 192.168.4.1
    assert_eq!(&out[len - 4..len], &[192, 168, 4, 1]);
    // name pointer to offset 12
    assert_eq!(out[len - 16], 0xc0);
    assert_eq!(out[len - 15], 0x0c);
}

#[test]
fn dns_reply_output_bounds() {
    // A type-A query whose name nearly fills a ~760-byte packet: the reply
    // would need name+16 bytes of A record past a tight output buffer.
    let mut q = Vec::new();
    q.extend_from_slice(&[0x00, 0x01, 0x01, 0x00, 0, 1, 0, 0, 0, 0, 0, 0]);
    // Fill ~748 bytes of labels (each 63-byte label + length byte).
    while q.len() < 12 + 748 {
        q.push(63);
        q.extend_from_slice(&[b'a'; 63]);
    }
    q.push(0);
    q.extend_from_slice(&[0, 1]); // qtype A
    q.extend_from_slice(&[0, 1]); // qclass
    // Output buffer the same size as the driver's 768-byte reply buffer.
    let mut out = [0u8; 768];
    assert_eq!(build_dns_reply(&q, &mut out), None);
}

#[test]
fn dns_reply_non_a_query() {
    let q = dns_query([0x12, 0x34], &[b"example", b"com"], 28); // AAAA
    let mut out = [0u8; 768];
    let len = build_dns_reply(&q, &mut out).expect("AAAA -> empty reply");
    // ancount 0
    assert_eq!(&out[6..8], &[0, 0]);
    // no answer appended: length is exactly header + question
    assert_eq!(len, 12 + (q.len() - 12));
}

#[test]
fn urldecode_cases() {
    let mut out = [0u8; 64];

    let n = urldecode(b"hunter2%21", &mut out);
    assert_eq!(&out[..n], b"hunter2!");

    let n = urldecode(b"a+b", &mut out);
    assert_eq!(&out[..n], b"a b");

    // Trailing '%' with fewer than 2 hex chars -> kept literal.
    let n = urldecode(b"ab%", &mut out);
    assert_eq!(&out[..n], b"ab%");

    let n = urldecode(b"abc", &mut out);
    assert_eq!(&out[..n], b"abc");
}

#[test]
fn http_request_len_get_complete() {
    let req = b"GET / HTTP/1.1\r\nHost: x\r\n\r\n";
    assert_eq!(http_request_len(req), Some(req.len()));
}

#[test]
fn http_request_len_headers_unterminated() {
    let req = b"GET / HTTP/1.1\r\nHost: x\r\n";
    assert_eq!(http_request_len(req), None);
}

#[test]
fn http_request_len_post_body_short() {
    let req = b"POST /c HTTP/1.1\r\nContent-Length: 5\r\n\r\nab";
    assert_eq!(http_request_len(req), None);
}

#[test]
fn http_request_len_post_body_complete() {
    let req = b"POST /c HTTP/1.1\r\nContent-Length: 5\r\n\r\nabcde";
    assert_eq!(http_request_len(req), Some(req.len()));
}

#[test]
fn http_request_len_lowercase_header() {
    let req = b"POST /c HTTP/1.1\r\ncontent-length: 5\r\n\r\nabcde";
    assert_eq!(http_request_len(req), Some(req.len()));
}

// Build a minimal Ethernet/IPv4/UDP frame to `dst_port`.
fn udp_frame(dst_port: u16) -> Vec<u8> {
    let mut f = vec![0u8; 42];
    f[12] = 0x08;
    f[13] = 0x00; // EtherType IPv4
    f[14] = 0x45; // IPv4, IHL 5
    f[14 + 9] = 17; // protocol UDP
    let dp = dst_port.to_be_bytes();
    f[36] = dp[0]; // UDP dst port (udp offset 34, dst at +2)
    f[37] = dp[1];
    f
}

#[test]
fn is_dhcp_request_cases() {
    assert!(is_dhcp_request(&udp_frame(67)));
    assert!(!is_dhcp_request(&udp_frame(68)));
    assert!(!is_dhcp_request(&[0u8; 20]));
}

// Build a minimal DHCP request payload with option 53 = msgtype.
fn dhcp_payload(msgtype: u8, mac: [u8; 6]) -> Vec<u8> {
    let mut p = vec![0u8; 240];
    p[0] = 1; // BOOTREQUEST
    p[4..8].copy_from_slice(&[0xde, 0xad, 0xbe, 0xef]); // xid
    p[28..34].copy_from_slice(&mac); // chaddr
    p[236..240].copy_from_slice(&[99, 130, 83, 99]); // magic
    p.extend_from_slice(&[53, 1, msgtype]); // option 53
    p.push(255); // end
    p
}

#[test]
fn dhcp_discover_offer_request_ack() {
    let mut leases = Leases::new();
    let mut out = [0u8; 320];

    let disc = dhcp_payload(1, [1, 2, 3, 4, 5, 6]);
    build_dhcp_reply(&disc, &mut out, &mut leases).expect("offer");
    assert_eq!(out[0], 2); // BOOTREPLY
    assert_eq!(out[242], 2); // option 53 value = OFFER

    let req = dhcp_payload(3, [1, 2, 3, 4, 5, 6]);
    build_dhcp_reply(&req, &mut out, &mut leases).expect("ack");
    assert_eq!(out[242], 5); // option 53 value = ACK
}

#[test]
fn leases_stable_and_round_robin() {
    let mut leases = Leases::new();
    let mac_a = [0xaa; 6];
    let first = leases.ip_for(&mac_a);
    let again = leases.ip_for(&mac_a);
    assert_eq!(first, again, "same MAC -> same IP");

    // 9 distinct MACs: the 9th must not collide with a still-active earlier
    // IP. Round-robin recycles slot 0 (the oldest), never landing on .9.
    let mut leases = Leases::new();
    let mut ips = Vec::new();
    for i in 1..=9u8 {
        let mac = [i; 6];
        ips.push(leases.ip_for(&mac));
    }
    // First 8 fill slots 0..8 -> .2 ..= .9
    assert_eq!(&ips[..8], &[2, 3, 4, 5, 6, 7, 8, 9]);
    // 9th recycles slot 0 -> .2, and slot 0's old MAC ([1;6]) was evicted so
    // no active lease still claims .2 twice. It is NOT .9.
    assert_eq!(ips[8], 2);
    assert_ne!(ips[8], 9);
}

#[test]
fn the_zero_mac_is_a_client_like_any_other() {
    let mut leases = Leases::new();
    assert_eq!(leases.ip_for(&[0; 6]), 2);
    assert_eq!(leases.ip_for(&[1; 6]), 3);
    assert_eq!(leases.ip_for(&[0; 6]), 2);
    for i in 2..8u8 {
        assert_eq!(leases.ip_for(&[i; 6]), 2 + i);
    }
    // The ninth client takes the oldest lease.
    assert_eq!(leases.ip_for(&[8; 6]), 2);
    assert_eq!(leases.ip_for(&[0; 6]), 3);
}

#[test]
fn leases_outlast_many_clients() {
    let mut leases = Leases::new();
    for i in 0..1000u32 {
        let [a, b, c, d] = i.to_be_bytes();
        assert_eq!(leases.ip_for(&[9, 9, a, b, c, d]), 2 + (i % 8) as u8);
        // All eight leases stay in use.
        if i >= 8 {
            let [a, b, c, d] = (i - 7).to_be_bytes();
            assert_eq!(leases.ip_for(&[9, 9, a, b, c, d]), 2 + ((i - 7) % 8) as u8);
        }
    }
}

#[test]
fn the_lease_count_wraps() {
    let mut macs = [[0u8; 6]; 8];
    for (i, m) in macs.iter_mut().enumerate() {
        *m = [i as u8 + 1; 6];
    }
    let mut leases = Leases { macs, count: 255 };
    assert_eq!(leases.ip_for(&[9; 6]), 9);
    assert_eq!(leases.count, 0);
    macs[7] = [9; 6];
    assert_eq!(leases.macs, macs);
    // The turn is at the first slot again, and every client is still known.
    for (i, m) in macs.iter().enumerate() {
        assert_eq!(leases.ip_for(m), 2 + i as u8);
    }
    assert_eq!(leases.count, 0);
    assert_eq!(leases.macs, macs);
    assert_eq!(leases.ip_for(&[10; 6]), 2);
    assert_eq!(leases.count, 1);
}

#[test]
fn every_slot_of_the_lease_table_is_searched() {
    let mut macs = [[0u8; 6]; 8];
    macs[3] = [5; 6];
    let mut leases = Leases { macs, count: 0 };
    assert_eq!(leases.ip_for(&[5; 6]), 5);
    assert_eq!(leases.macs, macs);
    assert_eq!(leases.count, 0);
}

#[test]
fn the_zero_mac_keeps_its_address_when_the_count_wraps() {
    let mut macs = [[0u8; 6]; 8];
    for (i, m) in macs.iter_mut().enumerate() {
        *m = [i as u8 + 1; 6];
    }
    let mut leases = Leases { macs, count: 255 };
    assert_eq!(leases.ip_for(&[0; 6]), 9);
    let held = leases.macs;
    assert_eq!(leases.ip_for(&[0; 6]), 9);
    assert_eq!(leases.macs, held);
    assert_eq!(leases.count, 0);
}

#[test]
fn the_acknowledged_address_is_the_offered_one() {
    let mut leases = Leases::new();
    let mut out = [0u8; 320];
    for i in 1..=20u8 {
        build_dhcp_reply(&dhcp_payload(1, [i; 6]), &mut out, &mut leases).expect("offer");
        let offered = out[19];
        let (macs, count) = (leases.macs, leases.count);
        build_dhcp_reply(&dhcp_payload(3, [i; 6]), &mut out, &mut leases).expect("ack");
        assert_eq!(out[19], offered);
        assert_eq!(leases.macs, macs);
        assert_eq!(leases.count, count);
    }
}

#[test]
fn ip_checksum_known_header() {
    // Standard RFC 1071 worked example. The 20-byte header below has a zero
    // checksum field; the computed checksum is 0xb861.
    let hdr = [
        0x45, 0x00, 0x00, 0x73, 0x00, 0x00, 0x40, 0x00, 0x40, 0x11, 0x00, 0x00, 0xc0, 0xa8, 0x00,
        0x01, 0xc0, 0xa8, 0x00, 0xc7,
    ];
    assert_eq!(ip_checksum(&hdr), 0xb861);
}

#[test]
fn parse_creds_cases() {
    let c = parse_creds(b"ssid=Net&password=pw%21").expect("has ssid");
    assert_eq!(&c.ssid[..c.ssid_len], b"Net");
    assert_eq!(&c.pass[..c.pass_len], b"pw!");

    assert!(parse_creds(b"password=only").is_none());
}

#[test]
fn a_default_lease_table_is_empty() {
    let mut leases = Leases::default();
    assert_eq!(leases.ip_for(&[9; 6]), 2);
}

#[test]
fn an_evicted_client_gets_a_new_address() {
    let mut leases = Leases::new();
    for i in 1..=9u8 {
        leases.ip_for(&[i; 6]);
    }
    // Client 1 lost slot 0 to client 9; it now evicts client 2 from slot 1.
    assert_eq!(leases.ip_for(&[1; 6]), 3);
    assert_eq!(leases.ip_for(&[9; 6]), 2);
    assert_eq!(leases.ip_for(&[3; 6]), 4);
}

#[test]
fn dhcp_reply_leaves_other_messages_alone() {
    let mut leases = Leases::new();
    let mut out = [7u8; 320];
    let release = dhcp_payload(7, [1; 6]);
    assert_eq!(build_dhcp_reply(&release, &mut out, &mut leases), None);
    assert_eq!(out, [7u8; 320]);
    assert_eq!(leases.ip_for(&[2; 6]), 2);
}

#[test]
fn dhcp_offer_is_addressed_and_checked() {
    let mut leases = Leases::new();
    let mut rx = udp_frame(67);
    rx.extend_from_slice(&dhcp_payload(1, [2, 0, 0, 0, 0, 7]));
    let mac = [0x02, 0x11, 0x22, 0x33, 0x44, 0x55];
    let f = dhcp_reply_frame(&mac, &rx, &mut leases).expect("offer");
    // From us, broadcast, IPv4.
    assert_eq!(&f[0..6], &[0xff; 6]);
    assert_eq!(&f[6..12], &mac);
    assert_eq!(ethertype(&f), 0x0800);
    // The header with its checksum in place sums to zero.
    assert_eq!(ip_checksum(&f[14..34]), 0);
    // Ports 67 to 68, the offered address in the BOOTP header.
    assert_eq!(&f[34..38], &[0, 67, 0, 68]);
    assert_eq!(&f[42 + 16..42 + 20], &[192, 168, 4, 2]);
    assert_eq!(&f[42 + 4..42 + 8], &[0xde, 0xad, 0xbe, 0xef]);
}

#[test]
fn a_checksum_of_odd_bytes_ignores_the_last() {
    assert_eq!(ip_checksum(&[0x12, 0x34, 0x56]), ip_checksum(&[0x12, 0x34]));
    assert_eq!(ip_checksum(&[]), 0xffff);
}

#[test]
fn short_frames_have_no_type() {
    assert_eq!(ethertype(&[0x08; 13]), 0);
}

#[test]
fn dns_refuses_what_is_no_query() {
    let mut out = [0u8; 64];
    assert_eq!(build_dns_reply(&[0; 11], &mut out), None);
    // A name that runs past the packet.
    let mut q = vec![0u8; 12];
    q[5] = 1;
    q.push(40);
    assert_eq!(build_dns_reply(&q, &mut out), None);
    assert_eq!(out, [0u8; 64]);
}

#[test]
fn content_length_reads_the_first_number() {
    assert_eq!(content_length(b"X: 1\r\nCONTENT-length:   42x\r\n\r\n"), 42);
    assert_eq!(content_length(b"Host: somewhere else\r\n\r\n"), 0);
    assert_eq!(headers_end(b"a\r\n\r\nb"), Some(5));
    assert_eq!(headers_end(b"a\r\n\rb"), None);
}

#[test]
fn a_body_longer_than_anything_is_waited_for() {
    let req = b"POST / HTTP/1.1\r\nContent-Length: 99999999999999999999999999\r\n\r\nabc";
    assert_eq!(http_request_len(req), None);
    // Only a POST has a body.
    let req = b"GET / HTTP/1.1\r\nContent-Length: 99999999999999999999999999\r\n\r\n";
    assert_eq!(http_request_len(req), Some(req.len()));
}

#[test]
fn framing_does_not_change_with_what_follows() {
    let one = b"POST /c HTTP/1.1\r\nContent-Length: 2\r\n\r\nab";
    let mut more = one.to_vec();
    more.extend_from_slice(b"GET / HTTP/1.1\r\n\r\n");
    assert_eq!(http_request_len(&more), http_request_len(one));
}

#[test]
fn hex_digits_have_values() {
    assert_eq!(hexval(b'0'), 0);
    assert_eq!(hexval(b'9'), 9);
    assert_eq!(hexval(b'a'), 10);
    assert_eq!(hexval(b'F'), 15);
    assert_eq!(hexval(b'g'), 0);
}

#[test]
fn decoding_stops_at_the_end_of_its_room() {
    let mut out = [0u8; 3];
    assert_eq!(urldecode(b"abcdef", &mut out), 3);
    assert_eq!(&out, b"abc");
}

#[test]
fn the_last_field_of_a_name_counts() {
    let c = parse_creds(b"ssid=A&password=1&ssid=B%20C").expect("has ssid");
    assert_eq!(&c.ssid[..c.ssid_len], b"B C");
    assert_eq!(&c.pass[..c.pass_len], b"1");
}

#[test]
fn posted_credentials_survive_storage() {
    let words = store_creds(b"My Net", b"secret!!");
    let c = load_creds(&words);
    assert_eq!(&c.ssid[..c.ssid_len as usize], b"My Net");
    assert_eq!(&c.pass[..c.pass_len as usize], b"secret!!");

    let req = b"POST /connect HTTP/1.1\r\nContent-Length: 26\r\n\r\nssid=My+Net&password=secret";
    let posted = handle_post(req).expect("credentials");
    let c = load_creds(&posted);
    assert_eq!(&c.ssid[..c.ssid_len as usize], b"My Net");
    assert_eq!(&c.pass[..c.pass_len as usize], b"secret");
}

#[test]
fn requests_are_routed() {
    assert!(matches!(route(b"POST /connect HTTP/1.1\r\n\r\n"), PortalReply::Connecting));
    assert!(matches!(route(b"GET / HTTP/1.1\r\n\r\n"), PortalReply::Form));
    let (reply, words) = serve_request(b"GET / HTTP/1.1\r\n\r\n", b"<form>");
    assert!(reply.ends_with(b"<form>"));
    assert!(words.is_none());
}

#[test]
fn the_form_is_cut_to_its_room() {
    let scan = vec![0u32; 64];
    let mut big = vec![0u8; 4096];
    let n = build_form(&scan, &mut big);
    assert!(n > 64);
    let mut small = vec![0u8; 64];
    assert_eq!(build_form(&scan, &mut small), 64);
    assert_eq!(small[..], big[..64]);
}

#[test]
fn frames_are_told_apart() {
    let mac = [2, 0, 0, 0, 0, 1];
    let mut t = Cyw43RxToken { buf: [0; 1536], len: 64 };
    t.buf[0..6].copy_from_slice(&mac);
    t.buf[12] = 8;
    t.buf[13] = 6;
    let c = t.classify(&mac);
    assert!(c.arp && c.to_us && !c.dhcp && !c.ip_to_us);

    t.buf[13] = 0;
    t.buf[30..34].copy_from_slice(&[192, 168, 4, 1]);
    let c = t.classify(&[9; 6]);
    assert!(!c.arp && !c.to_us && !c.dhcp && c.ip_to_us);

    t.buf[..42].copy_from_slice(&udp_frame(67));
    t.len = 42;
    let c = t.classify(&mac);
    assert!(c.dhcp && !c.arp && !c.to_us && !c.ip_to_us);
}
