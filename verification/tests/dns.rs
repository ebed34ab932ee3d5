use boxedcat::dns::{build_dns_response, handle_query, parse_query_name, DnsAction, DnsHeader, DnsServer};

fn query(flags: u16, labels: &[&str]) -> Vec<u8> {
    let mut q = vec![0xAB, 0xCD];
    q.extend_from_slice(&flags.to_be_bytes());
    q.extend_from_slice(&[0, 1, 0, 2, 0, 3, 0, 4]);
    for l in labels {
        q.push(l.len() as u8);
        q.extend_from_slice(l.as_bytes());
    }
    q.push(0);
    q.extend_from_slice(&[0, 1, 0, 1]);
    q
}

#[test]
fn header_parse_reads_big_endian_fields() {
    let q = query(0x0100, &["a"]);
    let h = DnsHeader::parse(&q).unwrap();
    assert_eq!(h.id, 0xABCD);
    assert_eq!(h.flags, 0x0100);
    assert_eq!(h.qdcount, 1);
    assert_eq!(h.ancount, 2);
    assert_eq!(h.nscount, 3);
    assert_eq!(h.arcount, 4);
    assert!(h.is_query());
    assert!(DnsHeader::parse(&q[..11]).is_none());
    let reply = DnsHeader::parse(&query(0x8180, &["a"])).unwrap();
    assert!(!reply.is_query());
}

#[test]
fn parse_query_name_joins_labels() {
    let q = query(0x0100, &["www", "site", "test"]);
    assert_eq!(parse_query_name(&q, 12), Some(("www.site.test".to_string(), 12 + 15)));
    assert_eq!(parse_query_name(&q[..20], 12), None);
    let root = query(0x0100, &[]);
    assert_eq!(parse_query_name(&root, 12), Some((String::new(), 13)));
}

#[test]
fn test_name_is_answered_with_loopback() {
    let q = query(0x0100, &["shop", "test"]);
    let end = 12 + 11;
    let mut expected = vec![0xAB, 0xCD, 0x81, 0x80, 0, 1, 0, 1, 0, 0, 0, 0];
    expected.extend_from_slice(&q[12..end]);
    expected.extend_from_slice(&[0xC0, 0x0C, 0, 1, 0, 1, 0, 0, 0, 60, 0, 4, 127, 0, 0, 1]);
    match handle_query(&q) {
        DnsAction::Answer(resp) => assert_eq!(resp, expected),
        _ => panic!("a .test name must be answered"),
    }
}

#[test]
fn other_names_are_forwarded() {
    assert!(matches!(handle_query(&query(0x0100, &["example", "com"])), DnsAction::Forward));
    // The bare name `test` has no `.test` suffix.
    assert!(matches!(handle_query(&query(0x0100, &["test"])), DnsAction::Forward));
}

#[test]
fn replies_short_packets_and_bad_names_are_ignored() {
    assert!(matches!(handle_query(&query(0x8180, &["a", "test"])), DnsAction::Ignore));
    assert!(matches!(handle_query(&[0u8; 5]), DnsAction::Ignore));
    let q = query(0x0100, &["abcdef"]);
    assert!(matches!(handle_query(&q[..15]), DnsAction::Ignore));
}

#[test]
fn non_test_response_keeps_counts() {
    let q = query(0x0100, &["example", "com"]);
    let h = DnsHeader::parse(&q).unwrap();
    let end = 12 + 13;
    let resp = build_dns_response(&h, "example.com", end, &q);
    let mut expected = vec![0xAB, 0xCD, 0x81, 0x80, 0, 1, 0, 2, 0, 3, 0, 4];
    expected.extend_from_slice(&q[12..end]);
    assert_eq!(resp, expected);
}

#[test]
fn server_running_state() {
    let mut s = DnsServer::new();
    assert!(!s.is_dns_running());
    assert!(s.may_start());
    s.started();
    assert!(s.is_dns_running());
    assert!(!s.may_start());
    s.stop_dns_proxy();
    assert!(!s.is_dns_running());
}

#[test]
fn starting_the_responder() {
    let mut s = DnsServer::new();
    assert!(!s.start_dns_proxy(false));
    assert!(!s.is_dns_running());
    assert!(s.start_dns_proxy(true));
    assert!(s.is_dns_running());
    // A second start fails while one runs, and changes nothing.
    assert!(!s.start_dns_proxy(true));
    assert!(s.is_dns_running());
    s.stop_dns_proxy();
    assert!(!s.is_dns_running());
    assert!(s.start_dns_proxy(true));
}

#[test]
fn running_follows_starts_and_stops() {
    let mut s = DnsServer::new();
    // start (socket busy), start, stop, start, start
    let calls = [Some(false), Some(true), None, Some(true), Some(true)];
    let expected = [false, true, false, true, true];
    for (call, want) in calls.iter().zip(expected) {
        match call {
            Some(bound) => {
                s.start_dns_proxy(*bound);
            }
            None => s.stop_dns_proxy(),
        }
        assert_eq!(s.is_dns_running(), want);
    }
}

#[test]
fn started_counts_as_a_bound_start() {
    let mut s = DnsServer::new();
    s.started();
    assert!(s.is_dns_running());
    assert!(!s.start_dns_proxy(true));
    s.stop_dns_proxy();
    s.stop_dns_proxy();
    assert!(!s.is_dns_running());
}
