use boxedcat::stack::resolver::{answer_packet, handle_query, pack_name, parse_qname, qname_ends, DnsProxy};

/// A query for `name` (given as its labels), type A, class IN, id 0x1234.
fn query(labels: &[&str]) -> Vec<u8> {
    let mut q = vec![0x12, 0x34, 0x01, 0x00, 0x00, 0x01, 0, 0, 0, 0, 0, 0];
    for l in labels {
        q.push(l.len() as u8);
        q.extend_from_slice(l.as_bytes());
    }
    q.push(0);
    q.extend_from_slice(&[0x00, 0x01, 0x00, 0x01]);
    q
}

/// The answer: header, the question section (name, type and class), then
/// the answer record.
fn expected_answer(data: &[u8], packed: &[u8], ip: [u8; 4]) -> Vec<u8> {
    let mut r = vec![data[0], data[1], 0x81, 0x80, data[4], data[5], 0, 1, 0, 0, 0, 0];
    r.extend_from_slice(&data[12..]);
    r.extend_from_slice(packed);
    r.extend_from_slice(&[0x00, 0x01, 0x00, 0x01]);
    r.extend_from_slice(&[0, 0, 1, 44]);
    r.extend_from_slice(&[0, 4]);
    r.extend_from_slice(&ip);
    r
}

#[test]
fn unregistered_project_resolves_to_loopback() {
    let proxy = DnsProxy::new(5353);
    let q = query(&["myapp", "test"]);
    assert!(qname_ends(&q, 12));
    let packed = [5, b'm', b'y', b'a', b'p', b'p', 4, b't', b'e', b's', b't', 0];
    assert_eq!(handle_query(&q, &proxy), Some(expected_answer(&q, &packed, [127, 0, 0, 1])));
}

#[test]
fn registered_project_resolves_to_its_address() {
    let mut proxy = DnsProxy::new(5353);
    proxy.add_project("MyApp", "192.168.1.10");
    assert_eq!(proxy.lookup("myapp"), Some("192.168.1.10".to_string()));
    assert_eq!(proxy.lookup("MyApp"), None);
    let q = query(&["www", "MYAPP", "test"]);
    let packed = [3, b'w', b'w', b'w', 5, b'M', b'Y', b'A', b'P', b'P', 4, b't', b'e', b's', b't', 0];
    assert_eq!(handle_query(&q, &proxy), Some(expected_answer(&q, &packed, [192, 168, 1, 10])));
}

#[test]
fn add_project_replaces_earlier_address() {
    let mut proxy = DnsProxy::new(53);
    proxy.add_project("blog", "10.0.0.1");
    proxy.add_project("shop", "10.0.0.2");
    proxy.add_project("BLOG", "10.0.0.3");
    assert_eq!(proxy.lookup("blog"), Some("10.0.0.3".to_string()));
    assert_eq!(proxy.lookup("shop"), Some("10.0.0.2".to_string()));
    assert_eq!(proxy.lookup("other"), None);
}

#[test]
fn set_projects_last_entry_counts() {
    let mut proxy = DnsProxy::new(53);
    proxy.add_project("old", "1.1.1.1");
    proxy.set_projects(vec![
        ("a".to_string(), "10.0.0.1".to_string()),
        ("a".to_string(), "10.0.0.9".to_string()),
    ]);
    assert_eq!(proxy.lookup("a"), Some("10.0.0.9".to_string()));
    assert_eq!(proxy.lookup("old"), None);
}

#[test]
fn proxy_running_state() {
    let mut proxy = DnsProxy::new(5300);
    assert_eq!(proxy.listen_port(), 5300);
    assert!(!proxy.is_running());
    proxy.mark_started();
    assert!(proxy.is_running());
    proxy.stop();
    assert!(!proxy.is_running());
    assert_eq!(proxy.listen_port(), 5300);
}

#[test]
fn non_test_names_and_short_packets_are_not_answered() {
    let proxy = DnsProxy::new(53);
    assert_eq!(handle_query(&query(&["example", "com"]), &proxy), None);
    assert_eq!(handle_query(&query(&["test"]), &proxy), None);
    assert_eq!(handle_query(&[0u8; 11], &proxy), None);
    // The question lacks its type and class.
    let mut q = query(&["a", "test"]);
    q.truncate(q.len() - 2);
    assert_eq!(handle_query(&q, &proxy), None);
}

#[test]
fn qname_with_pointer_keeps_trailing_dot_of_target() {
    let mut data = vec![0u8; 12];
    data.extend_from_slice(&[4, b't', b'e', b's', b't', 0]);
    data.extend_from_slice(&[3, b'a', b'b', b'c', 0xC0, 12]);
    assert!(qname_ends(&data, 18));
    assert_eq!(parse_qname(&data, 12), Some(("test.".to_string(), 18)));
    assert_eq!(parse_qname(&data, 18), Some(("abc.test..".to_string(), 24)));
}

#[test]
fn cyclic_pointer_never_ends() {
    let mut data = vec![0u8; 12];
    data.extend_from_slice(&[0xC0, 12]);
    assert!(!qname_ends(&data, 12));
    let mut two = vec![0u8; 12];
    two.extend_from_slice(&[1, b'x', 0xC0, 16, 1, b'y', 0xC0, 12]);
    assert!(!qname_ends(&two, 12));
}

#[test]
fn truncated_names_are_malformed() {
    let mut data = vec![0u8; 12];
    data.extend_from_slice(&[5, b'a', b'b']);
    assert!(qname_ends(&data, 12));
    assert_eq!(parse_qname(&data, 12), None);
    assert_eq!(parse_qname(&data, 40), None);
}

#[test]
fn pack_name_examples() {
    assert_eq!(pack_name("abc.test."), vec![3, b'a', b'b', b'c', 4, b't', b'e', b's', b't', 0]);
    assert_eq!(pack_name("abc.test.."), vec![3, b'a', b'b', b'c', 4, b't', b'e', b's', b't', 0]);
    assert_eq!(pack_name(""), vec![0, 0]);
    assert_eq!(pack_name("a..b"), vec![1, b'a', 0, 1, b'b', 0]);
}

#[test]
fn looping_packets_are_dropped() {
    let proxy = DnsProxy::new(53);
    let mut data = vec![0x12, 0x34, 0x01, 0x00, 0x00, 0x01, 0, 0, 0, 0, 0, 0];
    data.extend_from_slice(&[0xC0, 12, 0, 1, 0, 1]);
    assert_eq!(answer_packet(&data, &proxy), None);
    let q = query(&["api", "test"]);
    assert_eq!(answer_packet(&q, &proxy), handle_query(&q, &proxy));
    assert!(answer_packet(&q, &proxy).is_some());
    assert_eq!(answer_packet(&[1, 2, 3], &proxy), None);
}

#[test]
fn answer_repeats_only_the_question_section() {
    let proxy = DnsProxy::new(53);
    let mut q = query(&["blog", "test"]);
    let question_end = q.len();
    // An additional record after the question is not repeated.
    q.extend_from_slice(&[0, 0, 41, 16, 0, 0, 0, 0, 0, 0, 0]);
    let packed = [4, b'b', b'l', b'o', b'g', 4, b't', b'e', b's', b't', 0];
    let mut expected = vec![0x12, 0x34, 0x81, 0x80, 0x00, 0x01, 0, 1, 0, 0, 0, 0];
    expected.extend_from_slice(&q[12..question_end]);
    expected.extend_from_slice(&packed);
    expected.extend_from_slice(&[0, 1, 0, 1, 0, 0, 1, 44, 0, 4, 127, 0, 0, 1]);
    assert_eq!(handle_query(&q, &proxy), Some(expected));
}

#[test]
fn packed_names_read_back() {
    for name in ["www.shop.test", "a", "café.test", "x.y.z.w"] {
        let packed = pack_name(name);
        assert_eq!(packed.len(), name.len() + 2);
        assert_eq!(parse_qname(&packed, 0), Some((format!("{}.", name), packed.len())));
    }
}
