use boxedcat::stack::ports::{find_available_port, get_port_status, port_succession};

/// Stands for the machine's ports: the usual Redis port is taken by another
/// server, the others are free.
fn is_port_available(port: u16) -> bool {
    port != 6379
}

#[test]
fn test_port_succession_table() {
    let table = port_succession();
    assert_eq!(table.len(), 10);
    assert_eq!(table[0].primary(), 80);
}

#[test]
fn test_find_available_port() {
    // At least one port in the succession list should be available
    let port = find_available_port("redis", is_port_available);
    assert!(port.is_some());
}

#[test]
fn find_available_port_takes_first_free() {
    assert_eq!(find_available_port("http", |p| p != 80), Some(8080));
    assert_eq!(find_available_port("http", |_| true), Some(80));
    assert_eq!(find_available_port("deno", |p| p == 8003), Some(8003));
    assert_eq!(find_available_port("redis", |_| false), None);
    assert_eq!(find_available_port("gopher", |_| true), None);
}

#[test]
fn get_port_status_lists_each_port() {
    let status = get_port_status("postgresql", |p| p % 2 == 0);
    assert_eq!(status, vec![(5432, true), (5433, false), (5434, true), (5435, false)]);
    assert!(get_port_status("unknown", |_| true).is_empty());
}

#[test]
fn first_free_port_agrees_with_status() {
    let probes: [fn(u16) -> bool; 3] = [|p| p % 3 == 0, |_| false, |p| p > 6000];
    for service in ["http", "https", "mariadb", "redis", "deno", "gopher"] {
        for probe in probes {
            let status = get_port_status(service, probe);
            let first = status.iter().find(|s| s.1).map(|s| s.0);
            assert_eq!(find_available_port(service, probe), first);
        }
    }
}
