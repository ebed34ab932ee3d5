use boxedcat::host::ram_mib;
use boxedcat::host::{get_certs_dir, process_listed};
use boxedcat::host::{
    adapter_name, control_target, decode_row_port, find_listener, init_paths, init_ports, init_services,
    is_virtual_adapter, local_ip, parse_download_url, process_image, sanitize_name, scan_port_at,
    scan_port_count, scan_projects, start_command, stop_command, vhost_file_name, vhost_snippet,
    AdapterInfo, ControlTarget, ScanEntry,
};
use boxedcat::services::Arg;

#[test]
fn sanitize_name_refuses_paths() {
    assert!(sanitize_name("blog"));
    assert!(sanitize_name("my.app"));
    assert!(!sanitize_name(""));
    assert!(!sanitize_name("a/b"));
    assert!(!sanitize_name("a\\b"));
    assert!(!sanitize_name("..hidden"));
    assert!(!sanitize_name("a\0b"));
}

#[test]
fn virtual_adapters_are_recognised() {
    assert!(is_virtual_adapter("vEthernet (WSL)", "Hyper-V Virtual Ethernet Adapter"));
    assert!(is_virtual_adapter("Ethernet 3", "TAP-Windows Adapter V9"));
    assert!(is_virtual_adapter("OpenVPN", "x"));
    assert!(!is_virtual_adapter("Ethernet", "Intel(R) Ethernet Connection I219-V"));
    assert!(!is_virtual_adapter("Wi-Fi", "Intel(R) Wireless-AC 9560"));
}

#[test]
fn download_url_parts() {
    let t = parse_download_url("https://example.com/files/a.zip");
    assert!(t.use_https);
    assert_eq!((t.port, t.host.as_str(), t.path.as_str()), (443, "example.com", "/files/a.zip"));
    let t = parse_download_url("http://example.org");
    assert!(!t.use_https);
    assert_eq!((t.port, t.host.as_str(), t.path.as_str()), (80, "example.org", "/"));
    let t = parse_download_url("example.org/x");
    assert_eq!((t.port, t.host.as_str(), t.path.as_str()), (80, "example.org", "/x"));
    // The scheme is recognised in any case but only removed as written.
    let t = parse_download_url("HTTPS://x.com/a");
    assert!(t.use_https);
    assert_eq!((t.port, t.host.as_str(), t.path.as_str()), (443, "HTTPS:", "//x.com/a"));
}

fn adapter(status: i32, if_type: u32, name: &str, desc: &str, ipv4: Option<(u8, u8, u8, u8)>) -> AdapterInfo {
    AdapterInfo {
        oper_status: status,
        if_type,
        friendly_name: name.to_string(),
        description: desc.to_string(),
        ipv4,
    }
}

#[test]
fn local_address_skips_unusable_adapters() {
    let adapters = vec![
        adapter(2, 6, "Ethernet 2", "Realtek", Some((192, 168, 0, 2))),
        adapter(1, 24, "Loopback Pseudo-Interface 1", "Software Loopback Interface 1", Some((127, 0, 0, 1))),
        adapter(1, 6, "vEthernet (Default Switch)", "Hyper-V", Some((172, 20, 0, 1))),
        adapter(1, 6, "Ethernet 4", "Realtek", Some((169, 254, 3, 4))),
        adapter(1, 6, "Ethernet 5", "Realtek", None),
        adapter(1, 6, "Ethernet", "Intel(R) Ethernet Connection", Some((192, 168, 1, 23))),
        adapter(1, 71, "Wi-Fi", "Intel(R) Wireless", Some((10, 0, 0, 7))),
    ];
    assert_eq!(local_ip(&adapters), "192.168.1.23");
    assert_eq!(adapter_name(&adapters), "Ethernet");
    assert_eq!(local_ip(&Vec::new()), "127.0.0.1");
    assert_eq!(adapter_name(&Vec::new()), "Unknown");
}

#[test]
fn tcp_table_ports() {
    assert_eq!(decode_row_port(0x5000), 80);
    assert_eq!(decode_row_port(0xBB01), 443);
    assert_eq!(decode_row_port(0xFFFF_EA0C), 3306);
    let rows = vec![(0x5000, 4), (0xBB01, 1234), (0xBB01, 99)];
    assert_eq!(find_listener(&rows, 443), Some(1234));
    assert_eq!(find_listener(&rows, 80), Some(4));
    assert_eq!(find_listener(&rows, 22), None);
}

#[test]
fn scanned_ports() {
    assert_eq!(scan_port_count(), 10);
    let all: Vec<u16> = (0..scan_port_count()).map(|i| scan_port_at(i).unwrap()).collect();
    assert_eq!(all, vec![80, 443, 3306, 5432, 6379, 8080, 8443, 3307, 3308, 3309]);
    assert_eq!(scan_port_at(10), None);
}

#[test]
fn vhost_snippet_text() {
    let got = vhost_snippet("blog", "C:\\xampp\\www\\blog", 8080);
    let expected = "<VirtualHost *:8080>\n    DocumentRoot \"C:/xampp/www/blog\"\n    ServerName blog.test\n    <Directory \"C:/xampp/www/blog\">\n        Options Indexes FollowSymLinks\n        AllowOverride All\n        Require all granted\n    </Directory>\n</VirtualHost>";
    assert_eq!(got, expected);
    assert_eq!(vhost_file_name("blog"), "boxedcat-blog.conf");
}

#[test]
fn service_and_port_tables() {
    let p = init_paths("C:\\xampp");
    assert_eq!(p.apache_conf, "C:\\xampp\\apache\\conf\\httpd.conf");
    assert_eq!(p.mariadb_exe, "C:\\xampp\\mysql\\bin\\mysqld.exe");
    assert_eq!(p.cert_file, "C:\\xampp\\certs\\server.crt");
    assert_eq!(p.key_file, "C:\\xampp\\certs\\server.key");
    let rows = init_services(&p, true, false, true, false);
    assert_eq!(rows.len(), 4);
    assert_eq!((rows[0].name.as_str(), rows[0].status.as_str(), rows[0].port), ("apache", "Detected", 80));
    assert_eq!((rows[1].status.as_str(), rows[1].version.as_str()), ("Not Found", "11.4.13"));
    assert_eq!(rows[1].config_path, "C:\\xampp\\mysql\\bin");
    assert_eq!((rows[2].name.as_str(), rows[2].port, rows[2].version.as_str()), ("php", 9000, "8.5.10"));
    assert_eq!((rows[3].display_name.as_str(), rows[3].status.as_str()), ("HTTPS/TLS", "No Certificate"));
    assert_eq!(init_services(&p, false, false, false, true)[3].status, "Configured");
    let ports = init_ports();
    assert_eq!(ports.len(), 5);
    assert_eq!((ports[4].service.as_str(), ports[4].primary, ports[4].fallbacks.as_str()), ("redis", 6379, "6380, 6381, 6382"));
}

#[test]
fn control_commands() {
    assert!(matches!(control_target("apache"), Some(ControlTarget::Apache)));
    assert!(matches!(control_target("mariadb"), Some(ControlTarget::MariaDb)));
    assert!(control_target("nginx").is_none());
    assert!(control_target("Apache").is_none());
    let start = start_command(&ControlTarget::MariaDb);
    assert_eq!(start.program, vec!["mysql", "bin", "mysqld.exe"]);
    assert!(matches!(&start.args[1], Arg::Path(p) if *p == vec!["mysql", "my.ini"]));
    let stop = stop_command(&ControlTarget::Apache);
    assert!(matches!(stop.args[1], Arg::Text("stop")));
    assert_eq!(process_image(&ControlTarget::MariaDb), "mysqld.exe");
    assert_eq!(process_image(&ControlTarget::Apache), "httpd.exe");
}

fn scan(name: &str, is_dir: bool, php: bool, html: bool, composer: bool, package: bool) -> ScanEntry {
    ScanEntry {
        name: name.to_string(),
        path: format!("C:\\xampp\\www\\{}", name),
        is_dir,
        has_index_php: php,
        has_index_html: html,
        has_composer: composer,
        has_package: package,
    }
}

#[test]
fn project_scan() {
    let entries = vec![
        scan("dashboard", true, true, false, false, false),
        scan("shop", true, true, false, true, true),
        scan(".vscode", true, false, false, false, false),
        scan("spa", true, false, true, false, true),
        scan("notes.txt", false, false, false, false, false),
        scan("site", true, false, true, false, false),
        scan("empty", true, false, false, false, false),
        scan("js", true, false, false, false, false),
    ];
    let rows = scan_projects(&entries);
    let kinds: Vec<(&str, &str, bool)> =
        rows.iter().map(|r| (r.name.as_str(), r.project_type.as_str(), r.has_entry_point)).collect();
    assert_eq!(
        kinds,
        vec![("shop", "PHP", true), ("spa", "Node.js", true), ("site", "Static", true), ("empty", "Unknown", false)]
    );
    assert_eq!(rows[0].server_name, "shop.test");
    assert_eq!(rows[0].path, "C:\\xampp\\www\\shop");
}

#[test]
fn certificate_directory_and_process_list() {
    assert_eq!(get_certs_dir("D:\\stack"), "D:\\stack\\certs");
    let names = vec!["System".to_string(), "HTTPD.EXE".to_string()];
    assert!(process_listed(&names, "httpd.exe"));
    assert!(!process_listed(&names, "mysqld.exe"));
    assert!(!process_listed(&Vec::new(), "httpd.exe"));
}

#[test]
fn unknown_adapter_exactly_when_loopback() {
    let cases = vec![
        Vec::new(),
        vec![adapter(1, 6, "Ethernet", "Intel", Some((127, 0, 0, 1)))],
        vec![adapter(1, 6, "Ethernet", "Intel", Some((10, 1, 2, 3)))],
        vec![adapter(1, 6, "Ethernet", "Intel", Some((12, 7, 0, 1)))],
        vec![adapter(2, 6, "Ethernet", "Intel", Some((10, 1, 2, 3)))],
    ];
    for adapters in cases {
        assert_eq!(adapter_name(&adapters) == "Unknown", local_ip(&adapters) == "127.0.0.1");
    }
}

#[test]
fn memory_in_mib() {
    assert_eq!(ram_mib(17_179_869_184), 16384);
    assert_eq!(ram_mib(1_048_575), 0);
    assert_eq!(ram_mib(u64::MAX), u64::MAX / 1_048_576);
}

#[test]
fn scheme_case_with_non_ascii_rest() {
    let t = parse_download_url("HtTpS://bücher.example/ä");
    assert!(t.use_https);
    assert_eq!((t.port, t.host.as_str(), t.path.as_str()), (443, "HtTpS:", "//bücher.example/ä"));
    let t = parse_download_url("https://bücher.example/ä");
    assert_eq!((t.host.as_str(), t.path.as_str()), ("bücher.example", "/ä"));
}
