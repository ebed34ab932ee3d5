use boxedcat::services::ServiceInfo;
use boxedcat::services::apache::ApacheService;
use boxedcat::services::deno::DenoService;
use boxedcat::services::mariadb::MariaDbService;
use boxedcat::services::nginx::NginxService;
use boxedcat::services::php::PhpService;
use boxedcat::services::postgresql::PostgresqlService;
use boxedcat::services::redis::RedisService;
use boxedcat::services::{status_of, tasklist_shows, Arg, CommandPlan, ServiceStatus};

fn root() -> String {
    "C:\\xampp".to_string()
}

fn texts(plan: &CommandPlan) -> Vec<String> {
    plan.args
        .iter()
        .map(|a| match a {
            Arg::Text(t) => t.to_string(),
            Arg::Path(p) => p.join("/"),
        })
        .collect()
}

#[test]
fn status_labels() {
    assert_eq!(ServiceStatus::Running.label(), "Running");
    assert_eq!(ServiceStatus::Stopped.label(), "Stopped");
    assert_eq!(ServiceStatus::Error("x".to_string()).label(), "Error");
    assert_eq!(ServiceStatus::Unknown.label(), "Unknown");
}

#[test]
fn status_from_observations() {
    assert!(matches!(status_of(Some(true), true), ServiceStatus::Running));
    assert!(matches!(status_of(Some(true), false), ServiceStatus::Stopped));
    match status_of(Some(false), true) {
        ServiceStatus::Error(e) => assert_eq!(e, "Executable not found"),
        _ => panic!("a missing executable is an error"),
    }
    assert!(matches!(status_of(None, false), ServiceStatus::Unknown));
}

#[test]
fn tasklist_output_is_searched() {
    let out = b"httpd.exe                     4242 Console                    1     12,345 K\r\n";
    assert!(tasklist_shows(out, "httpd.exe"));
    assert!(!tasklist_shows(out, "mysqld.exe"));
    assert!(!tasklist_shows(b"INFO: No tasks are running", "httpd.exe"));
    // Invalid UTF-8 is replaced, the rest still counts.
    assert!(tasklist_shows(b"\xffphp-cgi.exe", "php-cgi.exe"));
}

#[test]
fn fixed_service_facts() {
    let r = root();
    let a = ApacheService::new(&r);
    assert_eq!(a.root, "C:\\xampp");
    assert_eq!((a.name(), a.display_name(), a.service_type(), a.default_port()), ("apache", "Apache HTTP Server", "httpd", 80));
    assert_eq!(a.exe_path(), vec!["apache", "bin", "httpd.exe"]);
    assert_eq!(a.config_path(), Some(vec!["apache", "conf", "httpd.conf"]));
    let m = MariaDbService::new(&r);
    assert_eq!((m.name(), m.service_type(), m.default_port()), ("mariadb", "mysqld", 3306));
    assert_eq!(m.config_path(), Some(vec!["mysql", "my.ini"]));
    let p = PhpService::new(&r);
    assert_eq!((p.name(), p.service_type(), p.default_port()), ("php", "php-cgi", 9000));
    let n = NginxService::new(&r);
    assert_eq!((n.name(), n.default_port()), ("nginx", 80));
    let pg = PostgresqlService::new(&r);
    assert_eq!((pg.name(), pg.default_port()), ("postgresql", 5432));
    let rd = RedisService::new(&r);
    assert_eq!((rd.name(), rd.default_port()), ("redis", 6379));
    let d = DenoService::new(&r);
    assert_eq!((d.name(), d.default_port()), ("deno", 8000));
}

#[test]
fn apache_plans() {
    let a = ApacheService::new(&root());
    let start = a.start_plan(true).ok().unwrap();
    assert_eq!(start.program, vec!["apache", "bin", "httpd.exe"]);
    assert_eq!(texts(&start), vec!["-k", "start"]);
    let stop = a.stop_plan(true).ok().unwrap();
    assert_eq!(texts(&stop), vec!["-k", "stop"]);
    assert_eq!(a.start_plan(false).err().unwrap(), "Apache not installed");
    assert_eq!(a.stop_plan(false).err().unwrap(), "Apache not installed");
}

#[test]
fn mariadb_plans() {
    let m = MariaDbService::new(&root());
    let start = m.start_plan(true).ok().unwrap();
    assert_eq!(start.program, vec!["mysql", "bin", "mysqld.exe"]);
    assert_eq!(texts(&start), vec!["--defaults-file", "mysql/my.ini"]);
    let stop = m.stop_plan(true).ok().unwrap();
    assert_eq!(stop.program, vec!["mysql", "bin", "mysql.exe"]);
    assert_eq!(texts(&stop), vec!["-u", "root", "--password=", "-e", "SHUTDOWN;"]);
    assert_eq!(m.start_plan(false).err().unwrap(), "MariaDB not installed");
}

#[test]
fn unimplemented_plans() {
    let d = DenoService::new(&root());
    assert_eq!(d.start_plan(true).err().unwrap(), "Not implemented");
    let p = PhpService::new(&root());
    assert_eq!(p.stop_plan(true).err().unwrap(), "Not implemented");
}

#[test]
fn apache_status_after_start_command() {
    let a = ApacheService::new(&root());
    match a.status_from(false, None) {
        ServiceStatus::Error(e) => assert_eq!(e, "Apache not installed"),
        _ => panic!(),
    }
    assert!(matches!(a.status_from(true, Some(Ok(true))), ServiceStatus::Running));
    assert!(matches!(a.status_from(true, Some(Ok(false))), ServiceStatus::Stopped));
    match a.status_from(true, Some(Err("access denied".to_string()))) {
        ServiceStatus::Error(e) => assert_eq!(e, "access denied"),
        _ => panic!(),
    }
}

#[test]
fn php_status_and_output() {
    let p = PhpService::new(&root());
    assert!(matches!(p.status_from(true), ServiceStatus::Stopped));
    match p.status_from(false) {
        ServiceStatus::Error(e) => assert_eq!(e, "PHP not installed"),
        _ => panic!(),
    }
    assert_eq!(p.version_string(Some("PHP 8.4.13 (cli) (built: Oct  1 2025)\nCopyright (c) The PHP Group\n")), "PHP 8.4.13 (cli) (built: Oct  1 2025)");
    assert_eq!(p.version_string(Some("")), "Not found");
    assert_eq!(p.version_string(None), "Not found");
    let mods = p.modules(Some("[PHP Modules]\r\nCore\r\n  date \r\n\r\n[Zend Modules]\r\n"));
    assert_eq!(mods, vec!["Core".to_string(), "date".to_string()]);
    assert!(p.modules(None).is_empty());
}

#[test]
fn service_info_from_manager() {
    let info = ServiceInfo::from_manager("redis", "Redis", "redis-server", 6379, ServiceStatus::Stopped, true, false);
    assert_eq!((info.name.as_str(), info.display_name.as_str(), info.service_type.as_str()), ("redis", "Redis", "redis-server"));
    assert_eq!((info.port, info.version.as_str(), info.is_installed, info.is_running), (6379, "detected", true, false));
    assert!(matches!(info.status, ServiceStatus::Stopped));
}
