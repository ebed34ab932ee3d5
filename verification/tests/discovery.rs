use boxedcat::stack::discovery::ComponentInfo;
use boxedcat::stack::discovery::{component_kinds, discover_installation, extract_version, pick_root, InstallRoot};

#[test]
fn version_from_mariadb_banner() {
    assert_eq!(extract_version("mysqld.exe  Ver 11.4.13-MariaDB for Win64 on AMD64", false), "11.4.13");
}

#[test]
fn version_from_apache_banner() {
    let out = "Server version: Apache/2.4.66 (Win64)\nServer built:   Dec  4 2025 10:00:00\n";
    assert_eq!(extract_version(out, false), "2.4.66");
}

#[test]
fn version_from_deno_first_line() {
    assert_eq!(extract_version("deno 2.1.4\nv8 13.0.245.12\ntypescript 5.6.2", true), "2.1.4");
    // The last word of the first line does not start with a digit: the
    // general scan takes over.
    assert_eq!(extract_version("deno 2.1.4 (stable, release)\nv8 13.0", true), "2.1.4");
}

#[test]
fn version_words_must_be_numeric_parts() {
    assert_eq!(extract_version("v1.x build 99999999999.1 then +1.2;", false), "1.2");
    assert_eq!(extract_version("redis 7.4.2.", false), "redis 7.4.2.");
}

#[test]
fn version_fallback_is_first_line_cut() {
    assert_eq!(extract_version("  no version here  \nnext 1.2", false), "1.2");
    assert_eq!(extract_version("  no version here  \nnext", false), "no version here");
    assert_eq!(extract_version("", false), "unknown");
    let long = "x".repeat(70);
    assert_eq!(extract_version(&long, false), "x".repeat(60));
    let many = "1.2.3.4.5.6.7.8.9.10.11";
    assert_eq!(extract_version(many, false), many);
}

#[test]
fn component_table_has_ten_rows() {
    let kinds = component_kinds();
    assert_eq!(kinds.len(), 10);
    assert_eq!(kinds[2].dir, "mysql");
    assert_eq!(kinds[2].name, "mariadb");
    assert_eq!(kinds[8].name, "deno");
    assert!(kinds[8].is_deno);
    assert_eq!(kinds[9].exe_name, "composer.bat");
}

#[test]
fn installation_from_found_components() {
    let mut found: Vec<Option<String>> = vec![None; 10];
    found[0] = Some("2.4.66".to_string());
    found[2] = Some("11.4.13".to_string());
    found[5] = Some("8.4.13".to_string());
    let inst = discover_installation("C:\\stack".to_string(), found);
    assert_eq!(inst.root, "C:\\stack");
    assert_eq!(inst.www, "C:\\stack\\www");
    let apache = inst.apache.as_ref().unwrap();
    assert_eq!(apache.name, "apache");
    assert_eq!(apache.display_name, "Apache HTTP Server");
    assert_eq!(apache.path, "C:\\stack\\apache");
    assert_eq!(apache.exe_name, "bin/httpd.exe");
    assert_eq!(apache.version, "2.4.66");
    assert!(apache.is_installed);
    let mariadb = inst.mariadb.as_ref().unwrap();
    assert_eq!((mariadb.name.as_str(), mariadb.path.as_str()), ("mariadb", "C:\\stack\\mysql"));
    assert!(inst.nginx.is_none());
    let list = inst.components();
    let names: Vec<&str> = list.iter().map(|c| c.name.as_str()).collect();
    assert_eq!(names, vec!["apache", "mariadb", "php"]);
    assert_eq!(list[2].path, "C:\\stack\\php");
}

#[test]
fn installation_under_a_drive_root() {
    let mut found: Vec<Option<String>> = vec![None; 10];
    found[8] = Some("2.1.4".to_string());
    let inst = discover_installation("D:\\".to_string(), found);
    assert_eq!(inst.www, "D:\\www");
    assert_eq!(inst.deno.as_ref().unwrap().path, "D:\\deno");
    assert_eq!(inst.components().len(), 1);
}

#[test]
fn component_executable_path() {
    let mut c = ComponentInfo {
        name: "apache".to_string(),
        display_name: "Apache HTTP Server".to_string(),
        path: "C:\\xampp\\apache".to_string(),
        version: "2.4.66".to_string(),
        exe_name: "bin/httpd.exe".to_string(),
        is_installed: true,
    };
    assert_eq!(c.exe_path(), Some("C:\\xampp\\apache\\bin/httpd.exe".to_string()));
    c.exe_name = String::new();
    assert_eq!(c.exe_path(), None);
}

#[test]
fn installation_root_choice() {
    assert!(matches!(pick_root(true, true, true), Some(InstallRoot::BesideExecutable)));
    assert!(matches!(pick_root(false, true, true), Some(InstallRoot::CXampp)));
    assert!(matches!(pick_root(false, false, true), Some(InstallRoot::DXampp)));
    assert!(pick_root(false, false, false).is_none());
}
