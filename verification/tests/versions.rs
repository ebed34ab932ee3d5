use boxedcat::stack::versions::{
    get_recommended_version, get_safe_versions, is_version_safe, version_registry, ComponentVersion,
};

#[test]
fn registry_holds_all_releases() {
    let reg = version_registry();
    assert_eq!(reg.len(), 18);
    assert_eq!(reg[0].name, "apache");
    assert_eq!(reg[0].version, "2.4.66");
    assert_eq!(reg[17].name, "deno");
    assert!(reg.iter().all(|v| v.is_safe()));
}

#[test]
fn safe_versions_in_registry_order() {
    let v: Vec<&str> = get_safe_versions("mariadb").iter().map(|c| c.version).collect();
    assert_eq!(v, vec!["11.4.13", "11.2.5", "10.11.11"]);
    assert!(get_safe_versions("tomcat").is_empty());
}

#[test]
fn recommended_prefers_lts() {
    let php = get_recommended_version("php").unwrap();
    assert_eq!(php.version, "8.4.13");
    assert!(php.is_lts);
    assert_eq!(get_recommended_version("nginx").unwrap().version, "1.26.2");
    assert_eq!(get_recommended_version("postgresql").unwrap().version, "16.6");
}

#[test]
fn recommended_falls_back_to_first_safe() {
    let deno = get_recommended_version("deno").unwrap();
    assert_eq!(deno.version, "2.1.4");
    assert!(!deno.is_lts);
    assert!(get_recommended_version("unknown").is_none());
}

#[test]
fn version_safety() {
    assert!(is_version_safe("apache", "2.4.66"));
    assert!(is_version_safe("valkey", "7.2.7"));
    assert!(!is_version_safe("apache", "2.4.0"));
    assert!(!is_version_safe("redis", "2.4.66"));
}

#[test]
fn new_release_has_no_known_vulnerability() {
    let v = ComponentVersion::new("x", "1.0", "stable", false);
    assert!(v.is_safe());
    assert!(!v.has_high_cve && !v.has_critical_cve);
    let mut bad = v;
    bad.has_critical_cve = true;
    assert!(!bad.is_safe());
}

#[test]
fn registry_keeps_lts_and_stable_only() {
    for v in version_registry() {
        assert!(v.is_lts || v.channel == "stable" || v.channel == "latest", "{} {}", v.name, v.version);
    }
}

#[test]
fn version_safe_exactly_when_listed() {
    let mut pairs: Vec<(&str, &str)> = version_registry().iter().map(|v| (v.name, v.version)).collect();
    pairs.push(("apache", "2.2.0"));
    pairs.push(("php", "7.4.0"));
    pairs.push(("unknown", "1.0"));
    for (c, v) in pairs {
        let listed = get_safe_versions(c).iter().any(|s| s.version == v);
        assert_eq!(is_version_safe(c, v), listed, "{} {}", c, v);
    }
    assert!(!is_version_safe("apache", "2.2.0"));
    assert!(is_version_safe("apache", "2.4.66"));
}
