//! Version registry: LTS-first policy, aware of known vulnerabilities.

use vstd::prelude::*;

use crate::text::same_text;

verus! {

/// One known release of a component.
#[derive(Clone, Copy)]
pub struct ComponentVersion {
    pub name: &'static str,
    pub version: &'static str,
    /// `lts`, `stable` or `latest`.
    pub channel: &'static str,
    pub is_lts: bool,
    pub has_high_cve: bool,
    pub has_critical_cve: bool,
}

/// A release as plain values: name, version, channel, LTS, high CVE,
/// critical CVE.
pub type VersionEntry = (Seq<char>, Seq<char>, Seq<char>, bool, bool, bool);

pub open spec fn entry_of(v: ComponentVersion) -> VersionEntry {
    (v.name@, v.version@, v.channel@, v.is_lts, v.has_high_cve, v.has_critical_cve)
}

/// Safe: no known high or critical vulnerability.
pub open spec fn entry_safe(e: VersionEntry) -> bool {
    !e.4 && !e.5
}

impl ComponentVersion {
    /// A release with no known vulnerability.
    pub fn new(name: &'static str, version: &'static str, channel: &'static str, is_lts: bool) -> (r: Self)
        ensures
            r.name == name,
            r.version == version,
            r.channel == channel,
            r.is_lts == is_lts,
            !r.has_high_cve,
            !r.has_critical_cve,
    {
        ComponentVersion { name, version, channel, is_lts, has_high_cve: false, has_critical_cve: false }
    }

    pub fn is_safe(&self) -> (r: bool)
        ensures
            r == entry_safe(entry_of(*self)),
    {
        !self.has_high_cve && !self.has_critical_cve
    }
}

/// The registry: LTS and latest stable releases only.
pub open spec fn registry() -> Seq<VersionEntry> {
    seq![
        ("apache"@, "2.4.66"@, "stable"@, true, false, false),
        ("apache"@, "2.4.65"@, "stable"@, true, false, false),
        ("nginx"@, "1.26.2"@, "stable"@, true, false, false),
        ("nginx"@, "1.24.0"@, "lts"@, true, false, false),
        ("mariadb"@, "11.4.13"@, "lts"@, true, false, false),
        ("mariadb"@, "11.2.5"@, "lts"@, true, false, false),
        ("mariadb"@, "10.11.11"@, "lts"@, true, false, false),
        ("mysql"@, "8.4.5"@, "lts"@, true, false, false),
        ("mysql"@, "8.0.40"@, "stable"@, true, false, false),
        ("postgresql"@, "16.6"@, "lts"@, true, false, false),
        ("postgresql"@, "17.2"@, "stable"@, true, false, false),
        ("php"@, "8.5.10"@, "latest"@, false, false, false),
        ("php"@, "8.4.13"@, "lts"@, true, false, false),
        ("php"@, "8.3.15"@, "lts"@, true, false, false),
        ("redis"@, "7.4.2"@, "stable"@, true, false, false),
        ("redis"@, "7.2.7"@, "lts"@, true, false, false),
        ("valkey"@, "7.2.7"@, "stable"@, true, false, false),
        ("deno"@, "2.1.4"@, "stable"@, false, false, false),
    ]
}

/// The registry, in order.
pub fn version_registry() -> (v: Vec<ComponentVersion>)
    ensures
        v@.map_values(|c: ComponentVersion| entry_of(c)) == registry(),
{
    let mut v: Vec<ComponentVersion> = Vec::new();
    v.push(ComponentVersion::new("apache", "2.4.66", "stable", true));
    v.push(ComponentVersion::new("apache", "2.4.65", "stable", true));
    v.push(ComponentVersion::new("nginx", "1.26.2", "stable", true));
    v.push(ComponentVersion::new("nginx", "1.24.0", "lts", true));
    v.push(ComponentVersion::new("mariadb", "11.4.13", "lts", true));
    v.push(ComponentVersion::new("mariadb", "11.2.5", "lts", true));
    v.push(ComponentVersion::new("mariadb", "10.11.11", "lts", true));
    v.push(ComponentVersion::new("mysql", "8.4.5", "lts", true));
    v.push(ComponentVersion::new("mysql", "8.0.40", "stable", true));
    v.push(ComponentVersion::new("postgresql", "16.6", "lts", true));
    v.push(ComponentVersion::new("postgresql", "17.2", "stable", true));
    v.push(ComponentVersion::new("php", "8.5.10", "latest", false));
    v.push(ComponentVersion::new("php", "8.4.13", "lts", true));
    v.push(ComponentVersion::new("php", "8.3.15", "lts", true));
    v.push(ComponentVersion::new("redis", "7.4.2", "stable", true));
    v.push(ComponentVersion::new("redis", "7.2.7", "lts", true));
    v.push(ComponentVersion::new("valkey", "7.2.7", "stable", true));
    v.push(ComponentVersion::new("deno", "2.1.4", "stable", false));
    assert(v@.map_values(|c: ComponentVersion| entry_of(c)) =~= registry());
    v
}

pub open spec fn safe_for(component: Seq<char>) -> spec_fn(VersionEntry) -> bool {
    |e: VersionEntry| e.0 == component && entry_safe(e)
}

/// The safe releases of `component`, in registry order.
pub open spec fn safe_versions(component: Seq<char>) -> Seq<VersionEntry> {
    registry().filter(safe_for(component))
}

/// The first entry of `s` that is LTS.
pub open spec fn first_lts(s: Seq<VersionEntry>) -> Option<VersionEntry>
    decreases s.len(),
{
    if s.len() == 0 {
        None
    } else if s[0].3 {
        Some(s[0])
    } else {
        first_lts(s.drop_first())
    }
}

/// The recommended release: the first safe LTS one, else the first safe one.
pub open spec fn recommended(component: Seq<char>) -> Option<VersionEntry> {
    let safe = safe_versions(component);
    match first_lts(safe) {
        Some(e) => Some(e),
        None => if safe.len() > 0 {
            Some(safe[0])
        } else {
            None
        },
    }
}

/// The first registry entry for `component` at `version`.
pub open spec fn first_release(s: Seq<VersionEntry>, component: Seq<char>, version: Seq<char>) -> Option<
    VersionEntry,
>
    decreases s.len(),
{
    if s.len() == 0 {
        None
    } else if s[0].0 == component && s[0].1 == version {
        Some(s[0])
    } else {
        first_release(s.drop_first(), component, version)
    }
}

/// A known release that is safe; an unknown version counts as unsafe.
pub open spec fn version_safe(component: Seq<char>, version: Seq<char>) -> bool {
    match first_release(registry(), component, version) {
        Some(e) => entry_safe(e),
        None => false,
    }
}

/// The safe releases of `component`, in registry order.
pub fn get_safe_versions(component: &str) -> (r: Vec<ComponentVersion>)
    ensures
        r@.map_values(|c: ComponentVersion| entry_of(c)) == safe_versions(component@),
{
    let reg = version_registry();
    let ghost all = registry();
    let mut out: Vec<ComponentVersion> = Vec::new();
    for i in 0..reg.len()
        invariant
            reg@.map_values(|c: ComponentVersion| entry_of(c)) == all,
            all == registry(),
            out@.map_values(|c: ComponentVersion| entry_of(c)) == all.take(i as int).filter(
                safe_for(component@),
            ),
    {
        proof {
            reveal(Seq::filter);
            assert(all.take(i + 1).drop_last() == all.take(i as int));
            assert(all.take(i + 1).last() == entry_of(reg@[i as int]));
        }
        let v = reg[i];
        let ghost before = out@;
        if same_text(v.name, component) && v.is_safe() {
            out.push(v);
            assert(out@.map_values(|c: ComponentVersion| entry_of(c)) =~= before.map_values(
                |c: ComponentVersion| entry_of(c),
            ).push(entry_of(v)));
        }
    }
    assert(all.take(reg.len() as int) == all);
    out
}

/// The recommended release of `component`: the first safe LTS release, else
/// the first safe one.
pub fn get_recommended_version(component: &str) -> (r: Option<ComponentVersion>)
    ensures
        match r {
            Some(v) => recommended(component@) == Some(entry_of(v)),
            None => recommended(component@) is None,
        },
{
    let safe = get_safe_versions(component);
    let ghost sv = safe_versions(component@);
    assert(sv.skip(0) == sv);
    for i in 0..safe.len()
        invariant
            safe@.map_values(|c: ComponentVersion| entry_of(c)) == sv,
            sv == safe_versions(component@),
            first_lts(sv) == first_lts(sv.skip(i as int)),
    {
        assert(sv.skip(i as int)[0] == entry_of(safe@[i as int]));
        if safe[i].is_lts {
            return Some(safe[i]);
        }
        assert(sv.skip(i as int).drop_first() == sv.skip(i + 1));
    }
    assert(sv.skip(safe.len() as int).len() == 0);
    if safe.len() > 0 {
        assert(sv[0] == entry_of(safe@[0]));
        Some(safe[0])
    } else {
        None
    }
}

/// Whether `version` of `component` is a known, safe release.
pub fn is_version_safe(component: &str, version: &str) -> (r: bool)
    ensures
        r == version_safe(component@, version@),
{
    let reg = version_registry();
    let ghost all = registry();
    assert(all.skip(0) == all);
    for i in 0..reg.len()
        invariant
            reg@.map_values(|c: ComponentVersion| entry_of(c)) == all,
            all == registry(),
            first_release(all, component@, version@) == first_release(
                all.skip(i as int),
                component@,
                version@,
            ),
    {
        assert(all.skip(i as int)[0] == entry_of(reg@[i as int]));
        if same_text(reg[i].name, component) && same_text(reg[i].version, version) {
            return reg[i].is_safe();
        }
        assert(all.skip(i as int).drop_first() == all.skip(i + 1));
    }
    assert(all.skip(reg.len() as int).len() == 0);
    false
}


proof fn lemma_first_lts(s: Seq<VersionEntry>)
    ensures
        first_lts(s) matches Some(e) ==> s.contains(e) && e.3,
        first_lts(s) is None ==> forall|i: int| 0 <= i < s.len() ==> !(#[trigger] s[i]).3,
    decreases s.len(),
{
    if s.len() > 0 && !s[0].3 {
        lemma_first_lts(s.drop_first());
        if let Some(e) = first_lts(s) {
            let k = choose|k: int| 0 <= k < s.drop_first().len() && s.drop_first()[k] == e;
            assert(s[k + 1] == e);
        }
        assert forall|i: int| 0 <= i < s.len() && first_lts(s) is None implies !(#[trigger] s[i]).3 by {
            if i > 0 {
                assert(s[i] == s.drop_first()[i - 1]);
            }
        }
    }
    if s.len() > 0 && s[0].3 {
        assert(s.contains(s[0]));
    }
}

proof fn lemma_first_release(s: Seq<VersionEntry>, component: Seq<char>, version: Seq<char>)
    ensures
        first_release(s, component, version) matches Some(e) ==> exists|i: int|
            0 <= i < s.len() && s[i] == e && e.0 == component && e.1 == version,
    decreases s.len(),
{
    if s.len() > 0 && !(s[0].0 == component && s[0].1 == version) {
        lemma_first_release(s.drop_first(), component, version);
        if let Some(e) = first_release(s, component, version) {
            let k = choose|k: int|
                0 <= k < s.drop_first().len() && s.drop_first()[k] == e && e.0 == component && e.1
                    == version;
            assert(s[k + 1] == e);
        }
    }
    if s.len() > 0 && s[0].0 == component && s[0].1 == version {
        assert(s[0] == s[0]);
    }
}

/// The registry keeps LTS releases and the latest stable ones only: every
/// release is LTS or on the `stable` or `latest` channel.
pub proof fn law_registry_is_lts_or_stable()
    ensures
        forall|i: int|
            0 <= i < registry().len() ==> (#[trigger] registry()[i]).3 || registry()[i].2 == "stable"@
                || registry()[i].2 == "latest"@,
{
}

/// The recommended release of a component, when there is one, is a safe
/// release of that component.
pub proof fn law_recommended_is_safe(component: Seq<char>)
    ensures
        recommended(component) matches Some(e) ==> safe_versions(component).contains(e) && e.0
            == component && entry_safe(e),
{
    broadcast use vstd::seq_lib::group_filter_ensures;

    let safe = safe_versions(component);
    lemma_first_lts(safe);
    if safe.len() > 0 {
        assert(safe.contains(safe[0]));
    }
    if let Some(e) = recommended(component) {
        assert(safe.contains(e));
        let k = choose|k: int| 0 <= k < safe.len() && safe[k] == e;
        assert(safe_for(component)(safe[k]));
    }
}

/// A component has a recommended release exactly when it has a safe one.
pub proof fn law_recommendation_exists(component: Seq<char>)
    ensures
        recommended(component) is Some <==> safe_versions(component).len() > 0,
{
    let safe = safe_versions(component);
    lemma_first_lts(safe);
    if let Some(e) = first_lts(safe) {
        assert(safe.contains(e));
    }
}

/// LTS is preferred: when some safe release of a component is LTS, the
/// recommended one is LTS.
pub proof fn law_recommended_prefers_lts(component: Seq<char>)
    ensures
        (exists|i: int| 0 <= i < safe_versions(component).len() && (#[trigger] safe_versions(component)[i]).3)
            ==> (recommended(component) matches Some(e) && e.3),
{
    lemma_first_lts(safe_versions(component));
}

/// A version reported safe is listed among the safe releases of its
/// component.
pub proof fn law_safe_version_listed(component: Seq<char>, version: Seq<char>)
    ensures
        version_safe(component, version) ==> exists|i: int|
            0 <= i < safe_versions(component).len() && (#[trigger] safe_versions(component)[i]).1
                == version,
{
    broadcast use vstd::seq_lib::group_filter_ensures;

    lemma_first_release(registry(), component, version);
    if version_safe(component, version) {
        let e = first_release(registry(), component, version).unwrap();
        let k = choose|k: int|
            0 <= k < registry().len() && registry()[k] == e && e.0 == component && e.1 == version;
        assert(safe_for(component)(registry()[k]));
        assert(safe_versions(component).contains(e));
        let j = choose|j: int| 0 <= j < safe_versions(component).len() && safe_versions(component)[j] == e;
        assert(safe_versions(component)[j].1 == version);
    }
}

proof fn lemma_first_release_exists(s: Seq<VersionEntry>, component: Seq<char>, version: Seq<char>, i: int)
    requires
        0 <= i < s.len(),
        s[i].0 == component,
        s[i].1 == version,
    ensures
        first_release(s, component, version) is Some,
    decreases s.len(),
{
    if i > 0 && !(s[0].0 == component && s[0].1 == version) {
        assert(s.drop_first()[i - 1] == s[i]);
        lemma_first_release_exists(s.drop_first(), component, version, i - 1);
    }
}

proof fn lemma_filter_block(s: Seq<VersionEntry>, p: spec_fn(VersionEntry) -> bool, i: int, k: int)
    requires
        0 <= i <= k <= s.len(),
        forall|j: int| 0 <= j < s.len() ==> (p(#[trigger] s[j]) <==> i <= j < k),
    ensures
        s.filter(p) == s.subrange(i, k),
    decreases s.len(),
{
    reveal(Seq::filter);
    if s.len() > 0 {
        let n = s.len() - 1;
        let d = s.drop_last();
        assert forall|j: int| 0 <= j < d.len() implies (p(#[trigger] d[j]) <==> i <= j < k) by {
            assert(d[j] == s[j]);
        }
        assert(s.last() == s[n]);
        if k <= n {
            lemma_filter_block(d, p, i, k);
            assert(d.subrange(i, k) =~= s.subrange(i, k));
        } else if i == k {
            lemma_filter_block(d, p, n, n);
            assert(d.subrange(n, n) =~= s.subrange(i, k));
        } else {
            lemma_filter_block(d, p, i, n);
            assert(d.subrange(i, n).push(s[n]) =~= s.subrange(i, k));
        }
    } else {
        assert(s.subrange(i, k) =~= Seq::<VersionEntry>::empty());
    }
}

proof fn lemma_component_block(c: Seq<char>, i: int, k: int)
    requires
        0 <= i <= k <= registry().len(),
        forall|j: int| 0 <= j < registry().len() ==> (#[trigger] registry()[j].0 == c <==> i <= j < k),
    ensures
        safe_versions(c) == registry().subrange(i, k),
{
    law_registry_is_safe();
    assert forall|j: int| 0 <= j < registry().len() implies (safe_for(c)(#[trigger] registry()[j]) <==> i <= j < k) by {
        assert(entry_safe(registry()[j]));
    }
    lemma_filter_block(registry(), safe_for(c), i, k);
}

/// The documented registry, component by component: the safe releases in
/// the order they are listed, and the recommended one (the first LTS release,
/// else the first release).
pub proof fn law_documented_releases()
    ensures
        safe_versions("apache"@).map_values(|e: VersionEntry| e.1) == seq!["2.4.66"@, "2.4.65"@],
        safe_versions("nginx"@).map_values(|e: VersionEntry| e.1) == seq!["1.26.2"@, "1.24.0"@],
        safe_versions("mariadb"@).map_values(|e: VersionEntry| e.1) == seq!["11.4.13"@, "11.2.5"@, "10.11.11"@],
        safe_versions("mysql"@).map_values(|e: VersionEntry| e.1) == seq!["8.4.5"@, "8.0.40"@],
        safe_versions("postgresql"@).map_values(|e: VersionEntry| e.1) == seq!["16.6"@, "17.2"@],
        safe_versions("php"@).map_values(|e: VersionEntry| e.1) == seq!["8.5.10"@, "8.4.13"@, "8.3.15"@],
        safe_versions("redis"@).map_values(|e: VersionEntry| e.1) == seq!["7.4.2"@, "7.2.7"@],
        safe_versions("valkey"@).map_values(|e: VersionEntry| e.1) == seq!["7.2.7"@],
        safe_versions("deno"@).map_values(|e: VersionEntry| e.1) == seq!["2.1.4"@],
        recommended("apache"@) == Some(("apache"@, "2.4.66"@, "stable"@, true, false, false)),
        recommended("nginx"@) == Some(("nginx"@, "1.26.2"@, "stable"@, true, false, false)),
        recommended("mariadb"@) == Some(("mariadb"@, "11.4.13"@, "lts"@, true, false, false)),
        recommended("mysql"@) == Some(("mysql"@, "8.4.5"@, "lts"@, true, false, false)),
        recommended("postgresql"@) == Some(("postgresql"@, "16.6"@, "lts"@, true, false, false)),
        recommended("php"@) == Some(("php"@, "8.4.13"@, "lts"@, true, false, false)),
        recommended("redis"@) == Some(("redis"@, "7.4.2"@, "stable"@, true, false, false)),
        recommended("valkey"@) == Some(("valkey"@, "7.2.7"@, "stable"@, true, false, false)),
        recommended("deno"@) == Some(("deno"@, "2.1.4"@, "stable"@, false, false, false)),
{
    reveal_strlit("apache");
    assert("apache"@.len() == 6 && "apache"@[0] == 'a');
    reveal_strlit("nginx");
    assert("nginx"@.len() == 5 && "nginx"@[0] == 'n');
    reveal_strlit("mariadb");
    assert("mariadb"@.len() == 7 && "mariadb"@[0] == 'm');
    reveal_strlit("mysql");
    assert("mysql"@.len() == 5 && "mysql"@[0] == 'm');
    reveal_strlit("postgresql");
    assert("postgresql"@.len() == 10 && "postgresql"@[0] == 'p');
    reveal_strlit("php");
    assert("php"@.len() == 3 && "php"@[0] == 'p');
    reveal_strlit("redis");
    assert("redis"@.len() == 5 && "redis"@[0] == 'r');
    reveal_strlit("valkey");
    assert("valkey"@.len() == 6 && "valkey"@[0] == 'v');
    reveal_strlit("deno");
    assert("deno"@.len() == 4 && "deno"@[0] == 'd');
    reveal_with_fuel(first_lts, 3);
    lemma_component_block("apache"@, 0, 2);
    lemma_component_block("nginx"@, 2, 4);
    lemma_component_block("mariadb"@, 4, 7);
    lemma_component_block("mysql"@, 7, 9);
    lemma_component_block("postgresql"@, 9, 11);
    lemma_component_block("php"@, 11, 14);
    lemma_component_block("redis"@, 14, 16);
    lemma_component_block("valkey"@, 16, 17);
    lemma_component_block("deno"@, 17, 18);
}

/// Every release of the registry is free of known high and critical
/// vulnerabilities.
pub proof fn law_registry_is_safe()
    ensures
        forall|i: int| 0 <= i < registry().len() ==> entry_safe(#[trigger] registry()[i]),
{
}

/// A version is safe exactly when it is listed among the safe releases of
/// its component; a version the registry does not list is unsafe.
pub proof fn law_version_safe_iff_listed(component: Seq<char>, version: Seq<char>)
    ensures
        version_safe(component, version) <==> exists|i: int|
            0 <= i < safe_versions(component).len() && (#[trigger] safe_versions(component)[i]).1
                == version,
{
    broadcast use vstd::seq_lib::group_filter_ensures;

    law_safe_version_listed(component, version);
    law_registry_is_safe();
    let sv = safe_versions(component);
    if exists|i: int| 0 <= i < sv.len() && (#[trigger] sv[i]).1 == version {
        let i = choose|i: int| 0 <= i < sv.len() && (#[trigger] sv[i]).1 == version;
        assert(sv.contains(sv[i]));
        registry().lemma_filter_contains_rev(safe_for(component), sv[i]);
        assert(registry().contains(sv[i]));
        assert(safe_for(component)(sv[i]));
        let k = choose|k: int| 0 <= k < registry().len() && registry()[k] == sv[i];
        lemma_first_release_exists(registry(), component, version, k);
        lemma_first_release(registry(), component, version);
        let e = first_release(registry(), component, version).unwrap();
        let m = choose|m: int|
            0 <= m < registry().len() && registry()[m] == e && e.0 == component && e.1 == version;
        assert(entry_safe(registry()[m]));
    }
}

} // verus!
