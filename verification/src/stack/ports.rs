//! Port policy: each service has a primary port and fallbacks, tried in
//! order.

use vstd::prelude::*;

use crate::text::same_text;

verus! {

/// Port range for a service: the primary port, then the fallbacks.
pub struct PortRange {
    pub service: &'static str,
    pub ports: &'static [u16],
}

impl PortRange {
    pub fn new(service: &'static str, ports: &'static [u16]) -> (r: Self)
        ensures
            r.service == service,
            r.ports == ports,
    {
        PortRange { service, ports }
    }

    /// The primary port: the first of the list.
    pub fn primary(&self) -> (p: u16)
        requires
            self.ports@.len() > 0,
        ensures
            p == self.ports@[0],
    {
        self.ports[0]
    }
}

/// The port succession table: service name and its ports, primary first.
pub open spec fn succession_table() -> Seq<(Seq<char>, Seq<u16>)> {
    seq![
        ("http"@, seq![80u16, 8080u16, 8000u16, 8088u16]),
        ("https"@, seq![443u16, 4433u16, 4443u16, 8443u16]),
        ("mariadb"@, seq![3306u16, 3307u16, 3308u16, 3309u16]),
        ("mysql"@, seq![3306u16, 3307u16, 3308u16, 3309u16]),
        ("postgresql"@, seq![5432u16, 5433u16, 5434u16, 5435u16]),
        ("redis"@, seq![6379u16, 6380u16, 6381u16, 6382u16]),
        ("valkey"@, seq![6379u16, 6380u16, 6381u16, 6382u16]),
        ("nginx"@, seq![80u16, 8080u16, 8000u16, 8088u16]),
        ("tomcat"@, seq![8080u16, 8443u16, 8081u16, 8082u16]),
        ("deno"@, seq![8000u16, 8001u16, 8002u16, 8003u16]),
    ]
}

pub open spec fn range_view(r: PortRange) -> (Seq<char>, Seq<u16>) {
    (r.service@, r.ports@)
}

/// The table, in order: if the primary port is busy, the next is tried.
pub fn port_succession() -> (v: Vec<PortRange>)
    ensures
        v@.map_values(|r: PortRange| range_view(r)) == succession_table(),
{
    let mut v: Vec<PortRange> = Vec::new();
    v.push(PortRange::new("http", &[80, 8080, 8000, 8088]));
    v.push(PortRange::new("https", &[443, 4433, 4443, 8443]));
    v.push(PortRange::new("mariadb", &[3306, 3307, 3308, 3309]));
    v.push(PortRange::new("mysql", &[3306, 3307, 3308, 3309]));
    v.push(PortRange::new("postgresql", &[5432, 5433, 5434, 5435]));
    v.push(PortRange::new("redis", &[6379, 6380, 6381, 6382]));
    v.push(PortRange::new("valkey", &[6379, 6380, 6381, 6382]));
    v.push(PortRange::new("nginx", &[80, 8080, 8000, 8088]));
    v.push(PortRange::new("tomcat", &[8080, 8443, 8081, 8082]));
    v.push(PortRange::new("deno", &[8000, 8001, 8002, 8003]));
    assert(v@.map_values(|r: PortRange| range_view(r)) =~= succession_table());
    v
}

/// The ports of the first entry of `table` for `service`.
pub open spec fn first_ports(table: Seq<(Seq<char>, Seq<u16>)>, service: Seq<char>) -> Option<Seq<u16>>
    decreases table.len(),
{
    if table.len() == 0 {
        None
    } else if table[0].0 == service {
        Some(table[0].1)
    } else {
        first_ports(table.drop_first(), service)
    }
}

/// The ports listed for `service`, primary first.
pub open spec fn ports_for(service: Seq<char>) -> Option<Seq<u16>> {
    first_ports(succession_table(), service)
}

fn range_for(service: &str) -> (r: Option<&'static [u16]>)
    ensures
        match ports_for(service@) {
            Some(ports) => r matches Some(p) && p@ == ports,
            None => r is None,
        },
{
    let table = port_succession();
    let ghost t = succession_table();
    assert(t.skip(0) == t);
    for i in 0..table.len()
        invariant
            table@.map_values(|r: PortRange| range_view(r)) == t,
            t == succession_table(),
            first_ports(t, service@) == first_ports(t.skip(i as int), service@),
    {
        assert(t.skip(i as int)[0] == range_view(table@[i as int]));
        if same_text(table[i].service, service) {
            return Some(table[i].ports);
        }
        assert(t.skip(i as int).drop_first() == t.skip(i + 1));
    }
    assert(t.skip(table.len() as int).len() == 0);
    None
}

/// `r` is what `find_available_port` may give for `service` with the probe
/// `f`: the first port of the service's list that `f` reports free, every
/// earlier one reported taken; `None` for an unknown service or when every
/// port is reported taken.
pub open spec fn available_port_result<F: Fn(u16) -> bool>(service: Seq<char>, f: F, r: Option<u16>) -> bool {
    match ports_for(service) {
        None => r is None,
        Some(ports) => match r {
            Some(p) => exists|i: int|
                0 <= i < ports.len() && #[trigger] ports[i] == p && f.ensures((p,), true) && forall|j: int|
                    0 <= j < i ==> f.ensures((ports[j],), false),
            None => forall|j: int| 0 <= j < ports.len() ==> f.ensures((ports[j],), false),
        },
    }
}

/// `r` is what `get_port_status` may give for `service` with the probe `f`:
/// each port of the service's list, in order, with an answer `f` gives for
/// it; empty for an unknown service.
pub open spec fn port_status_result<F: Fn(u16) -> bool>(service: Seq<char>, f: F, r: Seq<(u16, bool)>) -> bool {
    match ports_for(service) {
        None => r.len() == 0,
        Some(ports) => r.len() == ports.len() && forall|i: int|
            0 <= i < ports.len() ==> (#[trigger] r[i]).0 == ports[i] && f.ensures((ports[i],), r[i].1),
    }
}

/// The first port that a status list reports free.
pub open spec fn first_free(status: Seq<(u16, bool)>) -> Option<u16>
    decreases status.len(),
{
    if status.len() == 0 {
        None
    } else if status[0].1 {
        Some(status[0].0)
    } else {
        first_free(status.drop_first())
    }
}

proof fn lemma_first_free(status: Seq<(u16, bool)>, i: int)
    requires
        0 <= i <= status.len(),
        forall|j: int| 0 <= j < i ==> !(#[trigger] status[j]).1,
    ensures
        i < status.len() && status[i].1 ==> first_free(status) == Some(status[i].0),
        i == status.len() ==> first_free(status) is None,
    decreases i,
{
    if i > 0 {
        let t = status.drop_first();
        assert forall|j: int| 0 <= j < i - 1 implies !(#[trigger] t[j]).1 by {
            assert(t[j] == status[j + 1]);
        }
        lemma_first_free(t, i - 1);
        if i < status.len() {
            assert(t[i - 1] == status[i]);
        }
    }
}

/// For a probe that answers each port one way, the two functions agree:
/// the port `find_available_port` gives is the first one that
/// `get_port_status` reports free, and `None` exactly when it reports none.
pub proof fn law_first_free_matches_status<F: Fn(u16) -> bool>(
    service: Seq<char>,
    f: F,
    status: Seq<(u16, bool)>,
    found: Option<u16>,
)
    requires
        forall|p: u16, a: bool, b: bool| f.ensures((p,), a) && f.ensures((p,), b) ==> a == b,
        port_status_result(service, f, status),
        available_port_result(service, f, found),
    ensures
        found == first_free(status),
{
    match ports_for(service) {
        None => {},
        Some(ports) => {
            match found {
                Some(p) => {
                    let i = choose|i: int|
                        0 <= i < ports.len() && #[trigger] ports[i] == p && f.ensures((p,), true)
                            && forall|j: int| 0 <= j < i ==> f.ensures((ports[j],), false);
                    assert forall|j: int| 0 <= j < i implies !(#[trigger] status[j]).1 by {
                        assert(f.ensures((ports[j],), status[j].1));
                        assert(f.ensures((ports[j],), false));
                    }
                    assert(f.ensures((ports[i],), status[i].1));
                    lemma_first_free(status, i);
                },
                None => {
                    assert forall|j: int| 0 <= j < status.len() implies !(#[trigger] status[j]).1 by {
                        assert(f.ensures((ports[j],), status[j].1));
                        assert(f.ensures((ports[j],), false));
                    }
                    lemma_first_free(status, status.len() as int);
                },
            }
        },
    }
}

/// The first port of `service`'s list that `is_available` reports free,
/// asking port by port in order and stopping at the first free one; `None`
/// for an unknown service or when every port is taken.
pub fn find_available_port(service: &str, is_available: impl Fn(u16) -> bool) -> (r: Option<u16>)
    requires
        forall|p: u16| is_available.requires((p,)),
    ensures
        available_port_result(service@, is_available, r),
{
    let ports = match range_for(service) {
        Some(p) => p,
        None => return None,
    };
    for i in 0..ports.len()
        invariant
            forall|p: u16| is_available.requires((p,)),
            ports_for(service@) == Some(ports@),
            forall|j: int| 0 <= j < i ==> is_available.ensures((ports@[j],), false),
    {
        let p = ports[i];
        let free = is_available(p);
        if free {
            assert(is_available.ensures((p,), true));
            assert(ports_for(service@).unwrap()[i as int] == p);
            return Some(p);
        }
    }
    None
}

/// Each port of `service`'s list, in order, with what `is_available`
/// reported for it; empty for an unknown service.
pub fn get_port_status(service: &str, is_available: impl Fn(u16) -> bool) -> (r: Vec<(u16, bool)>)
    requires
        forall|p: u16| is_available.requires((p,)),
    ensures
        port_status_result(service@, is_available, r@),
{
    let mut out: Vec<(u16, bool)> = Vec::new();
    let ports = match range_for(service) {
        Some(p) => p,
        None => return out,
    };
    for i in 0..ports.len()
        invariant
            forall|p: u16| is_available.requires((p,)),
            ports_for(service@) == Some(ports@),
            out@.len() == i,
            forall|j: int|
                0 <= j < i ==> (#[trigger] out@[j]).0 == ports@[j] && is_available.ensures(
                    (ports@[j],),
                    out@[j].1,
                ),
    {
        let p = ports[i];
        let free = is_available(p);
        out.push((p, free));
    }
    out
}

/// The documented succession lists: each service's primary port first,
/// then its fallbacks in the order they are tried.
proof fn lemma_first_ports_at(t: Seq<(Seq<char>, Seq<u16>)>, service: Seq<char>, i: int)
    requires
        0 <= i < t.len(),
        t[i].0 == service,
        forall|j: int| 0 <= j < i ==> t[j].0 != service,
    ensures
        first_ports(t, service) == Some(t[i].1),
    decreases i,
{
    if i > 0 {
        assert(t[0].0 != service);
        assert forall|j: int| 0 <= j < i - 1 implies t.drop_first()[j].0 != service by {
            assert(t.drop_first()[j] == t[j + 1]);
        }
        assert(t.drop_first()[i - 1] == t[i]);
        lemma_first_ports_at(t.drop_first(), service, i - 1);
    }
}

/// The documented succession lists: each service's primary port first,
/// then its fallbacks in the order they are tried.
pub proof fn law_documented_succession()
    ensures
        ports_for("http"@) == Some(seq![80u16, 8080u16, 8000u16, 8088u16]),
        ports_for("https"@) == Some(seq![443u16, 4433u16, 4443u16, 8443u16]),
        ports_for("mariadb"@) == Some(seq![3306u16, 3307u16, 3308u16, 3309u16]),
        ports_for("mysql"@) == Some(seq![3306u16, 3307u16, 3308u16, 3309u16]),
        ports_for("postgresql"@) == Some(seq![5432u16, 5433u16, 5434u16, 5435u16]),
        ports_for("redis"@) == Some(seq![6379u16, 6380u16, 6381u16, 6382u16]),
        ports_for("valkey"@) == Some(seq![6379u16, 6380u16, 6381u16, 6382u16]),
        ports_for("nginx"@) == Some(seq![80u16, 8080u16, 8000u16, 8088u16]),
        ports_for("tomcat"@) == Some(seq![8080u16, 8443u16, 8081u16, 8082u16]),
        ports_for("deno"@) == Some(seq![8000u16, 8001u16, 8002u16, 8003u16]),
{
    reveal_strlit("http");
    reveal_strlit("https");
    reveal_strlit("mariadb");
    reveal_strlit("mysql");
    reveal_strlit("postgresql");
    reveal_strlit("redis");
    reveal_strlit("valkey");
    reveal_strlit("nginx");
    reveal_strlit("tomcat");
    reveal_strlit("deno");
    let t = succession_table();
    assert("http"@.len() == 4 && "http"@[0] == 'h');
    assert("https"@.len() == 5 && "https"@[0] == 'h');
    assert("mariadb"@.len() == 7 && "mariadb"@[0] == 'm');
    assert("mysql"@.len() == 5 && "mysql"@[0] == 'm');
    assert("postgresql"@.len() == 10 && "postgresql"@[0] == 'p');
    assert("redis"@.len() == 5 && "redis"@[0] == 'r');
    assert("valkey"@.len() == 6 && "valkey"@[0] == 'v');
    assert("nginx"@.len() == 5 && "nginx"@[0] == 'n');
    assert("tomcat"@.len() == 6 && "tomcat"@[0] == 't');
    assert("deno"@.len() == 4 && "deno"@[0] == 'd');
    lemma_first_ports_at(t, "http"@, 0);
    lemma_first_ports_at(t, "https"@, 1);
    lemma_first_ports_at(t, "mariadb"@, 2);
    lemma_first_ports_at(t, "mysql"@, 3);
    lemma_first_ports_at(t, "postgresql"@, 4);
    lemma_first_ports_at(t, "redis"@, 5);
    lemma_first_ports_at(t, "valkey"@, 6);
    lemma_first_ports_at(t, "nginx"@, 7);
    lemma_first_ports_at(t, "tomcat"@, 8);
    lemma_first_ports_at(t, "deno"@, 9);
}

/// When every port is free, the primary port is the one found.
pub proof fn law_all_free_gives_primary<F: Fn(u16) -> bool>(service: Seq<char>, f: F, found: Option<u16>)
    requires
        forall|p: u16, b: bool| f.ensures((p,), b) ==> b,
        available_port_result(service, f, found),
    ensures
        ports_for(service) matches Some(ports) ==> ports.len() > 0 ==> found == Some(ports[0]),
{
    if let Some(ports) = ports_for(service) {
        if ports.len() > 0 {
            if let Some(p) = found {
                let i = choose|i: int|
                    0 <= i < ports.len() && #[trigger] ports[i] == p && f.ensures((p,), true) && forall|j: int|
                        0 <= j < i ==> f.ensures((ports[j],), false);
                if i > 0 {
                    assert(f.ensures((ports[0],), false));
                }
            } else {
                assert(f.ensures((ports[0],), false));
            }
        }
    }
}

} // verus!
