//! Host-side decisions of the control interface: name checks, network
//! adapter choice, download addresses, port tables, project listing and the
//! generated per-project configuration.

use vstd::prelude::*;
use vstd::utf8::is_ascii_chars;

use crate::services::{path_of, path_view, plan_view, Arg, ArgSpec, CommandPlan};
use crate::stack::ports::{law_documented_succession, ports_for};
use crate::stack::vhosts::{forward_slashes, replace_backslashes};
use crate::text::{
    all_digits, chars_of, contains_chars, contains_text, decimal, digits_value, eq_ignore_ascii_case, is_digit,
    lemma_decimal_digits, has_prefix, join_path, lower_ascii,
    owned, path_join, push_chars, push_decimal, same_ignoring_ascii_case, same_text, starts_with,
    string_of, to_lowercase, unicode_lowercase,
};

verus! {

/// A project name is safe to use in a file name: not empty, and without
/// `\\`, `/`, `..` or a NUL character.
pub open spec fn safe_name(name: Seq<char>) -> bool {
    &&& name.len() > 0
    &&& !contains_text(name, seq!['\\'])
    &&& !contains_text(name, seq!['/'])
    &&& !contains_text(name, seq!['.', '.'])
    &&& !contains_text(name, seq!['\0'])
}

/// Whether `name` is safe to use in a file name.
pub fn sanitize_name(name: &str) -> (b: bool)
    ensures
        b == safe_name(name@),
{
    let n = chars_of(name);
    let backslash: Vec<char> = vec!['\\'];
    let slash: Vec<char> = vec!['/'];
    let dots: Vec<char> = vec!['.', '.'];
    let nul: Vec<char> = vec!['\0'];
    assert(backslash@ == seq!['\\']);
    assert(slash@ == seq!['/']);
    assert(dots@ == seq!['.', '.']);
    assert(nul@ == seq!['\0']);
    !contains_chars(n.as_slice(), backslash.as_slice()) && !contains_chars(n.as_slice(), slash.as_slice())
        && !contains_chars(n.as_slice(), dots.as_slice()) && !contains_chars(n.as_slice(), nul.as_slice())
        && n.len() > 0
}

/// Words that mark a network adapter as virtual, tunnelled or otherwise not
/// the machine's own network card.
pub open spec fn virtual_patterns() -> Seq<Seq<char>> {
    seq![
        "vpn"@,
        "virtual"@,
        "docker"@,
        "vethernet"@,
        "hyper-v"@,
        "hyper"@,
        "wsl"@,
        "vmware"@,
        "virtualbox"@,
        "npcap"@,
        "loopback"@,
        "teredo"@,
        "isatap"@,
        "6to4"@,
        "wifi direct"@,
        "bluetooth"@,
        "cellular"@,
        "hamachi"@,
        "tunnel"@,
        "tap"@,
        "openvpn"@,
        "wireguard"@,
        "tailscale"@,
        "juniper"@,
        "fortinet"@,
        "cisco anyconnect"@,
        "sonicwall"@,
        "ras asynchronous"@,
        "ras server"@,
        "ppp"@,
        "serial"@,
        "host-only"@,
        "nat network"@,
        "bridged adapter"@,
    ]
}

/// The adapter's name and description, joined by a space and lowercased,
/// contain one of the virtual-adapter words.
pub open spec fn virtual_adapter(friendly_name: Seq<char>, description: Seq<char>) -> bool {
    let combined = unicode_lowercase(friendly_name + " "@ + description);
    exists|i: int| 0 <= i < virtual_patterns().len() && contains_text(combined, #[trigger] virtual_patterns()[i])
}

/// Whether an adapter is virtual (VPN, Docker, WSL, Hyper-V and the like).
pub fn is_virtual_adapter(friendly_name: &str, description: &str) -> (b: bool)
    ensures
        b == virtual_adapter(friendly_name@, description@),
{
    let mut joined = owned(friendly_name);
    joined.append(" ");
    joined.append(description);
    let lowered = to_lowercase(joined.as_str());
    let combined = chars_of(lowered.as_str());
    let patterns: [&str; 34] = [
        "vpn",
        "virtual",
        "docker",
        "vethernet",
        "hyper-v",
        "hyper",
        "wsl",
        "vmware",
        "virtualbox",
        "npcap",
        "loopback",
        "teredo",
        "isatap",
        "6to4",
        "wifi direct",
        "bluetooth",
        "cellular",
        "hamachi",
        "tunnel",
        "tap",
        "openvpn",
        "wireguard",
        "tailscale",
        "juniper",
        "fortinet",
        "cisco anyconnect",
        "sonicwall",
        "ras asynchronous",
        "ras server",
        "ppp",
        "serial",
        "host-only",
        "nat network",
        "bridged adapter",
    ];
    assert(patterns@.map_values(|p: &str| p@) =~= virtual_patterns());
    for i in 0..patterns.len()
        invariant
            combined@ == unicode_lowercase(friendly_name@ + " "@ + description@),
            patterns@.map_values(|p: &str| p@) == virtual_patterns(),
            forall|j: int| 0 <= j < i ==> !contains_text(combined@, #[trigger] virtual_patterns()[j]),
    {
        let p = chars_of(patterns[i]);
        assert(virtual_patterns()[i as int] == patterns@[i as int]@);
        if contains_chars(combined.as_slice(), p.as_slice()) {
            return true;
        }
    }
    false
}

/// Where a download goes: scheme, port, host and path of the address.
pub struct DownloadTarget {
    pub use_https: bool,
    pub port: u16,
    pub host: String,
    pub path: String,
}

/// Position of the first `c` in `s`, or its length when there is none.
pub open spec fn first_pos(s: Seq<char>, c: char) -> int
    decreases s.len(),
{
    if s.len() == 0 {
        0
    } else if s[0] == c {
        0
    } else {
        1 + first_pos(s.drop_first(), c)
    }
}

/// The address without its scheme: `https://` is removed when the address
/// (compared in lowercase) is HTTPS and starts with it exactly; `http://`
/// likewise otherwise.
pub open spec fn after_scheme(url: Seq<char>, https: bool) -> Seq<char> {
    if https {
        if starts_with(url, "https://"@) {
            url.skip(8)
        } else {
            url
        }
    } else if starts_with(url, "http://"@) {
        url.skip(7)
    } else {
        url
    }
}

pub open spec fn url_is_https(url: Seq<char>) -> bool {
    starts_with(unicode_lowercase(url), "https://"@)
}

pub open spec fn url_host(url: Seq<char>) -> Seq<char> {
    let rest = after_scheme(url, url_is_https(url));
    rest.take(first_pos(rest, '/'))
}

pub open spec fn url_path(url: Seq<char>) -> Seq<char> {
    let rest = after_scheme(url, url_is_https(url));
    let slash = first_pos(rest, '/');
    if slash < rest.len() {
        rest.skip(slash)
    } else {
        "/"@
    }
}

proof fn lemma_first_pos(s: Seq<char>, c: char)
    ensures
        0 <= first_pos(s, c) <= s.len(),
        first_pos(s, c) < s.len() ==> s[first_pos(s, c)] == c,
        forall|i: int| 0 <= i < first_pos(s, c) ==> s[i] != c,
    decreases s.len(),
{
    if s.len() > 0 && s[0] != c {
        lemma_first_pos(s.drop_first(), c);
        assert forall|i: int| 0 <= i < first_pos(s, c) implies s[i] != c by {
            if i > 0 {
                assert(s[i] == s.drop_first()[i - 1]);
            }
        }
    }
}

/// A download address splits into a host without `/` and a path that
/// starts with `/`; the port follows the scheme.
pub proof fn law_download_url_parts(url: Seq<char>)
    ensures
        forall|i: int| 0 <= i < url_host(url).len() ==> url_host(url)[i] != '/',
        url_path(url).len() > 0 && url_path(url)[0] == '/',
{
    let rest = after_scheme(url, url_is_https(url));
    lemma_first_pos(rest, '/');
    reveal_strlit("/");
    assert forall|i: int| 0 <= i < url_host(url).len() implies url_host(url)[i] != '/' by {
        assert(url_host(url)[i] == rest[i]);
    }
}

fn copy_range(s: &[char], from: usize, to: usize) -> (r: Vec<char>)
    requires
        from <= to <= s@.len(),
    ensures
        r@ == s@.subrange(from as int, to as int),
{
    let mut r: Vec<char> = Vec::new();
    for i in from..to
        invariant
            from <= to <= s@.len(),
            r@ == s@.subrange(from as int, i as int),
    {
        r.push(s[i]);
        assert(s@.subrange(from as int, i + 1) == s@.subrange(from as int, i as int).push(s@[i as int]));
    }
    r
}

/// Splits a download address into scheme, port (443 for HTTPS, else 80),
/// host (up to the first `/`) and path (from it, or `/`).
pub fn parse_download_url(url: &str) -> (t: DownloadTarget)
    ensures
        t.use_https == url_is_https(url@),
        t.port == (if url_is_https(url@) { 443u16 } else { 80u16 }),
        t.host@ == url_host(url@),
        t.path@ == url_path(url@),
        url@.len() >= 8 && is_ascii_chars(url@.take(8)) ==> (t.use_https <==> url@.take(8).map_values(
            |c: char| lower_ascii(c),
        ) == "https://"@),
{
    proof {
        reveal_strlit("https://");
        reveal_strlit("http://");
    }
    let lowered = to_lowercase(url);
    proof {
        if url@.len() >= 8 && is_ascii_chars(url@.take(8)) {
            assert(lowered@.take(8) == url@.take(8).map_values(|c: char| lower_ascii(c)));
            assert(lowered@.subrange(0, 8) == lowered@.take(8));
        }
    }
    let lower_chars = chars_of(lowered.as_str());
    let https_prefix = chars_of("https://");
    let http_prefix = chars_of("http://");
    let use_https = has_prefix(lower_chars.as_slice(), https_prefix.as_slice());
    let u = chars_of(url);
    let rest: Vec<char> = if use_https {
        if has_prefix(u.as_slice(), https_prefix.as_slice()) {
            copy_range(u.as_slice(), 8, u.len())
        } else {
            u.clone()
        }
    } else if has_prefix(u.as_slice(), http_prefix.as_slice()) {
        copy_range(u.as_slice(), 7, u.len())
    } else {
        u.clone()
    };
    assert(rest@ == after_scheme(url@, use_https));
    let mut slash: usize = 0;
    while slash < rest.len() && rest[slash] != '/'
        invariant
            slash <= rest@.len(),
            forall|i: int| 0 <= i < slash ==> rest@[i] != '/',
        decreases rest.len() - slash,
    {
        slash = slash + 1;
    }
    proof {
        lemma_first_pos(rest@, '/');
        let f = first_pos(rest@, '/');
        if f < slash {
            assert(rest@[f] == '/');
        }
        if slash < f {
            assert(rest@[slash as int] == '/');
        }
        assert(f == slash);
    }
    let host = copy_range(rest.as_slice(), 0, slash);
    let path = if slash < rest.len() {
        copy_range(rest.as_slice(), slash, rest.len())
    } else {
        chars_of("/")
    };
    assert(rest@.take(slash as int) == rest@.subrange(0, slash as int));
    assert(slash < rest@.len() ==> rest@.skip(slash as int) == rest@.subrange(slash as int, rest@.len() as int));
    DownloadTarget {
        use_https,
        port: if use_https { 443 } else { 80 },
        host: string_of(host.as_slice()),
        path: string_of(path.as_slice()),
    }
}


/// What is read of one network adapter.
pub struct AdapterInfo {
    pub oper_status: i32,
    pub if_type: u32,
    pub friendly_name: String,
    pub description: String,
    /// The first unicast IPv4 address, when the adapter has one.
    pub ipv4: Option<(u8, u8, u8, u8)>,
}

/// An address that does not identify the machine on its network.
pub open spec fn unusable_ipv4(o: (u8, u8, u8, u8)) -> bool {
    (o.0 == 0 && o.1 == 0 && o.2 == 0 && o.3 == 0) || o.0 == 127 || (o.0 == 169 && o.1 == 254)
}

/// The adapter can serve as the machine's address: up, not a loopback
/// interface (type 24), not virtual, with an IPv4 address that is neither
/// 0.0.0.0, 127.x.x.x nor link-local 169.254.x.x.
pub open spec fn adapter_usable(a: AdapterInfo) -> bool {
    &&& a.oper_status == 1
    &&& a.if_type != 24
    &&& !virtual_adapter(a.friendly_name@, a.description@)
    &&& a.ipv4 matches Some(o)
    &&& !unusable_ipv4(o)
}

/// The first usable adapter of the list.
pub fn select_adapter(adapters: &Vec<AdapterInfo>) -> (r: Option<usize>)
    ensures
        match r {
            Some(i) => i < adapters@.len() && adapter_usable(adapters@[i as int]) && forall|j: int|
                0 <= j < i ==> !adapter_usable(#[trigger] adapters@[j]),
            None => forall|j: int| 0 <= j < adapters@.len() ==> !adapter_usable(#[trigger] adapters@[j]),
        },
{
    for i in 0..adapters.len()
        invariant
            forall|j: int| 0 <= j < i ==> !adapter_usable(#[trigger] adapters@[j]),
    {
        let a = &adapters[i];
        if a.oper_status == 1 && a.if_type != 24 && !is_virtual_adapter(
            a.friendly_name.as_str(),
            a.description.as_str(),
        ) {
            match a.ipv4 {
                Some(o) => {
                    if !((o.0 == 0 && o.1 == 0 && o.2 == 0 && o.3 == 0) || o.0 == 127 || (o.0 == 169
                        && o.1 == 254)) {
                        return Some(i);
                    }
                },
                None => {},
            }
        }
    }
    None
}

/// `a.b.c.d`.
pub open spec fn dotted_quad(o: (u8, u8, u8, u8)) -> Seq<char> {
    decimal(o.0 as nat) + "."@ + decimal(o.1 as nat) + "."@ + decimal(o.2 as nat) + "."@ + decimal(
        o.3 as nat,
    )
}

/// The machine's network address: that of the first usable adapter, else
/// `127.0.0.1`.
pub fn local_ip(adapters: &Vec<AdapterInfo>) -> (r: String)
    ensures
        r@ == local_ip_text(adapters@),
{
    match select_adapter(adapters) {
        Some(i) => {
            let o = adapters[i].ipv4.unwrap();
            let mut out = String::new();
            push_decimal(&mut out, o.0 as u64);
            out.append(".");
            push_decimal(&mut out, o.1 as u64);
            out.append(".");
            push_decimal(&mut out, o.2 as u64);
            out.append(".");
            push_decimal(&mut out, o.3 as u64);
            proof {
                lemma_select_unique(adapters@, i as int);
            }
            assert(out@ =~= dotted_quad(o));
            out
        },
        None => owned("127.0.0.1"),
    }
}

/// The name of the adapter whose address `local_ip` gives, else `Unknown`.
pub fn adapter_name(adapters: &Vec<AdapterInfo>) -> (r: String)
    ensures
        r@ == adapter_name_text(adapters@),
{
    match select_adapter(adapters) {
        Some(i) => {
            proof {
                lemma_select_unique(adapters@, i as int);
            }
            owned(adapters[i].friendly_name.as_str())
        },
        None => owned("Unknown"),
    }
}

/// The machine's address: that of the first usable adapter, else
/// `127.0.0.1`.
pub open spec fn local_ip_text(adapters: Seq<AdapterInfo>) -> Seq<char> {
    match select_adapter_spec(adapters) {
        Some(i) => dotted_quad(adapters[i].ipv4.unwrap()),
        None => "127.0.0.1"@,
    }
}

/// The name of the first usable adapter, else `Unknown`.
pub open spec fn adapter_name_text(adapters: Seq<AdapterInfo>) -> Seq<char> {
    match select_adapter_spec(adapters) {
        Some(i) => adapters[i].friendly_name@,
        None => "Unknown"@,
    }
}

proof fn lemma_first_usable_exists(adapters: Seq<AdapterInfo>, k: int)
    requires
        0 <= k < adapters.len(),
        adapter_usable(adapters[k]),
    ensures
        exists|i: int|
            0 <= i < adapters.len() && adapter_usable(adapters[i]) && forall|j: int|
                0 <= j < i ==> !adapter_usable(#[trigger] adapters[j]),
    decreases k,
{
    if exists|j: int| 0 <= j < k && adapter_usable(#[trigger] adapters[j]) {
        let j = choose|j: int| 0 <= j < k && adapter_usable(#[trigger] adapters[j]);
        lemma_first_usable_exists(adapters, j);
    } else {
        assert(forall|j: int| 0 <= j < k ==> !adapter_usable(#[trigger] adapters[j]));
    }
}

proof fn lemma_not_loopback_text(o: (u8, u8, u8, u8))
    requires
        o.0 != 127,
    ensures
        dotted_quad(o) != "127.0.0.1"@,
{
    reveal_strlit("127.0.0.1");
    reveal_strlit(".");
    let s = "127.0.0.1"@;
    assert(s =~= seq!['1', '2', '7', '.', '0', '.', '0', '.', '1']);
    let d = decimal(o.0 as nat);
    lemma_decimal_digits(o.0 as nat);
    let q = dotted_quad(o);
    assert(q.subrange(0, d.len() as int) =~= d);
    assert(q[d.len() as int] == '.');
    if q == s {
        if d.len() < 3 {
            assert(is_digit(s[d.len() as int]));
        } else if d.len() > 3 {
            assert(is_digit(d[3]));
            assert(q[3] == d[3]);
        } else {
            assert(d =~= seq!['1', '2', '7']);
            assert(d.drop_last() =~= seq!['1', '2']);
            assert(d.drop_last().drop_last() =~= seq!['1']);
            assert(d.drop_last().drop_last().drop_last() =~= Seq::<char>::empty());
            reveal_with_fuel(crate::text::digits_value, 4);
            assert(digits_value(d) == 127);
        }
    }
}

/// The address is 127.0.0.1 exactly when no adapter is usable; so, unless a
/// usable adapter is itself named `Unknown`, the adapter name is `Unknown`
/// exactly when the address is 127.0.0.1.
pub proof fn law_unknown_adapter_iff_loopback(adapters: Seq<AdapterInfo>)
    ensures
        (local_ip_text(adapters) == "127.0.0.1"@) <==> select_adapter_spec(adapters) is None,
        (forall|i: int|
            0 <= i < adapters.len() && adapter_usable(#[trigger] adapters[i]) ==> adapters[i].friendly_name@
                != "Unknown"@) ==> ((adapter_name_text(adapters) == "Unknown"@) <==> (local_ip_text(
            adapters,
        ) == "127.0.0.1"@)),
{
    if let Some(i) = select_adapter_spec(adapters) {
        let k = choose|k: int| 0 <= k < adapters.len() && adapter_usable(#[trigger] adapters[k]);
        lemma_first_usable_exists(adapters, k);
        assert(0 <= i < adapters.len() && adapter_usable(adapters[i]));
        lemma_not_loopback_text(adapters[i].ipv4.unwrap());
    }
}

/// An adapter can give the machine's address exactly when it is up (status
/// 1), not of the loopback type (24), not virtual, and has an IPv4 address
/// other than 0.0.0.0, 127.x.x.x and 169.254.x.x: a private address such as
/// 10.x.x.x or 192.168.x.x counts. The address and adapter name then come
/// from the first such adapter; with none they are 127.0.0.1 and `Unknown`.
pub proof fn law_local_address_choice(adapters: Seq<AdapterInfo>, a: AdapterInfo)
    ensures
        adapter_usable(a) <==> (a.oper_status == 1 && a.if_type != 24 && !virtual_adapter(
            a.friendly_name@,
            a.description@,
        ) && a.ipv4 is Some && !(a.ipv4.unwrap().0 == 0 && a.ipv4.unwrap().1 == 0 && a.ipv4.unwrap().2
            == 0 && a.ipv4.unwrap().3 == 0) && a.ipv4.unwrap().0 != 127 && !(a.ipv4.unwrap().0 == 169
            && a.ipv4.unwrap().1 == 254)),
        adapter_usable(a) ==> local_ip_text(seq![a]) == dotted_quad(a.ipv4.unwrap())
            && adapter_name_text(seq![a]) == a.friendly_name@,
        select_adapter_spec(adapters) matches Some(i) ==> 0 <= i < adapters.len() && adapter_usable(
            adapters[i],
        ) && local_ip_text(adapters) == dotted_quad(adapters[i].ipv4.unwrap()) && adapter_name_text(
            adapters,
        ) == adapters[i].friendly_name@ && forall|j: int| 0 <= j < i ==> !adapter_usable(
            #[trigger] adapters[j],
        ),
        select_adapter_spec(adapters) is None <==> forall|j: int|
            0 <= j < adapters.len() ==> !adapter_usable(#[trigger] adapters[j]),
        select_adapter_spec(adapters) is None ==> local_ip_text(adapters) == "127.0.0.1"@
            && adapter_name_text(adapters) == "Unknown"@,
{
    if adapter_usable(a) {
        lemma_select_unique(seq![a], 0);
    }
    if let Some(i) = select_adapter_spec(adapters) {
        let k = choose|k: int| 0 <= k < adapters.len() && adapter_usable(#[trigger] adapters[k]);
        lemma_first_usable_exists(adapters, k);
    }
}

/// The index of the first usable adapter.
pub open spec fn select_adapter_spec(adapters: Seq<AdapterInfo>) -> Option<int> {
    if exists|i: int| 0 <= i < adapters.len() && adapter_usable(#[trigger] adapters[i]) {
        Some(
            choose|i: int|
                0 <= i < adapters.len() && adapter_usable(adapters[i]) && forall|j: int|
                    0 <= j < i ==> !adapter_usable(#[trigger] adapters[j]),
        )
    } else {
        None
    }
}

proof fn lemma_select_unique(adapters: Seq<AdapterInfo>, i: int)
    requires
        0 <= i < adapters.len(),
        adapter_usable(adapters[i]),
        forall|j: int| 0 <= j < i ==> !adapter_usable(#[trigger] adapters[j]),
    ensures
        select_adapter_spec(adapters) == Some(i),
{
    let k = choose|k: int|
        0 <= k < adapters.len() && adapter_usable(adapters[k]) && forall|j: int|
            0 <= j < k ==> !adapter_usable(#[trigger] adapters[j]);
    if k < i {
        assert(!adapter_usable(adapters[k]));
    }
    if i < k {
        assert(!adapter_usable(adapters[i]));
    }
}

/// The port of a listener row of the TCP table: `dwLocalPort` holds it in
/// network byte order in its low two bytes.
pub open spec fn row_port(local_port: u32) -> u16 {
    ((local_port % 256) * 256 + (local_port / 256) % 256) as u16
}

/// Decodes the port of a TCP table row.
pub fn decode_row_port(local_port: u32) -> (r: u16)
    ensures
        r == row_port(local_port),
{
    let swapped: u32 = ((local_port & 0xFF) << 8) | ((local_port >> 8) & 0xFF);
    assert(((local_port & 0xFFu32) << 8u32) | ((local_port >> 8u32) & 0xFFu32) == (local_port % 256) * 256
        + (local_port / 256) % 256) by (bit_vector);
    swapped as u16
}

/// The owning process of the first listener row on `port`; rows are
/// `(dwLocalPort, dwOwningPid)`.
pub fn find_listener(rows: &Vec<(u32, u32)>, port: u16) -> (r: Option<u32>)
    ensures
        match r {
            Some(pid) => exists|i: int|
                0 <= i < rows@.len() && row_port(rows@[i].0) == port && rows@[i].1 == pid && forall|j: int|
                    0 <= j < i ==> row_port(#[trigger] rows@[j].0) != port,
            None => forall|j: int| 0 <= j < rows@.len() ==> row_port(#[trigger] rows@[j].0) != port,
        },
{
    for i in 0..rows.len()
        invariant
            forall|j: int| 0 <= j < i ==> row_port(#[trigger] rows@[j].0) != port,
    {
        if decode_row_port(rows[i].0) == port {
            assert(row_port(rows@[i as int].0) == port);
            return Some(rows[i].1);
        }
    }
    None
}

/// The ports the port scanner reports on, in order.
pub open spec fn scan_port_table() -> Seq<u16> {
    seq![80u16, 443u16, 3306u16, 5432u16, 6379u16, 8080u16, 8443u16, 3307u16, 3308u16, 3309u16]
}

/// How many ports the scanner reports on.
pub fn scan_port_count() -> (n: usize)
    ensures
        n == scan_port_table().len(),
{
    10
}

/// The `index`-th scanned port, or `None` past the end.
pub fn scan_port_at(index: usize) -> (r: Option<u16>)
    ensures
        index < scan_port_table().len() ==> r == Some(scan_port_table()[index as int]),
        index >= scan_port_table().len() ==> r is None,
{
    let table: [u16; 10] = [80, 443, 3306, 5432, 6379, 8080, 8443, 3307, 3308, 3309];
    assert(table@ =~= scan_port_table());
    if index < 10 {
        Some(table[index])
    } else {
        None
    }
}

/// The configuration snippet written for a project by the control interface.
pub open spec fn vhost_snippet_text(port: u16, doc_root: Seq<char>, server_name: Seq<char>) -> Seq<char> {
    "<VirtualHost *:"@ +
        decimal(port as nat) +
        ">\n    DocumentRoot \""@ +
        doc_root +
        "\"\n    ServerName "@ +
        server_name +
        "\n    <Directory \""@ +
        doc_root +
        "\">\n        Options Indexes FollowSymLinks\n        AllowOverride All\n        Require all granted\n    </Directory>\n</VirtualHost>"@
}

/// The Apache snippet for a project: a virtual host on `port` for
/// `<name>.test` serving `doc_root` (backslashes turned into slashes).
pub fn vhost_snippet(name: &str, doc_root: &str, port: u16) -> (r: String)
    ensures
        r@ == vhost_snippet_text(port, forward_slashes(doc_root@), name@ + ".test"@),
{
    let root_chars = replace_backslashes(doc_root);
    let mut server = chars_of(name);
    let suffix = chars_of(".test");
    let mut k: usize = 0;
    while k < suffix.len()
        invariant
            k <= suffix.len(),
            server@ == name@ + suffix@.take(k as int),
        decreases suffix.len() - k,
    {
        server.push(suffix[k]);
        assert(suffix@.take(k + 1) == suffix@.take(k as int).push(suffix@[k as int]));
        k = k + 1;
    }
    assert(suffix@.take(suffix@.len() as int) == suffix@);
    let ghost doc_root_v = root_chars@;
    let ghost server_name = server@;
    let mut out = String::new();
    out.append("<VirtualHost *:");
    push_decimal(&mut out, port as u64);
    out.append(">\n    DocumentRoot \"");
    push_chars(&mut out, root_chars.as_slice());
    out.append("\"\n    ServerName ");
    push_chars(&mut out, server.as_slice());
    out.append("\n    <Directory \"");
    push_chars(&mut out, root_chars.as_slice());
    out.append("\">\n        Options Indexes FollowSymLinks\n        AllowOverride All\n        Require all granted\n    </Directory>\n</VirtualHost>");
    assert(out@ =~= vhost_snippet_text(port, doc_root_v, server_name));
    out
}

/// Appends `b` to `a` (a path under a Windows server directory).
pub open spec fn under(dir: Seq<char>, tail: Seq<char>) -> Seq<char> {
    dir + tail
}

fn join_text(a: &str, b: &str) -> (r: String)
    ensures
        r@ == a@ + b@,
{
    let mut r = owned(a);
    r.append(b);
    r
}

/// The files whose presence the service table reports.
pub struct InitPaths {
    pub apache_conf: String,
    pub mariadb_exe: String,
    pub mariadb_bin: String,
    pub php_ini: String,
    pub php_dir: String,
    pub certs_dir: String,
    pub cert_file: String,
    pub key_file: String,
}

/// The paths under the server directory that the service table names.
pub fn init_paths(server_dir: &str) -> (p: InitPaths)
    ensures
        p.apache_conf@ == server_dir@ + "\\apache\\conf\\httpd.conf"@,
        p.mariadb_exe@ == server_dir@ + "\\mysql\\bin\\mysqld.exe"@,
        p.mariadb_bin@ == server_dir@ + "\\mysql\\bin"@,
        p.php_ini@ == server_dir@ + "\\php\\php.ini"@,
        p.php_dir@ == server_dir@ + "\\php"@,
        p.certs_dir@ == server_dir@ + "\\certs"@,
        p.cert_file@ == server_dir@ + "\\certs"@ + "\\server.crt"@,
        p.key_file@ == server_dir@ + "\\certs"@ + "\\server.key"@,
{
    let certs_dir = join_text(server_dir, "\\certs");
    InitPaths {
        apache_conf: join_text(server_dir, "\\apache\\conf\\httpd.conf"),
        mariadb_exe: join_text(server_dir, "\\mysql\\bin\\mysqld.exe"),
        mariadb_bin: join_text(server_dir, "\\mysql\\bin"),
        php_ini: join_text(server_dir, "\\php\\php.ini"),
        php_dir: join_text(server_dir, "\\php"),
        cert_file: join_text(certs_dir.as_str(), "\\server.crt"),
        key_file: join_text(certs_dir.as_str(), "\\server.key"),
        certs_dir,
    }
}

/// One row of the service table.
pub struct ServiceRow {
    pub name: String,
    pub display_name: String,
    pub port: u16,
    pub status: String,
    pub version: String,
    pub config_path: String,
}

pub open spec fn row_view(r: ServiceRow) -> (Seq<char>, Seq<char>, u16, Seq<char>, Seq<char>, Seq<char>) {
    (r.name@, r.display_name@, r.port, r.status@, r.version@, r.config_path@)
}

pub open spec fn found_text(found: bool) -> Seq<char> {
    if found {
        "Detected"@
    } else {
        "Not Found"@
    }
}

/// The service table: Apache, MariaDB, PHP and HTTPS, each with its port,
/// whether it was found, its version and its configuration path.
pub open spec fn service_table(
    p: InitPaths,
    apache_found: bool,
    mariadb_found: bool,
    php_found: bool,
    tls_configured: bool,
) -> Seq<(Seq<char>, Seq<char>, u16, Seq<char>, Seq<char>, Seq<char>)> {
    seq![
        ("apache"@, "Apache HTTP Server"@, 80u16, found_text(apache_found), "2.4.66"@, p.apache_conf@),
        ("mariadb"@, "MariaDB"@, 3306u16, found_text(mariadb_found), "11.4.13"@, p.mariadb_bin@),
        ("php"@, "PHP"@, 9000u16, found_text(php_found), "8.5.10"@, p.php_dir@),
        (
            "https"@,
            "HTTPS/TLS"@,
            443u16,
            if tls_configured {
                "Configured"@
            } else {
                "No Certificate"@
            },
            "TLS 1.2/1.3"@,
            p.certs_dir@,
        ),
    ]
}

fn service_row(name: &str, display_name: &str, port: u16, status: &str, version: &str, config_path: &String) -> (r: ServiceRow)
    ensures
        row_view(r) == (name@, display_name@, port, status@, version@, config_path@),
{
    ServiceRow {
        name: owned(name),
        display_name: owned(display_name),
        port,
        status: owned(status),
        version: owned(version),
        config_path: config_path.clone(),
    }
}

/// Builds the service table from what was found on disk: the Apache
/// configuration, the MariaDB server, the PHP configuration, and both TLS
/// files.
pub fn init_services(p: &InitPaths, apache_found: bool, mariadb_found: bool, php_found: bool, tls_configured: bool) -> (rows: Vec<ServiceRow>)
    ensures
        rows@.map_values(|r: ServiceRow| row_view(r)) == service_table(
            *p,
            apache_found,
            mariadb_found,
            php_found,
            tls_configured,
        ),
{
    let mut rows: Vec<ServiceRow> = Vec::new();
    rows.push(service_row("apache", "Apache HTTP Server", 80, if apache_found { "Detected" } else { "Not Found" }, "2.4.66", &p.apache_conf));
    rows.push(service_row("mariadb", "MariaDB", 3306, if mariadb_found { "Detected" } else { "Not Found" }, "11.4.13", &p.mariadb_bin));
    rows.push(service_row("php", "PHP", 9000, if php_found { "Detected" } else { "Not Found" }, "8.5.10", &p.php_dir));
    rows.push(service_row("https", "HTTPS/TLS", 443, if tls_configured { "Configured" } else { "No Certificate" }, "TLS 1.2/1.3", &p.certs_dir));
    assert(rows@.map_values(|r: ServiceRow| row_view(r)) =~= service_table(
        *p,
        apache_found,
        mariadb_found,
        php_found,
        tls_configured,
    ));
    rows
}

/// One row of the port table: service, primary port, fallbacks as text.
pub struct PortRow {
    pub service: String,
    pub primary: u16,
    pub fallbacks: String,
}

pub open spec fn port_row_view(r: PortRow) -> (Seq<char>, u16, Seq<char>) {
    (r.service@, r.primary, r.fallbacks@)
}

pub open spec fn port_table() -> Seq<(Seq<char>, u16, Seq<char>)> {
    seq![
        ("http"@, 80u16, "8080, 8000, 8088"@),
        ("https"@, 443u16, "4433, 4443, 8443"@),
        ("mariadb"@, 3306u16, "3307, 3308, 3309"@),
        ("postgresql"@, 5432u16, "5433, 5434, 5435"@),
        ("redis"@, 6379u16, "6380, 6381, 6382"@),
    ]
}

fn port_row(service: &str, primary: u16, fallbacks: &str) -> (r: PortRow)
    ensures
        port_row_view(r) == (service@, primary, fallbacks@),
{
    PortRow { service: owned(service), primary, fallbacks: owned(fallbacks) }
}

/// The port table shown by the control interface agrees with the port
/// succession: each row's primary port is the first port tried for that
/// service, and the table lists exactly five services.
pub proof fn law_port_table_follows_succession()
    ensures
        port_table().len() == 5,
        forall|k: int|
            0 <= k < 5 ==> (ports_for(#[trigger] port_table()[k].0) matches Some(p) && p.len() > 0
                && p[0] == port_table()[k].1),
{
    law_documented_succession();
    assert forall|k: int| 0 <= k < 5 implies (ports_for(#[trigger] port_table()[k].0) matches Some(p)
        && p.len() > 0 && p[0] == port_table()[k].1) by {
        if k == 0 {
            assert(port_table()[0].0 == "http"@);
        } else if k == 1 {
            assert(port_table()[1].0 == "https"@);
        } else if k == 2 {
            assert(port_table()[2].0 == "mariadb"@);
        } else if k == 3 {
            assert(port_table()[3].0 == "postgresql"@);
        } else {
            assert(port_table()[4].0 == "redis"@);
        }
    }
}

/// The port table shown by the control interface.
pub fn init_ports() -> (rows: Vec<PortRow>)
    ensures
        rows@.map_values(|r: PortRow| port_row_view(r)) == port_table(),
{
    let mut rows: Vec<PortRow> = Vec::new();
    rows.push(port_row("http", 80, "8080, 8000, 8088"));
    rows.push(port_row("https", 443, "4433, 4443, 8443"));
    rows.push(port_row("mariadb", 3306, "3307, 3308, 3309"));
    rows.push(port_row("postgresql", 5432, "5433, 5434, 5435"));
    rows.push(port_row("redis", 6379, "6380, 6381, 6382"));
    assert(rows@.map_values(|r: PortRow| port_row_view(r)) =~= port_table());
    rows
}

/// A service the control interface can start and stop.
pub enum ControlTarget {
    Apache,
    MariaDb,
}

/// The service a control request names: `apache` or `mariadb`.
pub fn control_target(name: &str) -> (r: Option<ControlTarget>)
    ensures
        name@ == "apache"@ ==> r matches Some(ControlTarget::Apache),
        name@ == "mariadb"@ ==> r matches Some(ControlTarget::MariaDb),
        name@ != "apache"@ && name@ != "mariadb"@ ==> r is None,
{
    proof {
        reveal_strlit("apache");
        reveal_strlit("mariadb");
        assert("apache"@.len() == 6);
        assert("mariadb"@.len() == 7);
    }
    if same_text(name, "apache") {
        Some(ControlTarget::Apache)
    } else if same_text(name, "mariadb") {
        Some(ControlTarget::MariaDb)
    } else {
        None
    }
}

/// The command that starts `t`; it runs only when its program exists.
pub fn start_command(t: &ControlTarget) -> (p: CommandPlan)
    ensures
        match *t {
            ControlTarget::Apache => plan_view(p) == (
                seq!["apache"@, "bin"@, "httpd.exe"@],
                seq![ArgSpec::Text("-k"@), ArgSpec::Text("start"@)],
            ),
            ControlTarget::MariaDb => plan_view(p) == (
                seq!["mysql"@, "bin"@, "mysqld.exe"@],
                seq![ArgSpec::Text("--defaults-file"@), ArgSpec::Path(seq!["mysql"@, "my.ini"@])],
            ),
        },
{
    let mut args: Vec<Arg> = Vec::new();
    match t {
        ControlTarget::Apache => {
            args.push(Arg::Text("-k"));
            args.push(Arg::Text("start"));
            let plan = CommandPlan { program: path_of(&["apache", "bin", "httpd.exe"]), args };
            assert(plan_view(plan) =~~= (
                seq!["apache"@, "bin"@, "httpd.exe"@],
                seq![ArgSpec::Text("-k"@), ArgSpec::Text("start"@)],
            ));
            plan
        },
        ControlTarget::MariaDb => {
            args.push(Arg::Text("--defaults-file"));
            let ini = path_of(&["mysql", "my.ini"]);
            assert(path_view(ini) =~= seq!["mysql"@, "my.ini"@]);
            args.push(Arg::Path(ini));
            let plan = CommandPlan { program: path_of(&["mysql", "bin", "mysqld.exe"]), args };
            assert(plan_view(plan) =~~= (
                seq!["mysql"@, "bin"@, "mysqld.exe"@],
                seq![ArgSpec::Text("--defaults-file"@), ArgSpec::Path(seq!["mysql"@, "my.ini"@])],
            ));
            plan
        },
    }
}

/// The command that stops `t`; it runs only when its program exists.
pub fn stop_command(t: &ControlTarget) -> (p: CommandPlan)
    ensures
        match *t {
            ControlTarget::Apache => plan_view(p) == (
                seq!["apache"@, "bin"@, "httpd.exe"@],
                seq![ArgSpec::Text("-k"@), ArgSpec::Text("stop"@)],
            ),
            ControlTarget::MariaDb => plan_view(p) == (
                seq!["mysql"@, "bin"@, "mysql.exe"@],
                seq![
                    ArgSpec::Text("-u"@),
                    ArgSpec::Text("root"@),
                    ArgSpec::Text("--password="@),
                    ArgSpec::Text("-e"@),
                    ArgSpec::Text("SHUTDOWN;"@),
                ],
            ),
        },
{
    let mut args: Vec<Arg> = Vec::new();
    match t {
        ControlTarget::Apache => {
            args.push(Arg::Text("-k"));
            args.push(Arg::Text("stop"));
            let plan = CommandPlan { program: path_of(&["apache", "bin", "httpd.exe"]), args };
            assert(plan_view(plan) =~~= (
                seq!["apache"@, "bin"@, "httpd.exe"@],
                seq![ArgSpec::Text("-k"@), ArgSpec::Text("stop"@)],
            ));
            plan
        },
        ControlTarget::MariaDb => {
            args.push(Arg::Text("-u"));
            args.push(Arg::Text("root"));
            args.push(Arg::Text("--password="));
            args.push(Arg::Text("-e"));
            args.push(Arg::Text("SHUTDOWN;"));
            let plan = CommandPlan { program: path_of(&["mysql", "bin", "mysql.exe"]), args };
            assert(plan_view(plan) =~~= (
                seq!["mysql"@, "bin"@, "mysql.exe"@],
                seq![
                    ArgSpec::Text("-u"@),
                    ArgSpec::Text("root"@),
                    ArgSpec::Text("--password="@),
                    ArgSpec::Text("-e"@),
                    ArgSpec::Text("SHUTDOWN;"@),
                ],
            ));
            plan
        },
    }
}

/// The process image whose presence means `t` runs.
pub fn process_image(t: &ControlTarget) -> (r: &'static str)
    ensures
        match *t {
            ControlTarget::Apache => r@ == "httpd.exe"@,
            ControlTarget::MariaDb => r@ == "mysqld.exe"@,
        },
{
    match t {
        ControlTarget::Apache => "httpd.exe",
        ControlTarget::MariaDb => "mysqld.exe",
    }
}

/// A process named `exe_name` is among `names` (the image names of the
/// running processes), ignoring the case of ASCII letters.
pub fn process_listed(names: &Vec<String>, exe_name: &str) -> (b: bool)
    ensures
        b == exists|i: int| 0 <= i < names@.len() && same_ignoring_ascii_case(#[trigger] names@[i]@, exe_name@),
{
    for i in 0..names.len()
        invariant
            forall|j: int| 0 <= j < i ==> !same_ignoring_ascii_case(#[trigger] names@[j]@, exe_name@),
    {
        if eq_ignore_ascii_case(names[i].as_str(), exe_name) {
            return true;
        }
    }
    false
}

/// The directory holding the TLS certificate and key.
pub fn get_certs_dir(server_dir: &str) -> (r: String)
    ensures
        r@ == join_path(server_dir@, "certs"@),
{
    path_join(server_dir, "certs")
}

/// Total physical memory in whole MiB, from its size in bytes.
pub fn ram_mib(total_bytes: u64) -> (r: u64)
    ensures
        r == total_bytes / 1048576u64,
{
    total_bytes / 1048576u64
}

/// The file name of a project's generated virtual host.
pub fn vhost_file_name(name: &str) -> (r: String)
    ensures
        r@ == "boxedcat-"@ + name@ + ".conf"@,
{
    let mut r = owned("boxedcat-");
    r.append(name);
    r.append(".conf");
    r
}

/// Directories of the web root that are not projects: hidden ones and the
/// bundled `dashboard`, `img`, `css`, `js` and `webalizer`.
pub open spec fn skipped_dir(name: Seq<char>) -> bool {
    ||| (name.len() > 0 && name[0] == '.')
    ||| name == "dashboard"@
    ||| name == "img"@
    ||| name == "css"@
    ||| name == "js"@
    ||| name == "webalizer"@
}

/// The kind of a project: PHP with `composer.json`, else Node.js with
/// `package.json`, else PHP with `index.php`, else static with `index.html`,
/// else unknown.
pub open spec fn project_kind(has_composer: bool, has_package: bool, has_index_php: bool, has_index_html: bool) -> Seq<char> {
    if has_composer {
        "PHP"@
    } else if has_package {
        "Node.js"@
    } else if has_index_php {
        "PHP"@
    } else if has_index_html {
        "Static"@
    } else {
        "Unknown"@
    }
}

/// What is read of one entry of the web root.
pub struct ScanEntry {
    pub name: String,
    pub path: String,
    pub is_dir: bool,
    pub has_index_php: bool,
    pub has_index_html: bool,
    pub has_composer: bool,
    pub has_package: bool,
}

/// A project as the control interface lists it.
pub struct ProjectRow {
    pub name: String,
    pub path: String,
    pub server_name: String,
    pub has_entry_point: bool,
    pub project_type: String,
}

pub open spec fn project_row_view(r: ProjectRow) -> (Seq<char>, Seq<char>, Seq<char>, bool, Seq<char>) {
    (r.name@, r.path@, r.server_name@, r.has_entry_point, r.project_type@)
}

pub open spec fn scan_keep() -> spec_fn(ScanEntry) -> bool {
    |e: ScanEntry| e.is_dir && !skipped_dir(e.name@)
}

pub open spec fn scan_row(e: ScanEntry) -> (Seq<char>, Seq<char>, Seq<char>, bool, Seq<char>) {
    (
        e.name@,
        e.path@,
        e.name@ + ".test"@,
        e.has_index_php || e.has_index_html,
        project_kind(e.has_composer, e.has_package, e.has_index_php, e.has_index_html),
    )
}

pub open spec fn scan_conv() -> spec_fn(ScanEntry) -> (Seq<char>, Seq<char>, Seq<char>, bool, Seq<char>) {
    |e: ScanEntry| scan_row(e)
}

fn is_skipped_dir(name: &str) -> (b: bool)
    ensures
        b == skipped_dir(name@),
{
    let n = chars_of(name);
    (n.len() > 0 && n[0] == '.') || same_text(name, "dashboard") || same_text(name, "img")
        || same_text(name, "css") || same_text(name, "js") || same_text(name, "webalizer")
}

fn project_kind_text(has_composer: bool, has_package: bool, has_index_php: bool, has_index_html: bool) -> (r: &'static str)
    ensures
        r@ == project_kind(has_composer, has_package, has_index_php, has_index_html),
{
    if has_composer {
        "PHP"
    } else if has_package {
        "Node.js"
    } else if has_index_php {
        "PHP"
    } else if has_index_html {
        "Static"
    } else {
        "Unknown"
    }
}

/// The kind of a listed project: PHP when it has `composer.json`, or
/// `index.php` without `package.json` (whatever other entry files it has);
/// Node.js when it has `package.json` but no `composer.json`; Static when it
/// has only `index.html` of these; Unknown when it has none of them. It has
/// an entry point exactly when it has `index.php` or `index.html`.
pub proof fn law_project_kind(e: ScanEntry)
    ensures
        scan_row(e).4 == "PHP"@ <==> (e.has_composer || (!e.has_package && e.has_index_php)),
        scan_row(e).4 == "Node.js"@ <==> (!e.has_composer && e.has_package),
        scan_row(e).4 == "Static"@ <==> (!e.has_composer && !e.has_package && !e.has_index_php
            && e.has_index_html),
        scan_row(e).4 == "Unknown"@ <==> (!e.has_composer && !e.has_package && !e.has_index_php
            && !e.has_index_html),
        scan_row(e).3 == (e.has_index_php || e.has_index_html),
        scan_row(e).2 == e.name@ + ".test"@,
{
    reveal_strlit("PHP");
    reveal_strlit("Node.js");
    reveal_strlit("Static");
    reveal_strlit("Unknown");
    assert("PHP"@.len() == 3);
    assert("Node.js"@.len() == 7);
    assert("Static"@.len() == 6);
    assert("Unknown"@.len() == 7);
    assert("Node.js"@[0] != "Unknown"@[0]);
}

/// The projects of the web root as the control interface lists them, in
/// directory order.
pub fn scan_projects(entries: &Vec<ScanEntry>) -> (rows: Vec<ProjectRow>)
    ensures
        rows@.map_values(|r: ProjectRow| project_row_view(r)) == entries@.filter(scan_keep()).map_values(
            scan_conv(),
        ),
{
    let mut rows: Vec<ProjectRow> = Vec::new();
    proof {
        reveal(Seq::filter);
        assert(entries@.take(0).filter(scan_keep()) =~= Seq::<ScanEntry>::empty());
        assert(rows@.map_values(|r: ProjectRow| project_row_view(r)) =~= entries@.take(0).filter(
            scan_keep(),
        ).map_values(scan_conv()));
    }
    for i in 0..entries.len()
        invariant
            rows@.map_values(|r: ProjectRow| project_row_view(r)) == entries@.take(i as int).filter(
                scan_keep(),
            ).map_values(scan_conv()),
    {
        proof {
            reveal(Seq::filter);
            assert(entries@.take(i + 1).drop_last() == entries@.take(i as int));
        }
        let e = &entries[i];
        let ghost before = rows@;
        if e.is_dir && !is_skipped_dir(e.name.as_str()) {
            let mut server = owned(e.name.as_str());
            server.append(".test");
            let row = ProjectRow {
                name: owned(e.name.as_str()),
                path: owned(e.path.as_str()),
                server_name: server,
                has_entry_point: e.has_index_php || e.has_index_html,
                project_type: owned(project_kind_text(e.has_composer, e.has_package, e.has_index_php, e.has_index_html)),
            };
            rows.push(row);
            assert(rows@.map_values(|r: ProjectRow| project_row_view(r)) =~= before.map_values(
                |r: ProjectRow| project_row_view(r),
            ).push(scan_row(entries@[i as int])));
        }
        assert(rows@.map_values(|r: ProjectRow| project_row_view(r)) =~= entries@.take(i + 1).filter(
            scan_keep(),
        ).map_values(scan_conv()));
    }
    assert(entries@.take(entries.len() as int) == entries@);
    rows
}

} // verus!
