//! Virtual-host configuration for Apache and Nginx, and the project list of
//! the web root.

use vstd::prelude::*;

use crate::text::{chars_of, decimal, push_chars, push_decimal, starts_with, string_of};

verus! {

/// The text with every backslash turned into a forward slash.
pub open spec fn forward_slashes(s: Seq<char>) -> Seq<char> {
    s.map_values(|c: char| if c == '\\' { '/' } else { c })
}

pub(crate) fn replace_backslashes(s: &str) -> (r: Vec<char>)
    ensures
        r@ == forward_slashes(s@),
{
    let chars = chars_of(s);
    let mut r: Vec<char> = Vec::new();
    for i in 0..chars.len()
        invariant
            chars@ == s@,
            r@ == forward_slashes(s@).take(i as int),
    {
        let c = chars[i];
        r.push(if c == '\\' { '/' } else { c });
        assert(forward_slashes(s@).take(i + 1) =~= forward_slashes(s@).take(i as int).push(
            if c == '\\' { '/' } else { c },
        ));
    }
    assert(forward_slashes(s@).take(chars.len() as int) =~= forward_slashes(s@));
    r
}

/// The apache configuration text for a project: a virtual host on `port`
/// serving `root`, logging to `logs/<project>-…`, and with `ssl` a second one
/// on `ssl_port` using `conf/ssl/<project>.crt` and `.key`.
pub open spec fn apache_vhost_text(project_name: &str, root: Seq<char>, server_name: &str, port: u16, ssl_port: u16, ssl: bool) -> Seq<char> {
    ("# BoxedCat auto-generated vhost: "@ +
        project_name@ +
        "\n<VirtualHost *:"@ +
        decimal(port as nat) +
        ">\n    ServerName "@ +
        server_name@ +
        "\n    DocumentRoot \""@ +
        root +
        "\"\n\n    <Directory \""@ +
        root +
        "\">\n        Options Indexes FollowSymLinks MultiViews\n        AllowOverride All\n        Require all granted\n    </Directory>\n\n    ErrorLog \"logs/"@ +
        project_name@ +
        "-error.log\"\n    CustomLog \"logs/"@ +
        project_name@ +
        "-access.log\" common\n</VirtualHost>\n"@) + if ssl {
        "\n<VirtualHost *:"@ +
            decimal(ssl_port as nat) +
            ">\n    ServerName "@ +
            server_name@ +
            "\n    DocumentRoot \""@ +
            root +
            "\"\n\n    SSLEngine on\n    SSLCertificateFile \"conf/ssl/"@ +
            project_name@ +
            ".crt\"\n    SSLCertificateKeyFile \"conf/ssl/"@ +
            project_name@ +
            ".key\"\n\n    <Directory \""@ +
            root +
            "\">\n        Options Indexes FollowSymLinks MultiViews\n        AllowOverride All\n        Require all granted\n    </Directory>\n\n    ErrorLog \"logs/"@ +
            project_name@ +
            "-ssl-error.log\"\n    CustomLog \"logs/"@ +
            project_name@ +
            "-ssl-access.log\" common\n</VirtualHost>\n"@
    } else {
        Seq::empty()
    }
}

/// Generates the Apache virtual-host configuration for a project; backslashes in `document_root` become forward slashes.
pub fn generate_apache_vhost(
    project_name: &str,
    document_root: &str,
    server_name: &str,
    port: u16,
    ssl_port: u16,
    ssl_enabled: bool,
) -> (vhost: String)
    ensures
        vhost@ == apache_vhost_text(project_name, forward_slashes(document_root@), server_name, port, ssl_port, ssl_enabled),
{
    let root_chars = replace_backslashes(document_root);
    let ghost root = root_chars@;
    let mut out = String::new();
    out.append("# BoxedCat auto-generated vhost: ");
    out.append(project_name);
    out.append("\n<VirtualHost *:");
    push_decimal(&mut out, port as u64);
    out.append(">\n    ServerName ");
    out.append(server_name);
    out.append("\n    DocumentRoot \"");
    push_chars(&mut out, root_chars.as_slice());
    out.append("\"\n\n    <Directory \"");
    push_chars(&mut out, root_chars.as_slice());
    out.append("\">\n        Options Indexes FollowSymLinks MultiViews\n        AllowOverride All\n        Require all granted\n    </Directory>\n\n    ErrorLog \"logs/");
    out.append(project_name);
    out.append("-error.log\"\n    CustomLog \"logs/");
    out.append(project_name);
    out.append("-access.log\" common\n</VirtualHost>\n");
    assert(out@ =~= ("# BoxedCat auto-generated vhost: "@ +
        project_name@ +
        "\n<VirtualHost *:"@ +
        decimal(port as nat) +
        ">\n    ServerName "@ +
        server_name@ +
        "\n    DocumentRoot \""@ +
        root +
        "\"\n\n    <Directory \""@ +
        root +
        "\">\n        Options Indexes FollowSymLinks MultiViews\n        AllowOverride All\n        Require all granted\n    </Directory>\n\n    ErrorLog \"logs/"@ +
        project_name@ +
        "-error.log\"\n    CustomLog \"logs/"@ +
        project_name@ +
        "-access.log\" common\n</VirtualHost>\n"@));
    let ghost base_text = out@;
    if ssl_enabled {
        out.append("\n<VirtualHost *:");
        push_decimal(&mut out, ssl_port as u64);
        out.append(">\n    ServerName ");
        out.append(server_name);
        out.append("\n    DocumentRoot \"");
        push_chars(&mut out, root_chars.as_slice());
        out.append("\"\n\n    SSLEngine on\n    SSLCertificateFile \"conf/ssl/");
        out.append(project_name);
        out.append(".crt\"\n    SSLCertificateKeyFile \"conf/ssl/");
        out.append(project_name);
        out.append(".key\"\n\n    <Directory \"");
        push_chars(&mut out, root_chars.as_slice());
        out.append("\">\n        Options Indexes FollowSymLinks MultiViews\n        AllowOverride All\n        Require all granted\n    </Directory>\n\n    ErrorLog \"logs/");
        out.append(project_name);
        out.append("-ssl-error.log\"\n    CustomLog \"logs/");
        out.append(project_name);
        out.append("-ssl-access.log\" common\n</VirtualHost>\n");
        assert(out@ =~= base_text + ("\n<VirtualHost *:"@ +
            decimal(ssl_port as nat) +
            ">\n    ServerName "@ +
            server_name@ +
            "\n    DocumentRoot \""@ +
            root +
            "\"\n\n    SSLEngine on\n    SSLCertificateFile \"conf/ssl/"@ +
            project_name@ +
            ".crt\"\n    SSLCertificateKeyFile \"conf/ssl/"@ +
            project_name@ +
            ".key\"\n\n    <Directory \""@ +
            root +
            "\">\n        Options Indexes FollowSymLinks MultiViews\n        AllowOverride All\n        Require all granted\n    </Directory>\n\n    ErrorLog \"logs/"@ +
            project_name@ +
            "-ssl-error.log\"\n    CustomLog \"logs/"@ +
            project_name@ +
            "-ssl-access.log\" common\n</VirtualHost>\n"@));
    }
    out
}

/// The nginx configuration text for a project: a virtual host on `port`
/// serving `root`, logging to `logs/<project>-…`, and with `ssl` a second one
/// on `ssl_port` using `conf/ssl/<project>.crt` and `.key`.
pub open spec fn nginx_vhost_text(project_name: &str, root: Seq<char>, server_name: &str, port: u16, ssl_port: u16, ssl: bool) -> Seq<char> {
    ("# BoxedCat auto-generated vhost: "@ +
        project_name@ +
        "\nserver {\n    listen "@ +
        decimal(port as nat) +
        ";\n    server_name "@ +
        server_name@ +
        ";\n    root "@ +
        root +
        ";\n\n    location / {\n        try_files $uri $uri/ =404;\n        index index.php index.html index.htm;\n    }\n\n    location ~ \\.php$ {\n        fastcgi_pass 127.0.0.1:9000;\n        fastcgi_index index.php;\n        fastcgi_param SCRIPT_FILENAME $document_root$fastcgi_script_name;\n        include fastcgi_params;\n    }\n\n    access_log logs/"@ +
        project_name@ +
        "-access.log;\n    error_log logs/"@ +
        project_name@ +
        "-error.log;\n}\n"@) + if ssl {
        "\nserver {\n    listen "@ +
            decimal(ssl_port as nat) +
            " ssl;\n    server_name "@ +
            server_name@ +
            ";\n    root "@ +
            root +
            ";\n\n    ssl_certificate conf/ssl/"@ +
            project_name@ +
            ".crt;\n    ssl_certificate_key conf/ssl/"@ +
            project_name@ +
            ".key;\n\n    location / {\n        try_files $uri $uri/ =404;\n        index index.php index.html index.htm;\n    }\n\n    access_log logs/"@ +
            project_name@ +
            "-ssl-access.log;\n    error_log logs/"@ +
            project_name@ +
            "-ssl-error.log;\n}\n"@
    } else {
        Seq::empty()
    }
}

/// Generates the Nginx server-block configuration for a project; backslashes in `document_root` become forward slashes.
pub fn generate_nginx_vhost(
    project_name: &str,
    document_root: &str,
    server_name: &str,
    port: u16,
    ssl_port: u16,
    ssl_enabled: bool,
) -> (vhost: String)
    ensures
        vhost@ == nginx_vhost_text(project_name, forward_slashes(document_root@), server_name, port, ssl_port, ssl_enabled),
{
    let root_chars = replace_backslashes(document_root);
    let ghost root = root_chars@;
    let mut out = String::new();
    out.append("# BoxedCat auto-generated vhost: ");
    out.append(project_name);
    out.append("\nserver {\n    listen ");
    push_decimal(&mut out, port as u64);
    out.append(";\n    server_name ");
    out.append(server_name);
    out.append(";\n    root ");
    push_chars(&mut out, root_chars.as_slice());
    out.append(";\n\n    location / {\n        try_files $uri $uri/ =404;\n        index index.php index.html index.htm;\n    }\n\n    location ~ \\.php$ {\n        fastcgi_pass 127.0.0.1:9000;\n        fastcgi_index index.php;\n        fastcgi_param SCRIPT_FILENAME $document_root$fastcgi_script_name;\n        include fastcgi_params;\n    }\n\n    access_log logs/");
    out.append(project_name);
    out.append("-access.log;\n    error_log logs/");
    out.append(project_name);
    out.append("-error.log;\n}\n");
    assert(out@ =~= ("# BoxedCat auto-generated vhost: "@ +
        project_name@ +
        "\nserver {\n    listen "@ +
        decimal(port as nat) +
        ";\n    server_name "@ +
        server_name@ +
        ";\n    root "@ +
        root +
        ";\n\n    location / {\n        try_files $uri $uri/ =404;\n        index index.php index.html index.htm;\n    }\n\n    location ~ \\.php$ {\n        fastcgi_pass 127.0.0.1:9000;\n        fastcgi_index index.php;\n        fastcgi_param SCRIPT_FILENAME $document_root$fastcgi_script_name;\n        include fastcgi_params;\n    }\n\n    access_log logs/"@ +
        project_name@ +
        "-access.log;\n    error_log logs/"@ +
        project_name@ +
        "-error.log;\n}\n"@));
    let ghost base_text = out@;
    if ssl_enabled {
        out.append("\nserver {\n    listen ");
        push_decimal(&mut out, ssl_port as u64);
        out.append(" ssl;\n    server_name ");
        out.append(server_name);
        out.append(";\n    root ");
        push_chars(&mut out, root_chars.as_slice());
        out.append(";\n\n    ssl_certificate conf/ssl/");
        out.append(project_name);
        out.append(".crt;\n    ssl_certificate_key conf/ssl/");
        out.append(project_name);
        out.append(".key;\n\n    location / {\n        try_files $uri $uri/ =404;\n        index index.php index.html index.htm;\n    }\n\n    access_log logs/");
        out.append(project_name);
        out.append("-ssl-access.log;\n    error_log logs/");
        out.append(project_name);
        out.append("-ssl-error.log;\n}\n");
        assert(out@ =~= base_text + ("\nserver {\n    listen "@ +
            decimal(ssl_port as nat) +
            " ssl;\n    server_name "@ +
            server_name@ +
            ";\n    root "@ +
            root +
            ";\n\n    ssl_certificate conf/ssl/"@ +
            project_name@ +
            ".crt;\n    ssl_certificate_key conf/ssl/"@ +
            project_name@ +
            ".key;\n\n    location / {\n        try_files $uri $uri/ =404;\n        index index.php index.html index.htm;\n    }\n\n    access_log logs/"@ +
            project_name@ +
            "-ssl-access.log;\n    error_log logs/"@ +
            project_name@ +
            "-ssl-error.log;\n}\n"@));
    }
    out
}


/// Turning SSL on keeps the plain virtual host as it is and adds a second
/// one after it, for Apache and for Nginx alike.
pub proof fn law_ssl_adds_a_second_host(
    project_name: &str,
    root: Seq<char>,
    server_name: &str,
    port: u16,
    ssl_port: u16,
)
    ensures
        apache_vhost_text(project_name, root, server_name, port, ssl_port, false).is_prefix_of(
            apache_vhost_text(project_name, root, server_name, port, ssl_port, true),
        ),
        nginx_vhost_text(project_name, root, server_name, port, ssl_port, false).is_prefix_of(
            nginx_vhost_text(project_name, root, server_name, port, ssl_port, true),
        ),
{
    let a0 = apache_vhost_text(project_name, root, server_name, port, ssl_port, false);
    let a1 = apache_vhost_text(project_name, root, server_name, port, ssl_port, true);
    assert(a1.subrange(0, a0.len() as int) =~= a0);
    let n0 = nginx_vhost_text(project_name, root, server_name, port, ssl_port, false);
    let n1 = nginx_vhost_text(project_name, root, server_name, port, ssl_port, true);
    assert(n1.subrange(0, n0.len() as int) =~= n0);
}

/// A project directory under the web root.
pub struct ProjectInfo {
    pub name: String,
    pub path: String,
    /// One of the usual entry files is there.
    pub has_index: bool,
    /// `<name>.test`.
    pub server_name: String,
}

/// What is read of one entry of the web root.
pub struct ProjectEntry {
    pub name: String,
    pub path: String,
    pub is_dir: bool,
    /// `index.php`, `index.html`, `index.htm`, `app.py` or `main.ts` is in it.
    pub has_index: bool,
}

/// `a` comes before `b` or equals it, comparing characters in order.
pub open spec fn lex_le(a: Seq<char>, b: Seq<char>) -> bool
    decreases a.len(),
{
    if a.len() == 0 {
        true
    } else if b.len() == 0 {
        false
    } else if a[0] != b[0] {
        a[0] < b[0]
    } else {
        lex_le(a.drop_first(), b.drop_first())
    }
}

pub proof fn lemma_lex_total(a: Seq<char>, b: Seq<char>)
    ensures
        lex_le(a, b) || lex_le(b, a),
    decreases a.len(),
{
    if a.len() > 0 && b.len() > 0 && a[0] == b[0] {
        lemma_lex_total(a.drop_first(), b.drop_first());
    }
}

pub proof fn lemma_lex_trans(a: Seq<char>, b: Seq<char>, c: Seq<char>)
    requires
        lex_le(a, b),
        lex_le(b, c),
    ensures
        lex_le(a, c),
    decreases a.len(),
{
    if a.len() > 0 && b.len() > 0 && c.len() > 0 && a[0] == b[0] && b[0] == c[0] {
        lemma_lex_trans(a.drop_first(), b.drop_first(), c.drop_first());
    }
}

fn lex_le_exec(a: &[char], b: &[char]) -> (r: bool)
    ensures
        r == lex_le(a@, b@),
{
    let mut i: usize = 0;
    assert(a@.skip(0) == a@);
    assert(b@.skip(0) == b@);
    while i < a.len() && i < b.len() && a[i] == b[i]
        invariant
            i <= a.len(),
            i <= b.len(),
            lex_le(a@, b@) == lex_le(a@.skip(i as int), b@.skip(i as int)),
        decreases a.len() - i,
    {
        assert(a@.skip(i as int).drop_first() == a@.skip(i + 1));
        assert(b@.skip(i as int).drop_first() == b@.skip(i + 1));
        i = i + 1;
    }
    if i == a.len() {
        return true;
    }
    if i == b.len() {
        return false;
    }
    assert(a@.skip(i as int)[0] == a@[i as int]);
    assert(b@.skip(i as int)[0] == b@[i as int]);
    a[i] < b[i]
}

/// A project as plain values: name, path, has an entry file, server name.
pub open spec fn info_view(p: ProjectInfo) -> (Seq<char>, Seq<char>, bool, Seq<char>) {
    (p.name@, p.path@, p.has_index, p.server_name@)
}

/// An entry is a project when it is a directory whose name does not start
/// with a dot.
pub open spec fn is_project_entry(e: ProjectEntry) -> bool {
    e.is_dir && !(e.name@.len() > 0 && e.name@[0] == '.')
}

pub open spec fn project_of(e: ProjectEntry) -> (Seq<char>, Seq<char>, bool, Seq<char>) {
    (e.name@, e.path@, e.has_index, e.name@ + ".test"@)
}

pub open spec fn project_filter() -> spec_fn(ProjectEntry) -> bool {
    |e: ProjectEntry| is_project_entry(e)
}

pub open spec fn project_conv() -> spec_fn(ProjectEntry) -> (Seq<char>, Seq<char>, bool, Seq<char>) {
    |e: ProjectEntry| project_of(e)
}

/// The projects among `entries`, in their order.
pub open spec fn listed_projects(entries: Seq<ProjectEntry>) -> Seq<(Seq<char>, Seq<char>, bool, Seq<char>)> {
    entries.filter(project_filter()).map_values(project_conv())
}

/// Sorted by name.
pub open spec fn sorted_by_name(v: Seq<(Seq<char>, Seq<char>, bool, Seq<char>)>) -> bool {
    forall|i: int, j: int| 0 <= i < j < v.len() ==> lex_le(v[i].0, v[j].0)
}

/// Where `x` goes among the name-sorted `v`: before the first element whose
/// name does not come before `x`'s or equal it, so after any equal names.
pub open spec fn insert_pos(
    v: Seq<(Seq<char>, Seq<char>, bool, Seq<char>)>,
    x: (Seq<char>, Seq<char>, bool, Seq<char>),
) -> int
    decreases v.len(),
{
    if v.len() == 0 {
        0
    } else if lex_le(v[0].0, x.0) {
        1 + insert_pos(v.drop_first(), x)
    } else {
        0
    }
}

/// `s` sorted by name by inserting its elements one after another; elements
/// with equal names keep their order.
pub open spec fn sorted_by_insertion(s: Seq<(Seq<char>, Seq<char>, bool, Seq<char>)>) -> Seq<
    (Seq<char>, Seq<char>, bool, Seq<char>),
>
    decreases s.len(),
{
    if s.len() == 0 {
        Seq::empty()
    } else {
        let v = sorted_by_insertion(s.drop_last());
        v.insert(insert_pos(v, s.last()), s.last())
    }
}

proof fn lemma_insert_pos(
    v: Seq<(Seq<char>, Seq<char>, bool, Seq<char>)>,
    j: int,
    x: (Seq<char>, Seq<char>, bool, Seq<char>),
)
    requires
        0 <= j <= v.len(),
        forall|k: int| 0 <= k < j ==> lex_le(v[k].0, x.0),
        j < v.len() ==> !lex_le(v[j].0, x.0),
    ensures
        insert_pos(v, x) == j,
    decreases j,
{
    if j > 0 {
        assert forall|k: int| 0 <= k < j - 1 implies lex_le(v.drop_first()[k].0, x.0) by {
            assert(v.drop_first()[k] == v[k + 1]);
        }
        if j < v.len() {
            assert(v.drop_first()[j - 1] == v[j]);
        }
        lemma_insert_pos(v.drop_first(), j - 1, x);
    }
}

proof fn lemma_insert_sorted(
    v: Seq<(Seq<char>, Seq<char>, bool, Seq<char>)>,
    j: int,
    x: (Seq<char>, Seq<char>, bool, Seq<char>),
)
    requires
        sorted_by_name(v),
        0 <= j <= v.len(),
        forall|k: int| 0 <= k < j ==> lex_le(v[k].0, x.0),
        j < v.len() ==> !lex_le(v[j].0, x.0),
    ensures
        sorted_by_name(v.insert(j, x)),
{
    let w = v.insert(j, x);
    if j < v.len() {
        lemma_lex_total(v[j].0, x.0);
    }
    assert forall|p: int, q: int| 0 <= p < q < w.len() implies lex_le(w[p].0, w[q].0) by {
        if q < j {
        } else if q == j {
        } else if p < j {
        } else if p == j {
            if q - 1 > j {
                lemma_lex_trans(x.0, v[j].0, v[q - 1].0);
            }
        } else {
        }
    }
}

/// The projects of the web root: its directories whose names do not start
/// with a dot, each with server name `<name>.test`, sorted by name (a stable
/// sort: equal names keep the order of `entries`).
pub fn discover_projects(entries: Vec<ProjectEntry>) -> (projects: Vec<ProjectInfo>)
    ensures
        projects@.map_values(|p: ProjectInfo| info_view(p)) == sorted_by_insertion(
            listed_projects(entries@),
        ),
        projects@.map_values(|p: ProjectInfo| info_view(p)).to_multiset() == listed_projects(
            entries@,
        ).to_multiset(),
        sorted_by_name(projects@.map_values(|p: ProjectInfo| info_view(p))),
{
    let mut projects: Vec<ProjectInfo> = Vec::new();
    let mut names: Vec<Vec<char>> = Vec::new();
    let test = chars_of(".test");
    let mut i: usize = 0;
    proof {
        reveal(Seq::filter);
        assert(entries@.take(0).filter(project_filter()) =~= Seq::<ProjectEntry>::empty());
        assert(projects@.map_values(|p: ProjectInfo| info_view(p)) =~= Seq::empty());
        assert(entries@.take(0).filter(project_filter()).map_values(project_conv()) =~= Seq::empty());
    }
    while i < entries.len()
        invariant
            i <= entries.len(),
            test@ == ".test"@,
            names@.len() == projects@.len(),
            forall|k: int| 0 <= k < names@.len() ==> (#[trigger] names@[k])@ == projects@[k].name@,
            projects@.map_values(|p: ProjectInfo| info_view(p)).to_multiset() == entries@.take(
                i as int,
            ).filter(project_filter()).map_values(project_conv()).to_multiset(),
            sorted_by_name(projects@.map_values(|p: ProjectInfo| info_view(p))),
            projects@.map_values(|p: ProjectInfo| info_view(p)) == sorted_by_insertion(
                entries@.take(i as int).filter(project_filter()).map_values(project_conv()),
            ),
        decreases entries.len() - i,
    {
        proof {
            reveal(Seq::filter);
            assert(entries@.take(i + 1).drop_last() == entries@.take(i as int));
        }
        let e = &entries[i];
        let name = chars_of(e.name.as_str());
        let hidden = name.len() > 0 && name[0] == '.';
        if e.is_dir && !hidden {
            let mut server = name.clone();
            let mut k: usize = 0;
            while k < test.len()
                invariant
                    k <= test.len(),
                    server@ == name@ + test@.take(k as int),
                decreases test.len() - k,
            {
                server.push(test[k]);
                assert(test@.take(k + 1) == test@.take(k as int).push(test@[k as int]));
                k = k + 1;
            }
            assert(test@.take(test@.len() as int) == test@);
            let info = ProjectInfo {
                name: string_of(name.as_slice()),
                path: string_of(chars_of(e.path.as_str()).as_slice()),
                has_index: e.has_index,
                server_name: string_of(server.as_slice()),
            };
            assert(info_view(info) == project_of(entries@[i as int]));
            let mut j: usize = 0;
            while j < projects.len() && lex_le_exec(names[j].as_slice(), name.as_slice())
                invariant
                    j <= projects@.len(),
                    names@.len() == projects@.len(),
                    forall|k: int| 0 <= k < names@.len() ==> (#[trigger] names@[k])@ == projects@[k].name@,
                    forall|k: int| 0 <= k < j ==> lex_le(projects@[k].name@, name@),
                decreases projects@.len() - j,
            {
                j = j + 1;
            }
            let ghost before = projects@.map_values(|p: ProjectInfo| info_view(p));
            proof {
                lemma_insert_pos(before, j as int, info_view(info));
                lemma_insert_sorted(before, j as int, info_view(info));
                vstd::seq_lib::to_multiset_insert(before, j as int, info_view(info));
            }
            let ghost old_names = names@;
            let ghost old_projects = projects@;
            let ghost name_v = name@;
            assert(info.name@ == name_v);
            projects.insert(j, info);
            names.insert(j, name);
            assert(projects@.map_values(|p: ProjectInfo| info_view(p)) =~= before.insert(
                j as int,
                info_view(info),
            ));
            assert(entries@.take(i + 1).filter(project_filter()).map_values(project_conv()) =~= entries@.take(
                i as int,
            ).filter(project_filter()).map_values(project_conv()).push(project_of(entries@[i as int])));
            proof {
                let si = entries@.take(i as int).filter(project_filter()).map_values(project_conv());
                let sn = si.push(project_of(entries@[i as int]));
                assert(sn.drop_last() =~= si);
                assert(sorted_by_insertion(sn) == before.insert(j as int, info_view(info)));
                vstd::seq_lib::to_multiset_build(
                    entries@.take(i as int).filter(project_filter()).map_values(project_conv()),
                    project_of(entries@[i as int]),
                );
            }
            assert forall|k: int| 0 <= k < names@.len() implies (#[trigger] names@[k])@
                == projects@[k].name@ by {
                if k > j {
                    assert(names@[k] == old_names[k - 1]);
                    assert(projects@[k] == old_projects[k - 1]);
                } else if k < j {
                    assert(names@[k] == old_names[k]);
                    assert(projects@[k] == old_projects[k]);
                }
            }
        } else {
            assert(entries@.take(i + 1).filter(project_filter()) == entries@.take(i as int).filter(project_filter()));
        }
        i = i + 1;
    }
    assert(entries@.take(entries.len() as int) == entries@);
    projects
}

} // verus!
